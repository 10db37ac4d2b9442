//! The stack-based allocator of physical frames.
use vstd::prelude::*;

use crate::config::{MEMORY_END, PAGE_SIZE};
use crate::mm::address::{page_above, page_below, pa_limit, PhysAddr, PhysPageNum};

verus! {

/// The state of a frame allocator, as plain values.
pub struct FrameAllocatorModel {
    /// Next frame never handed out before.
    pub current: nat,
    /// One past the last frame that may be handed out.
    pub end: nat,
    /// Frames given back, the last one first to be handed out again.
    pub recycled: Seq<usize>,
}

impl FrameAllocatorModel {
    /// Frames that `alloc` may still hand out.
    pub open spec fn free(self) -> Set<nat> {
        Set::new(|p: nat| self.recycled.contains(p as usize) && p <= usize::MAX || self.current <= p < self.end)
    }

    /// Given-back frames are distinct and all were handed out before.
    pub open spec fn wf(self) -> bool {
        &&& self.recycled.no_duplicates()
        &&& forall|i: int| 0 <= i < self.recycled.len() ==> #[trigger] self.recycled[i] < self.current
        &&& self.current <= usize::MAX
        &&& self.end <= usize::MAX
    }

    /// Whether `ppn` may be given back: it was handed out and is not back yet.
    pub open spec fn may_dealloc(self, ppn: usize) -> bool {
        ppn < self.current && !self.recycled.contains(ppn)
    }

    /// What `alloc` hands out.
    pub open spec fn alloc_result(self) -> Option<usize> {
        if self.recycled.len() > 0 {
            Some(self.recycled.last())
        } else if self.current < self.end {
            Some(self.current as usize)
        } else {
            None
        }
    }

    /// The state after `alloc`.
    pub open spec fn after_alloc(self) -> FrameAllocatorModel {
        if self.recycled.len() > 0 {
            FrameAllocatorModel { recycled: self.recycled.drop_last(), ..self }
        } else if self.current < self.end {
            FrameAllocatorModel { current: self.current + 1, ..self }
        } else {
            self
        }
    }

    /// The state after `dealloc(ppn)`.
    pub open spec fn after_dealloc(self, ppn: usize) -> FrameAllocatorModel {
        FrameAllocatorModel { recycled: self.recycled.push(ppn), ..self }
    }
}

/// Hands out physical frames: given-back frames first, last in first out,
/// then fresh frames from `current` up to `end`.
pub struct StackFrameAllocator {
    current: usize,
    end: usize,
    recycled: Vec<usize>,
}

impl View for StackFrameAllocator {
    type V = FrameAllocatorModel;

    closed spec fn view(&self) -> FrameAllocatorModel {
        FrameAllocatorModel {
            current: self.current as nat,
            end: self.end as nat,
            recycled: self.recycled@,
        }
    }
}

impl StackFrameAllocator {
    /// An allocator with nothing to hand out.
    pub fn new() -> (a: Self)
        ensures
            a@.current == 0,
            a@.end == 0,
            a@.recycled == Seq::<usize>::empty(),
            a@.wf(),
    {
        Self { current: 0, end: 0, recycled: Vec::new() }
    }

    /// Sets the range `[l, r)` of fresh frames.
    pub fn init(&mut self, l: PhysPageNum, r: PhysPageNum)
        ensures
            final(self)@.current == l.0,
            final(self)@.end == r.0,
            final(self)@.recycled == old(self)@.recycled,
            old(self)@.recycled.len() == 0 ==> final(self)@.wf(),
            old(self)@.wf() && (forall|i: int| 0 <= i < old(self)@.recycled.len() ==> #[trigger] old(self)@.recycled[i]
                < l.0) ==> final(self)@.wf(),
    {
        self.current = l.0;
        self.end = r.0;
    }

    /// Hands out a frame, or `None` when none is left.
    pub fn allocate(&mut self) -> (r: Option<PhysPageNum>)
        requires
            old(self)@.wf(),
        ensures
            final(self)@ == old(self)@.after_alloc(),
            final(self)@.wf(),
            match r {
                Some(p) => old(self)@.alloc_result() == Some(p.0),
                None => old(self)@.alloc_result().is_none(),
            },
    {
        if let Some(ppn) = self.recycled.pop() {
            proof {
                assert(self.recycled@ =~= old(self)@.recycled.drop_last());
            }
            Some(PhysPageNum(ppn))
        } else if self.current < self.end {
            let ppn = PhysPageNum(self.current);
            self.current = self.current + 1;
            Some(ppn)
        } else {
            None
        }
    }

    /// Whether `ppn` was handed out and is not back yet.
    pub fn is_allocated(&self, ppn: PhysPageNum) -> (r: bool)
        ensures
            r == self@.may_dealloc(ppn.0),
    {
        if ppn.0 >= self.current {
            return false;
        }
        let mut i: usize = 0;
        while i < self.recycled.len()
            invariant
                i <= self.recycled@.len(),
                forall|j: int| 0 <= j < i ==> self.recycled@[j] != ppn.0,
            decreases self.recycled@.len() - i,
        {
            if self.recycled[i] == ppn.0 {
                return false;
            }
            i = i + 1;
        }
        true
    }

    /// Gives back a frame that was handed out and is not back yet.
    pub fn dealloc(&mut self, ppn: PhysPageNum)
        requires
            old(self)@.wf(),
            old(self)@.may_dealloc(ppn.0),
        ensures
            final(self)@ == old(self)@.after_dealloc(ppn.0),
            final(self)@.wf(),
    {
        let ppn = ppn.0;
        self.recycled.push(ppn);
        proof {
            let s = self.recycled@;
            assert(s.no_duplicates()) by {
                assert forall|i: int, j: int| 0 <= i < s.len() && 0 <= j < s.len() && i != j implies s[i] != s[j] by {
                    if i == s.len() - 1 {
                        assert(old(self)@.recycled.contains(s[j]) ==> s[j] != ppn);
                        assert(s[j] == old(self)@.recycled[j]);
                    } else if j == s.len() - 1 {
                        assert(s[i] == old(self)@.recycled[i]);
                    }
                }
            }
        }
    }
}

/// Points the allocator at the frames between the end of the kernel image,
/// rounded up to a page, and the end of memory, rounded down.
pub fn init_frame_allocator(allocator: &mut StackFrameAllocator, ekernel: usize)
    requires
        ekernel as int % pa_limit() as int + PAGE_SIZE <= usize::MAX,
    ensures
        final(allocator)@.current == page_above((ekernel as int % pa_limit() as int) as usize),
        final(allocator)@.end == page_below((MEMORY_END as int % pa_limit() as int) as usize),
        final(allocator)@.recycled == old(allocator)@.recycled,
{
    let l = PhysAddr::from(ekernel).ceil();
    let r = PhysAddr::from(MEMORY_END).floor();
    allocator.init(l, r);
}

/// An allocated frame, known by its number.
pub struct FrameTracker {
    pub ppn: PhysPageNum,
}

impl FrameTracker {
    /// Takes ownership of frame `ppn`, clearing `page`, the frame's bytes.
    pub fn new(ppn: PhysPageNum, page: &mut [u8]) -> (t: Self)
        ensures
            t.ppn == ppn,
            final(page)@.len() == old(page)@.len(),
            forall|i: int| 0 <= i < final(page)@.len() ==> #[trigger] final(page)@[i] == 0u8,
    {
        let n = page.len();
        let mut i: usize = 0;
        while i < n
            invariant
                n == page@.len(),
                page@.len() == old(page)@.len(),
                i <= n,
                forall|j: int| 0 <= j < i ==> #[trigger] page@[j] == 0u8,
            decreases n - i,
        {
            page[i] = 0;
            i = i + 1;
        }
        Self { ppn }
    }
}

/// Takes a frame from the allocator.
pub fn frame_alloc(allocator: &mut StackFrameAllocator) -> (r: Option<PhysPageNum>)
    requires
        old(allocator)@.wf(),
    ensures
        final(allocator)@ == old(allocator)@.after_alloc(),
        final(allocator)@.wf(),
        r.is_some() == old(allocator)@.alloc_result().is_some(),
        r.is_some() ==> old(allocator)@.alloc_result() == Some(r.unwrap().0),
{
    allocator.allocate()
}

/// Gives a frame back to the allocator.
pub fn frame_dealloc(allocator: &mut StackFrameAllocator, ppn: PhysPageNum)
    requires
        old(allocator)@.wf(),
        old(allocator)@.may_dealloc(ppn.0),
    ensures
        final(allocator)@ == old(allocator)@.after_dealloc(ppn.0),
        final(allocator)@.wf(),
{
    allocator.dealloc(ppn)
}

// ---------------------------------------------------------------- laws

/// A frame that `alloc` hands out was free, and is free no more; nothing
/// else changes in the pool of free frames.
pub proof fn lemma_alloc_takes_free_frame(a: FrameAllocatorModel)
    requires
        a.wf(),
    ensures
        a.after_alloc().wf(),
        a.alloc_result() matches Some(p) ==> {
            &&& a.free().contains(p as nat)
            &&& a.after_alloc().free() == a.free().remove(p as nat)
        },
        a.alloc_result().is_none() ==> a.after_alloc() == a,
{
    if let Some(p) = a.alloc_result() {
        let b = a.after_alloc();
        if a.recycled.len() > 0 {
            assert(a.recycled[a.recycled.len() - 1] == p);
            assert(a.recycled.contains(p));
            assert forall|q: nat| #[trigger] b.free().contains(q) == a.free().remove(p as nat).contains(q) by {
                if b.recycled.contains(q as usize) && q <= usize::MAX {
                    let k = choose|k: int| 0 <= k < b.recycled.len() && b.recycled[k] == q as usize;
                    assert(a.recycled[k] == q as usize);
                    assert(k != a.recycled.len() - 1);
                }
                if a.recycled.contains(q as usize) && q <= usize::MAX && q != p {
                    let k = choose|k: int| 0 <= k < a.recycled.len() && a.recycled[k] == q as usize;
                    assert(k != a.recycled.len() - 1);
                    assert(b.recycled[k] == q as usize);
                }
                if q == p {
                    assert(p < a.current);
                    if b.recycled.contains(q as usize) {
                        let k = choose|k: int| 0 <= k < b.recycled.len() && b.recycled[k] == q as usize;
                        assert(a.recycled[k] == a.recycled[a.recycled.len() - 1]);
                    }
                }
            }
            assert(b.free() =~= a.free().remove(p as nat));
        } else {
            assert(b.free() =~= a.free().remove(p as nat));
        }
    }
}

/// `alloc` fails exactly when no frame is free.
pub proof fn lemma_alloc_fails_only_when_exhausted(a: FrameAllocatorModel)
    requires
        a.wf(),
    ensures
        a.alloc_result().is_none() <==> a.free() == Set::<nat>::empty(),
{
    if a.alloc_result().is_none() {
        assert forall|q: nat| !a.free().contains(q) by {
            if a.recycled.contains(q as usize) {
                let k = choose|k: int| 0 <= k < a.recycled.len() && a.recycled[k] == q as usize;
            }
        }
        assert(a.free() =~= Set::<nat>::empty());
    } else {
        lemma_alloc_takes_free_frame(a);
        let p = a.alloc_result().unwrap();
        assert(a.free().contains(p as nat));
    }
}

/// Giving a frame back makes it free again.
pub proof fn lemma_dealloc_frees_frame(a: FrameAllocatorModel, ppn: usize)
    requires
        a.wf(),
        a.may_dealloc(ppn),
    ensures
        !a.free().contains(ppn as nat),
        a.after_dealloc(ppn).free() == a.free().insert(ppn as nat),
{
    let b = a.after_dealloc(ppn);
    assert forall|q: nat| #[trigger] b.free().contains(q) == a.free().insert(ppn as nat).contains(q) by {
        if b.recycled.contains(q as usize) && q <= usize::MAX && q != ppn {
            let k = choose|k: int| 0 <= k < b.recycled.len() && b.recycled[k] == q as usize;
            assert(k != b.recycled.len() - 1);
            assert(a.recycled[k] == q as usize);
        }
        if a.recycled.contains(q as usize) && q <= usize::MAX {
            let k = choose|k: int| 0 <= k < a.recycled.len() && a.recycled[k] == q as usize;
            assert(b.recycled[k] == q as usize);
        }
        if q == ppn {
            assert(b.recycled[b.recycled.len() - 1] == ppn);
        }
    }
    assert(b.free() =~= a.free().insert(ppn as nat));
}

/// A frame given back is the next one handed out, and handing it out
/// restores the allocator as it was before.
pub proof fn lemma_dealloc_then_alloc(a: FrameAllocatorModel, ppn: usize)
    requires
        a.wf(),
        a.may_dealloc(ppn),
    ensures
        a.after_dealloc(ppn).alloc_result() == Some(ppn),
        a.after_dealloc(ppn).after_alloc() == a,
{
    assert(a.after_dealloc(ppn).recycled.drop_last() =~= a.recycled);
}

/// Two frames handed out one after the other are different.
pub proof fn lemma_consecutive_allocs_differ(a: FrameAllocatorModel)
    requires
        a.wf(),
        a.alloc_result().is_some(),
        a.after_alloc().alloc_result().is_some(),
    ensures
        a.alloc_result().unwrap() != a.after_alloc().alloc_result().unwrap(),
{
    lemma_alloc_takes_free_frame(a);
    let b = a.after_alloc();
    lemma_alloc_takes_free_frame(b);
    let p = a.alloc_result().unwrap();
    let q = b.alloc_result().unwrap();
    assert(b.free().contains(q as nat));
    assert(!b.free().contains(p as nat));
}

} // verus!
