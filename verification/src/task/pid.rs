//! Process identifiers and the kernel stacks that go with them.
use vstd::prelude::*;

use crate::config::{KERNEL_STACK_SIZE, PAGE_SIZE, TRAMPOLINE};

verus! {

/// A process identifier that is in use.
pub struct PidHandle(pub usize);

/// The state of a pid allocator, as plain values.
pub struct PidAllocatorModel {
    /// Next pid never handed out before.
    pub current: nat,
    /// Pids given back, the last one first to be handed out again.
    pub recycled: Seq<usize>,
}

impl PidAllocatorModel {
    /// Given-back pids are distinct and all were handed out before.
    pub open spec fn wf(self) -> bool {
        &&& self.recycled.no_duplicates()
        &&& forall|i: int| 0 <= i < self.recycled.len() ==> #[trigger] self.recycled[i] < self.current
        &&& self.current <= usize::MAX
    }

    /// Pids handed out and not given back.
    pub open spec fn in_use(self) -> Set<nat> {
        Set::new(|p: nat| p < self.current && !self.recycled.contains(p as usize))
    }

    /// Whether a pid can be handed out without running out of numbers.
    pub open spec fn can_alloc(self) -> bool {
        self.recycled.len() > 0 || self.current < usize::MAX
    }

    /// What `allocate` hands out.
    pub open spec fn alloc_result(self) -> usize {
        if self.recycled.len() > 0 {
            self.recycled.last()
        } else {
            self.current as usize
        }
    }

    /// The state after `allocate`.
    pub open spec fn after_alloc(self) -> PidAllocatorModel {
        if self.recycled.len() > 0 {
            PidAllocatorModel { recycled: self.recycled.drop_last(), ..self }
        } else {
            PidAllocatorModel { current: self.current + 1, ..self }
        }
    }

    /// Whether `pid` may be given back: it is in use.
    pub open spec fn may_dealloc(self, pid: usize) -> bool {
        pid < self.current && !self.recycled.contains(pid)
    }

    /// The state after `dealloc(pid)`.
    pub open spec fn after_dealloc(self, pid: usize) -> PidAllocatorModel {
        PidAllocatorModel { recycled: self.recycled.push(pid), ..self }
    }
}

/// Hands out pids: given-back pids first, last in first out, then fresh ones.
pub struct PidAllocator {
    current: usize,
    recycled: Vec<usize>,
}

impl View for PidAllocator {
    type V = PidAllocatorModel;

    closed spec fn view(&self) -> PidAllocatorModel {
        PidAllocatorModel { current: self.current as nat, recycled: self.recycled@ }
    }
}

impl PidAllocator {
    pub fn new() -> (a: Self)
        ensures
            a@.current == 0,
            a@.recycled == Seq::<usize>::empty(),
            a@.wf(),
    {
        Self { current: 0, recycled: Vec::new() }
    }

    /// Hands out a pid that is not in use.
    pub fn allocate(&mut self) -> (h: PidHandle)
        requires
            old(self)@.wf(),
            old(self)@.can_alloc(),
        ensures
            h.0 == old(self)@.alloc_result(),
            final(self)@ == old(self)@.after_alloc(),
            final(self)@.wf(),
    {
        if let Some(pid) = self.recycled.pop() {
            proof {
                assert(self.recycled@ =~= old(self)@.recycled.drop_last());
            }
            PidHandle(pid)
        } else {
            self.current = self.current + 1;
            PidHandle(self.current - 1)
        }
    }

    /// Whether `pid` is in use.
    pub fn is_allocated(&self, pid: usize) -> (r: bool)
        ensures
            r == self@.may_dealloc(pid),
    {
        if pid >= self.current {
            return false;
        }
        let mut i: usize = 0;
        while i < self.recycled.len()
            invariant
                i <= self.recycled@.len(),
                forall|j: int| 0 <= j < i ==> self.recycled@[j] != pid,
            decreases self.recycled@.len() - i,
        {
            if self.recycled[i] == pid {
                return false;
            }
            i = i + 1;
        }
        true
    }

    /// Whether a pid can be handed out without running out of numbers.
    pub fn can_alloc(&self) -> (r: bool)
        ensures
            r == self@.can_alloc(),
    {
        self.recycled.len() > 0 || self.current < usize::MAX
    }

    /// Gives back a pid that is in use.
    pub fn dealloc(&mut self, pid: usize)
        requires
            old(self)@.wf(),
            old(self)@.may_dealloc(pid),
        ensures
            final(self)@ == old(self)@.after_dealloc(pid),
            final(self)@.wf(),
    {
        self.recycled.push(pid);
        proof {
            let s = self.recycled@;
            assert(s.no_duplicates()) by {
                assert forall|i: int, j: int| 0 <= i < s.len() && 0 <= j < s.len() && i != j implies s[i] != s[j] by {
                    if i == s.len() - 1 {
                        assert(s[j] == old(self)@.recycled[j]);
                    } else if j == s.len() - 1 {
                        assert(s[i] == old(self)@.recycled[i]);
                    }
                }
            }
        }
    }
}

/// Takes a pid from the allocator.
pub fn pid_alloc(allocator: &mut PidAllocator) -> (h: PidHandle)
    requires
        old(allocator)@.wf(),
        old(allocator)@.can_alloc(),
    ensures
        h.0 == old(allocator)@.alloc_result(),
        final(allocator)@ == old(allocator)@.after_alloc(),
        final(allocator)@.wf(),
{
    allocator.allocate()
}

/// A pid handed out is not in use before, and is in use after; the other
/// pids in use stay so.
pub proof fn lemma_pid_alloc_fresh(a: PidAllocatorModel)
    requires
        a.wf(),
        a.can_alloc(),
    ensures
        !a.in_use().contains(a.alloc_result() as nat),
        a.after_alloc().in_use() == a.in_use().insert(a.alloc_result() as nat),
        a.after_alloc().wf(),
{
    let p = a.alloc_result();
    let b = a.after_alloc();
    if a.recycled.len() > 0 {
        assert(a.recycled[a.recycled.len() - 1] == p);
        assert forall|q: nat| #[trigger] b.in_use().contains(q) == a.in_use().insert(p as nat).contains(q) by {
            if b.recycled.contains(q as usize) && q < a.current {
                let k = choose|k: int| 0 <= k < b.recycled.len() && b.recycled[k] == q as usize;
                assert(a.recycled[k] == q as usize);
            }
            if a.recycled.contains(q as usize) && q < a.current && q != p {
                let k = choose|k: int| 0 <= k < a.recycled.len() && a.recycled[k] == q as usize;
                assert(k != a.recycled.len() - 1);
                assert(b.recycled[k] == q as usize);
            }
            if q == p && b.recycled.contains(q as usize) {
                let k = choose|k: int| 0 <= k < b.recycled.len() && b.recycled[k] == q as usize;
                assert(a.recycled[k] == a.recycled[a.recycled.len() - 1]);
            }
        }
        assert(b.in_use() =~= a.in_use().insert(p as nat));
    } else {
        assert forall|q: nat| #[trigger] b.in_use().contains(q) == a.in_use().insert(p as nat).contains(q) by {}
        assert(b.in_use() =~= a.in_use().insert(p as nat));
    }
}

/// A pid given back is no longer in use, and is the next one handed out;
/// handing it out restores the allocator as it was.
pub proof fn lemma_pid_dealloc_then_alloc(a: PidAllocatorModel, pid: usize)
    requires
        a.wf(),
        a.may_dealloc(pid),
    ensures
        a.in_use().contains(pid as nat),
        !a.after_dealloc(pid).in_use().contains(pid as nat),
        a.after_dealloc(pid).alloc_result() == pid,
        a.after_dealloc(pid).after_alloc() == a,
{
    assert(a.after_dealloc(pid).recycled[a.recycled.len() as int] == pid);
    assert(a.after_dealloc(pid).recycled.drop_last() =~= a.recycled);
}

// ---------------------------------------------------------------- kernel stacks

/// Whether the kernel stack of `app_id` fits below the trampoline.
pub open spec fn kernel_stack_fits(app_id: usize) -> bool {
    app_id * (KERNEL_STACK_SIZE + PAGE_SIZE) + KERNEL_STACK_SIZE <= TRAMPOLINE
}

/// Top of the kernel stack of `app_id`: stacks go down from the trampoline,
/// each followed by a guard page.
pub open spec fn kernel_stack_top(app_id: usize) -> int {
    TRAMPOLINE - app_id * (KERNEL_STACK_SIZE + PAGE_SIZE)
}

/// Whether the kernel stack of `app_id` fits below the trampoline.
pub fn can_place_kernel_stack(app_id: usize) -> (r: bool)
    ensures
        r == kernel_stack_fits(app_id),
{
    let step = KERNEL_STACK_SIZE + PAGE_SIZE;
    let limit = TRAMPOLINE - KERNEL_STACK_SIZE;
    let most = limit / step;
    proof {
        assert(app_id > most ==> app_id * step > limit) by (nonlinear_arith)
            requires
                most == limit / step,
                step > 0,
        ;
        assert(app_id <= most ==> app_id * step <= limit) by (nonlinear_arith)
            requires
                most == limit / step,
                step > 0,
        ;
    }
    app_id <= most
}

/// The bottom and top addresses of the kernel stack of `app_id`.
pub fn kernel_stack_position(app_id: usize) -> (r: (usize, usize))
    requires
        kernel_stack_fits(app_id),
    ensures
        r.1 == kernel_stack_top(app_id),
        r.0 == r.1 - KERNEL_STACK_SIZE,
{
    proof {
        assert(app_id * (KERNEL_STACK_SIZE + PAGE_SIZE) <= TRAMPOLINE);
    }
    let top = TRAMPOLINE - app_id * (KERNEL_STACK_SIZE + PAGE_SIZE);
    let bottom = top - KERNEL_STACK_SIZE;
    (bottom, top)
}

/// Kernel stacks of different ids never overlap, and a guard page separates
/// them: the higher id's stack ends at least a page below the lower one's.
pub proof fn lemma_kernel_stacks_disjoint(a: usize, b: usize)
    requires
        a < b,
        kernel_stack_fits(b),
    ensures
        kernel_stack_fits(a),
        kernel_stack_top(b) + PAGE_SIZE <= kernel_stack_top(a) - KERNEL_STACK_SIZE,
{
    assert(a * (KERNEL_STACK_SIZE + PAGE_SIZE) + (KERNEL_STACK_SIZE + PAGE_SIZE)
        <= b * (KERNEL_STACK_SIZE + PAGE_SIZE)) by (nonlinear_arith)
        requires
            a < b,
    ;
}

/// The kernel stack of a process.
pub struct KernelStack {
    pid: usize,
}

impl KernelStack {
    #[verifier::type_invariant]
    spec fn fits(self) -> bool {
        kernel_stack_fits(self.pid)
    }

    pub closed spec fn owner(self) -> usize {
        self.pid
    }

    /// The kernel stack of the process `pid_handle` names.
    pub fn new(pid_handle: &PidHandle) -> (s: Self)
        requires
            kernel_stack_fits(pid_handle.0),
        ensures
            s.owner() == pid_handle.0,
    {
        KernelStack { pid: pid_handle.0 }
    }

    /// The top address of the stack.
    pub fn get_top(&self) -> (top: usize)
        ensures
            top == kernel_stack_top(self.owner()),
    {
        proof {
            use_type_invariant(self);
        }
        let (_, top) = kernel_stack_position(self.pid);
        top
    }
}

} // verus!
