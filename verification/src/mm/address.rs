//! Physical and virtual addresses and page numbers of the Sv39 scheme.
use vstd::prelude::*;

use crate::config::{PAGE_SIZE, PAGE_SIZE_BITS};
use vstd::std_specs::convert::FromSpecImpl;

verus! {

/// Width of a physical address in Sv39.
pub const PA_WIDTH_SV39: usize = 56;

/// Width of a physical page number in Sv39.
pub const PPN_WIDTH_SV39: usize = PA_WIDTH_SV39 - PAGE_SIZE_BITS;

/// Number of addresses below `2^PA_WIDTH_SV39`.
pub open spec fn pa_limit() -> nat {
    0x100_0000_0000_0000
}

/// Number of page numbers below `2^PPN_WIDTH_SV39`.
pub open spec fn ppn_limit() -> nat {
    0x1000_0000_0000
}

#[derive(Copy, Clone, PartialEq, Eq, Structural, PartialOrd, Ord, Debug)]
pub struct PhysAddr(pub usize);

#[derive(Copy, Clone, PartialEq, Eq, Structural, PartialOrd, Ord, Debug)]
pub struct VirtAddr(pub usize);

#[derive(Copy, Clone, PartialEq, Eq, Structural, PartialOrd, Ord, Debug)]
pub struct PhysPageNum(pub usize);

#[derive(Copy, Clone, PartialEq, Eq, Structural, PartialOrd, Ord, Debug)]
pub struct VirtPageNum(pub usize);

/// The offset of an address inside its page.
pub open spec fn offset_in_page(a: usize) -> usize {
    (a % 4096) as usize
}

/// The page that holds an address.
pub open spec fn page_below(a: usize) -> usize {
    (a / 4096) as usize
}

/// The first page that starts at or above an address.
pub open spec fn page_above(a: usize) -> usize {
    ((a + 4095) / 4096) as usize
}

/// The address where a page starts, kept to the bits of a machine word.
pub open spec fn page_start(p: usize) -> usize {
    (p * 4096) as usize
}

// ---------------------------------------------------------------- From

impl From<usize> for PhysAddr {
    /// Keeps the low `PA_WIDTH_SV39` bits.
    fn from(v: usize) -> (r: Self) {
        let w = v as u64;
        assert(w & 0xff_ffff_ffff_ffffu64 == w % 0x100_0000_0000_0000) by (bit_vector);
        assert((1u64 << 56u64) - 1u64 == 0xff_ffff_ffff_ffffu64) by (bit_vector);
        Self((w & ((1u64 << (PA_WIDTH_SV39 as u64)) - 1)) as usize)
    }
}

impl FromSpecImpl<usize> for PhysAddr {
    open spec fn obeys_from_spec() -> bool {
        true
    }

    open spec fn from_spec(v: usize) -> Self {
        PhysAddr((v as int % pa_limit() as int) as usize)
    }
}

impl From<usize> for PhysPageNum {
    /// Keeps the low `PPN_WIDTH_SV39` bits.
    fn from(v: usize) -> (r: Self) {
        let w = v as u64;
        assert(w & 0xfff_ffff_ffffu64 == w % 0x1000_0000_0000) by (bit_vector);
        assert((1u64 << 44u64) - 1u64 == 0xfff_ffff_ffffu64) by (bit_vector);
        Self((w & ((1u64 << (PPN_WIDTH_SV39 as u64)) - 1)) as usize)
    }
}

impl FromSpecImpl<usize> for PhysPageNum {
    open spec fn obeys_from_spec() -> bool {
        true
    }

    open spec fn from_spec(v: usize) -> Self {
        PhysPageNum((v as int % ppn_limit() as int) as usize)
    }
}

impl From<usize> for VirtAddr {
    fn from(v: usize) -> (r: Self) {
        VirtAddr(v)
    }
}

impl FromSpecImpl<usize> for VirtAddr {
    open spec fn obeys_from_spec() -> bool {
        true
    }

    open spec fn from_spec(v: usize) -> Self {
        VirtAddr(v)
    }
}

impl From<VirtPageNum> for VirtAddr {
    /// The address where the page starts.
    fn from(v: VirtPageNum) -> (r: Self) {
        let x = v.0;
        assert(x << 12usize == (x * 4096) as usize) by (bit_vector);
        Self(x << PAGE_SIZE_BITS)
    }
}

impl FromSpecImpl<VirtPageNum> for VirtAddr {
    open spec fn obeys_from_spec() -> bool {
        true
    }

    open spec fn from_spec(v: VirtPageNum) -> Self {
        VirtAddr(page_start(v.0))
    }
}

impl From<VirtAddr> for VirtPageNum {
    /// The page that holds the address.
    fn from(v: VirtAddr) -> (r: Self) {
        let x = v.0;
        assert(x >> 12usize == x / 4096) by (bit_vector);
        Self(x >> PAGE_SIZE_BITS)
    }
}

impl FromSpecImpl<VirtAddr> for VirtPageNum {
    open spec fn obeys_from_spec() -> bool {
        true
    }

    open spec fn from_spec(v: VirtAddr) -> Self {
        VirtPageNum(page_below(v.0))
    }
}

impl From<PhysPageNum> for PhysAddr {
    /// The address where the frame starts.
    fn from(v: PhysPageNum) -> (r: Self) {
        let x = v.0;
        assert(x << 12usize == (x * 4096) as usize) by (bit_vector);
        Self(x << PAGE_SIZE_BITS)
    }
}

impl FromSpecImpl<PhysPageNum> for PhysAddr {
    open spec fn obeys_from_spec() -> bool {
        true
    }

    open spec fn from_spec(v: PhysPageNum) -> Self {
        PhysAddr(page_start(v.0))
    }
}

impl From<VirtAddr> for usize {
    fn from(v: VirtAddr) -> (r: Self) {
        v.0
    }
}

impl FromSpecImpl<VirtAddr> for usize {
    open spec fn obeys_from_spec() -> bool {
        true
    }

    open spec fn from_spec(v: VirtAddr) -> Self {
        v.0
    }
}

impl From<PhysAddr> for usize {
    fn from(v: PhysAddr) -> (r: Self) {
        v.0
    }
}

impl FromSpecImpl<PhysAddr> for usize {
    open spec fn obeys_from_spec() -> bool {
        true
    }

    open spec fn from_spec(v: PhysAddr) -> Self {
        v.0
    }
}

impl From<PhysPageNum> for usize {
    fn from(v: PhysPageNum) -> (r: Self) {
        v.0
    }
}

impl FromSpecImpl<PhysPageNum> for usize {
    open spec fn obeys_from_spec() -> bool {
        true
    }

    open spec fn from_spec(v: PhysPageNum) -> Self {
        v.0
    }
}

// ---------------------------------------------------------------- methods

impl PhysAddr {
    pub fn page_offset(&self) -> (r: usize)
        ensures
            r == offset_in_page(self.0),
            r < PAGE_SIZE,
    {
        let x = self.0;
        assert(x & 4095 == x % 4096) by (bit_vector);
        self.0 & (PAGE_SIZE - 1)
    }

    pub fn floor(&self) -> (r: PhysPageNum)
        ensures
            r.0 == page_below(self.0),
    {
        PhysPageNum(self.0 / PAGE_SIZE)
    }

    pub fn ceil(&self) -> (r: PhysPageNum)
        requires
            self.0 + PAGE_SIZE <= usize::MAX,
        ensures
            r.0 == page_above(self.0),
    {
        PhysPageNum((self.0 + PAGE_SIZE - 1) / PAGE_SIZE)
    }

    /// Whether the address is the first byte of a page.
    pub fn aligned(&self) -> (r: bool)
        ensures
            r == (offset_in_page(self.0) == 0),
    {
        self.page_offset() == 0
    }
}

impl VirtAddr {
    pub fn floor(&self) -> (r: VirtPageNum)
        ensures
            r.0 == page_below(self.0),
    {
        VirtPageNum(self.0 / PAGE_SIZE)
    }

    pub fn ceil(&self) -> (r: VirtPageNum)
        requires
            self.0 + PAGE_SIZE <= usize::MAX,
        ensures
            r.0 == page_above(self.0),
    {
        VirtPageNum((self.0 + PAGE_SIZE - 1) / PAGE_SIZE)
    }

    pub fn page_offset(&self) -> (r: usize)
        ensures
            r == offset_in_page(self.0),
            r < PAGE_SIZE,
    {
        let x = self.0;
        assert(x & 4095 == x % 4096) by (bit_vector);
        self.0 & (PAGE_SIZE - 1)
    }
}

impl PhysPageNum {
    /// The frame that starts at `v`; `v` must lie on a page boundary.
    pub fn from_phys_addr(v: PhysAddr) -> (r: Self)
        requires
            offset_in_page(v.0) == 0,
        ensures
            r.0 == page_below(v.0),
            page_start(r.0) == v.0,
    {
        let r = v.floor();
        let x = v.0;
        assert(x % 4096 == 0 ==> ((x / 4096) as usize * 4096) as usize == x) by (bit_vector);
        r
    }
}

/// Index into the table of the given level (0 is the root) of the Sv39
/// walk for virtual page number `vpn`.
pub open spec fn vpn_index(vpn: usize, level: int) -> usize {
    if level == 0 {
        ((vpn / 0x4_0000) % 512) as usize
    } else if level == 1 {
        ((vpn / 512) % 512) as usize
    } else {
        (vpn % 512) as usize
    }
}

impl VirtPageNum {
    /// The three nine-bit indexes of the page-table walk, root level first.
    pub fn indexes(&self) -> (idx: [usize; 3])
        ensures
            idx@.len() == 3,
            forall|i: int| 0 <= i < 3 ==> #[trigger] idx@[i] == vpn_index(self.0, i),
            forall|i: int| 0 <= i < 3 ==> #[trigger] idx@[i] < 512,
    {
        let mut vpn = self.0;
        let mut idx = [0usize;3];
        let mut i: usize = 3;
        let ghost v0 = self.0;
        assert(v0 / 512 / 512 == v0 / 0x4_0000) by (nonlinear_arith);
        while i > 0
            invariant
                i <= 3,
                idx@.len() == 3,
                v0 == self.0,
                i == 3 ==> vpn == v0,
                i == 2 ==> vpn == v0 / 512,
                i == 1 ==> vpn == v0 / 512 / 512,
                forall|j: int| i <= j < 3 ==> #[trigger] idx@[j] == vpn_index(v0, j),
            decreases i,
        {
            i = i - 1;
            let v = vpn;
            assert(v & 511 == v % 512) by (bit_vector);
            assert(v >> 9usize == v / 512) by (bit_vector);
            idx[i] = vpn & 511;
            vpn = vpn >> 9;
        }
        idx
    }
}

// ---------------------------------------------------------------- stepping

/// A value that moves one step forward at a time along a line of positions.
pub trait StepByOne: Sized {
    /// The position of the value on its line.
    spec fn position(&self) -> nat;

    /// The value one position further on.
    spec fn stepped(&self) -> Self;

    /// Positions fit in a machine word, and a step moves one position on.
    proof fn lemma_step(&self)
        ensures
            self.position() <= usize::MAX,
            self.position() < usize::MAX ==> self.stepped().position() == self.position() + 1,
    ;

    /// The position, as a machine word.
    fn index(&self) -> (r: usize)
        ensures
            r == self.position(),
    ;

    /// Moves one position forward.
    fn step(&mut self)
        requires
            old(self).position() < usize::MAX,
        ensures
            *final(self) == old(self).stepped(),
            final(self).position() == old(self).position() + 1,
    ;
}

impl StepByOne for PhysPageNum {
    open spec fn position(&self) -> nat {
        self.0 as nat
    }

    open spec fn stepped(&self) -> Self {
        PhysPageNum((self.0 + 1) as usize)
    }

    proof fn lemma_step(&self) {
    }

    fn index(&self) -> (r: usize) {
        self.0
    }

    fn step(&mut self)
        ensures
            final(self).0 == old(self).0 + 1,
    {
        self.0 = self.0 + 1;
    }
}

impl StepByOne for VirtPageNum {
    open spec fn position(&self) -> nat {
        self.0 as nat
    }

    open spec fn stepped(&self) -> Self {
        VirtPageNum((self.0 + 1) as usize)
    }

    proof fn lemma_step(&self) {
    }

    fn index(&self) -> (r: usize) {
        self.0
    }

    fn step(&mut self)
        ensures
            final(self).0 == old(self).0 + 1,
    {
        self.0 = self.0 + 1;
    }
}

/// The positions from `l` up to, and without, `r`.
pub open spec fn positions_between(l: nat, r: nat) -> Seq<nat> {
    Seq::new((r - l) as nat, |i: int| (l + i) as nat)
}

/// A half-open range `[l, r)` of steppable values.
#[derive(Copy, Clone)]
pub struct SimpleRange<T: StepByOne + Copy> {
    l: T,
    r: T,
}

impl<T: StepByOne + Copy> SimpleRange<T> {
    pub closed spec fn start(&self) -> T {
        self.l
    }

    pub closed spec fn end(&self) -> T {
        self.r
    }

    /// Positions covered by the range, in order.
    pub open spec fn positions(&self) -> Seq<nat> {
        positions_between(self.start().position(), self.end().position())
    }

    pub closed spec fn wf(&self) -> bool {
        self.l.position() <= self.r.position()
    }

    /// A range from `l` to `r`; `l` must not lie after `r`.
    pub fn new(l: T, r: T) -> (res: Self)
        requires
            l.position() <= r.position(),
        ensures
            res.wf(),
            res.start() == l,
            res.end() == r,
    {
        Self { l, r }
    }

    pub fn get_start(&self) -> (res: T)
        ensures
            res == self.start(),
    {
        self.l
    }

    pub fn get_end(&self) -> (res: T)
        ensures
            res == self.end(),
    {
        self.r
    }

    /// An iterator over the range, from its start.
    pub fn into_iter(self) -> (it: SimpleRangeIterator<T>)
        requires
            self.wf(),
        ensures
            it.wf(),
            it.remaining() == self.positions(),
    {
        SimpleRangeIterator::new(self.l, self.r)
    }
}

/// Walks a `SimpleRange` from its start to its end.
pub struct SimpleRangeIterator<T: StepByOne + Copy> {
    current: T,
    end: T,
}

impl<T: StepByOne + Copy> SimpleRangeIterator<T> {
    pub closed spec fn current(&self) -> T {
        self.current
    }

    pub closed spec fn end(&self) -> T {
        self.end
    }

    /// The iterator has not run past its end.
    pub open spec fn wf(&self) -> bool {
        self.current().position() <= self.end().position()
    }

    /// Positions still to be handed out, in order.
    pub open spec fn remaining(&self) -> Seq<nat> {
        positions_between(self.current().position(), self.end().position())
    }

    /// The iterator after `next`, and what `next` hands out: nothing at the
    /// end, else the current value, stepping past it.
    pub closed spec fn next_spec(self) -> (Self, Option<T>) {
        if self.current.position() == self.end.position() {
            (self, None)
        } else {
            (SimpleRangeIterator { current: self.current.stepped(), end: self.end }, Some(self.current))
        }
    }

    /// The iterator after `k` calls of `next`.
    pub closed spec fn advance(self, k: nat) -> Self
        decreases k,
    {
        if k == 0 {
            self
        } else {
            self.next_spec().0.advance((k - 1) as nat)
        }
    }

    pub fn new(l: T, r: T) -> (it: Self)
        ensures
            it.current() == l,
            it.end() == r,
    {
        Self { current: l, end: r }
    }

    /// Hands out the current value and steps past it, or `None` when the
    /// current value is the end.
    pub fn next(&mut self) -> (item: Option<T>)
        requires
            old(self).current().position() != old(self).end().position()
                ==> old(self).current().position() < usize::MAX,
        ensures
            (*final(self), item) == old(self).next_spec(),
            final(self).end() == old(self).end(),
            old(self).current().position() == old(self).end().position() ==> item is None && *final(self)
                == *old(self),
            old(self).current().position() != old(self).end().position() ==> {
                &&& item == Some(old(self).current())
                &&& final(self).current() == old(self).current().stepped()
                &&& final(self).current().position() == old(self).current().position() + 1
            },
            old(self).wf() ==> final(self).wf(),
            old(self).wf() && old(self).remaining().len() > 0 ==> {
                &&& final(self).remaining() == old(self).remaining().drop_first()
                &&& old(self).remaining()[0] == old(self).current().position()
            },
    {
        if self.current.index() == self.end.index() {
            None
        } else {
            let result = self.current;
            self.current.step();
            proof {
                if old(self).wf() {
                    assert(self.remaining() =~= old(self).remaining().drop_first());
                }
            }
            Some(result)
        }
    }
}

/// Where the iterator stands after `k` calls of `next`: the end is kept,
/// and the current position moved `k` on, or up to the end.
proof fn lemma_advance<T: StepByOne + Copy>(it: SimpleRangeIterator<T>, k: nat)
    requires
        it.wf(),
    ensures
        it.advance(k).wf(),
        it.advance(k).end() == it.end(),
        it.advance(k).current().position() == (if k < it.remaining().len() {
            it.current().position() + k
        } else {
            it.end().position()
        }),
    decreases k,
{
    it.end().lemma_step();
    it.current().lemma_step();
    if k > 0 {
        let next = it.next_spec().0;
        lemma_advance(next, (k - 1) as nat);
    }
}

/// Iterating a range from `l` to `r` hands out, call after call, the values
/// at positions `l`, `l + 1`, ..., `r - 1` in order, and `None` on every
/// call after that.
pub proof fn lemma_range_run<T: StepByOne + Copy>(it: SimpleRangeIterator<T>, k: nat)
    requires
        it.wf(),
    ensures
        it.advance(k).end() == it.end(),
        k < it.remaining().len() ==> (it.advance(k).next_spec().1 matches Some(x) && x.position()
            == it.current().position() + k && x.position() == it.remaining()[k as int]),
        k >= it.remaining().len() ==> it.advance(k).next_spec().1 is None,
{
    lemma_advance(it, k);
}

/// A range of virtual pages.
pub type VPNRange = SimpleRange<VirtPageNum>;

// ---------------------------------------------------------------- laws

/// An address is its page's start plus its offset in the page.
pub proof fn lemma_floor_offset(a: usize)
    ensures
        page_below(a) * 4096 + offset_in_page(a) == a,
        offset_in_page(a) < 4096,
{
    assert(page_below(a) * 4096 + offset_in_page(a) == a) by (nonlinear_arith)
        requires
            page_below(a) == a / 4096,
            offset_in_page(a) == a % 4096,
    ;
}

/// Rounding up gives the page below, or the one after it when the address
/// is not on a page boundary.
pub proof fn lemma_ceil_floor(a: usize)
    requires
        a + 4095 <= usize::MAX,
    ensures
        offset_in_page(a) == 0 ==> page_above(a) == page_below(a),
        offset_in_page(a) != 0 ==> page_above(a) == page_below(a) + 1,
{
    assert(page_above(a) == (a + 4095) / 4096);
    assert((a % 4096 == 0 ==> (a + 4095) / 4096 == a / 4096) && (a % 4096 != 0 ==> (a + 4095) / 4096 == a / 4096 + 1))
        by (nonlinear_arith);
}

/// The page that holds the start of page `p` is `p`, as long as the start
/// fits in a machine word.
pub proof fn lemma_page_start_below(p: usize)
    requires
        p * 4096 <= usize::MAX,
    ensures
        page_start(p) == p * 4096,
        page_below(page_start(p)) == p,
        offset_in_page(page_start(p)) == 0,
{
    assert(page_start(p) == p * 4096);
    assert((p * 4096) / 4096 == p && (p * 4096) % 4096 == 0) by (nonlinear_arith);
}

/// The three indexes of a page-table walk spell out the low 27 bits of the
/// page number, root index first.
pub proof fn lemma_indexes_compose(vpn: usize)
    ensures
        vpn_index(vpn, 0) * 0x4_0000 + vpn_index(vpn, 1) * 512 + vpn_index(vpn, 2) == vpn % 0x800_0000,
{
    assert(((vpn / 0x4_0000) % 512) * 0x4_0000 + ((vpn / 512) % 512) * 512 + vpn % 512 == vpn % 0x800_0000)
        by (nonlinear_arith);
}

} // verus!
