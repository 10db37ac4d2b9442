use rcore_os::config::PAGE_SIZE;
use rcore_os::mm::address::{
    PhysAddr, PhysPageNum, SimpleRange, SimpleRangeIterator, StepByOne, VPNRange, VirtAddr, VirtPageNum,
};

#[test]
fn phys_addr_from_usize_keeps_56_bits() {
    assert_eq!(PhysAddr::from(0xff00_0000_0000_1234usize).0, 0x1234);
    assert_eq!(PhysAddr::from(0x8020_0000usize).0, 0x8020_0000);
}

#[test]
fn phys_page_num_from_usize_keeps_44_bits() {
    assert_eq!(PhysPageNum::from(0xfff0_0000_0000_0042usize).0, 0x42);
    assert_eq!(PhysPageNum::from(0x8_8000usize).0, 0x8_8000);
}

#[test]
fn phys_addr_page_arithmetic() {
    let a = PhysAddr(0x8020_1234);
    assert_eq!(a.page_offset(), 0x234);
    assert_eq!(a.floor(), PhysPageNum(0x80201));
    assert_eq!(a.ceil(), PhysPageNum(0x80202));
    assert!(!a.aligned());
    let b = PhysAddr(0x8020_0000);
    assert_eq!(b.page_offset(), 0);
    assert_eq!(b.floor(), b.ceil());
    assert!(b.aligned());
}

#[test]
fn virt_addr_page_arithmetic() {
    let a = VirtAddr(0x1_0000_0fff);
    assert_eq!(a.page_offset(), 0xfff);
    assert_eq!(a.floor(), VirtPageNum(0x100000));
    assert_eq!(a.ceil(), VirtPageNum(0x100001));
    assert_eq!(VirtAddr(0).ceil(), VirtPageNum(0));
}

#[test]
fn floor_and_offset_rebuild_the_address() {
    for x in [0usize, 1, 4095, 4096, 0x8020_1234, 0xdead_beef] {
        let a = PhysAddr(x);
        assert_eq!(a.floor().0 * PAGE_SIZE + a.page_offset(), x);
    }
}

#[test]
fn page_numbers_and_addresses_convert() {
    assert_eq!(VirtAddr::from(VirtPageNum(0x12345)).0, 0x1234_5000);
    assert_eq!(VirtPageNum::from(VirtAddr(0x1234_5678)).0, 0x12345);
    assert_eq!(PhysAddr::from(PhysPageNum(5)).0, 0x5000);
    assert_eq!(usize::from(PhysAddr(7)), 7);
    assert_eq!(usize::from(VirtAddr(9)), 9);
    assert_eq!(usize::from(PhysPageNum(11)), 11);
    assert_eq!(VirtAddr::from(42usize).0, 42);
    assert_eq!(PhysPageNum::from_phys_addr(PhysAddr(0x5000)), PhysPageNum(5));
    assert_eq!(PhysAddr::from(PhysPageNum::from_phys_addr(PhysAddr(0x8000_0000))), PhysAddr(0x8000_0000));
}

#[test]
fn vpn_indexes_root_first() {
    let vpn = VirtPageNum((3 << 18) + (5 << 9) + 7);
    assert_eq!(vpn.indexes(), [3, 5, 7]);
    assert_eq!(VirtPageNum((1 << 27) + 1).indexes(), [0, 0, 1]);
    assert_eq!(VirtPageNum(0x7ff_ffff).indexes(), [511, 511, 511]);
    let [a, b, c] = VirtPageNum(0x123_4567).indexes();
    assert_eq!(a * 0x4_0000 + b * 512 + c, 0x123_4567);
}

#[test]
fn page_numbers_step_by_one() {
    let mut p = PhysPageNum(7);
    p.step();
    assert_eq!(p, PhysPageNum(8));
    assert_eq!(p.index(), 8);
    let mut v = VirtPageNum(0);
    v.step();
    v.step();
    assert_eq!(v, VirtPageNum(2));
}

#[test]
fn range_yields_each_page_once_in_order() {
    let range: VPNRange = SimpleRange::new(VirtPageNum(3), VirtPageNum(6));
    assert_eq!(range.get_start(), VirtPageNum(3));
    assert_eq!(range.get_end(), VirtPageNum(6));
    let mut it = range.into_iter();
    assert_eq!(it.next(), Some(VirtPageNum(3)));
    assert_eq!(it.next(), Some(VirtPageNum(4)));
    assert_eq!(it.next(), Some(VirtPageNum(5)));
    assert_eq!(it.next(), None);
    assert_eq!(it.next(), None);
}

#[test]
fn empty_range_yields_nothing() {
    let range = SimpleRange::new(PhysPageNum(9), PhysPageNum(9));
    let mut it = range.into_iter();
    assert_eq!(it.next(), None);
}

#[test]
fn iterator_started_past_its_end_keeps_stepping() {
    let mut it = SimpleRangeIterator::new(PhysPageNum(5), PhysPageNum(3));
    assert_eq!(it.next(), Some(PhysPageNum(5)));
    assert_eq!(it.next(), Some(PhysPageNum(6)));
}
