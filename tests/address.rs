use xxos::address::{PhysicalMemoryAddress, PhysicalPageNumber, VirtualMemoryAddress, VirtualPageNumber};
use xxos::layout::{align_down, align_up, kstack, phy_kstack};
use xxos::sv39::{PageTableEntry, PTEFlags, PteFlags, PTE_FLAG_R, PTE_FLAG_V};

#[test]
fn physical_address_fields() {
    let a = PhysicalMemoryAddress(0x8000_1234);
    assert_eq!(a.to_ppn().0, 0x80001);
    assert_eq!(a.ppn().0, 0x80001);
    assert_eq!(a.to_pte(PTE_FLAG_V).bits(), (0x80001 << 10) | 1);
    assert_eq!(PhysicalMemoryAddress(0xff00_0000_0000_1000).to_ppn().0, 1);
    assert_eq!(PhysicalMemoryAddress::new().0, 0);
}

#[test]
fn page_number_conversions() {
    let p = PhysicalPageNumber(0x80001);
    assert_eq!(p.to_pte(0x3).bits(), 0x2000_0403);
    assert_eq!(p.to_pma().0, 0x8000_1000);
    assert_eq!(PhysicalPageNumber::new().0, 0);
    assert_eq!(VirtualPageNumber::new().0, 0);
}

#[test]
fn virtual_address_fields() {
    let v = VirtualMemoryAddress(0x12_3456_789a);
    assert_eq!(v.offset(), 0x89a);
    assert_eq!(v.vpn().0, 0x12_3456_7);
    assert_eq!(v.get_pagetable_index(0), 0x167);
    assert_eq!(v.get_pagetable_index(1), 0x1a2);
    assert_eq!(v.get_pagetable_index(2), 0x48);
    let top = VirtualMemoryAddress(0x7f_ffff_f000);
    assert_eq!(top.get_pagetable_index(0), 511);
    assert_eq!(top.get_pagetable_index(1), 511);
    assert_eq!(top.get_pagetable_index(2), 511);
    assert_eq!(VirtualMemoryAddress::new().offset(), 0);
}

#[test]
fn decomposition_round_trip() {
    for &x in &[0u64, 0x1000, 0x12_3456_789a, 0x7f_ffff_ffff, 0x40_0020_1fff] {
        let v = VirtualMemoryAddress(x);
        let rebuilt = ((v.get_pagetable_index(2) as u64) << 30)
            | ((v.get_pagetable_index(1) as u64) << 21)
            | ((v.get_pagetable_index(0) as u64) << 12);
        assert_eq!(rebuilt, x & !0xfff);
        assert_eq!(rebuilt | v.offset(), x);
    }
}

#[test]
fn vpn_parts_match_address_indices() {
    let v = VirtualMemoryAddress(0x12_3456_789a);
    let n = v.vpn();
    for level in 0..3usize {
        assert_eq!(n.get_part(level), v.get_pagetable_index(level));
        assert_eq!(n.get_pagetable_index(level), v.get_pagetable_index(level));
    }
}

#[test]
fn entry_flags() {
    let mut e = PageTableEntry::new();
    assert!(!e.is_v());
    e.set(PageTableEntry { bits: 0xff });
    assert!(e.is_v() && e.is_r() && e.is_w() && e.is_x());
    assert!(e.is_u() && e.is_g() && e.is_a() && e.is_d());
    assert!(e.check_flags(PTEFlags::RWX));
    e.set(PageTableEntry { bits: (0x12345 << 10) | PTE_FLAG_V | PTE_FLAG_R });
    assert!(!e.is_w());
    assert!(!e.check_flags(PTEFlags::W));
    assert!(e.check_flags(PTEFlags::RW));
    assert_eq!(e.ppn().0, 0x12345);
    assert_eq!(e.to_pma().0, 0x1234_5000);
    e.clear();
    assert_eq!(e.bits(), 0);
    assert_eq!(PteFlags::D.bits(), 0x80);
    assert_eq!(PTEFlags::RWX.bits(), 0xe);
}

#[test]
fn entry_ppn_ignores_reserved_bits() {
    let e = PageTableEntry { bits: 0xffc0_0000_0000_0401 };
    assert_eq!(e.to_ppn().0, 1);
}

#[test]
fn alignment() {
    assert_eq!(align_down(0x1234), 0x1000);
    assert_eq!(align_down(0x2000), 0x2000);
    assert_eq!(align_up(0x1234), Some(0x2000));
    assert_eq!(align_up(0x2000), Some(0x2000));
    assert_eq!(align_up(0), Some(0));
    assert_eq!(align_up(u64::MAX), None);
}

#[test]
fn kernel_stack_addresses() {
    assert_eq!(kstack(0), 0x3f_ffff_9000);
    assert_eq!(kstack(1), 0x3f_ffff_5000);
    assert_eq!(phy_kstack(0), 0x87ff_2000);
    assert_eq!(phy_kstack(31), 0x87ff_2000 - 31 * 0x4000);
}
