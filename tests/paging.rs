use kernel_core::paging::level_4_table_address;

#[test]
fn table_address_adds_offset() {
    assert_eq!(
        level_4_table_address(0xffff_8000_0000_0000, 0x1000),
        Some(0xffff_8000_0000_1000)
    );
    assert_eq!(level_4_table_address(0x100_0000_0000, 0x2000), Some(0x100_0000_2000));
    assert_eq!(level_4_table_address(0, 0), Some(0));
}

#[test]
fn table_address_sign_extends_bit_47() {
    assert_eq!(level_4_table_address(0x0000_8000_0000_0000, 0x3000), Some(0xffff_8000_0000_3000));
}

#[test]
fn table_address_rejects_non_canonical() {
    assert_eq!(level_4_table_address(0x0001_0000_0000_0000, 0x1000), None);
}

#[test]
fn table_address_rejects_overflow() {
    assert_eq!(level_4_table_address(u64::MAX, 0x1000), None);
}
