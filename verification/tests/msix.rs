use address_space::msix::{
    is_msix_enabled, is_msix_func_masked, le_read_u16, le_read_u32, le_read_u64, le_write_u16,
    le_write_u32, le_write_u64, update_dev_id, Message, Msix, MSIX_CAP_CONTROL, MSIX_CAP_ENABLE,
    MSIX_CAP_FUNC_MASK, MSIX_TABLE_ENTRY_SIZE, MSIX_TABLE_MASK_BIT, MSIX_TABLE_VEC_CTL,
};

#[test]
fn test_mask_vectors() {
    let nr_vector = 2_u32;
    let mut msix = Msix::new(nr_vector * MSIX_TABLE_ENTRY_SIZE as u32, 64, 64, 0);

    assert!(msix.table[MSIX_TABLE_VEC_CTL as usize] & MSIX_TABLE_MASK_BIT > 0);
    assert!(
        msix.table[(MSIX_TABLE_ENTRY_SIZE + MSIX_TABLE_VEC_CTL) as usize] & MSIX_TABLE_MASK_BIT
            > 0
    );
    assert!(msix.is_vector_masked(0));
    msix.func_masked = false;
    assert!(msix.is_vector_masked(1));
    msix.table[(MSIX_TABLE_ENTRY_SIZE + MSIX_TABLE_VEC_CTL) as usize] &= !MSIX_TABLE_MASK_BIT;
    assert!(!msix.is_vector_masked(1));
}

#[test]
fn test_pending_vectors() {
    let mut msix = Msix::new(MSIX_TABLE_ENTRY_SIZE as u32, 64, 64, 0);

    msix.set_pending_vector(0);
    assert!(msix.is_vector_pending(0));
    msix.clear_pending_vector(0);
    assert!(!msix.is_vector_pending(0));
}

#[test]
fn test_get_message() {
    let mut msix = Msix::new(MSIX_TABLE_ENTRY_SIZE as u32, 64, 64, 0);
    assert!(le_write_u32(&mut msix.table, 0, 0x1000_0000));
    assert!(le_write_u32(&mut msix.table, 4, 0x2000_0000));
    assert!(le_write_u32(&mut msix.table, 8, 0x3000_0000));

    let msg = msix.get_message(0);
    assert_eq!(msg.address_lo, 0x1000_0000);
    assert_eq!(msg.address_hi, 0x2000_0000);
    assert_eq!(msg.data, 0x3000_0000);
}

#[test]
fn test_write_config() {
    // the configuration space of a device with two vectors, with the
    // capability at 64
    let mut config = vec![0u8; 4096];
    assert!(le_write_u16(&mut config, 64 + MSIX_CAP_CONTROL as usize, 1));
    let mut msix = Msix::new(2 * MSIX_TABLE_ENTRY_SIZE as u32, 8, 64, 0);
    msix.enabled = false;
    let offset = msix.msix_cap_offset as usize + MSIX_CAP_CONTROL as usize;
    let val = le_read_u16(&config, offset).unwrap();
    assert!(le_write_u16(&mut config, offset, val | MSIX_CAP_ENABLE));
    msix.set_pending_vector(0);
    let due = msix.write_config(&config, 0);

    assert!(!msix.func_masked);
    assert!(msix.enabled);
    assert!(due.is_empty());
    assert!(msix.is_vector_pending(0));
}

#[test]
fn test_little_endian_helpers() {
    let mut buf = vec![0u8; 10];
    assert!(le_write_u64(&mut buf, 1, 0x0102_0304_0506_0708));
    assert_eq!(buf, vec![0, 8, 7, 6, 5, 4, 3, 2, 1, 0]);
    assert_eq!(le_read_u64(&buf, 1), Some(0x0102_0304_0506_0708));
    assert_eq!(le_read_u64(&buf, 3), None);
    assert_eq!(le_read_u32(&buf, 5), Some(0x0102_0304));
    assert_eq!(le_read_u32(&buf, 7), None);
    assert_eq!(le_read_u16(&buf, 8), Some(0x0001));
    assert_eq!(le_read_u16(&buf, 9), None);
    assert_eq!(le_read_u16(&buf, usize::MAX), None);
    assert!(!le_write_u64(&mut buf, 3, 1));
    assert!(!le_write_u32(&mut buf, 7, 1));
    assert!(!le_write_u16(&mut buf, 9, 1));
    assert!(le_write_u16(&mut buf, 8, 0xBEEF));
    assert!(le_write_u32(&mut buf, 0, 0xAABB_CCDD));
    assert_eq!(buf, vec![0xDD, 0xCC, 0xBB, 0xAA, 5, 4, 3, 2, 0xEF, 0xBE]);
}

#[test]
fn test_message_control_bits() {
    let mut config = vec![0u8; 128];
    assert!(!is_msix_enabled(64, &config));
    assert!(!is_msix_func_masked(64, &config));
    assert!(le_write_u16(&mut config, 66, MSIX_CAP_ENABLE | 3));
    assert!(is_msix_enabled(64, &config));
    assert!(!is_msix_func_masked(64, &config));
    assert!(le_write_u16(&mut config, 66, MSIX_CAP_FUNC_MASK));
    assert!(!is_msix_enabled(64, &config));
    assert!(is_msix_func_masked(64, &config));
}

#[test]
fn test_notify_and_reset() {
    let mut msix = Msix::new(2 * MSIX_TABLE_ENTRY_SIZE as u32, 8, 64, 7);
    assert!(le_write_u32(&mut msix.table, 16, 0xFEE0_0000));
    assert!(le_write_u32(&mut msix.table, 24, 0x41));
    // a vector that the table does not hold
    assert_eq!(msix.notify(2, 7), None);
    assert!(!msix.is_vector_pending(2));
    // a masked vector becomes pending
    assert_eq!(msix.notify(1, 7), None);
    assert!(msix.is_vector_pending(1));
    assert!(!msix.is_vector_pending(0));
    msix.clear_pending_vector(1);
    // the message of a vector that is not masked is due
    msix.func_masked = false;
    msix.table[(MSIX_TABLE_ENTRY_SIZE + MSIX_TABLE_VEC_CTL) as usize] &= !MSIX_TABLE_MASK_BIT;
    assert_eq!(
        msix.notify(1, 7),
        Some(Message { address_lo: 0xFEE0_0000, address_hi: 0, data: 0x41 })
    );
    assert!(!msix.is_vector_pending(1));

    // the pending bit of a vector stands in the word at a 64th of its
    // number
    let mut wide = Msix::new(MSIX_TABLE_ENTRY_SIZE as u32, 16, 64, 0);
    wide.set_pending_vector(130);
    assert_eq!(le_read_u64(&wide.pba, 2), Some(1 << 2));
    assert!(wide.is_vector_pending(130));

    msix.set_pending_vector(0);
    msix.reset();
    assert!(msix.func_masked && msix.enabled);
    assert!(!msix.is_vector_pending(0));
    assert_eq!(msix.get_message(1), Message { address_lo: 0, address_hi: 0, data: 0 });
    assert!(msix.table[MSIX_TABLE_VEC_CTL as usize] & MSIX_TABLE_MASK_BIT > 0);
    assert_eq!(msix.dev_id, 7);
}

#[test]
fn test_update_dev_id() {
    let mut dev_id = 0u16;
    update_dev_id(0, 0, &mut dev_id);
    assert_eq!(dev_id, 0);
    update_dev_id(3, 0x28, &mut dev_id);
    assert_eq!(dev_id, 0x0328);
    update_dev_id(0xFF, 0xFF, &mut dev_id);
    assert_eq!(dev_id, 0xFFFF);
}

#[test]
fn test_short_tables() {
    // a table that ends behind the mask byte of its second vector
    let mut msix = Msix::new(16 + 13, 8, 64, 0);
    msix.func_masked = false;
    assert!(!msix.is_vector_masked(1));
    msix.table[28] |= MSIX_TABLE_MASK_BIT;
    assert!(msix.is_vector_masked(1));
    // a table that ends behind the message of its second vector
    let mut msix = Msix::new(16 + 12, 8, 64, 0);
    assert!(le_write_u32(&mut msix.table, 16, 0x11));
    assert!(le_write_u32(&mut msix.table, 24, 0x33));
    assert_eq!(msix.get_message(1), Message { address_lo: 0x11, address_hi: 0, data: 0x33 });
    // a vector that is not masked needs no pending word
    let mut msix = Msix::new(16, 0, 64, 0);
    msix.func_masked = false;
    msix.table[12] &= !MSIX_TABLE_MASK_BIT;
    assert!(le_write_u32(&mut msix.table, 8, 0x55));
    assert_eq!(
        msix.notify(0, 0),
        Some(Message { address_lo: 0, address_hi: 0, data: 0x55 })
    );
}
