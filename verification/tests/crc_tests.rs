use ogg_pages::crc32::Crc32;

#[test]
fn new_digest_is_zero() {
    let crc = Crc32::new();
    assert_eq!(crc.digest(), 0);
}

#[test]
fn zero_bytes_keep_zero_digest() {
    // Table entry 0 is 0, so feeding zeros never leaves the zero state.
    let mut crc = Crc32::new();
    for _ in 0..64 {
        crc.process_byte(0);
    }
    assert_eq!(crc.digest(), 0);
}

#[test]
fn first_table_entry_reachable() {
    // From the zero state, byte 1 selects table entry 1, which is the
    // polynomial itself: entry 1 starts as 1 << 24 and is shifted left
    // seven times before the top bit folds the polynomial in once.
    let mut crc = Crc32::new();
    crc.process_byte(1);
    assert_eq!(crc.digest(), 0x04C11DB7);
}

#[test]
fn digest_is_observational() {
    let mut crc = Crc32::new();
    crc.process_byte(0xAB);
    let first = crc.digest();
    let second = crc.digest();
    assert_eq!(first, second);
}

#[test]
fn process_u16_feeds_little_endian_bytes() {
    let mut a = Crc32::new();
    a.process_u16(0x0102);
    let mut b = Crc32::new();
    b.process_byte(0x02);
    b.process_byte(0x01);
    assert_eq!(a.digest(), b.digest());
}

#[test]
fn process_u32_feeds_little_endian_bytes() {
    let mut a = Crc32::new();
    a.process_u32(0x01020304);
    let mut b = Crc32::new();
    b.process_byte(0x04);
    b.process_byte(0x03);
    b.process_byte(0x02);
    b.process_byte(0x01);
    assert_eq!(a.digest(), b.digest());
}

#[test]
fn process_u64_feeds_little_endian_bytes() {
    let mut a = Crc32::new();
    a.process_u64(0x0102030405060708);
    let mut b = Crc32::new();
    for byte in [0x08u8, 0x07, 0x06, 0x05, 0x04, 0x03, 0x02, 0x01] {
        b.process_byte(byte);
    }
    assert_eq!(a.digest(), b.digest());
}
