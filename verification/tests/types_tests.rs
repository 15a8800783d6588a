use ogg_pages::types::{Flags, GranulePosition};

#[test]
fn test_header_flags() {
    for i in 0..255u8 {
        let reference = Flags {
            continued: (i & 0x01) != 0,
            first_page: (i & 0x02) != 0,
            last_page: (i & 0x04) != 0,
        };

        assert_eq!(reference, Flags::from(i));
    }
}

#[test]
fn test_granule_position() {
    // A deterministic linear-congruential walk over u64 values stands in
    // for random sampling: 0xFFFF varied positions below the sentinel.
    let mut x: u64 = 0x853c_49e6_748f_ea9b;
    let mut tested: u32 = 0;
    while tested < 0xFFFF {
        x = x.wrapping_mul(6364136223846793005).wrapping_add(1442695040888963407);
        let pos = x % 0xFFFFFFFFFFFFFFFFu64;
        assert_eq!(GranulePosition::Position(pos), GranulePosition::from(pos));
        tested += 1;
    }

    let i = 0xFFFFFFFFFFFFFFFFu64;
    assert_eq!(GranulePosition::NoPosition, GranulePosition::from(i));
}

#[test]
fn flags_round_trip_low_bytes() {
    for b in 0..8u8 {
        assert_eq!(Flags::from(b).to_u8(), b);
    }
}

#[test]
fn flags_encode_then_decode() {
    for b in 0..8u8 {
        let f = Flags::from(b);
        let e = f.to_u8();
        assert_eq!(Flags::from(e), f);
    }
}

#[test]
fn flags_reserved_bits_dropped() {
    // Decoding ignores bits 3..8, so re-encoding keeps only the low three.
    assert_eq!(Flags::from(0xF5).to_u8(), 0x05);
    assert_eq!(Flags::from(0x08).to_u8(), 0x00);
    assert_eq!(Flags::from(0xFF).to_u8(), 0x07);
}

#[test]
fn granule_round_trip_samples() {
    assert_eq!(GranulePosition::from(0u64).to_u64(), 0);
    assert_eq!(GranulePosition::from(1u64).to_u64(), 1);
    assert_eq!(GranulePosition::from(u64::MAX - 1).to_u64(), u64::MAX - 1);
    assert_eq!(GranulePosition::from(u64::MAX), GranulePosition::NoPosition);
    assert_eq!(GranulePosition::NoPosition.to_u64(), u64::MAX);
    assert_eq!(GranulePosition::Position(42).to_u64(), 42);
}
