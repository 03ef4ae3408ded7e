use binsard::{DecodeHelper, EncodeHelper};

fn roundtrip_bits(enc_fn: impl FnOnce(&mut EncodeHelper), dec_fn: impl FnOnce(&mut DecodeHelper, &[u8])) {
    let mut enc = EncodeHelper::default();
    enc_fn(&mut enc);
    let data = enc.finish();
    let mut dec = DecodeHelper::default();
    dec_fn(&mut dec, &data);
}

#[test]
fn write_bit_and_read_bit_roundtrip() {
    roundtrip_bits(
        |enc| {
            enc.write_bit(true);
            enc.write_bit(false);
            enc.write_bit(true);
        },
        |dec, data| {
            assert!(dec.read_bit(data).unwrap());
            assert!(!dec.read_bit(data).unwrap());
            assert!(dec.read_bit(data).unwrap());
        },
    );
}

#[test]
fn write_partly_4bit_roundtrip() {
    roundtrip_bits(
        |enc| enc.write_partly(10u64, 4),
        |dec, data| assert_eq!(dec.read_partly(data, 4).unwrap() as u8, 10),
    );
}

#[test]
fn write_partly_12bit_roundtrip() {
    roundtrip_bits(
        |enc| enc.write_partly(3000u64, 12),
        |dec, data| assert_eq!(dec.read_partly(data, 12).unwrap() as u16, 3000),
    );
}

#[test]
fn write_partly_max_values() {
    roundtrip_bits(
        |enc| {
            enc.write_partly(0xFu64, 4);
            enc.write_partly(0xFFFu64, 12);
            enc.write_partly(0x1Fu64, 5);
        },
        |dec, data| {
            assert_eq!(dec.read_partly(data, 4).unwrap(), 0xF);
            assert_eq!(dec.read_partly(data, 12).unwrap(), 0xFFF);
            assert_eq!(dec.read_partly(data, 5).unwrap(), 0x1F);
        },
    );
}

#[test]
fn write_partly_zero_values() {
    roundtrip_bits(
        |enc| {
            enc.write_partly(0u64, 4);
            enc.write_partly(0u64, 12);
        },
        |dec, data| {
            assert_eq!(dec.read_partly(data, 4).unwrap(), 0);
            assert_eq!(dec.read_partly(data, 12).unwrap(), 0);
        },
    );
}

#[test]
fn write_partly_large_value_42bit() {
    let value: i64 = 1032123123;
    roundtrip_bits(
        |enc| enc.write_partly(value as u64, 42),
        |dec, data| assert_eq!(dec.read_partly(data, 42).unwrap() as i64, value),
    );
}

#[test]
fn mixed_bits_and_partly() {
    roundtrip_bits(
        |enc| {
            enc.write_bit(true);
            enc.write_bit(false);
            enc.write_partly(10u64, 4);
            enc.write_partly(15u64, 5);
            enc.write_partly(1032123123u64, 42);
            enc.write_bit(true);
        },
        |dec, data| {
            assert!(dec.read_bit(data).unwrap());
            assert!(!dec.read_bit(data).unwrap());
            assert_eq!(dec.read_partly(data, 4).unwrap() as u8, 10);
            assert_eq!(dec.read_partly(data, 5).unwrap() as u8, 15);
            assert_eq!(dec.read_partly(data, 42).unwrap() as i64, 1032123123);
            assert!(dec.read_bit(data).unwrap());
        },
    );
}

#[test]
fn bit_idx_tracks_correctly() {
    let mut enc = EncodeHelper::default();
    enc.write_bit(true);
    enc.write_bit(false);
    enc.write_partly(10u64, 4);
    enc.write_partly(15u64, 5);
    enc.write_partly(1032123123u64, 42);
    enc.write_bit(true);
    assert_eq!(enc.bit_idx(), 54); // 1 + 1 + 4 + 5 + 42 + 1
}

#[test]
fn reserve_bits_skips_on_both_sides() {
    let mut enc = EncodeHelper::default();
    enc.reserve_bits(3);
    enc.write_partly(7u64, 3);
    let data = enc.finish();

    let mut dec = DecodeHelper::default();
    dec.reserve_bits(3);
    assert_eq!(dec.read_partly(&data, 3).unwrap(), 7);
}

#[test]
fn reserve_bits_zero_is_noop() {
    let mut enc = EncodeHelper::default();
    enc.reserve_bits(0);
    enc.write_bit(true);
    let data = enc.finish();

    let mut dec = DecodeHelper::default();
    dec.reserve_bits(0);
    assert!(dec.read_bit(&data).unwrap());
}

#[test]
fn has_data_empty_vs_nonempty() {
    let mut enc = EncodeHelper::default();
    assert!(!enc.has_data());
    enc.write_bit(false);
    assert!(enc.has_data());
}

#[test]
fn finish_returns_reversed_bytes() {
    let mut enc = EncodeHelper::default();
    enc.write_partly(0xABu64, 8);
    enc.write_partly(0xCDu64, 8);
    let data = enc.finish();
    assert_eq!(data, vec![0xCD, 0xAB]);
}

#[test]
fn byte_boundary_crossing() {
    roundtrip_bits(
        |enc| {
            enc.write_partly(0b111u64, 3);
            enc.write_partly(0b11111111_11u64, 10);
        },
        |dec, data| {
            assert_eq!(dec.read_partly(data, 3).unwrap(), 0b111);
            assert_eq!(dec.read_partly(data, 10).unwrap(), 0b11111111_11);
        },
    );
}

#[test]
fn single_bit_values_in_sequence() {
    roundtrip_bits(
        |enc| {
            for i in 0..16 {
                enc.write_bit(i % 2 == 0);
            }
        },
        |dec, data| {
            for i in 0..16 {
                assert_eq!(dec.read_bit(data).unwrap(), i % 2 == 0, "bit {i}");
            }
        },
    );
}

#[test]
fn many_small_values_packed() {
    roundtrip_bits(
        |enc| {
            for i in 0..20u64 {
                enc.write_partly(i % 4, 2);
            }
        },
        |dec, data| {
            for i in 0..20u64 {
                assert_eq!(dec.read_partly(data, 2).unwrap(), i % 4, "value {i}");
            }
        },
    );
}

// --- Documented examples and edge cases of the bit helpers ---

#[test]
fn doc_example_sensor_bits_layout() {
    // channel = 9 in 4 bits, value = 3000 in 12 bits, active = true: [1, 187, 137]
    let mut enc = EncodeHelper::default();
    enc.write_partly(9, 4);
    enc.write_partly(3000, 12);
    enc.write_bit(true);
    assert_eq!(enc.finish(), vec![1, 187, 137]);
}

#[test]
fn doc_example_compact_flags_bits_layout() {
    let mut enc = EncodeHelper::default();
    enc.write_bit(true);
    enc.write_bit(false);
    enc.write_bit(true);
    enc.write_partly(7, 3);
    enc.write_partly(31, 5);
    assert_eq!(enc.finish(), vec![0x07, 0xFD]);
}

#[test]
fn write_bits_example_packs_into_one_byte() {
    let mut enc = EncodeHelper::default();
    enc.write_bit(true);
    enc.write_bit(false);
    enc.write_bit(true);
    assert_eq!(enc.finish(), vec![0b101]);
}

#[test]
fn write_partly_keeps_only_low_bits() {
    // 20 = 0b10100 written in 4 bits is read back as 0b0100.
    let mut enc = EncodeHelper::default();
    enc.write_partly(20, 4);
    let data = enc.finish();
    let mut dec = DecodeHelper::default();
    assert_eq!(dec.read_partly(&data, 4).unwrap(), 4);
}

#[test]
fn write_partly_full_64_bits() {
    let mut enc = EncodeHelper::default();
    enc.write_bit(true);
    enc.write_partly(u64::MAX - 5, 64);
    let data = enc.finish();
    assert_eq!(data.len(), 9);
    let mut dec = DecodeHelper::default();
    assert!(dec.read_bit(&data).unwrap());
    assert_eq!(dec.read_partly(&data, 64).unwrap(), u64::MAX - 5);
}

#[test]
fn read_past_end_is_eof_and_does_not_move() {
    let mut enc = EncodeHelper::default();
    enc.write_partly(5, 3);
    let data = enc.finish();
    let mut dec = DecodeHelper::default();
    assert_eq!(dec.read_partly(&data, 9), Err(binsard::DecodeError::UnexpectedEof));
    assert_eq!(dec.bit_idx(), 0);
    assert_eq!(dec.read_partly(&data, 8).unwrap(), 5);
    assert_eq!(dec.read_bit(&data), Err(binsard::DecodeError::UnexpectedEof));
    assert_eq!(dec.bit_idx(), 8);
}

#[test]
fn reserved_bits_are_zero() {
    let mut enc = EncodeHelper::default();
    enc.reserve_bits(12);
    enc.write_bit(true);
    assert_eq!(enc.bit_idx(), 13);
    let data = enc.finish();
    assert_eq!(data, vec![0x10, 0x00]);
    let mut dec = DecodeHelper::default();
    assert_eq!(dec.read_partly(&data, 12).unwrap(), 0);
    assert!(dec.read_bit(&data).unwrap());
}

#[test]
fn bit_region_read_from_end_after_data() {
    let mut enc = EncodeHelper::default();
    enc.write_partly(42, 6);
    enc.write_bit(true);
    let mut message = vec![0xDE, 0xAD, 0xBE, 0xEF];
    message.append(&mut enc.finish());
    let mut dec = DecodeHelper::default();
    assert_eq!(dec.read_partly(&message, 6).unwrap(), 42);
    assert!(dec.read_bit(&message).unwrap());
}

#[test]
fn empty_helper_finishes_empty() {
    let enc = EncodeHelper::default();
    assert!(!enc.has_data());
    assert_eq!(enc.finish(), Vec::<u8>::new());
}
