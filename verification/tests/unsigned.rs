use x3_counter::database::unsigned::{
    decode_u32, decode_u64, encode_u32, encode_u64, PsqlU, PsqlU32, PsqlU64,
};

#[test]
fn small_numbers_keep_their_value() {
    assert_eq!(encode_u64(0), 0);
    assert_eq!(encode_u64(42), 42);
    assert_eq!(decode_u64(42), 42);
    assert_eq!(encode_u32(7), 7);
    assert_eq!(decode_u32(7), 7);
}

#[test]
fn numbers_above_the_sign_bit_become_negative() {
    assert_eq!(encode_u64(u64::MAX), -1);
    assert_eq!(encode_u64(1 << 63), i64::MIN);
    assert_eq!(encode_u64(i64::MAX as u64), i64::MAX);
    assert_eq!(encode_u32(u32::MAX), -1);
    assert_eq!(encode_u32(1 << 31), i32::MIN);
}

#[test]
fn negative_columns_read_as_large_numbers() {
    assert_eq!(decode_u64(-1), u64::MAX);
    assert_eq!(decode_u64(i64::MIN), 1 << 63);
    assert_eq!(decode_u32(-1), u32::MAX);
    assert_eq!(decode_u32(i32::MIN), 1 << 31);
}

#[test]
fn conversions_agree_with_reinterpreting_casts() {
    let samples: Vec<u64> = vec![
        0,
        1,
        2,
        1234567890123,
        i64::MAX as u64,
        (i64::MAX as u64) + 1,
        u64::MAX - 1,
        u64::MAX,
        1072524113411362846,
    ];
    for x in samples {
        assert_eq!(encode_u64(x), x as i64);
        assert_eq!(decode_u64(x as i64), x);
        assert_eq!(decode_u64(encode_u64(x)), x);
    }
    let small: Vec<u32> = vec![0, 1, 5, i32::MAX as u32, (i32::MAX as u32) + 1, u32::MAX];
    for x in small {
        assert_eq!(encode_u32(x), x as i32);
        assert_eq!(decode_u32(x as i32), x);
        assert_eq!(decode_u32(encode_u32(x)), x);
    }
}

#[test]
fn from_impls_round_trip() {
    let id: PsqlU64 = PsqlU64::from(u64::MAX);
    assert_eq!(id, PsqlU(u64::MAX));
    assert_eq!(i64::from(id), -1);
    assert_eq!(PsqlU64::from(-1i64), PsqlU(u64::MAX));
    assert_eq!(u64::from(PsqlU64::from(-2i64)), u64::MAX - 1);
    let count: PsqlU32 = PsqlU32::from(3u32);
    assert_eq!(i32::from(count), 3);
    assert_eq!(u32::from(PsqlU32::from(-1i32)), u32::MAX);
    assert_eq!(PsqlU32::from(17i32).0, 17);
}

#[test]
fn wrapped_numbers_order_as_unsigned() {
    assert!(PsqlU(1u64) < PsqlU(u64::MAX));
    assert!(PsqlU(3u32) > PsqlU(2u32));
}

#[test]
fn wrapped_numbers_are_written_in_decimal() {
    assert_eq!(PsqlU(0u64).to_text(), "0");
    assert_eq!(PsqlU(u64::MAX).to_text(), "18446744073709551615");
    assert_eq!(PsqlU64::from(-1i64).to_text(), "18446744073709551615");
    assert_eq!(PsqlU(42u32).to_text(), "42");
    assert_eq!(PsqlU32::from(-1i32).to_text(), "4294967295");
}
