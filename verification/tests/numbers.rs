use sigil_frontends::decimal::{fold_pow_decimal, mul_u64_decimal, parse_u64_digits};
use sigil_frontends::parser::{emit_arg_discard_safe, Expr, is_decimal_digits, is_elementary_cast, keccak256_hex_literal, safemath_binop, struct_map_synth_name, BinOp};

#[test]
fn fold_pow_gives_exact_powers() {
    assert_eq!(fold_pow_decimal(b"10", b"18").unwrap(), b"1000000000000000000".to_vec());
    assert_eq!(fold_pow_decimal(b"2", b"8").unwrap(), b"256".to_vec());
    assert_eq!(fold_pow_decimal(b"2", b"255").unwrap(), b"57896044618658097711785492504343953926634992332820282019728792003956564819968".to_vec());
}

#[test]
fn fold_pow_refuses_out_of_range_powers() {
    assert!(fold_pow_decimal(b"2", b"256").is_none());
    assert!(fold_pow_decimal(b"10", b"78").is_none());
}

#[test]
fn decimal_multiplication_is_exact() {
    assert_eq!(mul_u64_decimal(b"123456789", 1000), b"123456789000".to_vec());
    assert_eq!(mul_u64_decimal(b"0", 7), b"0".to_vec());
}

#[test]
fn u64_digits_parse_and_overflow() {
    assert_eq!(parse_u64_digits(b"18446744073709551615"), Some(u64::MAX));
    assert_eq!(parse_u64_digits(b"18446744073709551616"), None);
    assert_eq!(parse_u64_digits(b"007"), Some(7));
}

#[test]
fn safemath_names_map_to_checked_ops() {
    assert_eq!(safemath_binop("add"), Some(BinOp::Add));
    assert_eq!(safemath_binop("mod"), Some(BinOp::Mod));
    assert_eq!(safemath_binop("pow"), None);
}

#[test]
fn struct_map_synth_names() {
    assert_eq!(struct_map_synth_name("users", "balance"), "__fe_sm_5_users_balance");
}

#[test]
fn elementary_casts() {
    assert!(is_elementary_cast("uint8"));
    assert!(is_elementary_cast("bytes32"));
    assert!(is_elementary_cast("address"));
    assert!(!is_elementary_cast("uint7"));
    assert!(!is_elementary_cast("bytes33"));
    assert!(!is_elementary_cast("Foo"));
}

#[test]
fn decimal_digit_texts() {
    assert!(is_decimal_digits("0123"));
    assert!(!is_decimal_digits(""));
    assert!(!is_decimal_digits("0x12"));
}

#[test]
fn keccak_of_a_literal_is_hex() {
    let h = keccak256_hex_literal("hello");
    assert_eq!(h, "0x1c8aff950685c2ed4bc3174f3472287b56d9517b9c948127319a09a7a36deac8");
}

#[test]
fn emit_args_that_read_only_are_discardable() {
    let v = Expr::Var("x".to_string(), 0..1);
    assert!(emit_arg_discard_safe(&v));
}
