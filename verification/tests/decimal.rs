use pathfinder::decimal::{parse_dec, u64_to_dec};

#[test]
fn renders_digits_most_significant_first() {
    assert_eq!(u64_to_dec(0), b"0".to_vec());
    assert_eq!(u64_to_dec(7), b"7".to_vec());
    assert_eq!(u64_to_dec(15000), b"15000".to_vec());
    assert_eq!(u64_to_dec(u64::MAX), b"18446744073709551615".to_vec());
}

#[test]
fn parses_exactly_digit_strings() {
    assert_eq!(parse_dec(&b"0".to_vec()), Some(0));
    assert_eq!(parse_dec(&b"42".to_vec()), Some(42));
    assert_eq!(parse_dec(&b"007".to_vec()), Some(7));
    assert_eq!(parse_dec(&b"".to_vec()), None);
    assert_eq!(parse_dec(&b"12a".to_vec()), None);
    assert_eq!(parse_dec(&b"+12".to_vec()), None);
    assert_eq!(parse_dec(&b" 12".to_vec()), None);
}

#[test]
fn parse_rejects_overflow() {
    assert_eq!(parse_dec(&b"99999999999999999999999999".to_vec()), None);
}

#[test]
fn render_then_parse_is_identity() {
    for n in [0u64, 1, 9, 10, 99, 100, 4096, 123456789] {
        let bytes = u64_to_dec(n);
        assert_eq!(parse_dec(&bytes), Some(n as usize));
    }
}
