use rust_repos::num::{parse_usize, render_usize};

#[test]
fn renders_decimal() {
    assert_eq!(render_usize(0), b"0".to_vec());
    assert_eq!(render_usize(7), b"7".to_vec());
    assert_eq!(render_usize(10), b"10".to_vec());
    assert_eq!(render_usize(12345), b"12345".to_vec());
    assert_eq!(
        render_usize(usize::MAX),
        usize::MAX.to_string().into_bytes()
    );
}

#[test]
fn parses_digit_strings() {
    assert_eq!(parse_usize(b""), None);
    assert_eq!(parse_usize(b"0"), Some(0));
    assert_eq!(parse_usize(b"007"), Some(7));
    assert_eq!(parse_usize(b"12345"), Some(12345));
    assert_eq!(parse_usize(b"12a45"), None);
    assert_eq!(parse_usize(b"-1"), None);
    assert_eq!(parse_usize(b"99999999999999999999999999"), None);
}

#[test]
fn parse_inverts_render() {
    for n in [0usize, 1, 9, 10, 100, 65535, usize::MAX] {
        assert_eq!(parse_usize(&render_usize(n)), Some(n));
    }
}
