use gacha_session::token::new_token;
use gacha_session::token::parse_token_text;
use gacha_session::token::token_text;

#[test]
fn renders_zero() {
    assert_eq!(token_text(0), b"0".to_vec());
}

#[test]
fn renders_small_values() {
    assert_eq!(token_text(7), b"7".to_vec());
    assert_eq!(token_text(10), b"10".to_vec());
    assert_eq!(token_text(405), b"405".to_vec());
    assert_eq!(token_text(1000), b"1000".to_vec());
}

#[test]
fn renders_largest_token() {
    assert_eq!(
        token_text(u128::MAX),
        b"340282366920938463463374607431768211455".to_vec()
    );
}

#[test]
fn parses_canonical_digits() {
    assert_eq!(parse_token_text(b"0"), Some(0));
    assert_eq!(parse_token_text(b"123"), Some(123));
    assert_eq!(
        parse_token_text(b"340282366920938463463374607431768211455"),
        Some(u128::MAX)
    );
}

#[test]
fn rejects_empty_value() {
    assert_eq!(parse_token_text(b""), None);
}

#[test]
fn rejects_leading_zero() {
    assert_eq!(parse_token_text(b"0123"), None);
    assert_eq!(parse_token_text(b"00"), None);
}

#[test]
fn rejects_stray_bytes() {
    assert_eq!(parse_token_text(b"12a"), None);
    assert_eq!(parse_token_text(b"-1"), None);
    assert_eq!(parse_token_text(b" 1"), None);
}

#[test]
fn rejects_value_past_128_bits() {
    assert_eq!(
        parse_token_text(b"340282366920938463463374607431768211456"),
        None
    );
    assert_eq!(
        parse_token_text(b"999999999999999999999999999999999999999999"),
        None
    );
}

#[test]
fn round_trips_rendered_tokens() {
    let samples: Vec<u128> = vec![0, 1, 9, 10, 99, 100, 12345678901234567890, u128::MAX];
    for v in samples {
        assert_eq!(parse_token_text(&token_text(v)), Some(v));
    }
}

#[test]
fn sequential_tokens_never_collide() {
    for _ in 0..1_000_000u32 {
        let a = new_token();
        let b = new_token();
        assert_ne!(a, b);
    }
}

#[test]
fn fresh_token_is_not_constant() {
    let first = new_token();
    let mut saw_other = false;
    for _ in 0..8 {
        if new_token() != first {
            saw_other = true;
        }
    }
    assert!(saw_other);
}
