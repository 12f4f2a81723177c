use scru128_check::codec::Identifier;
use scru128_check::codec::encode;

fn make_value(ts: u64, hi: u32, lo: u32, entropy: u32) -> u128 {
    ((ts as u128) << 80) | ((hi as u128) << 56) | ((lo as u128) << 32) | entropy as u128
}

#[test]
fn decode_extracts_fields() {
    let ts: u64 = 0x0123_4567_89ab;
    let hi: u32 = 0x00de_ad01;
    let lo: u32 = 0x00be_ef02;
    let entropy: u32 = 0xcafe_babe;
    let v = make_value(ts, hi, lo, entropy);
    let token = encode(v);
    let id = Identifier::new(&token).expect("well-formed token must decode");
    assert_eq!(id.int_value, v);
    assert_eq!(id.timestamp, ts);
    assert_eq!(id.counter_hi, hi);
    assert_eq!(id.counter_lo, lo);
    assert_eq!(id.entropy, entropy);
    assert_eq!(id.str_bytes, token);
}

#[test]
fn round_trip_reconstructs_text() {
    let v = make_value(1700000000123, 0x123456, 0xabcdef, 0x01020304);
    let token = encode(v);
    let id = Identifier::new(&token).expect("well-formed token must decode");
    assert_eq!(encode(id.int_value), token);
}

#[test]
fn round_trip_at_integer_boundary() {
    let token = encode(u128::MAX);
    let id = Identifier::new(&token).expect("the largest value still fits");
    assert_eq!(id.int_value, u128::MAX);
    assert_eq!(encode(id.int_value), token);
}

#[test]
fn zero_value_token_decodes() {
    let token = encode(0);
    assert_eq!(token, vec![b'0'; 25]);
    let id = Identifier::new(&token).expect("the all-zero token decodes");
    assert_eq!(id.int_value, 0);
}

#[test]
fn wrong_length_rejected() {
    let token = encode(12345);
    assert!(Identifier::new(&token[..24]).is_none());
    let mut long = token.clone();
    long.push(b'0');
    assert!(Identifier::new(&long).is_none());
    assert!(Identifier::new(b"").is_none());
}

#[test]
fn invalid_symbol_rejected() {
    for bad in [b'~', b'!', b':', b'@', b'[', b'`', b'{', 0x00, 0xff] {
        let mut token = encode(98765);
        token[7] = bad;
        assert!(
            Identifier::new(&token).is_none(),
            "byte {bad:#04x} lies outside the alphabet"
        );
    }
}

#[test]
fn overflowing_token_rejected() {
    // 25 times 'Z' encodes 36^25 - 1, which exceeds the 128-bit width.
    let token = vec![b'Z'; 25];
    assert!(Identifier::new(&token).is_none());
}

#[test]
fn decoding_ignores_letter_case() {
    let v = make_value(1700000000123, 10, 20, 30);
    let upper = encode(v);
    let lower: Vec<u8> = upper.iter().map(|b| b.to_ascii_lowercase()).collect();
    assert_ne!(upper, lower, "the token should contain at least one letter");
    let a = Identifier::new(&upper).expect("canonical case decodes");
    let b = Identifier::new(&lower).expect("lower case decodes");
    assert_eq!(a.int_value, b.int_value);
}

#[test]
fn text_order_agrees_with_value_order() {
    let samples = [
        0u128,
        1,
        35,
        36,
        1295,
        make_value(1000, 0, 1, 0),
        make_value(1000, 0, 2, 0),
        make_value(1000, 1, 0, 0),
        make_value(2000, 0, 0, 0),
        u128::MAX - 1,
        u128::MAX,
    ];
    for &a in &samples {
        for &b in &samples {
            let ta = encode(a);
            let tb = encode(b);
            assert_eq!(a < b, ta < tb, "order must agree for {a} and {b}");
        }
    }
}
