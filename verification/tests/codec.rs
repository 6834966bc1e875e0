use myrust::util::radix32::{from_radix_32, radix_32};

#[test]
fn encode_zero_is_single_zero_symbol() {
    assert_eq!(radix_32(0).to_text(), "0");
}

#[test]
fn encode_small_values() {
    assert_eq!(radix_32(1).to_text(), "1");
    assert_eq!(radix_32(9).to_text(), "9");
    assert_eq!(radix_32(10).to_text(), "a");
    assert_eq!(radix_32(31).to_text(), "v");
    assert_eq!(radix_32(32).to_text(), "10");
    assert_eq!(radix_32(33).to_text(), "11");
    assert_eq!(radix_32(1023).to_text(), "vv");
    assert_eq!(radix_32(1024).to_text(), "100");
}

#[test]
fn encode_length_and_alphabet_bounds() {
    let samples: [u128; 7] = [
        0,
        1,
        31,
        0xDEADBEEF,
        u64::MAX as u128,
        1 << 127,
        u128::MAX,
    ];
    for n in samples {
        let text = radix_32(n).to_text();
        assert!(text.len() >= 1);
        assert!(text.len() <= 26);
        for c in text.chars() {
            assert!("0123456789abcdefghijklmnopqrstuv".contains(c));
        }
    }
}

#[test]
fn encode_max_value() {
    let text = radix_32(u128::MAX).to_text();
    assert_eq!(text.len(), 26);
    assert_eq!(text, format!("7{}", "v".repeat(25)));
}

#[test]
fn round_trip_samples() {
    let samples: [u128; 9] = [
        0,
        1,
        31,
        32,
        12345,
        0xDEADBEEF,
        u64::MAX as u128,
        1 << 127,
        u128::MAX,
    ];
    for n in samples {
        let text = radix_32(n).to_text();
        assert_eq!(from_radix_32(&text), Some(n));
    }
}

#[test]
fn decode_rejects_empty() {
    assert_eq!(from_radix_32(""), None);
}

#[test]
fn decode_rejects_over_long() {
    let s = "1".repeat(27);
    assert_eq!(from_radix_32(&s), None);
}

#[test]
fn decode_rejects_bad_character() {
    assert_eq!(from_radix_32("abc!def"), None);
    assert_eq!(from_radix_32("!"), None);
    assert_eq!(from_radix_32("ABC"), None);
    assert_eq!(from_radix_32("12w"), None);
}

#[test]
fn decode_rejects_out_of_range() {
    // The smallest 26-symbol string past the 128-bit range.
    let over = format!("8{}", "0".repeat(25));
    assert_eq!(from_radix_32(&over), None);
    let all_high = "v".repeat(26);
    assert_eq!(from_radix_32(&all_high), None);
    // The largest in-range string still decodes.
    assert_eq!(from_radix_32(&format!("7{}", "v".repeat(25))), Some(u128::MAX));
}

#[test]
fn decode_values() {
    assert_eq!(from_radix_32("0"), Some(0));
    assert_eq!(from_radix_32("10"), Some(32));
    assert_eq!(from_radix_32("v"), Some(31));
    assert_eq!(from_radix_32(&format!("7{}", "v".repeat(25))), Some(u128::MAX));
}
