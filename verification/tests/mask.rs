use ctest::mask::{parse_mask, MaskError};

fn parse(s: &str) -> Result<u16, MaskError> {
    parse_mask(Some(s.to_string()))
}

#[test]
fn mask_default_when_absent() {
    assert_eq!(parse_mask(None), Ok(0x03EA));
}

#[test]
fn mask_hex_and_decimal() {
    assert_eq!(parse("0x3EA"), Ok(0x03EA));
    assert_eq!(parse("0X1f"), Ok(31));
    assert_eq!(parse("1002"), Ok(1002));
    assert_eq!(parse("+5"), Ok(5));
    assert_eq!(parse("0x+ff"), Ok(255));
    assert_eq!(parse("0"), Ok(0));
    assert_eq!(parse("0xFFFF"), Ok(0xFFFF));
    assert_eq!(parse("65535"), Ok(65535));
    assert_eq!(parse("007"), Ok(7));
}

#[test]
fn mask_is_trimmed() {
    assert_eq!(parse("  1002\t\n"), Ok(1002));
    assert_eq!(parse("\u{3000}0x10\u{2028}"), Ok(16));
}

#[test]
fn mask_errors() {
    assert_eq!(parse(""), Err(MaskError::Empty));
    assert_eq!(parse("   "), Err(MaskError::Empty));
    assert_eq!(parse("0x"), Err(MaskError::Empty));
    assert_eq!(parse("+"), Err(MaskError::InvalidDigit));
    assert_eq!(parse("-"), Err(MaskError::InvalidDigit));
    assert_eq!(parse("-1"), Err(MaskError::InvalidDigit));
    assert_eq!(parse("12a"), Err(MaskError::InvalidDigit));
    assert_eq!(parse("0xg"), Err(MaskError::InvalidDigit));
    assert_eq!(parse("1 2"), Err(MaskError::InvalidDigit));
    assert_eq!(parse("65536"), Err(MaskError::PosOverflow));
    assert_eq!(parse("0x10000"), Err(MaskError::PosOverflow));
    assert_eq!(parse("99999x"), Err(MaskError::PosOverflow));
}

#[test]
fn mask_agrees_with_std() {
    let cases = [
        "0", "+0", "1", "10", "255", "65535", "65536", "0x0", "0xff", "0XAbC", "+", "-", "",
        " 42 ", "0x+1", "1e3", "99999x", "x99999", "0x1234z", "00000000000000000001",
    ];
    for c in cases {
        let s = c.trim();
        let expected = if let Some(hex) = s.strip_prefix("0x").or_else(|| s.strip_prefix("0X")) {
            u16::from_str_radix(hex, 16)
        } else {
            s.parse::<u16>()
        };
        match (parse(c), expected) {
            (Ok(a), Ok(b)) => assert_eq!(a, b, "{:?}", c),
            (Err(a), Err(b)) => {
                let kind = match b.kind() {
                    std::num::IntErrorKind::Empty => MaskError::Empty,
                    std::num::IntErrorKind::InvalidDigit => MaskError::InvalidDigit,
                    std::num::IntErrorKind::PosOverflow => MaskError::PosOverflow,
                    _ => panic!("unexpected kind for {:?}", c),
                };
                assert_eq!(a, kind, "{:?}", c);
            }
            (a, b) => panic!("{:?}: {:?} vs {:?}", c, a, b),
        }
    }
}

#[test]
fn mask_decimal_roundtrip() {
    for m in [0u16, 1, 9, 10, 99, 100, 1002, 12345, 65535] {
        assert_eq!(parse(&m.to_string()), Ok(m));
    }
}
