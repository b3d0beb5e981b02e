use steptrace::text::{append_i64, parse_i32, parse_u32, split, str_eq, trim, u64_text, IntParseError};

fn i64_text(n: i64) -> String {
    let mut s = String::from("");
    append_i64(&mut s, n);
    s
}

fn std_kind(e: &std::num::ParseIntError) -> IntParseError {
    match e.kind() {
        std::num::IntErrorKind::Empty => IntParseError::Empty,
        std::num::IntErrorKind::InvalidDigit => IntParseError::InvalidDigit,
        std::num::IntErrorKind::PosOverflow => IntParseError::PosOverflow,
        std::num::IntErrorKind::NegOverflow => IntParseError::NegOverflow,
        other => panic!("unexpected kind {:?}", other),
    }
}

const SAMPLES: &[&str] = &[
    "", "0", "7", "+", "-", "+0", "-0", "+12", "-12", "12a", "a12", " 12", "12 ", "1_000",
    "4294967295", "4294967296", "99999999999x", "-2147483648", "-2147483649", "2147483647",
    "2147483648", "0000000000042", "--1", "+-1", "١٢", "12\u{0}", "-x", "00", "4294967295x",
];

#[test]
fn decimal_text_matches_display() {
    for n in [0u64, 1, 9, 10, 11, 99, 100, 12345, u32::MAX as u64, u64::MAX] {
        assert_eq!(u64_text(n), n.to_string());
    }
    for n in [0i64, -1, 1, -9, -10, 42, -12345, i64::MIN, i64::MAX] {
        assert_eq!(i64_text(n), n.to_string());
    }
}

#[test]
fn parse_u32_matches_std() {
    for s in SAMPLES {
        let ours = parse_u32(s);
        match s.parse::<u32>() {
            Ok(v) => assert_eq!(ours, Ok(v), "input {:?}", s),
            Err(e) => assert_eq!(ours, Err(std_kind(&e)), "input {:?}", s),
        }
    }
}

#[test]
fn parse_i32_matches_std() {
    for s in SAMPLES {
        let ours = parse_i32(s);
        match s.parse::<i32>() {
            Ok(v) => assert_eq!(ours, Ok(v), "input {:?}", s),
            Err(e) => assert_eq!(ours, Err(std_kind(&e)), "input {:?}", s),
        }
    }
}

#[test]
fn parse_error_messages_match_std() {
    for s in SAMPLES {
        if let Err(e) = s.parse::<i32>() {
            assert_eq!(parse_i32(s).unwrap_err().message(), e.to_string());
        }
        if let Err(e) = s.parse::<u32>() {
            assert_eq!(parse_u32(s).unwrap_err().message(), e.to_string());
        }
    }
}

#[test]
fn parse_reads_back_decimal_text() {
    for n in [0u32, 5, 10, 65535, u32::MAX] {
        assert_eq!(parse_u32(&u64_text(n as u64)), Ok(n));
    }
    for n in [0i32, -5, 10, i32::MIN, i32::MAX] {
        assert_eq!(parse_i32(&i64_text(n as i64)), Ok(n));
    }
}

#[test]
fn trim_matches_std() {
    for s in ["", " ", "  a  ", "\t\na b\r\n", "\u{3000}x\u{2029}", "x", " \u{85}y\u{a0}", "\u{200b}z"] {
        assert_eq!(trim(s), s.trim(), "input {:?}", s);
    }
}

#[test]
fn split_matches_std() {
    for s in ["", ",", "a,b", "1, 2,3 ,4", ",,x,", "no separators"] {
        let expected: Vec<String> = s.split(',').map(|p| p.to_string()).collect();
        assert_eq!(split(s, ','), expected, "input {:?}", s);
    }
}

#[test]
fn str_eq_compares_text() {
    assert!(str_eq("window", "window"));
    assert!(!str_eq("window", "windows"));
    assert!(!str_eq("", "a"));
    assert!(str_eq("", ""));
}
