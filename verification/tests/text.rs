use zenproxy::risk::{RiskScore, TWO_BITS};
use zenproxy::text::{
    chars_of, compare_text, decimal_text, has_text, is_space_char, parse_usize, same_chars,
    same_ignoring_ascii_case, same_text, to_ascii_lower, trim_text, NumberError,
};

const SAMPLES: [&str; 16] = [
    "", "a", "A", "ab", "abc", "B", "Z", "z", "zzz", "é", "éa", "日本", "日本語", "\u{10ffff}", "a\u{0}", " ",
];

#[test]
fn texts_compare_as_strings_do() {
    for a in SAMPLES {
        for b in SAMPLES {
            let expected: i8 = if a < b {
                -1
            } else if a > b {
                1
            } else {
                0
            };
            assert_eq!(compare_text(a, b), expected, "{a:?} {b:?}");
            assert_eq!(same_text(a, b), a == b, "{a:?} {b:?}");
        }
    }
}

#[test]
fn texts_agree_up_to_ascii_case() {
    for a in SAMPLES {
        for b in SAMPLES {
            assert_eq!(same_ignoring_ascii_case(a, b), a.eq_ignore_ascii_case(b), "{a:?} {b:?}");
        }
    }
    assert!(same_ignoring_ascii_case("us", "US"));
    assert!(same_ignoring_ascii_case("uS", "Us"));
    assert!(!same_ignoring_ascii_case("US", "USA"));
    assert!(!same_ignoring_ascii_case("É", "é"));
}

#[test]
fn lower_case_is_ascii_only() {
    let text = "AbZ-09 É日@[`{";
    let lower: String = to_ascii_lower(text).into_iter().collect();
    assert_eq!(lower, text.to_ascii_lowercase());
    assert!(same_chars(&chars_of("host"), "host"));
    assert!(!same_chars(&chars_of("hosts"), "host"));
}

#[test]
fn white_space_is_that_of_char() {
    for n in 0..0x11_0000u32 {
        if let Some(c) = char::from_u32(n) {
            assert_eq!(is_space_char(c), c.is_whitespace(), "{n:#x}");
        }
    }
}

#[test]
fn trimming_takes_outer_white_space_off() {
    for text in ["", " ", "\t\r\n", " a ", "a b", "\u{3000}日 本\u{a0}", "a", "  x", "x\u{2009} "] {
        assert_eq!(trim_text(text), text.trim(), "{text:?}");
        assert_eq!(trim_text(trim_text(text)), trim_text(text), "{text:?}");
    }
}

#[test]
fn search_is_substring_search() {
    for hay in ["", "a", "ababac", "日本語", "aaa"] {
        for needle in ["", "a", "abac", "本", "aaaa", "ac", "c", "b"] {
            assert_eq!(
                has_text(&chars_of(hay), &chars_of(needle)),
                hay.contains(needle),
                "{hay:?} {needle:?}"
            );
        }
    }
}

#[test]
fn numbers_read_as_the_standard_library_reads_them() {
    let max = usize::MAX.to_string();
    let above = format!("{max}0");
    let next = "18446744073709551616";
    for text in [
        "0", "7", "12", "007", "+5", "+", "-", "-1", "", " 1", "1 ", "1_000", "0x10", "12a", "a", "１", "++1",
        "+0", "1.0", &max, &above, next, "99999999999999999999999999999999x", "x99999999999999999999999999",
    ] {
        match (parse_usize(text), text.parse::<usize>()) {
            (Ok(a), Ok(b)) => assert_eq!(a, b, "{text:?}"),
            (Err(e), Err(f)) => {
                // The standard library has a message of its own for the empty text.
                if !text.is_empty() {
                    assert_eq!(e.message(), f.to_string(), "{text:?}");
                }
            }
            other => panic!("{text:?}: {other:?}"),
        }
    }
    assert_eq!(parse_usize("12"), Ok(12));
    assert_eq!(parse_usize("x"), Err(NumberError::InvalidDigit));
    assert_eq!(parse_usize(next), Err(NumberError::TooLarge));
}

#[test]
fn decimals_read_back() {
    for n in [0u64, 1, 9, 10, 11, 99, 100, 12345, 65535, 4294967295, 18446744073709551615] {
        assert_eq!(decimal_text(n), n.to_string());
        assert_eq!(parse_usize(&decimal_text(n)), Ok(n as usize));
    }
}

fn risks() -> Vec<f64> {
    vec![
        0.0,
        -0.0,
        0.1,
        0.5,
        1.0,
        2.0,
        -1.0,
        -0.1,
        f64::MIN_POSITIVE,
        -f64::MIN_POSITIVE,
        f64::MAX,
        f64::MIN,
        f64::INFINITY,
        f64::NEG_INFINITY,
        f64::NAN,
        -f64::NAN,
        f64::from_bits(1),
        f64::from_bits(0x8000_0000_0000_0001),
        f64::from_bits(0x7ff0_0000_0000_0001),
    ]
}

#[test]
fn risks_compare_as_doubles_do() {
    for a in risks() {
        for b in risks() {
            let x = RiskScore { bits: a.to_bits() };
            let y = RiskScore { bits: b.to_bits() };
            assert_eq!(x.le(y), a <= b, "{a} {b}");
            assert_eq!(x.total_compare(y) as i32, a.total_cmp(&b) as i32, "{a} {b}");
        }
    }
}

#[test]
fn nothing_is_at_most_nan() {
    let nan = RiskScore { bits: f64::NAN.to_bits() };
    for a in risks() {
        let x = RiskScore { bits: a.to_bits() };
        assert!(!x.le(nan));
        assert!(!nan.le(x));
    }
}

#[test]
fn two_is_two() {
    assert_eq!(f64::from_bits(TWO_BITS), 2.0);
}
