//! Numbers and texts, against what std and single precision give.

use trixie::integer::{i64_text, parse_i64, parse_u64, parse_unsigned};
use trixie::number::Number;
use trixie::single::Ratio;
use trixie::text::{
    alphabetic, alphanumeric, chars_of, contains, split, string_of, to_lowercase, trim, words,
};

fn c(s: &str) -> Vec<char> {
    chars_of(s)
}

#[test]
fn integers_read_like_std() {
    for s in [
        "0", "7", "+7", "-7", "-0", "9223372036854775807", "9223372036854775808",
        "-9223372036854775808", "-9223372036854775809", "", "+", "-", "1a", " 1", "1_000",
        "99999999999999999999999999",
    ] {
        assert_eq!(parse_i64(&c(s)), s.parse::<i64>().ok(), "{}", s);
        assert_eq!(parse_u64(&c(s)), s.parse::<u64>().ok(), "{}", s);
        assert_eq!(parse_unsigned(&c(s), 10, u32::MAX), s.parse::<u32>().ok(), "{}", s);
    }
    for s in ["ff", "FF", "+f", "1g", "fff", "00000000000000000000000f"] {
        assert_eq!(
            parse_unsigned(&c(s), 16, 255),
            u8::from_str_radix(s, 16).ok().map(|n| n as u32),
            "{}",
            s
        );
    }
}

#[test]
fn integers_read_back() {
    for n in [0i64, 1, -1, 10, 99, 100, i64::MAX, i64::MIN, 1234567890123] {
        assert_eq!(i64_text(n), n.to_string());
        assert_eq!(parse_i64(&c(&i64_text(n))), Some(n));
    }
}

#[test]
fn numbers_convert_like_doubles() {
    for s in [
        "0.0", "1.5", "2.999999", "-3.7", "1e3", "1e300", "-1e300", "0.1e1", "9007199254740993.0",
        "18446744073709551615.5", "4294967295.9", "4294967296.0", "1e-5", "123456789.987654321",
        "0.9999999999999999999", "9.999999999999999999",
    ] {
        let n = Number::parse(&c(s)).unwrap();
        let x: f64 = s.parse().unwrap();
        assert_eq!(n.text(), s);
        assert_eq!(n.to_i64(), x as i64, "{}", s);
        assert_eq!(n.to_u64(), x as u64, "{}", s);
        assert_eq!(n.to_u32(), x as u32, "{}", s);
    }
    assert!(Number::parse(&c("1.2.3")).is_none());
    assert!(Number::parse(&c("")).is_none());
}

#[test]
fn numbers_print_like_doubles() {
    for s in ["1.0", "1.50", "0.25", "100.0", "1e3", "12.5e-1", "0.001"] {
        let n = Number::parse(&c(s)).unwrap();
        let x: f64 = s.parse().unwrap();
        assert_eq!(n.plain_text(), x.to_string(), "{}", s);
    }
    assert_eq!(Number::from_int(144).plain_text(), "144");
}

#[test]
fn ratios_are_single_precision() {
    let mut ratio = Ratio::main();
    let mut x: f32 = 0.55;
    for _ in 0..10 {
        for n in [0u32, 1, 3, 99, 100, 101, 639, 1080, 1919, 1920, 3840, 65535, 16777215, 16777217] {
            assert_eq!(ratio.of(n), (n as f32 * x) as u32, "{} of {}", x, n);
        }
        ratio = ratio.grown();
        x = (x + 0.05).min(0.9);
    }
    for _ in 0..20 {
        for n in [5u32, 777, 1080, 1920, 2560] {
            assert_eq!(ratio.of(n), (n as f32 * x) as u32, "{} of {}", x, n);
        }
        ratio = ratio.shrunk();
        x = (x - 0.05).max(0.1);
    }
}

#[test]
fn ratios_are_clamped() {
    for x in [-1.0f32, 0.0, 0.05, 0.1, 0.333, 0.6, 1.0, 1.5, f32::INFINITY] {
        let r = Ratio::clamped(x.to_bits());
        let y = x.clamp(0.1, 1.0);
        for n in [1u32, 640, 1080, 1920] {
            assert_eq!(r.of(n), (n as f32 * y) as u32, "{} of {}", x, n);
        }
    }
}

#[test]
fn texts_are_cut_like_std() {
    for s in ["", " ", " a  b ", "a=b", "=", "\ta\u{a0}b\u{2003}", "a,b,,c", "ß É"] {
        let v = c(s);
        assert_eq!(string_of(trim(&v)), s.trim());
        let w: Vec<String> = words(&v).iter().map(|w| string_of(w)).collect();
        let std: Vec<&str> = s.split_whitespace().collect();
        assert_eq!(w, std);
        let p: Vec<String> = split(&v, ',').iter().map(|w| string_of(w)).collect();
        let std: Vec<&str> = s.split(',').collect();
        assert_eq!(p, std);
        assert_eq!(contains(s, "b"), s.contains('b'));
        assert_eq!(to_lowercase(&v), s.to_lowercase());
    }
    assert_eq!(to_lowercase(&c("ΑΣ ÄÖ Q")), "ΑΣ ÄÖ Q".to_lowercase());
}

#[test]
fn letters_are_those_of_unicode() {
    for ch in ['a', 'Z', '0', '_', 'é', 'ß', '中', '٣', '½', ' ', '-', '🙂'] {
        assert_eq!(alphabetic(ch), ch.is_alphabetic(), "{}", ch);
        assert_eq!(alphanumeric(ch), ch.is_alphanumeric(), "{}", ch);
    }
}
