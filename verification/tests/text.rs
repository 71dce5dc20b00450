use rustinfo::numbers::{
    dec2_text, dec_text, decimal, hex_text, pad_left, pad_right, parse_hex, parse_i64, parse_u32,
    parse_u64, take_decimal,
};
use rustinfo::text::{
    chars, contains, find_char, lowered, spells, split, split_lines, split_once, split_once_text,
    split_words, starts_with, string, strip_prefix, strip_suffix, trim, trim_any_letters,
    trim_digits, trim_letters, trim_trailing,
};

const TEXTS: [&str; 16] = [
    "",
    " ",
    "a",
    "cpu  1 2\t3",
    "a\nb\r\nc",
    "a\n\n",
    "\r\n",
    "\u{a0}x\u{3000}",
    "k: v : w",
    "::",
    "temp1_input",
    "1: 800Mhz *",
    "xx**",
    "Grüße 12V",
    "\u{85}\u{2003}y\u{200b}",
    "q\rw\r",
];

fn strings(v: Vec<&[char]>) -> Vec<String> {
    v.into_iter().map(|p| p.iter().collect()).collect()
}

fn plain(v: &[char]) -> String {
    v.iter().collect()
}

#[test]
fn characters_make_up_texts() {
    for s in TEXTS {
        assert_eq!(string(&chars(s)), s);
    }
}

#[test]
fn cutting_agrees_with_std() {
    for s in TEXTS {
        let t = chars(s);
        assert_eq!(strings(split_lines(&t)), s.lines().collect::<Vec<_>>(), "{s:?}");
        assert_eq!(strings(split_words(&t)), s.split_whitespace().collect::<Vec<_>>(), "{s:?}");
        assert_eq!(strings(split(&t, ':')), s.split(':').collect::<Vec<_>>(), "{s:?}");
        assert_eq!(
            split_once(&t, ':').map(|(a, b)| (plain(a), plain(b))),
            s.split_once(':').map(|(a, b)| (a.to_string(), b.to_string())),
        );
        assert_eq!(
            split_once_text(&t, " : ").map(|(a, b)| (plain(a), plain(b))),
            s.split_once(" : ").map(|(a, b)| (a.to_string(), b.to_string())),
        );
        assert_eq!(strip_prefix(&t, "cpu").map(plain), s.strip_prefix("cpu").map(String::from));
        assert_eq!(
            strip_suffix(&t, "_input").map(plain),
            s.strip_suffix("_input").map(String::from)
        );
        assert_eq!(contains(&t, "80"), s.contains("80"));
        assert_eq!(starts_with(&t, &chars("1:")), s.starts_with("1:"));
        assert_eq!(find_char(&t, '*') < t.len(), s.contains('*'));
        assert_eq!(spells(&t, "::"), s == "::");
        assert_eq!(string(&lowered(&t)), s.to_ascii_lowercase());
    }
}

#[test]
fn trimming_agrees_with_std() {
    for s in TEXTS {
        let t = chars(s);
        assert_eq!(plain(trim(&t)), s.trim(), "{s:?}");
        assert_eq!(plain(trim_trailing(&t, '*')), s.trim_end_matches('*'));
        assert_eq!(
            plain(trim_digits(&t)),
            s.trim_end_matches(|c: char| c.is_ascii_digit())
        );
        assert_eq!(
            plain(trim_letters(&t)),
            s.trim_end_matches(|c: char| c.is_ascii_alphabetic())
        );
    }
}

#[test]
fn letters_beyond_ascii_are_letters() {
    for s in ["12mW", "12µA", "7Ω", "5€", "9度", "3", "4 W", "é"] {
        let t = chars(s);
        assert_eq!(plain(trim_any_letters(&t)), s.trim_end_matches(char::is_alphabetic), "{s}");
    }
    assert_eq!(plain(trim_any_letters(&chars("5€"))), "5€");
    assert_eq!(plain(trim_any_letters(&chars("9度"))), "9");
}

#[test]
fn whole_numbers_agree_with_std() {
    for s in [
        "", "+", "-", "0", "007", "+5", "-5", "4294967295", "4294967296", "18446744073709551615",
        "18446744073709551616", "9223372036854775807", "9223372036854775808",
        "-9223372036854775808", "-9223372036854775809", "1a", "FF", "+ff", "ffffffffffffffff",
        "10000000000000000", " 1", "1_0", "--1", "+-1", "٣",
    ] {
        let t = chars(s);
        assert_eq!(parse_u64(&t), s.parse::<u64>().ok(), "{s}");
        assert_eq!(parse_u32(&t), s.parse::<u32>().ok(), "{s}");
        assert_eq!(parse_i64(&t), s.parse::<i64>().ok(), "{s}");
        assert_eq!(parse_hex(&t), u64::from_str_radix(s, 16).ok(), "{s}");
    }
}

#[test]
fn decimal_fractions_are_what_std_takes_for_them() {
    for s in [
        "", ".", "+", "-", "1", "-1", "+1", "1.", ".5", "-.5", "1.5", "1.5.2", "1e5", "1E5", "1e",
        "e5", ".e5", "1e+5", "1e-5", "1e+", "1.e3", ".5e3", "inf", "-inf", "+Infinity", "infinit",
        "infinity", "INF", "nan", "NaN", "-nan", "nano", "0x10", "1_000", " 1", "1 ", "1,5", "--1",
        "1e5.0", "00.00", "1f", "∞",
    ] {
        let t = chars(s);
        assert_eq!(decimal(&t), s.parse::<f64>().is_ok(), "{s}");
        assert_eq!(take_decimal(&t), s.parse::<f64>().ok().map(|_| s.to_string()), "{s}");
    }
}

#[test]
fn numbers_are_written_as_std_writes_them() {
    for n in [0u64, 7, 10, 99, 100, 0x1A, 0xFFFF_FFFF, u64::MAX] {
        assert_eq!(dec_text(n), format!("{n}"));
        assert_eq!(dec2_text(n), format!("{n:02}"));
        assert_eq!(hex_text(n, 0), format!("{n:X}"));
        assert_eq!(hex_text(n, 4), format!("{n:04X}"));
        assert_eq!(hex_text(n, 12), format!("{n:012X}"));
    }
}

#[test]
fn padding_counts_characters() {
    for s in ["", "msg", "单位", "名称(别名)", "a longer text"] {
        assert_eq!(pad_left(s, ' ', 8), format!("{s:>8}"));
        assert_eq!(pad_right(s, 9), format!("{s:<9}"));
        assert_eq!(pad_left(s, '0', 2), format!("{s:0>2}"));
    }
}

#[test]
fn what_is_written_reads_back() {
    for n in [0u64, 9, 10, 255, 65536, u64::MAX] {
        assert_eq!(parse_u64(&chars(&dec_text(n))), Some(n));
        assert_eq!(parse_hex(&chars(&hex_text(n, 0))), Some(n));
    }
}
