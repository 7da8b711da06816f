use server_poller::text::{
    dedup_names, hex, is_whitespace, join, lower_ascii, parse_i64, parse_u16, parse_unsigned,
    push_decimal, split_text, split_words, trim,
};

fn owned(list: &[&str]) -> Vec<String> {
    list.iter().map(|s| s.to_string()).collect()
}

#[test]
fn white_space_is_unicodes() {
    for n in 0..=0x10ffffu32 {
        if let Some(c) = char::from_u32(n) {
            assert_eq!(is_whitespace(c), c.is_whitespace(), "{n:x}");
        }
    }
}

#[test]
fn texts_are_trimmed_like_str_trim() {
    for text in ["", " ", "a", " a ", "\t\n a b \u{3000}", "\u{feff}x", "a\u{85}"] {
        assert_eq!(trim(text), text.trim());
    }
}

#[test]
fn texts_are_split_like_str_split() {
    for text in ["", ";", "a", "a;b", ";a;;b;", "é;ü"] {
        let want: Vec<&str> = text.split(';').collect();
        assert_eq!(split_text(text, ';'), want);
        let want: Vec<&str> = text.split_whitespace().collect();
        assert_eq!(split_words(text), want);
    }
    assert_eq!(split_words("  a  b\tc\n"), owned(&["a", "b", "c"]));
}

#[test]
fn joining_and_splitting() {
    let list = owned(&["a", "", "b c"]);
    assert_eq!(join(&list, ","), "a,,b c");
    assert_eq!(split_text(&join(&list, ";"), ';'), list);
    assert_eq!(join(&Vec::new(), ","), "");
}

#[test]
fn names_are_kept_once() {
    let list = owned(&[" a", "b", "a ", " ", "", "b", "c"]);
    assert_eq!(dedup_names(&list), owned(&["a", "b", "c"]));
}

#[test]
fn unsigned_numerals() {
    for text in ["0", "+7", "007", "18446744073709551615", "18446744073709551616", "", "+", "-1", "1 ", "1_0", "x"] {
        assert_eq!(parse_unsigned(text, u64::MAX), text.parse::<u64>().ok(), "{text}");
    }
    for text in ["0", "65535", "65536", "+1", "-0"] {
        assert_eq!(parse_u16(text), text.parse::<u16>().ok(), "{text}");
    }
}

#[test]
fn signed_numerals() {
    for text in [
        "0", "-0", "+5", "-5", "9223372036854775807", "9223372036854775808",
        "-9223372036854775808", "-9223372036854775809", "", "-", "+", "--1", "1.0", " 1",
    ] {
        assert_eq!(parse_i64(text), text.parse::<i64>().ok(), "{text}");
    }
}

#[test]
fn numerals_are_written_and_read_back() {
    for n in [0u64, 9, 10, 12345, u64::MAX] {
        let mut text = "n=".to_string();
        push_decimal(&mut text, n);
        assert_eq!(text, format!("n={n}"));
        assert_eq!(parse_unsigned(&text[2..], u64::MAX), Some(n));
    }
}

#[test]
fn hexadecimal_digits() {
    assert_eq!(hex(&vec![0x00, 0x9a, 0xff]), "009aff");
}

#[test]
fn only_ascii_capitals_are_lowered() {
    assert_eq!(lower_ascii("BedROCK-É@[`z"), "bedrock-É@[`z");
}
