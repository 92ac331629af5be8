use ytmusic_dl::number::{decimal_of, digits_value, parse_u64};
use ytmusic_dl::text::{
    chars_of, contains_chars, ends_with, find_char, same, string_of, trim_chars,
};

fn trim(s: &str) -> String {
    string_of(trim_chars(&chars_of(s)))
}

#[test]
fn characters_go_there_and_back() {
    assert_eq!(chars_of("aß✓"), vec!['a', 'ß', '✓']);
    assert_eq!(string_of(&['a', 'ß', '✓']), "aß✓");
    assert_eq!(string_of(&[]), "");
}

#[test]
fn trimming_agrees_with_the_standard_library() {
    for s in ["", "  ", "a", " a ", "\t a b \r\n", "\u{a0}x\u{3000}", "\u{200b}x", "é "] {
        assert_eq!(trim(s), s.trim());
        assert_eq!(trim(&trim(s)), trim(s));
    }
}

#[test]
fn searching_and_comparing() {
    assert_eq!(find_char(&chars_of("a%b%"), '%'), 1);
    assert_eq!(find_char(&chars_of("ab"), '%'), 2);
    assert!(contains_chars(&chars_of("xx[download]y"), &chars_of("[download]")));
    assert!(contains_chars(&chars_of("[download]"), &chars_of("[download]")));
    assert!(!contains_chars(&chars_of("[downloa"), &chars_of("[download]")));
    assert!(!contains_chars(&chars_of("[down load]"), &chars_of("[download]")));
    assert!(contains_chars(&chars_of("abc"), &[]));
    assert!(contains_chars(&chars_of("aab"), &chars_of("ab")));
    assert!(ends_with(&chars_of("a/bin/ffmpeg.exe"), &chars_of("/bin/ffmpeg.exe")));
    assert!(!ends_with(&chars_of("bin/ffmpeg.exe"), &chars_of("/bin/ffmpeg.exe")));
    assert!(same(&['a', 'b'], &['a', 'b']));
    assert!(!same(&['a', 'b'], &['a', 'c']));
    assert!(!same(&['a'], &['a', 'b']));
}

#[test]
fn numbers_are_read_as_the_standard_library_reads_them() {
    for s in [
        "", "+", "-", "0", "007", "+5", "++5", "-0", "5a", " 5", "5 ", "٣",
        "18446744073709551615", "18446744073709551616", "00000000000000000000018446744073709551615",
        "99999999999999999999999", "1_000",
    ] {
        assert_eq!(parse_u64(&chars_of(s)), s.parse::<u64>().ok(), "{}", s);
    }
    assert_eq!(digits_value(&chars_of("120")), Some(120));
    assert_eq!(digits_value(&[]), Some(0));
    assert_eq!(digits_value(&chars_of("1.2")), None);
}

#[test]
fn decimal_notation_reads_back() {
    for n in [0u64, 1, 9, 10, 99, 100, 4445, 1_234_567_890, u64::MAX] {
        assert_eq!(decimal_of(n), n.to_string());
        assert_eq!(parse_u64(&chars_of(&decimal_of(n))), Some(n));
    }
}
