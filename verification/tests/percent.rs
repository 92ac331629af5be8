use ytmusic_dl::double::nearest_whole;
use ytmusic_dl::percent::{has_readable_percentage, parse_pct, read_number};
use ytmusic_dl::text::chars_of;

fn by_double(s: &str) -> Option<u64> {
    s.parse::<f64>().ok().map(|f| f as u64)
}

fn check(s: &str) {
    assert_eq!(read_number(&chars_of(s)), by_double(s), "{}", s);
}

#[test]
fn percentages_of_progress_lines() {
    assert_eq!(parse_pct("[download]  45.3% of 3.50MiB at 1.2MiB/s ETA 00:02"), Some(45));
    assert_eq!(parse_pct("[download] 100% of 3.50MiB"), Some(100));
    assert_eq!(parse_pct("[download]   0.0% of ~5%"), Some(0));
    assert_eq!(parse_pct("99.9%"), Some(99));
    assert_eq!(parse_pct("250%"), Some(250));
    assert_eq!(parse_pct("-7%"), Some(7));
    assert_eq!(parse_pct(".5%"), Some(0));
    assert_eq!(parse_pct("5.%"), Some(5));
    assert_eq!(parse_pct("1e5%"), Some(5));
}

#[test]
fn lines_without_a_percentage() {
    assert_eq!(parse_pct(""), None);
    assert_eq!(parse_pct("50"), None);
    assert_eq!(parse_pct("%"), None);
    assert_eq!(parse_pct("50 %"), None);
    assert_eq!(parse_pct("a%50%"), None);
    assert_eq!(parse_pct(".%"), None);
    assert_eq!(parse_pct("1.2.3%"), None);
}

#[test]
fn a_numeral_must_not_follow_a_wide_character() {
    assert!(has_readable_percentage("x 50%"));
    assert!(has_readable_percentage("50%"));
    assert!(has_readable_percentage("ä 50%"));
    assert!(has_readable_percentage("ä50"));
    assert!(!has_readable_percentage("ä50%"));
    assert!(!has_readable_percentage("ä%"));
}

#[test]
fn numbers_are_rounded_to_doubles_first() {
    for s in [
        "0.99999999999999994448884876874217", "0.99999999999999994448884876874218",
        "0.999999999999999944488848768742172978818416595458984375",
        "0.99999999999999994448884876874217297881841659545898437",
        "0.9999999999999999", "0.99999999999999999", "1.9999999999999998889776975",
        "1.99999999999999988897769753748434595763683319091796875",
        "99.99999999999999", "99.999999999999993", "99.9999999999999928945726423989981412887573242187500",
        "99.99999999999999289457264239899814128875732421874",
        "4503599627370495.5", "4503599627370495.75", "4503599627370495.7499999999999999999",
        "4503599627370496.5", "4503599627370497.5", "4503599627370496.50000000000000000001",
        "9007199254740991.5", "9007199254740992.999", "9007199254740993", "9007199254740993.0000001",
        "9007199254740995", "9007199254740994.99999", "18014398509481986", "18014398509481990",
        "18446744073709549567", "18446744073709549568", "18446744073709550591", "18446744073709550592",
        "18446744073709550591.9999999", "18446744073709551615", "18446744073709551616", "99999999999999999999999999.5",
        "00000000000000000000000000000000000007.25", "0.5", "0.4999999999999999999", "",
        ".", "..", "1.", ".1", "1..", "123",
    ] {
        check(s);
    }
    assert_eq!(read_number(&chars_of("0.99999999999999999")), Some(1));
    assert_eq!(read_number(&chars_of("18446744073709551616")), Some(u64::MAX));
}

#[test]
fn many_numbers_agree_with_doubles() {
    let mut state: u64 = 0x9e37_79b9_7f4a_7c15;
    for round in 0..20000u64 {
        state = state.wrapping_mul(6364136223846793005).wrapping_add(1442695040888963407);
        let i = state >> (state % 64);
        let dec = match round % 4 {
            0 => format!("{}", state.rotate_left(17)),
            1 => format!("9999999999999{}", state % 1_000_000),
            2 => format!("5{}", if round % 8 == 2 { "" } else { "0000000000000000000001" }),
            _ => format!("{:020}{}", state % 97, state),
        };
        check(&format!("{}.{}", i, dec));
        check(&format!("{}", i));
    }
}

#[test]
fn the_nearest_double_may_be_the_next_whole_number() {
    assert_eq!(nearest_whole(7, &chars_of("25")), 7);
    assert_eq!(nearest_whole(7, &[]), 7);
    assert_eq!(nearest_whole(7, &chars_of("99999999999999999999")), 8);
    assert_eq!(nearest_whole(u64::MAX, &[]), u64::MAX);
    assert_eq!(nearest_whole(9007199254740993, &[]), 9007199254740992);
    assert_eq!(nearest_whole(9007199254740993, &chars_of("000")), 9007199254740992);
    assert_eq!(nearest_whole(9007199254740993, &chars_of("0001")), 9007199254740994);
}

#[test]
fn short_numbers_keep_their_whole_part() {
    for s in ["99.9999999999999", "0.99999999999999", "999999999999999", "12345.6789", "0"] {
        let whole = s.split('.').next().unwrap().parse::<u64>().unwrap();
        assert_eq!(read_number(&chars_of(s)), Some(whole));
    }
}
