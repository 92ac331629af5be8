use ytmusic_dl::version::{
    binary_version, semver_older, strip_v, word_on_first_line, ProgramOutput,
};

fn ran(success: bool, stdout: &[u8]) -> Option<ProgramOutput> {
    Some(ProgramOutput { success, stdout: stdout.to_vec() })
}

#[test]
fn tags_lose_their_leading_v() {
    assert_eq!(strip_v("v0.36.0"), "0.36.0");
    assert_eq!(strip_v("0.36.0"), "0.36.0");
    assert_eq!(strip_v("vvv1"), "1");
    assert_eq!(strip_v("2024.12.13"), "2024.12.13");
    assert_eq!(strip_v("1v"), "1v");
    assert_eq!(strip_v("V1"), "V1");
    assert_eq!(strip_v(""), "");
    assert_eq!(strip_v("v"), "");
}

#[test]
fn versions_compare_by_number() {
    assert!(semver_older("0.35.0", "0.36.0"));
    assert!(!semver_older("0.36.0", "0.36.0"));
    assert!(!semver_older("0.36.1", "0.36.0"));
    assert!(semver_older("1.9", "1.10"));
    assert!(!semver_older("1.10", "1.9"));
    assert!(semver_older("1.2", "1.2.0"));
    assert!(!semver_older("1.2.0", "1.2"));
    assert!(semver_older("", "0"));
    assert!(!semver_older("0", ""));
    assert!(!semver_older("", ""));
    assert!(semver_older("2.0.9", "10.0.0"));
}

#[test]
fn pieces_that_are_no_numbers_are_passed_over() {
    assert!(!semver_older("1.x.2", "1.2"));
    assert!(!semver_older("1.2", "1.x.2"));
    assert!(!semver_older("1..2", "1.2"));
    assert!(semver_older("1.18446744073709551616", "1.0"));
    assert!(!semver_older("+1", "1"));
    assert!(!semver_older("1", "+1"));
}

#[test]
fn pre_releases_are_older_than_their_release() {
    assert!(!semver_older("1.2.1-rc1", "1.2.0"));
    assert!(semver_older("1.2.0", "1.2.1-rc1"));
    assert!(semver_older("1.2.1-rc1", "1.2.1"));
    assert!(semver_older("1.0.0-alpha.1", "1.0.0"));
    assert!(!semver_older("1.0.0", "1.0.0-alpha.1"));
    assert!(semver_older("2.0.0-rc.10", "2.0.0"));
    assert!(!semver_older("1.2.3-rc1", "1.2.1"));
}

#[test]
fn pre_releases_have_an_order_of_their_own() {
    let ascending = [
        "1.0.0-0",
        "1.0.0-9",
        "1.0.0-10",
        "1.0.0-99999999999999999999998",
        "1.0.0-99999999999999999999999",
        "1.0.0--",
        "1.0.0-1a",
        "1.0.0-A",
        "1.0.0-alpha",
        "1.0.0-alpha.1",
        "1.0.0-alpha.beta",
        "1.0.0-beta",
        "1.0.0-beta.2",
        "1.0.0-beta.11",
        "1.0.0-rc.1",
        "1.0.0",
        "1.0.1-0",
    ];
    for (i, a) in ascending.iter().enumerate() {
        for (j, b) in ascending.iter().enumerate() {
            assert_eq!(semver_older(a, b), i < j, "{} {}", a, b);
        }
    }
}

#[test]
fn build_metadata_do_not_count() {
    for (a, b) in [("1.0.0+1", "1.0.0+2"), ("1.0.0", "1.0.0+b-1.007"), ("1.0.0-a+x", "1.0.0-a")] {
        assert!(!semver_older(a, b) && !semver_older(b, a));
    }
    assert!(semver_older("1.0.0-rc+9", "1.0.0+1"));
    assert!(semver_older("1.0.0+9", "1.0.1+1"));
}

#[test]
fn other_strings_are_ordered_by_their_numbers() {
    // Superfluous zeros, empty identifiers and foreign characters: no semver strings.
    assert!(semver_older("1.0.0-01", "1.0.0"));
    assert!(semver_older("1.0.0-", "1.0.0"));
    assert!(semver_older("1.0.0-a..b", "1.0.0"));
    assert!(semver_older("1.0.0-ä", "1.0.0"));
    assert!(semver_older("1.0.0+", "1.0.0"));
    assert!(semver_older("1.0.0+a+b", "1.0.0"));
    assert!(!semver_older("01.0.0", "1.0.0") && !semver_older("1.0.0", "01.0.0"));
    assert!(semver_older("1.0.0", "1.0.0.5"));
    assert!(semver_older("1.0.0-alpha.1", "1.0.0.5"));
    assert!(semver_older("18446744073709551615.0.0-a", "18446744073709551615.0.0"));
}

#[test]
fn older_is_a_strict_order() {
    let all = [
        "", "0", "0.1", "1", "1.0", "1.0.0", "1.2", "1.10", "2", "10", "x", "1.0.0.5",
        "1.0.0-alpha", "1.0.0-alpha.1", "1.0.0-1", "1.0.0-01", "1.0.0+b", "1.0-a",
    ];
    for a in all {
        assert!(!semver_older(a, a));
        for b in all {
            assert!(!(semver_older(a, b) && semver_older(b, a)));
            for c in all {
                if semver_older(a, b) && semver_older(b, c) {
                    assert!(semver_older(a, c));
                }
            }
        }
    }
}

#[test]
fn words_on_the_first_line() {
    assert_eq!(word_on_first_line("geckodriver 0.36.0 (abc)\nmore", 1).as_deref(), Some("0.36.0"));
    assert_eq!(word_on_first_line("2024.12.13\r\n", 0).as_deref(), Some("2024.12.13"));
    assert_eq!(word_on_first_line("  a \t b\u{a0}c ", 2).as_deref(), Some("c"));
    assert_eq!(word_on_first_line("a b", 2), None);
    assert_eq!(word_on_first_line("", 0), None);
    assert_eq!(word_on_first_line("\na", 0), None);
    assert_eq!(word_on_first_line(" \n a", 0), None);
}

#[test]
fn white_space_is_the_unicode_property() {
    for c in '\0'..=char::MAX {
        let listed = matches!(
            c,
            '\u{9}'..='\u{d}' | ' ' | '\u{85}' | '\u{a0}' | '\u{1680}' | '\u{2000}'..='\u{200a}'
                | '\u{2028}' | '\u{2029}' | '\u{202f}' | '\u{205f}' | '\u{3000}'
        );
        assert_eq!(word_on_first_line(&c.to_string(), 0).is_none(), listed, "{:?}", c);
    }
}

#[test]
fn a_program_reports_its_version() {
    let deno = b"deno 2.1.4 (stable, release, x86_64-pc-windows-msvc)\nv8 13.0\n";
    assert_eq!(binary_version(ran(true, deno), 1).as_deref(), Some("2.1.4"));
    assert_eq!(binary_version(ran(true, "größe 1".as_bytes()), 0).as_deref(), Some("größe"));
}

#[test]
fn a_program_that_is_missing_or_fails_has_no_version() {
    assert_eq!(binary_version(None, 0), None);
    assert_eq!(binary_version(ran(false, b"2024.12.13\n"), 0), None);
    assert_eq!(binary_version(ran(true, b"\xff\xfe 1\n"), 0), None);
    assert_eq!(binary_version(ran(true, b""), 0), None);
}
