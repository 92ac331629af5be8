use ytmusic_dl::browser::download_target;
use ytmusic_dl::video::{extract_video_id, watch_url};

#[test]
fn ids_are_found_in_queries() {
    let id = |url: &str| extract_video_id(url);
    assert_eq!(id("https://www.youtube.com/watch?v=dQw4w9WgXcQ").as_deref(), Some("dQw4w9WgXcQ"));
    assert_eq!(id("https://x/watch?list=PL1&v=a-b_C9&t=3").as_deref(), Some("a-b_C9"));
    assert_eq!(id("https://x/watch?v=abc#t=1").as_deref(), Some("abc"));
    assert_eq!(id("https://x/watch?v=&v=b").as_deref(), Some("b"));
    assert_eq!(id("https://x/watch?v=%20&v=b").as_deref(), Some("b"));
    assert_eq!(id("https://x/watch?a=?v=no&v=yes").as_deref(), Some("yes"));
    assert_eq!(id("?v=äöü").as_deref(), Some("äöü"));
}

#[test]
fn addresses_without_an_id() {
    let urls = [
        "",
        "https://www.youtube.com/watch",
        "https://x/watch?",
        "v=abc",
        "?xv=abc",
        "?v",
        "?v=",
        "?V=a",
    ];
    for url in urls {
        assert_eq!(extract_video_id(url), None, "{}", url);
    }
}

#[test]
fn an_id_holds_letters_digits_and_two_more() {
    for c in '\0'..='\u{7f}' {
        let url = format!("?v=a{}b", c);
        let long = c.is_ascii_alphanumeric() || c == '-' || c == '_';
        let expected = if long { format!("a{}b", c) } else { "a".to_string() };
        assert_eq!(extract_video_id(&url), Some(expected));
    }
    assert_eq!(extract_video_id("?v=a\u{2013}b").as_deref(), Some("a"));
    assert_eq!(extract_video_id("?v=a\u{661}b").as_deref(), Some("a\u{661}b"));
}

#[test]
fn a_page_carries_the_id_of_its_video() {
    assert_eq!(watch_url("abc"), "https://www.youtube.com/watch?v=abc");
    for id in ["dQw4w9WgXcQ", "-", "_", "é9"] {
        assert_eq!(extract_video_id(&watch_url(id)).as_deref(), Some(id));
    }
}

#[test]
fn a_download_needs_an_address_with_an_id() {
    let url = "https://www.youtube.com/watch?v=abc&t=1".to_string();
    assert_eq!(download_target(Some(url.clone())), Some((url, "abc".to_string())));
    assert_eq!(download_target(Some("https://www.youtube.com".to_string())), None);
    assert_eq!(download_target(None), None);
}
