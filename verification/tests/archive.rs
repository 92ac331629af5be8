use std::io::{Cursor, Write};
use ytmusic_dl::archive::{
    extract, extract_ffmpeg, ffmpeg_target, target, ArchiveError, Extraction,
};
use ytmusic_dl::update::Tool;
use zip::write::SimpleFileOptions;
use zip::{CompressionMethod, ZipWriter};

fn archive(entries: &[(&str, &[u8])]) -> Vec<u8> {
    let mut w = ZipWriter::new(Cursor::new(Vec::new()));
    for (name, data) in entries {
        if name.ends_with('/') {
            w.add_directory(*name, SimpleFileOptions::default()).unwrap();
        } else {
            w.start_file(*name, SimpleFileOptions::default()).unwrap();
            w.write_all(data).unwrap();
        }
    }
    w.finish().unwrap().into_inner()
}

fn stored(entries: &[(&str, &[u8])]) -> Vec<u8> {
    let options = SimpleFileOptions::default().compression_method(CompressionMethod::Stored);
    let mut w = ZipWriter::new(Cursor::new(Vec::new()));
    for (name, data) in entries {
        w.start_file(*name, options).unwrap();
        w.write_all(data).unwrap();
    }
    w.finish().unwrap().into_inner()
}

fn spoil(mut bytes: Vec<u8>, old: &[u8], new: &[u8]) -> Vec<u8> {
    let at = bytes.windows(old.len()).position(|w| w == old).unwrap();
    bytes[at..at + new.len()].copy_from_slice(new);
    bytes
}

/// Where the header of entry `i` starts.
fn header(bytes: &[u8], i: usize) -> usize {
    let mut headers = bytes.windows(4).enumerate().filter(|(_, w)| *w == b"PK\x03\x04");
    headers.nth(i).unwrap().0
}

fn names(keep: &[&str]) -> Vec<String> {
    keep.iter().map(|k| k.to_string()).collect()
}

fn picked(e: &Extraction) -> Vec<(&str, &[u8])> {
    e.files.iter().map(|f| (f.name.as_str(), f.data.as_slice())).collect()
}

#[test]
fn listed_files_are_picked_by_file_name() {
    let bytes = archive(&[
        ("readme.md", b"r"),
        ("bin/", b""),
        ("bin/deno.exe", b"first"),
        ("deno.exe.txt", b"no"),
        ("deno.exe", b"second"),
    ]);
    let e = extract(bytes, &names(&["deno.exe"]));
    assert_eq!(picked(&e), vec![("deno.exe", &b"first"[..]), ("deno.exe", &b"second"[..])]);
    assert!(e.failure.is_none());
}

#[test]
fn every_file_is_picked_if_none_is_listed() {
    let big = vec![7u8; 100_000];
    let bytes = archive(&[("a/", b""), ("a/x", b"1"), ("y", b""), ("a/b/z", &big)]);
    let e = extract(bytes, &vec![]);
    assert_eq!(picked(&e), vec![("x", &b"1"[..]), ("y", &b""[..]), ("z", big.as_slice())]);
    assert!(e.failure.is_none());
}

#[test]
fn nothing_listed_is_there() {
    let e = extract(archive(&[("a", b"1")]), &names(&["b"]));
    assert!(e.files.is_empty() && e.failure.is_none());
    let e = extract(archive(&[]), &vec![]);
    assert!(e.files.is_empty() && e.failure.is_none());
}

#[test]
fn entries_that_are_no_files_are_passed_over() {
    let e = extract(archive(&[("a/..", b"1"), ("b/.", b"2")]), &vec![]);
    assert_eq!(picked(&e), vec![("b", &b"2"[..])]);
}

#[test]
fn picked_names_lead_nowhere() {
    let names = ["../a", "/etc/b", "./c", "x/../d", "e/", "f/.", "g//h", "..", "/", "i/.."];
    let entries: Vec<(&str, &[u8])> = names.iter().map(|n| (*n, &b"1"[..])).collect();
    let e = extract(stored(&entries), &vec![]);
    let found: Vec<&str> = picked(&e).iter().map(|p| p.0).collect();
    assert_eq!(found, vec!["a", "b", "c", "d", "f", "h"]);
}

#[test]
fn names_with_a_colon_or_two_slashes_are_cut_too() {
    let names = ["x:/../../evil.exe", "dir/b:c/d", "//host/share/e", "//..", "C:/.."];
    let entries: Vec<(&str, &[u8])> = names.iter().map(|n| (*n, &b"1"[..])).collect();
    let e = extract(stored(&entries), &vec![]);
    let found: Vec<&str> = picked(&e).iter().map(|p| p.0).collect();
    assert_eq!(found, vec!["evil.exe", "d", "e"]);
    let e = extract(stored(&entries), &vec!["evil.exe".to_string()]);
    assert_eq!(picked(&e), vec![("evil.exe", &b"1"[..])]);
}

#[test]
fn only_stored_and_deflated_entries_can_be_opened() {
    // Deflate64, bzip2, LZMA, Zstandard and XZ.
    for method in [9u8, 12, 14, 93, 95] {
        let mut bytes = stored(&[("a", b"111"), ("b", b"222")]);
        let local = header(&bytes, 1);
        bytes[local + 8] = method;
        let central = bytes.windows(4).rposition(|w| w == b"PK\x01\x02").unwrap();
        bytes[central + 10] = method;
        let e = extract(bytes, &vec![]);
        assert_eq!(picked(&e), vec![("a", &b"111"[..])]);
        assert!(matches!(e.failure, Some(ArchiveError::Entry(_))));
    }
}

#[test]
fn bytes_that_are_no_archive() {
    let e = extract(b"no archive".to_vec(), &vec![]);
    assert!(e.files.is_empty());
    assert!(matches!(e.failure, Some(ArchiveError::Open(_))));
    let e = extract_ffmpeg(Vec::new());
    assert!(e.files.is_empty());
    assert!(matches!(e.failure, Some(ArchiveError::Open(_))));
}

#[test]
fn an_entry_that_cannot_be_opened_ends_the_extraction() {
    let bytes = stored(&[("a", b"111"), ("b", b"222"), ("c", b"333")]);
    // The local header of the second entry loses its signature.
    let second = header(&bytes, 1);
    let mut bad = bytes.clone();
    bad[second + 2] = 0;
    let e = extract(bad.clone(), &vec![]);
    assert_eq!(picked(&e), vec![("a", &b"111"[..])]);
    assert!(matches!(e.failure, Some(ArchiveError::Entry(_))));
    let e = extract(bad, &names(&["c"]));
    assert!(e.files.is_empty());
    assert!(matches!(e.failure, Some(ArchiveError::Entry(_))));
}

#[test]
fn data_that_cannot_be_read_end_the_extraction() {
    let bytes = stored(&[("a", b"alpha"), ("b", b"bravo"), ("c", b"charlie")]);
    let e = extract(spoil(bytes.clone(), b"bravo", b"BRAVO"), &vec![]);
    assert_eq!(e.files.len(), 2);
    assert_eq!(picked(&e)[0], ("a", &b"alpha"[..]));
    // What could be read is handed out nevertheless.
    assert_eq!(picked(&e)[1], ("b", &b"BRAVO"[..]));
    assert!(matches!(e.failure, Some(ArchiveError::Read(_))));
    // What is not wanted is not read.
    let e = extract(spoil(bytes, b"bravo", b"BRAVO"), &names(&["c"]));
    assert_eq!(picked(&e), vec![("c", &b"charlie"[..])]);
    assert!(e.failure.is_none());
}

#[test]
fn the_two_ffmpeg_programs_are_picked() {
    let bytes = stored(&[
        ("ffmpeg.exe", b"not here"),
        ("f/LICENSE.txt", b"l"),
        ("f/bin/ffplay.exe", b"p"),
        ("f/bin/ffprobe.exe", b"probe"),
        ("f/bin/ffmpeg.exe", b"mpeg"),
        ("g/bin/ffmpeg.exe", b"later"),
    ]);
    let e = extract_ffmpeg(bytes.clone());
    assert_eq!(picked(&e), vec![("ffprobe.exe", &b"probe"[..]), ("ffmpeg.exe", &b"mpeg"[..])]);
    assert!(e.failure.is_none());
    // What follows the second program is not looked at.
    let last = header(&bytes, 5);
    let mut bad = bytes;
    bad[last + 2] = 0;
    let e = extract_ffmpeg(bad);
    assert_eq!(e.files.len(), 2);
    assert!(e.failure.is_none());
}

#[test]
fn an_ffmpeg_archive_may_lack_a_program() {
    let e = extract_ffmpeg(archive(&[("f/bin/ffmpeg.exe", b"mpeg"), ("f/doc", b"d")]));
    assert_eq!(picked(&e), vec![("ffmpeg.exe", &b"mpeg"[..])]);
    assert!(e.failure.is_none());
    let bytes = stored(&[("f/bin/ffmpeg.exe", b"mpeg"), ("f/bin/ffprobe.exe", b"probe")]);
    let e = extract_ffmpeg(spoil(bytes, b"mpegPK", b"MPEG"));
    assert_eq!(e.files.len(), 1);
    assert!(matches!(e.failure, Some(ArchiveError::Read(_))));
}

#[test]
fn what_is_wanted() {
    let some = |s: &str| Some(s.to_string());
    let keep = names(&["a", "b"]);
    assert_eq!(target(false, some("a"), &keep), some("a"));
    assert_eq!(target(false, some("b"), &keep), some("b"));
    assert_eq!(target(false, some("c"), &keep), None);
    assert_eq!(target(true, some("a"), &keep), None);
    assert_eq!(target(false, None, &keep), None);
    assert_eq!(target(false, some("c"), &vec![]), some("c"));
    assert_eq!(target(false, some(""), &vec![]), None);
    assert_eq!(ffmpeg_target("x/bin/ffmpeg.exe").as_deref(), Some("ffmpeg.exe"));
    assert_eq!(ffmpeg_target("/bin/ffprobe.exe").as_deref(), Some("ffprobe.exe"));
    assert_eq!(ffmpeg_target("bin/ffmpeg.exe"), None);
    assert_eq!(ffmpeg_target("x/bin/ffmpeg.exe/"), None);
}

#[test]
fn downloads_are_unpacked_as_the_program_needs() {
    let e = Tool::YtDlp.unpack(b"program".to_vec());
    assert_eq!(picked(&e), vec![("yt-dlp.exe", &b"program"[..])]);
    assert!(e.failure.is_none());
    let bytes = archive(&[
        ("README", b"r"),
        ("deno.exe", b"deno"),
        ("geckodriver.exe", b"gecko"),
        ("x/bin/ffmpeg.exe", b"ffmpeg"),
        ("x/bin/ffprobe.exe", b"ffprobe"),
    ]);
    let e = Tool::Deno.unpack(bytes.clone());
    assert_eq!(picked(&e), vec![("deno.exe", &b"deno"[..])]);
    let e = Tool::Geckodriver.unpack(bytes.clone());
    assert_eq!(picked(&e), vec![("geckodriver.exe", &b"gecko"[..])]);
    let e = Tool::Ffmpeg.unpack(bytes);
    let both = vec![("ffmpeg.exe", &b"ffmpeg"[..]), ("ffprobe.exe", &b"ffprobe"[..])];
    assert_eq!(picked(&e), both);
    assert!(matches!(Tool::Deno.unpack(vec![]).failure, Some(ArchiveError::Open(_))));
}
