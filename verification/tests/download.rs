use ytmusic_dl::download::{
    download_error_text, download_result, equal_but_for_case, is_readable, newest, stderr_line,
    stdout_line, ytdlp_args, DownloadError, FoundFile, ProgressUpdate,
};
use ytmusic_dl::screen::{center, completion_lines};

fn update(position: Option<u64>, message: Option<&str>, echo: Option<&str>) -> ProgressUpdate {
    ProgressUpdate {
        position,
        message: message.map(|s| s.to_string()),
        echo: echo.map(|s| s.to_string()),
    }
}

fn found(path: &str, extension: Option<&str>, modified: Option<u64>) -> FoundFile {
    FoundFile {
        path: path.to_string(),
        is_file: true,
        extension: extension.map(|s| s.to_string()),
        modified,
    }
}

#[test]
fn arguments_without_deno() {
    assert_eq!(
        ytdlp_args("D\\ffmpeg", "M", None, "abc"),
        vec![
            "--extract-audio", "--audio-format", "mp3", "--audio-quality", "0", "--no-playlist",
            "--ffmpeg-location", "D\\ffmpeg", "--output", "%(title)s.%(ext)s", "--paths", "M",
            "--newline", "--no-color", "--progress", "https://www.youtube.com/watch?v=abc",
        ]
    );
}

#[test]
fn arguments_with_deno() {
    let args = ytdlp_args("f", "m", Some("D\\deno.exe"), "abc");
    assert_eq!(args.len(), 19);
    assert_eq!(
        args[15..].to_vec(),
        vec![
            "--no-js-runtimes", "--js-runtimes", "deno:D\\deno.exe",
            "https://www.youtube.com/watch?v=abc",
        ]
    );
}

#[test]
fn progress_moves_the_bar() {
    assert_eq!(
        stdout_line("[download]  45.3% of    3.50MiB at  1.20MiB/s ETA 00:02"),
        update(Some(45), Some("of    3.50MiB at  1.20MiB/s ETA 00:02"), None)
    );
    assert_eq!(stdout_line("[download] 100%"), update(Some(100), None, None));
    assert_eq!(stdout_line("[download] 100%  \t"), update(Some(100), None, None));
    assert_eq!(stdout_line("[download] 250% x"), update(Some(100), Some("x"), None));
    assert_eq!(stdout_line("[download] lots% x%"), update(Some(0), Some("x%"), None));
    assert_eq!(stdout_line("7% [download]"), update(Some(7), Some("[download]"), None));
}

#[test]
fn later_work_changes_the_message() {
    assert_eq!(
        stdout_line("[ExtractAudio] Destination: a.mp3"),
        update(Some(100), Some("Wandle in MP3 um…"), None)
    );
    assert_eq!(stdout_line("[Metadata] x"), update(None, Some("Schreibe Metadaten…"), None));
    assert_eq!(
        stdout_line("[EmbedThumbnail] x"),
        update(None, Some("Vorschaubild einbetten…"), None)
    );
    assert_eq!(
        stdout_line("[Metadata] [ExtractAudio]"),
        update(Some(100), Some("Wandle in MP3 um…"), None)
    );
}

#[test]
fn other_tagged_lines_are_shown() {
    assert_eq!(stdout_line("[youtube] abc: x  "), update(None, None, Some("  [youtube] abc: x")));
    assert_eq!(
        stdout_line("[download] Destination: a.webm"),
        update(None, None, Some("  [download] Destination: a.webm"))
    );
    assert_eq!(stdout_line("WARNING: x"), update(None, None, None));
    assert_eq!(stdout_line(" [youtube] x"), update(None, None, None));
    assert_eq!(stdout_line(""), update(None, None, None));
}

#[test]
fn lines_that_cannot_be_read() {
    assert!(!is_readable("[download] ü50%"));
    assert!(is_readable("[other] ü50%"));
    assert!(is_readable("[download] ü 50%"));
    assert!(is_readable("[download] ü50"));
    assert!(is_readable(""));
}

#[test]
fn errors_are_shown_and_progress_is_not() {
    assert_eq!(stderr_line(" ERROR: x \n").as_deref(), Some("  ERROR: x"));
    assert_eq!(stderr_line("").as_deref(), Some("  "));
    assert_eq!(stderr_line("[download] 5%"), None);
}

#[test]
fn the_newest_file_is_the_result() {
    let files = vec![
        found("old.mp3", Some("mp3"), Some(5)),
        found("new.MP3", Some("MP3"), Some(9)),
        found("newer.txt", Some("txt"), Some(20)),
        found("same.Mp3", Some("Mp3"), Some(9)),
        found("older.mp3", Some("mp3"), Some(8)),
    ];
    assert_eq!(newest(&files), Some(3));
    assert_eq!(download_result(true, &files), Ok(Some("same.Mp3".to_string())));
    assert_eq!(download_result(false, &files), Err(DownloadError::DownloaderFailed));
    let said = download_error_text(DownloadError::DownloaderFailed);
    assert_eq!(said, "yt-dlp mit Fehlercode beendet");
}

#[test]
fn what_may_be_the_result() {
    let mut dir = found("dir.mp3", Some("mp3"), Some(9));
    dir.is_file = false;
    assert_eq!(newest(&vec![dir]), None);
    assert_eq!(newest(&vec![]), None);
    assert_eq!(download_result(true, &vec![]), Ok(None));
    assert_eq!(newest(&vec![found("x.mp4", Some("mp4"), None)]), None);
    assert_eq!(newest(&vec![found("noext", None, Some(2))]), None);
    let beside = vec![found("a.mp3", Some("mp3"), Some(1)), found("noext", None, Some(2))];
    assert_eq!(newest(&beside), Some(0));
    assert_eq!(download_result(true, &beside), Ok(Some("a.mp3".to_string())));
    let unknown = vec![found("a.mp3", Some("mp3"), Some(0)), found("b.mp3", Some("mp3"), None)];
    assert_eq!(newest(&unknown), Some(1));
}

#[test]
fn case_is_ignored_in_ascii_only() {
    let pairs = [
        ("mp3", "MP3"),
        ("mP3", "mp3"),
        ("", ""),
        ("é", "É"),
        ("k", "\u{212a}"),
        ("mp3", "mp"),
        ("@[`{", "`{@["),
    ];
    for (a, b) in pairs {
        assert_eq!(equal_but_for_case(a, b), a.eq_ignore_ascii_case(b), "{} {}", a, b);
    }
}

#[test]
fn texts_are_centered_as_the_formatter_does() {
    for s in ["", "a", "ab", "✓   FERTIG!", "longer than it"] {
        for width in [0usize, 1, 2, 5, 10, 76] {
            assert_eq!(center(s, width), format!("{: ^width$}", s, width = width));
        }
    }
}

#[test]
fn the_completion_is_hard_to_miss() {
    let lines = completion_lines("C:\\Music\\a.mp3");
    let bar = "#".repeat(78);
    let empty = format!("#{: ^76}#", "");
    let done = format!("#{: ^76}#", "✓   FERTIG!   —   DOWNLOADED");
    let mut expected: Vec<String> = vec![String::new(), String::new(), String::new()];
    for _ in 0..3 {
        for line in [&bar, &empty, &done, &empty, &bar, &String::new()] {
            expected.push(line.to_string());
        }
    }
    expected.push("  Ausgabedatei:".to_string());
    expected.push("  C:\\Music\\a.mp3".to_string());
    expected.push(String::new());
    assert_eq!(lines, expected);
    assert!(lines[3..8].iter().all(|line| line.chars().count() == 78));
}
