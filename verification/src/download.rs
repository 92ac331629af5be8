//! The download itself: how the downloader is called, what its output means for the
//! progress bar, and which file it made.

use vstd::prelude::*;
use vstd::string::*;
use crate::percent::{
    has_readable_percentage, lines_that_can_be_read, numeral_follows_ascii, parse_pct, percentage,
    reading, the_numeral_before_the_sign_is_read,
};
use crate::text::{
    after_first, blank, chars_of, contains, contains_chars, find_char, first_of_appended,
    lemma_rspan, lemma_span, other_than, rspan, span, string_of, trim, trim_chars,
    trim_takes_white_space_away, what_stands_there_is_found, white_space,
};
use crate::video::{extraction_is_stable, video_id, watch_page, watch_url};

verus! {

// ---- Arguments --------------------------------------------------------------------

/// The arguments for the download of the video `id`: the best MP3, named after the title,
/// into `out_dir`, with one progress line after the other. A `deno` program, if there is one,
/// is used in place of every other script runtime.
pub open spec fn downloader_args(
    ffmpeg_dir: Seq<char>,
    out_dir: Seq<char>,
    deno: Option<Seq<char>>,
    id: Seq<char>,
) -> Seq<Seq<char>> {
    let always = seq![
        "--extract-audio"@,
        "--audio-format"@,
        "mp3"@,
        "--audio-quality"@,
        "0"@,
        "--no-playlist"@,
        "--ffmpeg-location"@,
        ffmpeg_dir,
        "--output"@,
        "%(title)s.%(ext)s"@,
        "--paths"@,
        out_dir,
        "--newline"@,
        "--no-color"@,
        "--progress"@,
    ];
    let runtime = match deno {
        Some(path) => seq!["--no-js-runtimes"@, "--js-runtimes"@, "deno:"@ + path],
        None => Seq::empty(),
    };
    always + runtime + seq![watch_page(id)]
}

/// The arguments for the download of the video `video_id`.
pub fn ytdlp_args(
    ffmpeg_dir: &str,
    out_dir: &str,
    deno: Option<&str>,
    video_id: &str,
) -> (args: Vec<String>)
    ensures
        args.deep_view() == downloader_args(
            ffmpeg_dir@,
            out_dir@,
            match deno {
                Some(path) => Some(path@),
                None => None,
            },
            video_id@,
        ),
{
    let mut args: Vec<String> = Vec::new();
    args.push("--extract-audio".to_owned());
    args.push("--audio-format".to_owned());
    args.push("mp3".to_owned());
    args.push("--audio-quality".to_owned());
    args.push("0".to_owned());
    args.push("--no-playlist".to_owned());
    args.push("--ffmpeg-location".to_owned());
    args.push(ffmpeg_dir.to_owned());
    args.push("--output".to_owned());
    args.push("%(title)s.%(ext)s".to_owned());
    args.push("--paths".to_owned());
    args.push(out_dir.to_owned());
    args.push("--newline".to_owned());
    args.push("--no-color".to_owned());
    args.push("--progress".to_owned());
    if let Some(path) = deno {
        args.push("--no-js-runtimes".to_owned());
        args.push("--js-runtimes".to_owned());
        let mut runtime = "deno:".to_owned();
        runtime.append(path);
        args.push(runtime);
    }
    args.push(watch_url(video_id));
    assert(args.deep_view() =~= downloader_args(
        ffmpeg_dir@,
        out_dir@,
        match deno {
            Some(path) => Some(path@),
            None => None,
        },
        video_id@,
    ));
    args
}

// ---- Progress ---------------------------------------------------------------------

/// What a line of output changes in the display.
#[derive(Debug, PartialEq, Eq)]
pub struct ProgressUpdate {
    /// The new position of the bar, in percent.
    pub position: Option<u64>,
    /// The new message beside the bar.
    pub message: Option<String>,
    /// A line to show above the bar.
    pub echo: Option<String>,
}

/// The mathematical counterpart of a `ProgressUpdate`.
pub struct Display {
    pub position: Option<u64>,
    pub message: Option<Seq<char>>,
    pub echo: Option<Seq<char>>,
}

impl View for ProgressUpdate {
    type V = Display;

    open spec fn view(&self) -> Display {
        Display {
            position: self.position,
            message: self.message.deep_view(),
            echo: self.echo.deep_view(),
        }
    }
}

/// Whether a line reports how far the download has come.
pub open spec fn reports_progress(line: Seq<char>) -> bool {
    contains(line, "[download]"@) && line.contains('%')
}

/// `text`, unless it is empty.
pub open spec fn unless_empty(text: Seq<char>) -> Option<Seq<char>> {
    if text.len() > 0 {
        Some(text)
    } else {
        None
    }
}

/// The position that a progress line reports: its percentage, at most 100, and 0 if it has
/// none.
pub open spec fn reported_position(line: Seq<char>) -> u64 {
    match percentage(line) {
        Some(pct) => if pct <= 100 {
            pct
        } else {
            100
        },
        None => 0,
    }
}

/// What a line of the downloader's output changes in the display.
pub open spec fn display(line: Seq<char>) -> Display {
    if reports_progress(line) {
        Display {
            position: Some(reported_position(line)),
            message: unless_empty(trim(after_first(line, '%')->Some_0)),
            echo: None,
        }
    } else if contains(line, "[ExtractAudio]"@) {
        Display { position: Some(100), message: Some("Wandle in MP3 um…"@), echo: None }
    } else if contains(line, "[Metadata]"@) {
        Display { position: None, message: Some("Schreibe Metadaten…"@), echo: None }
    } else if contains(line, "[EmbedThumbnail]"@) {
        Display { position: None, message: Some("Vorschaubild einbetten…"@), echo: None }
    } else if line.len() > 0 && line[0] == '[' && trim(line).len() > 0 {
        Display { position: None, message: None, echo: Some("  "@ + trim(line)) }
    } else {
        Display { position: None, message: None, echo: None }
    }
}

/// Whether a line can be read: if it reports progress, the numeral before its first percent
/// sign follows nothing or an ASCII character.
pub open spec fn readable(line: Seq<char>) -> bool {
    reports_progress(line) ==> numeral_follows_ascii(line)
}

/// `v` without the white space at its ends, after two spaces.
fn indented(v: &[char]) -> (s: String)
    ensures
        s@ == "  "@ + trim(v@),
{
    let mut s = "  ".to_owned();
    s.append(string_of(trim_chars(v)).as_str());
    s
}

/// Whether the line `v` reports how far the download has come.
fn is_progress(v: &[char]) -> (r: bool)
    ensures
        r == reports_progress(v@),
{
    let sign: usize = find_char(v, '%');
    proof {
        lemma_span(v@, other_than('%'));
        if sign < v@.len() {
            assert(v@[sign as int] == '%');
        } else {
            assert(!v@.contains('%')) by {
                if v@.contains('%') {
                    let i = choose|i: int| 0 <= i < v@.len() && v@[i] == '%';
                    assert(other_than('%')(v@[i]));
                }
            }
        }
    }
    contains_chars(v, chars_of("[download]").as_slice()) && sign < v.len()
}

/// Whether `stdout_line` can be asked about `line`.
pub fn is_readable(line: &str) -> (r: bool)
    ensures
        r == readable(line@),
{
    !is_progress(chars_of(line).as_slice()) || has_readable_percentage(line)
}

/// What a line of the downloader's standard output changes in the display.
pub fn stdout_line(line: &str) -> (r: ProgressUpdate)
    requires
        readable(line@),
    ensures
        r@ == display(line@),
{
    let chars = chars_of(line);
    let v: &[char] = chars.as_slice();
    if is_progress(v) {
        let position: u64 = match parse_pct(line) {
            Some(pct) => if pct <= 100 {
                pct
            } else {
                100
            },
            None => 0,
        };
        let sign: usize = find_char(v, '%');
        proof {
            lemma_span(v@, other_than('%'));
            let i = choose|i: int| 0 <= i < v@.len() && v@[i] == '%';
            if sign == v@.len() {
                assert(other_than('%')(v@[i]));
            }
        }
        let rest: &[char] = &v[sign + 1..v.len()];
        assert(rest@ =~= v@.skip(sign + 1));
        let info: &[char] = trim_chars(rest);
        let message = if info.len() > 0 {
            Some(string_of(info))
        } else {
            None
        };
        ProgressUpdate { position: Some(position), message, echo: None }
    } else if contains_chars(v, chars_of("[ExtractAudio]").as_slice()) {
        ProgressUpdate {
            position: Some(100),
            message: Some("Wandle in MP3 um…".to_owned()),
            echo: None,
        }
    } else if contains_chars(v, chars_of("[Metadata]").as_slice()) {
        ProgressUpdate {
            position: None,
            message: Some("Schreibe Metadaten…".to_owned()),
            echo: None,
        }
    } else if contains_chars(v, chars_of("[EmbedThumbnail]").as_slice()) {
        ProgressUpdate {
            position: None,
            message: Some("Vorschaubild einbetten…".to_owned()),
            echo: None,
        }
    } else if v.len() > 0 && v[0] == '[' && trim_chars(v).len() > 0 {
        ProgressUpdate { position: None, message: None, echo: Some(indented(v)) }
    } else {
        ProgressUpdate { position: None, message: None, echo: None }
    }
}

/// What is shown of a line of the downloader's standard error: progress is not, the rest is.
pub open spec fn shown_error(line: Seq<char>) -> Option<Seq<char>> {
    if contains(line, "[download]"@) {
        None
    } else {
        Some("  "@ + trim(line))
    }
}

/// What is shown of a line of the downloader's standard error.
pub fn stderr_line(line: &str) -> (r: Option<String>)
    ensures
        r.deep_view() == shown_error(line@),
{
    let v = chars_of(line);
    if contains_chars(v.as_slice(), chars_of("[download]").as_slice()) {
        None
    } else {
        Some(indented(v.as_slice()))
    }
}

// ---- The result -------------------------------------------------------------------

/// Something that was found in the output directory.
#[derive(Debug)]
pub struct FoundFile {
    /// Its path, as it is shown.
    pub path: String,
    pub is_file: bool,
    /// What follows the last dot of its name, if that is text.
    pub extension: Option<String>,
    /// When it was last changed, in seconds since the epoch, if that is known.
    pub modified: Option<u64>,
}

/// `c` as a small letter, if it is an ASCII letter.
pub open spec fn lower(c: char) -> char {
    if 'A' <= c <= 'Z' {
        (c as u32 + 32) as char
    } else {
        c
    }
}

/// Whether two texts differ at most in the case of ASCII letters.
pub open spec fn same_but_for_case(a: Seq<char>, b: Seq<char>) -> bool {
    a.len() == b.len() && forall|i: int| 0 <= i < a.len() ==> lower(#[trigger] a[i]) == lower(b[i])
}

/// Whether something that was found may be the downloaded file: an MP3 file, by its
/// extension.
pub open spec fn may_be_result(file: FoundFile) -> bool {
    file.is_file && (file.extension matches Some(extension) && same_but_for_case(
        extension@,
        "mp3"@,
    ))
}

/// When a file was last changed; one of which that is not known counts as very old.
pub open spec fn changed(file: FoundFile) -> u64 {
    match file.modified {
        Some(t) => t,
        None => 0,
    }
}

/// Whether `files[i]` is the newest MP3 file, and the last of those equally new.
pub open spec fn is_newest(files: Seq<FoundFile>, i: int) -> bool {
    &&& 0 <= i < files.len()
    &&& may_be_result(files[i])
    &&& forall|j: int|
        0 <= j < files.len() && may_be_result(#[trigger] files[j]) ==> if j <= i {
            changed(files[j]) <= changed(files[i])
        } else {
            changed(files[j]) < changed(files[i])
        }
}

/// `c` as a small letter, if it is an ASCII letter.
fn lower_of(c: char) -> (r: char)
    ensures
        r == lower(c),
{
    if 'A' <= c && c <= 'Z' {
        (c as u8 + 32) as char
    } else {
        c
    }
}

/// Whether `a` and `b` differ at most in the case of ASCII letters.
pub fn equal_but_for_case(a: &str, b: &str) -> (r: bool)
    ensures
        r == same_but_for_case(a@, b@),
{
    let left = chars_of(a);
    let right = chars_of(b);
    if left.len() != right.len() {
        return false;
    }
    let mut i: usize = 0;
    while i < left.len()
        invariant
            left@ == a@,
            right@ == b@,
            left@.len() == right@.len(),
            i <= left@.len(),
            forall|j: int| 0 <= j < i ==> lower(#[trigger] a@[j]) == lower(b@[j]),
        decreases left@.len() - i,
    {
        if lower_of(left[i]) != lower_of(right[i]) {
            assert(lower(a@[i as int]) != lower(b@[i as int]));
            return false;
        }
        i = i + 1;
    }
    true
}

/// Whether `file` may be the downloaded file.
fn is_candidate(file: &FoundFile) -> (r: bool)
    ensures
        r == may_be_result(*file),
{
    if !file.is_file {
        return false;
    }
    match &file.extension {
        Some(extension) => equal_but_for_case(extension.as_str(), "mp3"),
        None => false,
    }
}

/// The position of the newest MP3 file among `files`, if there is one.
pub fn newest(files: &Vec<FoundFile>) -> (r: Option<usize>)
    ensures
        match r {
            Some(i) => is_newest(files@, i as int),
            None => forall|j: int| 0 <= j < files@.len() ==> !may_be_result(#[trigger] files@[j]),
        },
{
    let mut best: Option<usize> = None;
    let mut i: usize = 0;
    while i < files.len()
        invariant
            i <= files@.len(),
            best is None ==> forall|j: int|
                0 <= j < i ==> !may_be_result(#[trigger] files@[j]),
            best is Some ==> {
                let b = best->Some_0 as int;
                &&& 0 <= b < i
                &&& may_be_result(files@[b])
                &&& forall|j: int|
                    0 <= j < i && may_be_result(#[trigger] files@[j]) ==> if j <= b {
                        changed(files@[j]) <= changed(files@[b])
                    } else {
                        changed(files@[j]) < changed(files@[b])
                    }
            },
        decreases files@.len() - i,
    {
        if is_candidate(&files[i]) {
            let t: u64 = files[i].modified.unwrap_or(0);
            let newer = match best {
                Some(b) => files[b].modified.unwrap_or(0) <= t,
                None => true,
            };
            if newer {
                best = Some(i);
            }
        }
        i = i + 1;
    }
    best
}

/// Why a download ended without a result.
#[derive(Debug, Clone, Copy, PartialEq, Eq, Structural)]
pub enum DownloadError {
    /// The downloader reported a failure.
    DownloaderFailed,
}

/// What is said of a failed download.
pub fn download_error_text(error: DownloadError) -> (s: &'static str)
    ensures
        s@ == "yt-dlp mit Fehlercode beendet"@,
{
    match error {
        DownloadError::DownloaderFailed => "yt-dlp mit Fehlercode beendet",
    }
}

/// The path of the downloaded file, if the downloader succeeded and there is one: the newest
/// MP3 file that was found in the output directory.
pub fn download_result(success: bool, found: &Vec<FoundFile>) -> (r: Result<
    Option<String>,
    DownloadError,
>)
    ensures
        r is Ok <==> success,
        r matches Ok(Some(path)) ==> exists|i: int|
            #[trigger] is_newest(found@, i) && path@ == found@[i].path@,
        r matches Ok(None) ==> forall|j: int|
            0 <= j < found@.len() ==> !may_be_result(#[trigger] found@[j]),
{
    if !success {
        return Err(DownloadError::DownloaderFailed);
    }
    match newest(found) {
        Some(i) => Ok(Some(found[i].path.clone())),
        None => Ok(None),
    }
}

// ---- Laws -------------------------------------------------------------------------

/// The bar never goes beyond 100 percent.
pub proof fn position_is_a_percentage(line: Seq<char>)
    ensures
        display(line).position matches Some(position) ==> position <= 100,
{
}

/// A line either moves the bar or changes its message, or it is shown above the bar, never
/// both; an empty line changes nothing.
pub proof fn lines_are_shown_in_one_place(line: Seq<char>)
    ensures
        display(line).echo is Some ==> display(line).position is None && display(line).message
            is None,
        line.len() == 0 ==> display(line).echo is None && display(line).position is None
            && display(line).message is None,
{
    reveal_strlit("[download]");
    reveal_strlit("[ExtractAudio]");
    reveal_strlit("[Metadata]");
    reveal_strlit("[EmbedThumbnail]");
}

/// What is returned is an MP3 file, and no MP3 file was changed later.
pub proof fn the_newest_file_is_the_latest_mp3(files: Seq<FoundFile>, i: int, j: int)
    requires
        is_newest(files, i),
        0 <= j < files.len(),
        files[j].is_file,
        files[j].extension matches Some(extension) && same_but_for_case(extension@, "mp3"@),
    ensures
        files[i].is_file,
        files[i].extension matches Some(extension) && same_but_for_case(extension@, "mp3"@),
        changed(files[j]) <= changed(files[i]),
{
    assert(may_be_result(files[j]));
}

/// There is at most one newest file.
pub proof fn the_newest_file_is_unique(files: Seq<FoundFile>, i: int, j: int)
    requires
        is_newest(files, i),
        is_newest(files, j),
    ensures
        i == j,
{
    assert(may_be_result(files[i]));
    assert(may_be_result(files[j]));
}

/// The last argument is the page of the video, whatever else is set.
pub proof fn the_page_is_the_last_argument(
    ffmpeg_dir: Seq<char>,
    out_dir: Seq<char>,
    deno: Option<Seq<char>>,
    id: Seq<char>,
)
    ensures
        downloader_args(ffmpeg_dir, out_dir, deno, id).last() == watch_page(id),
        downloader_args(ffmpeg_dir, out_dir, deno, id).len() == (if deno is Some {
            19int
        } else {
            16int
        }),
{
}

/// What is downloaded is the video whose id was taken from the address `url`, however that
/// address looks besides.
pub proof fn the_chosen_video_is_downloaded(
    url: Seq<char>,
    ffmpeg_dir: Seq<char>,
    out_dir: Seq<char>,
    deno: Option<Seq<char>>,
)
    requires
        video_id(url) is Some,
    ensures
        video_id(downloader_args(ffmpeg_dir, out_dir, deno, video_id(url)->Some_0).last())
            == video_id(url),
{
    extraction_is_stable(url);
}

/// A line that holds `[download]` and a percent sign puts the bar where the numeral before its
/// first percent sign says, at 100 if that is more and at 0 if there is no number. What follows
/// the sign, without the white space around it, becomes the message, unless nothing is left.
pub proof fn progress_lines_move_the_bar(
    p: Seq<char>,
    q: Seq<char>,
    a: Seq<char>,
    t: Seq<char>,
    x: Seq<char>,
    m: Seq<char>,
    y: Seq<char>,
)
    requires
        p + "[download]"@ + q == a + t + seq!['%'] + (x + m + y),
        !a.contains('%'),
        a.len() > 0 ==> !('0' <= a.last() <= '9') && a.last() != '.',
        forall|i: int| 0 <= i < t.len() ==> '0' <= #[trigger] t[i] <= '9' || t[i] == '.',
        forall|i: int| 0 <= i < x.len() ==> white_space(#[trigger] x[i]),
        forall|i: int| 0 <= i < y.len() ==> white_space(#[trigger] y[i]),
        m.len() > 0 ==> !white_space(m[0]) && !white_space(m.last()),
    ensures
        ({
            let shown = display(p + "[download]"@ + q);
            &&& shown.position == Some(
                match reading(t) {
                    Some(n) => if n < 100 {
                        n
                    } else {
                        100
                    },
                    None => 0,
                },
            )
            &&& m.len() > 0 ==> shown.message == Some(m)
            &&& m.len() == 0 ==> shown.message is None
            &&& shown.echo is None
        }),
{
    let line = p + "[download]"@ + q;
    let b = x + m + y;
    what_stands_there_is_found(p, "[download]"@, q);
    the_numeral_before_the_sign_is_read(a, t, b);
    assert(line[(a.len() + t.len()) as int] == '%');
    let before = a + t;
    assert(!before.contains('%')) by {
        if before.contains('%') {
            let k = choose|k: int| 0 <= k < before.len() && before[k] == '%';
            if k < a.len() {
                assert(a[k] == '%');
            } else {
                assert(t[k - a.len()] == '%');
            }
        }
    }
    assert(line =~= before.push('%') + b);
    first_of_appended(before, '%', b);
    trim_takes_white_space_away(x, m, y);
}

/// What a line shows that reports no progress: the steps after the download have messages of
/// their own, the first that fits; any other line that starts with a bracket is shown above the
/// bar, without white space around it; and nothing else is shown.
pub proof fn other_lines_are_shown_by_their_tag(line: Seq<char>)
    requires
        !contains(line, "[download]"@) || !line.contains('%'),
    ensures
        ({
            let shown = display(line);
            let audio = contains(line, "[ExtractAudio]"@);
            let meta = contains(line, "[Metadata]"@);
            let cover = contains(line, "[EmbedThumbnail]"@);
            let tagged = line.len() > 0 && line[0] == '[';
            &&& shown.position == (if audio {
                Some(100u64)
            } else {
                None
            })
            &&& audio ==> shown.message == Some("Wandle in MP3 um…"@)
            &&& !audio && meta ==> shown.message == Some("Schreibe Metadaten…"@)
            &&& !audio && !meta && cover ==> shown.message == Some("Vorschaubild einbetten…"@)
            &&& !audio && !meta && !cover ==> shown.message is None
            &&& shown.echo == (if tagged && !audio && !meta && !cover {
                Some("  "@ + trim(line))
            } else {
                None
            })
        }),
{
    if line.len() > 0 && line[0] == '[' {
        lemma_span(line, blank());
        assert(span(line, blank()) == 0) by {
            if span(line, blank()) > 0 {
                assert(blank()(line[0]));
            }
        }
        assert(line.skip(0) =~= line);
        lemma_rspan(line, blank());
        assert(rspan(line, blank()) < line.len()) by {
            if rspan(line, blank()) == line.len() {
                assert(blank()(line[0]));
            }
        }
    }
}

/// Of the standard error everything is shown but what holds `[download]`.
pub proof fn errors_are_shown(line: Seq<char>)
    ensures
        contains(line, "[download]"@) ==> shown_error(line) is None,
        !contains(line, "[download]"@) ==> shown_error(line) == Some("  "@ + trim(line)),
{
}

/// Two texts are the same but for case exactly if they are equally long and each two characters
/// are equal or the small and the capital form of one ASCII letter.
pub proof fn case_is_that_of_ascii_letters(a: Seq<char>, b: Seq<char>)
    ensures
        same_but_for_case(a, b) <==> a.len() == b.len() && forall|i: int|
            0 <= i < a.len() ==> {
                ||| #[trigger] a[i] == b[i]
                ||| 'A' <= a[i] <= 'Z' && b[i] as int == a[i] as int + 32
                ||| 'A' <= b[i] <= 'Z' && a[i] as int == b[i] as int + 32
            },
{
    if a.len() == b.len() {
        assert forall|i: int| 0 <= i < a.len() implies (lower(#[trigger] a[i]) == lower(b[i])) == ({
            ||| a[i] == b[i]
            ||| 'A' <= a[i] <= 'Z' && b[i] as int == a[i] as int + 32
            ||| 'A' <= b[i] <= 'Z' && a[i] as int == b[i] as int + 32
        }) by {}
    }
}

/// Whether something is a file whose extension is `mp3`, in small letters or capitals.
pub open spec fn is_mp3(file: FoundFile) -> bool {
    &&& file.is_file
    &&& file.extension is Some
    &&& file.extension->Some_0@.len() == 3
    &&& file.extension->Some_0@[0] == 'm' || file.extension->Some_0@[0] == 'M'
    &&& file.extension->Some_0@[1] == 'p' || file.extension->Some_0@[1] == 'P'
    &&& file.extension->Some_0@[2] == '3'
}

/// The possible results are the MP3 files.
pub proof fn results_are_mp3_files(file: FoundFile)
    ensures
        may_be_result(file) <==> is_mp3(file),
{
    reveal_strlit("mp3");
    if file.extension is Some {
        let e = file.extension->Some_0@;
        let m = "mp3"@;
        if same_but_for_case(e, m) {
            assert(lower(e[0]) == lower(m[0]));
            assert(lower(e[1]) == lower(m[1]));
            assert(lower(e[2]) == lower(m[2]));
        }
        if is_mp3(file) {
            assert forall|i: int| 0 <= i < e.len() implies lower(#[trigger] e[i]) == lower(
                m[i],
            ) by {
                if i == 0 {
                } else if i == 1 {
                } else {
                    assert(i == 2);
                }
            }
        }
    }
}

/// No MP3 file was changed in a later second than the newest one, and of those that were
/// changed in the same second it is the last. A file whose time is not known counts as one
/// changed at second 0.
pub proof fn no_mp3_is_newer_than_the_newest(files: Seq<FoundFile>, i: int, j: int)
    requires
        is_newest(files, i),
        0 <= j < files.len(),
        is_mp3(files[j]),
    ensures
        is_mp3(files[i]),
        match (files[j].modified, files[i].modified) {
            (Some(t), Some(u)) => t <= u && (j > i ==> t < u),
            (Some(t), None) => t == 0 && j <= i,
            (None, Some(u)) => j > i ==> u > 0,
            (None, None) => j <= i,
        },
{
    results_are_mp3_files(files[i]);
    results_are_mp3_files(files[j]);
}

/// If there is an MP3 file, one of them is the newest.
pub proof fn some_mp3_is_the_newest(files: Seq<FoundFile>, j: int)
    requires
        0 <= j < files.len(),
        is_mp3(files[j]),
    ensures
        exists|i: int| is_newest(files, i),
    decreases files.len(),
{
    let front = files.drop_last();
    let last: int = files.len() - 1;
    results_are_mp3_files(files[j]);
    assert forall|k: int| 0 <= k < last implies front[k] == #[trigger] files[k] by {}
    if exists|k: int| 0 <= k < last && may_be_result(#[trigger] front[k]) {
        let k = choose|k: int| 0 <= k < last && may_be_result(#[trigger] front[k]);
        results_are_mp3_files(front[k]);
        some_mp3_is_the_newest(front, k);
        let b = choose|b: int| is_newest(front, b);
        if may_be_result(files[last]) && changed(files[b]) <= changed(files[last]) {
            assert forall|m: int| 0 <= m < files.len() && may_be_result(
                #[trigger] files[m],
            ) implies changed(files[m]) <= changed(files[last]) by {
                if m < last {
                    assert(may_be_result(front[m]));
                }
            }
            assert(is_newest(files, last));
        } else {
            assert forall|m: int| 0 <= m < files.len() && may_be_result(
                #[trigger] files[m],
            ) implies if m <= b {
                changed(files[m]) <= changed(files[b])
            } else {
                changed(files[m]) < changed(files[b])
            } by {
                if m < last {
                    assert(may_be_result(front[m]));
                }
            }
            assert(is_newest(files, b));
        }
    } else {
        assert(j == last) by {
            if j < last {
                assert(may_be_result(front[j]));
            }
        }
        assert forall|m: int| 0 <= m < files.len() && may_be_result(#[trigger] files[m]) implies m
            == last by {
            if m < last {
                assert(may_be_result(front[m]));
            }
        }
        assert(is_newest(files, last));
    }
}

/// The downloader is told to make the best MP3, and only of the one video; to find ffmpeg in
/// its directory, to write into the output directory a file named after the title, and to
/// report its progress line by line; with deno, to use that and no other script runtime; and
/// which page to take.
pub proof fn the_downloader_is_told_everything(
    ffmpeg_dir: Seq<char>,
    out_dir: Seq<char>,
    deno: Option<Seq<char>>,
    id: Seq<char>,
)
    ensures
        ({
            let args = downloader_args(ffmpeg_dir, out_dir, deno, id);
            &&& args[0] == "--extract-audio"@
            &&& args[1] == "--audio-format"@ && args[2] == "mp3"@
            &&& args[3] == "--audio-quality"@ && args[4] == "0"@
            &&& args[5] == "--no-playlist"@
            &&& args[6] == "--ffmpeg-location"@ && args[7] == ffmpeg_dir
            &&& args[8] == "--output"@ && args[9] == "%(title)s.%(ext)s"@
            &&& args[10] == "--paths"@ && args[11] == out_dir
            &&& args[12] == "--newline"@
            &&& args[13] == "--no-color"@
            &&& args[14] == "--progress"@
            &&& deno is None ==> args.len() == 16
            &&& deno matches Some(path) ==> {
                &&& args.len() == 19
                &&& args[15] == "--no-js-runtimes"@
                &&& args[16] == "--js-runtimes"@
                &&& args[17] == "deno:"@ + path
            }
            &&& args.last() == "https://www.youtube.com/watch?v="@ + id
        }),
{
}

/// Every line can be read but one that reports progress and has a character beyond ASCII right
/// before its numeral.
pub proof fn most_lines_can_be_read(line: Seq<char>, a: Seq<char>, t: Seq<char>, b: Seq<char>)
    requires
        !a.contains('%'),
        a.len() > 0 ==> !('0' <= a.last() <= '9') && a.last() != '.',
        forall|i: int| 0 <= i < t.len() ==> '0' <= #[trigger] t[i] <= '9' || t[i] == '.',
    ensures
        !contains(line, "[download]"@) || !line.contains('%') ==> readable(line),
        a.len() == 0 || a.last() <= '\u{7f}' ==> readable(a + t + seq!['%'] + b),
{
    lines_that_can_be_read(a, t, b);
}

/// The contracts speak of what a line changes as it is.
pub proof fn updates_are_seen_as_they_are(update: ProgressUpdate)
    ensures
        update@.position == update.position,
        update.message matches Some(m) ==> update@.message == Some(m@),
        update.message is None <==> update@.message is None,
        update.echo matches Some(e) ==> update@.echo == Some(e@),
        update.echo is None <==> update@.echo is None,
{
}

} // verus!
