//! Texts for the terminal.

use vstd::prelude::*;
use vstd::string::*;
use crate::text::chars_of;

verus! {

/// The width of the banner that tells of a finished download.
pub const BANNER_WIDTH: usize = 78;

/// `n` times the character `c`.
pub open spec fn repeated(c: char, n: nat) -> Seq<char> {
    Seq::new(n, |i: int| c)
}

/// `text` in the middle of a line of `width` characters, or `text` itself if it is wider. If
/// the spaces cannot be shared out evenly, one more of them stands behind the text.
pub open spec fn centered(text: Seq<char>, width: nat) -> Seq<char> {
    if text.len() >= width {
        text
    } else {
        let spaces = (width - text.len()) as nat;
        repeated(' ', spaces / 2) + text + repeated(' ', (spaces - spaces / 2) as nat)
    }
}

/// One line of a box: `text` in its middle and a bar at each end.
pub open spec fn box_line(text: Seq<char>) -> Seq<char> {
    "#"@ + centered(text, (BANNER_WIDTH - 2) as nat) + "#"@
}

/// One box with its message.
pub open spec fn completion_box() -> Seq<Seq<char>> {
    seq![
        repeated('#', BANNER_WIDTH as nat),
        box_line(Seq::empty()),
        box_line("✓   FERTIG!   —   DOWNLOADED"@),
        box_line(Seq::empty()),
        repeated('#', BANNER_WIDTH as nat),
        Seq::empty(),
    ]
}

/// The lines that tell of the finished download of `path`: three boxes that are hard to
/// miss, and the path.
pub open spec fn completion(path: Seq<char>) -> Seq<Seq<char>> {
    seq![Seq::empty(), Seq::empty(), Seq::empty()] + completion_box() + completion_box()
        + completion_box() + seq!["  Ausgabedatei:"@, "  "@ + path, Seq::empty()]
}

/// Appends `c` to `s`, `n` times.
fn push_repeated(s: &mut String, c: char, n: usize)
    ensures
        final(s)@ == old(s)@ + repeated(c, n as nat),
{
    let mut i: usize = 0;
    assert(s@ =~= old(s)@ + repeated(c, 0));
    while i < n
        invariant
            i <= n,
            s@ == old(s)@ + repeated(c, i as nat),
        decreases n - i,
    {
        s.push(c);
        i = i + 1;
        assert(s@ =~= old(s)@ + repeated(c, i as nat));
    }
}

/// `text` in the middle of a line of `width` characters.
pub fn center(text: &str, width: usize) -> (s: String)
    ensures
        s@ == centered(text@, width as nat),
{
    let len: usize = chars_of(text).len();
    if len >= width {
        return text.to_owned();
    }
    let spaces: usize = width - len;
    let mut s = String::new();
    push_repeated(&mut s, ' ', spaces / 2);
    s.append(text);
    push_repeated(&mut s, ' ', spaces - spaces / 2);
    assert(s@ =~= centered(text@, width as nat));
    s
}

/// One line of a box with `text` in its middle.
fn box_line_of(text: &str) -> (s: String)
    ensures
        s@ == box_line(text@),
{
    let mut s = "#".to_owned();
    s.append(center(text, BANNER_WIDTH - 2).as_str());
    s.append("#");
    s
}

/// Appends one box with its message to `lines`.
fn push_box(lines: &mut Vec<String>)
    ensures
        final(lines).deep_view() == old(lines).deep_view() + completion_box(),
{
    let mut bar = String::new();
    push_repeated(&mut bar, '#', BANNER_WIDTH);
    assert(bar@ =~= repeated('#', BANNER_WIDTH as nat));
    let ghost nothing = Seq::<char>::empty();
    proof {
        reveal_strlit("");
        assert(""@ =~= nothing);
    }
    lines.push(bar.clone());
    lines.push(box_line_of(""));
    lines.push(box_line_of("✓   FERTIG!   —   DOWNLOADED"));
    lines.push(box_line_of(""));
    lines.push(bar);
    lines.push(String::new());
    assert(lines.deep_view() =~= old(lines).deep_view() + completion_box());
}

/// The lines that tell of the finished download of `path`.
pub fn completion_lines(path: &str) -> (lines: Vec<String>)
    ensures
        lines.deep_view() == completion(path@),
{
    let mut lines: Vec<String> = Vec::new();
    lines.push(String::new());
    lines.push(String::new());
    lines.push(String::new());
    let ghost nothing = Seq::<char>::empty();
    assert(lines.deep_view() =~= seq![nothing, nothing, nothing]);
    push_box(&mut lines);
    push_box(&mut lines);
    push_box(&mut lines);
    let ghost above = lines.deep_view();
    lines.push("  Ausgabedatei:".to_owned());
    let mut shown = "  ".to_owned();
    shown.append(path);
    lines.push(shown);
    lines.push(String::new());
    assert(lines.deep_view() =~= above + seq!["  Ausgabedatei:"@, "  "@ + path@, nothing]);
    lines
}

// ---- Laws -------------------------------------------------------------------------

/// A centered text that fits fills its line, and the spaces before and behind it differ by
/// one at most.
pub proof fn centered_text_fills_its_line(text: Seq<char>, width: nat)
    requires
        text.len() <= width,
    ensures
        centered(text, width).len() == width,
        exists|before: nat|
            {
                &&& before + text.len() <= width
                &&& #[trigger] centered(text, width).subrange(
                    before as int,
                    (before + text.len()) as int,
                ) == text
                &&& before <= width - text.len() - before <= before + 1
            },
{
    let before: nat = ((width - text.len()) / 2) as nat;
    assert(centered(text, width).subrange(before as int, (before + text.len()) as int) =~= text);
}

/// The lines of a box are equally wide.
pub proof fn box_lines_are_equally_wide()
    ensures
        forall|i: int|
            0 <= i < 5 ==> (#[trigger] completion_box()[i]).len() == BANNER_WIDTH,
{
    reveal_strlit("#");
    reveal_strlit("✓   FERTIG!   —   DOWNLOADED");
    centered_text_fills_its_line(Seq::empty(), (BANNER_WIDTH - 2) as nat);
    centered_text_fills_its_line("✓   FERTIG!   —   DOWNLOADED"@, (BANNER_WIDTH - 2) as nat);
}

/// Around a centered text stand spaces and nothing else; a text that is too wide is left as it
/// is.
pub proof fn spaces_stand_around_centered_text(text: Seq<char>, width: nat, i: int)
    requires
        0 <= i < centered(text, width).len(),
    ensures
        text.len() >= width ==> centered(text, width) == text,
        text.len() < width ==> {
            let before: int = (width - text.len()) / 2;
            if before <= i < before + text.len() {
                centered(text, width)[i] == text[i - before]
            } else {
                centered(text, width)[i] == ' '
            }
        },
{
}

/// The lines that tell of a download: three boxes of six lines, all alike whatever was
/// downloaded, with the message in the third line of each; then the path as it is.
pub proof fn the_path_is_shown_below_three_boxes(path: Seq<char>, k: int)
    ensures
        ({
            let lines = completion(path);
            let bar = Seq::new(78, |i: int| '#');
            &&& lines.len() == 24
            &&& 0 <= k < 3 ==> {
                &&& lines[k] == Seq::<char>::empty()
                &&& lines[3 + 6 * k] == bar
                &&& lines[4 + 6 * k] == "#"@ + Seq::new(76, |i: int| ' ') + "#"@
                &&& lines[5 + 6 * k] == "#"@ + centered("✓   FERTIG!   —   DOWNLOADED"@, 76)
                    + "#"@
                &&& lines[6 + 6 * k] == lines[4 + 6 * k]
                &&& lines[7 + 6 * k] == bar
                &&& lines[8 + 6 * k] == Seq::<char>::empty()
            }
            &&& lines[21] == "  Ausgabedatei:"@
            &&& lines[22] == "  "@ + path
            &&& lines[23] == Seq::<char>::empty()
        }),
{
    let lines = completion(path);
    let nothing = Seq::<char>::empty();
    assert(centered(nothing, 76) =~= Seq::new(76, |i: int| ' '));
    assert(repeated('#', 78) =~= Seq::new(78, |i: int| '#'));
    if k == 0 {
    } else if k == 1 {
        assert(lines[9] == completion_box()[0]);
    } else if k == 2 {
        assert(lines[15] == completion_box()[0]);
    }
}

} // verus!
