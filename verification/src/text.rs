//! Text as sequences of characters: the few string operations that the rest of
//! the library is built from, each with a mathematical counterpart.

use vstd::prelude::*;
use vstd::string::*;

verus! {

// ---- Characters ---------------------------------------------------------------

/// Whether `c` has the Unicode property `White_Space`.
pub open spec fn white_space(c: char) -> bool {
    ||| '\u{9}' <= c <= '\u{d}'
    ||| c == '\u{20}'
    ||| c == '\u{85}'
    ||| c == '\u{a0}'
    ||| c == '\u{1680}'
    ||| '\u{2000}' <= c <= '\u{200a}'
    ||| c == '\u{2028}'
    ||| c == '\u{2029}'
    ||| c == '\u{202f}'
    ||| c == '\u{205f}'
    ||| c == '\u{3000}'
}

/// `char::is_whitespace` tells exactly the characters with the property `White_Space`.
pub assume_specification[ char::is_whitespace ](c: char) -> (b: bool)
    ensures
        b == white_space(c),
;

/// Whether `char::is_alphanumeric` holds of `c`: the Unicode tables decide.
pub uninterp spec fn alphanumeric(c: char) -> bool;

/// Whether `c` is an ASCII letter or digit.
pub open spec fn ascii_alphanumeric(c: char) -> bool {
    ||| '0' <= c <= '9'
    ||| 'A' <= c <= 'Z'
    ||| 'a' <= c <= 'z'
}

/// `char::is_alphanumeric` is a function of the character. Among the ASCII characters it
/// holds of the letters and the digits and of no other.
pub assume_specification[ char::is_alphanumeric ](c: char) -> (b: bool)
    ensures
        b == alphanumeric(c),
        c <= '\u{7f}' ==> b == ascii_alphanumeric(c),
;

/// A letter or a digit: in ASCII by the well-known ranges, beyond it by the Unicode tables.
pub open spec fn letter_or_digit(c: char) -> bool {
    if c <= '\u{7f}' {
        ascii_alphanumeric(c)
    } else {
        alphanumeric(c)
    }
}

/// `String::push` appends one character.
pub assume_specification[ String::push ](s: &mut String, ch: char)
    ensures
        final(s)@ == old(s)@.push(ch),
;

// ---- Prefixes and suffixes ----------------------------------------------------

/// The length of the longest prefix of `s` whose characters all satisfy `p`.
pub open spec fn span(s: Seq<char>, p: spec_fn(char) -> bool) -> nat
    decreases s.len(),
{
    if s.len() > 0 && p(s[0]) {
        1 + span(s.skip(1), p)
    } else {
        0
    }
}

/// The length of the longest suffix of `s` whose characters all satisfy `p`.
pub open spec fn rspan(s: Seq<char>, p: spec_fn(char) -> bool) -> nat
    decreases s.len(),
{
    if s.len() > 0 && p(s.last()) {
        1 + rspan(s.drop_last(), p)
    } else {
        0
    }
}

/// `span` is the one length `n` such that the first `n` characters satisfy `p` and the
/// next one, if any, does not.
pub proof fn lemma_span(s: Seq<char>, p: spec_fn(char) -> bool)
    ensures
        span(s, p) <= s.len(),
        forall|i: int| 0 <= i < span(s, p) ==> p(#[trigger] s[i]),
        span(s, p) < s.len() ==> !p(s[span(s, p) as int]),
    decreases s.len(),
{
    if s.len() > 0 && p(s[0]) {
        let t = s.skip(1);
        lemma_span(t, p);
        assert forall|i: int| 0 <= i < span(s, p) implies p(#[trigger] s[i]) by {
            if i > 0 {
                assert(t[i - 1] == s[i]);
            }
        }
    }
}

/// A length with the two properties of `lemma_span` is the span.
pub proof fn lemma_span_unique(s: Seq<char>, p: spec_fn(char) -> bool, n: nat)
    requires
        n <= s.len(),
        forall|i: int| 0 <= i < n ==> p(#[trigger] s[i]),
        n < s.len() ==> !p(s[n as int]),
    ensures
        span(s, p) == n,
{
    lemma_span(s, p);
    if n < span(s, p) {
        assert(p(s[n as int]));
    }
    if span(s, p) < n {
        assert(p(s[span(s, p) as int]));
    }
}

/// `rspan` is the one length `n` such that the last `n` characters satisfy `p` and the
/// one before them, if any, does not.
pub proof fn lemma_rspan(s: Seq<char>, p: spec_fn(char) -> bool)
    ensures
        rspan(s, p) <= s.len(),
        forall|i: int| s.len() - rspan(s, p) <= i < s.len() ==> p(#[trigger] s[i]),
        rspan(s, p) < s.len() ==> !p(s[s.len() - rspan(s, p) - 1]),
    decreases s.len(),
{
    if s.len() > 0 && p(s.last()) {
        let t = s.drop_last();
        lemma_rspan(t, p);
        assert forall|i: int| s.len() - rspan(s, p) <= i < s.len() implies p(#[trigger] s[i]) by {
            if i < t.len() {
                assert(t[i] == s[i]);
            }
        }
    }
}

/// A length with the two properties of `lemma_rspan` is the span from the end.
pub proof fn lemma_rspan_unique(s: Seq<char>, p: spec_fn(char) -> bool, n: nat)
    requires
        n <= s.len(),
        forall|i: int| s.len() - n <= i < s.len() ==> p(#[trigger] s[i]),
        n < s.len() ==> !p(s[s.len() - n - 1]),
    ensures
        rspan(s, p) == n,
{
    lemma_rspan(s, p);
    if n < rspan(s, p) {
        assert(p(s[s.len() - n - 1]));
    }
    if rspan(s, p) < n {
        assert(p(s[s.len() - rspan(s, p) - 1]));
    }
}

/// The predicate that holds of every character but `c`.
pub open spec fn other_than(c: char) -> spec_fn(char) -> bool {
    |x: char| x != c
}

/// The predicate that holds of `c` alone.
pub open spec fn only(c: char) -> spec_fn(char) -> bool {
    |x: char| x == c
}

/// The predicate that holds of the white-space characters.
pub open spec fn blank() -> spec_fn(char) -> bool {
    |x: char| white_space(x)
}

/// The predicate that holds of all but the white-space characters.
pub open spec fn inked() -> spec_fn(char) -> bool {
    |x: char| !white_space(x)
}

/// The position of the first `c` in `s`, or the length of `s` if there is none.
pub open spec fn first_of(s: Seq<char>, c: char) -> nat {
    span(s, other_than(c))
}

/// What follows the first `c` in `s`, if there is one.
pub open spec fn after_first(s: Seq<char>, c: char) -> Option<Seq<char>> {
    if first_of(s, c) < s.len() {
        Some(s.skip(first_of(s, c) as int + 1))
    } else {
        None
    }
}

/// `s` without the white space at its two ends.
pub open spec fn trim(s: Seq<char>) -> Seq<char> {
    let t = s.skip(span(s, blank()) as int);
    t.take(t.len() - rspan(t, blank()))
}

/// Whether `needle` occurs in `s` as consecutive characters.
pub open spec fn contains(s: Seq<char>, needle: Seq<char>) -> bool {
    exists|i: int| #[trigger] occurs_at(s, needle, i)
}

/// Whether `needle` occurs in `s` from position `i` on.
pub open spec fn occurs_at(s: Seq<char>, needle: Seq<char>, i: int) -> bool {
    &&& 0 <= i
    &&& i + needle.len() <= s.len()
    &&& s.subrange(i, i + needle.len()) == needle
}

/// The pieces of `s` between the separators `sep`: one more than there are separators.
pub open spec fn split(s: Seq<char>, sep: char) -> Seq<Seq<char>>
    decreases s.len(),
    via split_decreases
{
    let n = first_of(s, sep);
    if n < s.len() {
        seq![s.take(n as int)] + split(s.skip(n as int + 1), sep)
    } else {
        seq![s]
    }
}

#[via_fn]
proof fn split_decreases(s: Seq<char>, sep: char) {
}

/// The pieces put together again, with `sep` between each two.
pub open spec fn join(pieces: Seq<Seq<char>>, sep: char) -> Seq<char>
    decreases pieces.len(),
{
    if pieces.len() == 0 {
        Seq::empty()
    } else if pieces.len() == 1 {
        pieces[0]
    } else {
        pieces[0].push(sep) + join(pieces.skip(1), sep)
    }
}

/// The words of `s`: its maximal runs of characters that are not white space, in order.
pub open spec fn words(s: Seq<char>) -> Seq<Seq<char>>
    decreases s.len(),
    via words_decreases
{
    let t = s.skip(span(s, blank()) as int);
    if t.len() == 0 {
        Seq::empty()
    } else {
        let n = span(t, inked());
        seq![t.take(n as int)] + words(t.skip(n as int))
    }
}

#[via_fn]
proof fn words_decreases(s: Seq<char>) {
    lemma_span(s, blank());
    let t = s.skip(span(s, blank()) as int);
    lemma_span(t, inked());
    if t.len() > 0 {
        assert(t[0] == s[span(s, blank()) as int]);
    }
}

// ---- Laws of splitting and trimming -------------------------------------------

/// Splitting loses nothing: the pieces, joined by the separator, are the text again.
pub proof fn split_then_join(s: Seq<char>, sep: char)
    ensures
        split(s, sep).len() > 0,
        join(split(s, sep), sep) == s,
    decreases s.len(),
{
    let n: nat = first_of(s, sep);
    lemma_span(s, other_than(sep));
    if n < s.len() {
        let rest = s.skip(n as int + 1);
        split_then_join(rest, sep);
        assert(split(s, sep).skip(1) =~= split(rest, sep));
        assert(s.take(n as int).push(sep) + rest =~= s);
    }
}

/// No piece holds the separator.
pub proof fn split_pieces_hold_no_separator(s: Seq<char>, sep: char)
    ensures
        forall|i: int|
            0 <= i < split(s, sep).len() ==> !(#[trigger] split(s, sep)[i]).contains(sep),
    decreases s.len(),
{
    let n: nat = first_of(s, sep);
    lemma_span(s, other_than(sep));
    if n < s.len() {
        let rest = s.skip(n as int + 1);
        split_pieces_hold_no_separator(rest, sep);
        assert forall|i: int| 0 <= i < split(s, sep).len() implies !(#[trigger] split(
            s,
            sep,
        )[i]).contains(sep) by {
            if i > 0 {
                assert(split(s, sep)[i] == split(rest, sep)[i - 1]);
            }
        }
    }
}

/// Pieces without the separator, once joined, are split into the same pieces.
pub proof fn join_then_split(pieces: Seq<Seq<char>>, sep: char)
    requires
        pieces.len() > 0,
        forall|i: int| 0 <= i < pieces.len() ==> !(#[trigger] pieces[i]).contains(sep),
    ensures
        split(join(pieces, sep), sep) == pieces,
    decreases pieces.len(),
{
    let s = join(pieces, sep);
    let head = pieces[0];
    assert forall|i: int| 0 <= i < head.len() implies other_than(sep)(#[trigger] head[i]) by {
        assert(head.contains(head[i]));
    }
    if pieces.len() == 1 {
        lemma_span_unique(s, other_than(sep), s.len());
        assert(split(s, sep) =~= pieces);
    } else {
        let tail = pieces.skip(1);
        assert forall|i: int| 0 <= i < tail.len() implies !(#[trigger] tail[i]).contains(sep) by {
            assert(tail[i] == pieces[i + 1]);
        }
        join_then_split(tail, sep);
        assert forall|i: int| 0 <= i < head.len() implies other_than(sep)(#[trigger] s[i]) by {
            assert(s[i] == head[i]);
        }
        assert(s[head.len() as int] == sep);
        lemma_span_unique(s, other_than(sep), head.len());
        assert(s.take(head.len() as int) =~= head);
        assert(s.skip(head.len() as int + 1) =~= join(tail, sep));
        assert(split(s, sep) =~= pieces);
    }
}

/// A separator and a piece appended to a text are one more piece of it.
pub proof fn split_appended(s: Seq<char>, sep: char, piece: Seq<char>)
    requires
        !piece.contains(sep),
    ensures
        split(s.push(sep) + piece, sep) == split(s, sep).push(piece),
    decreases s.len(),
{
    let t = s.push(sep) + piece;
    let n: nat = first_of(s, sep);
    lemma_span(s, other_than(sep));
    assert forall|i: int| 0 <= i < n implies other_than(sep)(#[trigger] t[i]) by {
        assert(t[i] == s[i]);
    }
    lemma_span_unique(t, other_than(sep), n);
    assert(t.take(n as int) =~= s.take(n as int));
    if n < s.len() {
        let rest = s.skip(n as int + 1);
        split_appended(rest, sep, piece);
        assert(t.skip(n as int + 1) =~= rest.push(sep) + piece);
    } else {
        assert(s.take(n as int) =~= s);
        assert(t.skip(n as int + 1) =~= piece);
        join_then_split(seq![piece], sep);
        assert(join(seq![piece], sep) =~= piece);
    }
    assert(split(t, sep) =~= split(s, sep).push(piece));
}

/// The pieces of a text occur in it.
pub proof fn split_pieces_occur(s: Seq<char>, sep: char)
    ensures
        forall|i: int| 0 <= i < split(s, sep).len() ==> contains(s, #[trigger] split(s, sep)[i]),
    decreases s.len(),
{
    let n: nat = first_of(s, sep);
    lemma_span(s, other_than(sep));
    if n < s.len() {
        let rest = s.skip(n as int + 1);
        split_pieces_occur(rest, sep);
        assert forall|i: int| 0 <= i < split(s, sep).len() implies contains(
            s,
            #[trigger] split(s, sep)[i],
        ) by {
            let piece = split(s, sep)[i];
            if i == 0 {
                assert(s.subrange(0, n as int) =~= piece);
                assert(occurs_at(s, piece, 0));
            } else {
                assert(piece == split(rest, sep)[i - 1]);
                let k = choose|k: int| #[trigger] occurs_at(rest, piece, k);
                let from: int = k + n + 1;
                assert(s.subrange(from, from + piece.len()) =~= rest.subrange(k, k + piece.len()));
                assert(occurs_at(s, piece, from));
            }
        }
    } else {
        assert(s.subrange(0, s.len() as int) =~= s);
        assert(occurs_at(s, s, 0));
    }
}

/// Where `c` does not occur, nothing is found, and everything comes before it.
pub proof fn nothing_to_find(s: Seq<char>, c: char)
    requires
        !s.contains(c),
    ensures
        first_of(s, c) == s.len(),
        s.take(first_of(s, c) as int) == s,
        after_first(s, c) is None,
{
    assert forall|i: int| 0 <= i < s.len() implies other_than(c)(#[trigger] s[i]) by {
        assert(s.contains(s[i]));
    }
    lemma_span_unique(s, other_than(c), s.len());
    assert(s.take(s.len() as int) =~= s);
}

/// The first `c` after a text that holds none is found right behind that text.
pub proof fn first_of_appended(front: Seq<char>, c: char, rest: Seq<char>)
    requires
        !front.contains(c),
    ensures
        ({
            let s = front.push(c) + rest;
            &&& first_of(s, c) == front.len()
            &&& s.take(first_of(s, c) as int) == front
            &&& after_first(s, c) == Some(rest)
        }),
{
    let s = front.push(c) + rest;
    assert forall|i: int| 0 <= i < front.len() implies other_than(c)(#[trigger] s[i]) by {
        assert(s[i] == front[i]);
        assert(front.contains(front[i]));
    }
    lemma_span_unique(s, other_than(c), front.len());
    assert(s.take(front.len() as int) =~= front);
    assert(s.skip(front.len() as int + 1) =~= rest);
}

/// Joined pieces hold no character that neither the pieces hold nor the separator is.
pub proof fn join_holds_no_other(pieces: Seq<Seq<char>>, sep: char, c: char)
    requires
        c != sep,
        forall|i: int| 0 <= i < pieces.len() ==> !(#[trigger] pieces[i]).contains(c),
    ensures
        !join(pieces, sep).contains(c),
    decreases pieces.len(),
{
    if pieces.len() > 1 {
        let tail = pieces.skip(1);
        assert forall|i: int| 0 <= i < tail.len() implies !(#[trigger] tail[i]).contains(c) by {
            assert(tail[i] == pieces[i + 1]);
        }
        join_holds_no_other(tail, sep, c);
        let s = join(pieces, sep);
        let head = pieces[0];
        if s.contains(c) {
            let k = choose|k: int| 0 <= k < s.len() && s[k] == c;
            if k < head.len() {
                assert(head[k] == c);
            } else if k > head.len() {
                assert(join(tail, sep)[k - head.len() - 1] == c);
            }
        }
    }
}

/// A trimmed text neither starts nor ends with white space.
pub proof fn trimmed_ends_are_inked(s: Seq<char>)
    ensures
        trim(s).len() > 0 ==> !white_space(trim(s)[0]) && !white_space(trim(s).last()),
{
    lemma_span(s, blank());
    let t = s.skip(span(s, blank()) as int);
    lemma_rspan(t, blank());
}

/// Trimming a trimmed text changes nothing.
pub proof fn trim_is_idempotent(s: Seq<char>)
    ensures
        trim(trim(s)) == trim(s),
{
    trimmed_ends_are_inked(s);
    let t = trim(s);
    lemma_span(t, blank());
    if t.len() > 0 {
        assert(span(t, blank()) == 0);
        assert(t.skip(0) =~= t);
        assert(rspan(t, blank()) == 0);
    }
    assert(trim(t) =~= t);
}

/// A text occurs wherever it stands between two others.
pub proof fn what_stands_there_is_found(a: Seq<char>, needle: Seq<char>, b: Seq<char>)
    ensures
        contains(a + needle + b, needle),
{
    let s = a + needle + b;
    assert(s.subrange(a.len() as int, (a.len() + needle.len()) as int) =~= needle);
    assert(occurs_at(s, needle, a.len() as int));
}

/// A text that occurs stands between two others, the texts before and behind it.
pub proof fn what_is_found_stands_there(s: Seq<char>, needle: Seq<char>)
    ensures
        contains(s, needle) ==> exists|a: Seq<char>, b: Seq<char>| s == #[trigger] (a + needle + b),
{
    if contains(s, needle) {
        let i = choose|i: int| #[trigger] occurs_at(s, needle, i);
        let a = s.take(i);
        let b = s.skip(i + needle.len());
        assert(s =~= a + needle + b) by {
            assert forall|j: int| 0 <= j < s.len() implies s[j] == (a + needle + b)[j] by {
                if i <= j < i + needle.len() {
                    assert(s.subrange(i, i + needle.len())[j - i] == needle[j - i]);
                }
            }
        }
    }
}

/// Trimming takes away the white space before and behind a text that neither starts nor ends
/// with any, and nothing else.
pub proof fn trim_takes_white_space_away(a: Seq<char>, t: Seq<char>, b: Seq<char>)
    requires
        forall|i: int| 0 <= i < a.len() ==> white_space(#[trigger] a[i]),
        forall|i: int| 0 <= i < b.len() ==> white_space(#[trigger] b[i]),
        t.len() > 0 ==> !white_space(t[0]) && !white_space(t.last()),
    ensures
        trim(a + t + b) == t,
{
    let s = a + t + b;
    if t.len() == 0 {
        assert forall|i: int| 0 <= i < s.len() implies blank()(#[trigger] s[i]) by {
            if i < a.len() {
                assert(s[i] == a[i]);
            } else {
                assert(s[i] == b[i - a.len()]);
            }
        }
        lemma_span_unique(s, blank(), s.len());
        assert(trim(s) =~= t);
    } else {
        assert forall|i: int| 0 <= i < a.len() implies blank()(#[trigger] s[i]) by {
            assert(s[i] == a[i]);
        }
        assert(s[a.len() as int] == t[0]);
        lemma_span_unique(s, blank(), a.len());
        let rest = s.skip(a.len() as int);
        assert(rest =~= t + b);
        assert forall|i: int| rest.len() - b.len() <= i < rest.len() implies blank()(
            #[trigger] rest[i],
        ) by {
            assert(rest[i] == b[i - t.len()]);
        }
        assert(rest[rest.len() - b.len() - 1] == t.last());
        lemma_rspan_unique(rest, blank(), b.len());
        assert(trim(s) =~= t);
    }
}

/// A text without the separator is its only piece.
pub proof fn one_piece_is_not_split(s: Seq<char>, sep: char)
    requires
        !s.contains(sep),
    ensures
        split(s, sep) == seq![s],
{
    nothing_to_find(s, sep);
}

/// Joining two lists of pieces one after the other puts one separator between them; a single
/// piece is left as it is.
pub proof fn join_goes_piece_by_piece(p: Seq<Seq<char>>, piece: Seq<char>, sep: char)
    ensures
        join(seq![piece], sep) == piece,
        p.len() > 0 ==> join(p.push(piece), sep) == join(p, sep).push(sep) + piece,
    decreases p.len(),
{
    if p.len() == 1 {
        assert(p.push(piece).skip(1) =~= seq![piece]);
        assert(join(seq![piece], sep) == piece);
    } else if p.len() > 1 {
        let tail = p.skip(1);
        join_goes_piece_by_piece(tail, piece, sep);
        assert(p.push(piece).skip(1) =~= tail.push(piece));
        assert(join(p.push(piece), sep) =~= join(p, sep).push(sep) + piece);
    }
}

/// White space alone holds no words.
pub proof fn blanks_are_no_words(s: Seq<char>)
    requires
        forall|i: int| 0 <= i < s.len() ==> white_space(#[trigger] s[i]),
    ensures
        words(s) == Seq::<Seq<char>>::empty(),
{
    assert forall|i: int| 0 <= i < s.len() implies blank()(#[trigger] s[i]) by {
        assert(white_space(s[i]));
    }
    lemma_span_unique(s, blank(), s.len());
}

/// What stands between white space is a word: after white space the first word reaches up to
/// the next white space, and the other words are those of what follows.
pub proof fn words_are_taken_from_the_front(a: Seq<char>, word: Seq<char>, rest: Seq<char>)
    requires
        forall|i: int| 0 <= i < a.len() ==> white_space(#[trigger] a[i]),
        word.len() > 0,
        forall|i: int| 0 <= i < word.len() ==> !white_space(#[trigger] word[i]),
        rest.len() > 0 ==> white_space(rest[0]),
    ensures
        words(a + word + rest) == seq![word] + words(rest),
{
    let s = a + word + rest;
    assert forall|i: int| 0 <= i < a.len() implies blank()(#[trigger] s[i]) by {
        assert(s[i] == a[i]);
    }
    assert(s[a.len() as int] == word[0]);
    lemma_span_unique(s, blank(), a.len());
    let t = s.skip(a.len() as int);
    assert(t =~= word + rest);
    assert forall|i: int| 0 <= i < word.len() implies inked()(#[trigger] t[i]) by {
        assert(t[i] == word[i]);
    }
    lemma_span_unique(t, inked(), word.len());
    assert(t.take(word.len() as int) =~= word);
    assert(t.skip(word.len() as int) =~= rest);
    assert(words(s) =~= seq![word] + words(rest));
}

// ---- Executable counterparts --------------------------------------------------

/// The characters of `s`, one by one.
pub fn chars_of(s: &str) -> (v: Vec<char>)
    ensures
        v@ == s@,
{
    let mut v: Vec<char> = Vec::new();
    for c in it: s.chars()
        invariant
            it.seq() == s@,
            v@ == s@.take(it.index() as int),
    {
        v.push(c);
    }
    assert(s@.take(s@.len() as int) == s@);
    v
}

/// The string made of the characters of `v`.
pub fn string_of(v: &[char]) -> (s: String)
    ensures
        s@ == v@,
{
    let mut s = String::new();
    let mut i: usize = 0;
    while i < v.len()
        invariant
            i <= v@.len(),
            s@ == v@.take(i as int),
        decreases v@.len() - i,
    {
        s.push(v[i]);
        i = i + 1;
    }
    assert(v@.take(v@.len() as int) == v@);
    s
}

/// Whether `a` and `b` hold the same characters.
pub fn same(a: &[char], b: &[char]) -> (r: bool)
    ensures
        r == (a@ == b@),
{
    if a.len() != b.len() {
        return false;
    }
    let mut i: usize = 0;
    while i < a.len()
        invariant
            a@.len() == b@.len(),
            i <= a@.len(),
            forall|j: int| 0 <= j < i ==> a@[j] == b@[j],
        decreases a@.len() - i,
    {
        if a[i] != b[i] {
            return false;
        }
        i = i + 1;
    }
    assert(a@ =~= b@);
    true
}

/// The position of the first `c`, or the length of `v` if there is none.
pub fn find_char(v: &[char], c: char) -> (n: usize)
    ensures
        n == first_of(v@, c),
        n <= v@.len(),
{
    let mut n: usize = 0;
    while n < v.len() && v[n] != c
        invariant
            n <= v@.len(),
            forall|i: int| 0 <= i < n ==> other_than(c)(#[trigger] v@[i]),
        decreases v@.len() - n,
    {
        n = n + 1;
    }
    proof {
        lemma_span_unique(v@, other_than(c), n as nat);
    }
    n
}

/// `v` without the white space at its two ends.
pub fn trim_chars(v: &[char]) -> (t: &[char])
    ensures
        t@ == trim(v@),
{
    let mut from: usize = 0;
    while from < v.len() && v[from].is_whitespace()
        invariant
            from <= v@.len(),
            forall|i: int| 0 <= i < from ==> blank()(#[trigger] v@[i]),
        decreases v@.len() - from,
    {
        from = from + 1;
    }
    proof {
        lemma_span_unique(v@, blank(), from as nat);
    }
    let ghost rest = v@.skip(from as int);
    let mut to: usize = v.len();
    while to > from && v[to - 1].is_whitespace()
        invariant
            from <= to <= v@.len(),
            rest == v@.skip(from as int),
            forall|i: int| to - from <= i < rest.len() ==> blank()(#[trigger] rest[i]),
        decreases to - from,
    {
        to = to - 1;
    }
    proof {
        lemma_rspan_unique(rest, blank(), (v@.len() - to) as nat);
        assert(trim(v@) =~= v@.subrange(from as int, to as int));
    }
    &v[from..to]
}

/// The texts that `pieces` hold.
pub open spec fn texts(pieces: Seq<&[char]>) -> Seq<Seq<char>> {
    pieces.map_values(|piece: &[char]| piece@)
}

/// The pieces of `v` between the separators `sep`.
pub fn pieces_of(v: &[char], sep: char) -> (pieces: Vec<&[char]>)
    ensures
        texts(pieces@) == split(v@, sep),
{
    let mut pieces: Vec<&[char]> = Vec::new();
    let mut rest: &[char] = v;
    assert(texts(pieces@) + split(rest@, sep) =~= split(v@, sep));
    loop
        invariant
            texts(pieces@) + split(rest@, sep) == split(v@, sep),
        decreases rest@.len(),
    {
        let n: usize = find_char(rest, sep);
        let piece: &[char] = &rest[0..n];
        assert(piece@ =~= rest@.take(n as int));
        let ghost before = pieces@;
        pieces.push(piece);
        assert(texts(pieces@) =~= texts(before).push(piece@));
        if n == rest.len() {
            assert(piece@ =~= rest@);
            assert(texts(pieces@) =~= split(v@, sep));
            return pieces;
        }
        let ghost left = rest@;
        rest = &rest[n + 1..rest.len()];
        assert(rest@ =~= left.skip(n + 1));
        assert(texts(pieces@) + split(rest@, sep) =~= split(v@, sep));
    }
}

/// Whether `needle` occurs in `v` from position `i` on.
fn matches_at(v: &[char], needle: &[char], i: usize) -> (r: bool)
    requires
        i + needle@.len() <= v@.len(),
    ensures
        r == occurs_at(v@, needle@, i as int),
{
    let length: usize = v.len();
    assert(i + needle@.len() <= length);
    same(&v[i..i + needle.len()], needle)
}

/// Whether `needle` occurs in `v`.
pub fn contains_chars(v: &[char], needle: &[char]) -> (r: bool)
    ensures
        r == contains(v@, needle@),
{
    if needle.len() > v.len() {
        return false;
    }
    let mut i: usize = 0;
    while i <= v.len() - needle.len()
        invariant
            needle@.len() <= v@.len(),
            i <= v@.len() - needle@.len() + 1,
            forall|j: int| 0 <= j < i ==> !occurs_at(v@, needle@, j),
        decreases v@.len() - needle@.len() + 1 - i,
    {
        if matches_at(v, needle, i) {
            return true;
        }
        if i == v.len() - needle.len() {
            return false;
        }
        i = i + 1;
    }
    false
}

/// Whether `v` ends with `suffix`.
pub fn ends_with(v: &[char], suffix: &[char]) -> (r: bool)
    ensures
        r == suffix@.is_suffix_of(v@),
{
    if suffix.len() > v.len() {
        return false;
    }
    matches_at(v, suffix, v.len() - suffix.len())
}

} // verus!
