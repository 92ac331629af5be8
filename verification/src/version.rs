//! Version strings: how they are written, read from a program's output, and compared.

use vstd::prelude::*;
use crate::number::{
    decimal, decimal_denotes_its_number, decimal_reads_back, decimals_are_numerals, is_digit,
    numerals_are_unique, parse_u64, parsed_u64, value,
};
use crate::order::{
    lex_less, lexicographic_is_irreflexive, lexicographic_is_total, lexicographic_is_transitive,
    number_less, numbers_less,
};
use crate::semver::{
    are_identifiers, are_pre_identifiers, build, core_part, identifier_char, identifiers,
    is_core_number, is_identifier, is_pre_identifier, is_semver, no_pre_release_precedes_itself,
    pre_identifiers, pre_less, pre_less_is_total, pre_less_is_transitive, pre_release,
    pre_release_less, read_semver, without_build,
};
use crate::text::{
    blank, blanks_are_no_words, chars_of, find_char, first_of, first_of_appended, inked, join,
    join_holds_no_other, join_then_split, lemma_span, lemma_span_unique, nothing_to_find,
    one_piece_is_not_split, only, other_than, span, split, split_appended, split_then_join,
    string_of, white_space, words, words_are_taken_from_the_front,
};

verus! {

/// The numbers among the pieces, in order; a piece that is no number is passed over.
pub open spec fn numbers(pieces: Seq<Seq<char>>) -> Seq<u64>
    decreases pieces.len(),
{
    if pieces.len() == 0 {
        Seq::empty()
    } else {
        let rest = numbers(pieces.skip(1));
        match parsed_u64(pieces[0]) {
            Some(n) => seq![n] + rest,
            None => rest,
        }
    }
}

/// The components of a dotted string: the numbers between its dots.
pub open spec fn components(s: Seq<char>) -> Seq<u64> {
    numbers(split(s, '.'))
}

/// What a version is ordered by. For a semver string these are its three numbers and the
/// identifiers of its pre-release; build metadata do not count. For any other string they are
/// its components.
pub open spec fn version_key(s: Seq<char>) -> (Seq<u64>, Option<Seq<Seq<char>>>) {
    if is_semver(s) {
        (components(core_part(s)), pre_identifiers(s))
    } else {
        (components(s), None)
    }
}

/// Whether version `a` is strictly older than version `b`: the numbers decide, and if they
/// are the same the pre-releases.
pub open spec fn older(a: Seq<char>, b: Seq<char>) -> bool {
    let (x, p) = version_key(a);
    let (y, q) = version_key(b);
    lex_less(x, y) || (x == y && pre_less(p, q))
}

/// A version tag without the `v`s that it starts with.
pub open spec fn without_v(tag: Seq<char>) -> Seq<char> {
    tag.skip(span(tag, only('v')) as int)
}

/// `tag` without the `v`s that it starts with.
pub fn strip_v(tag: &str) -> (s: String)
    ensures
        s@ == without_v(tag@),
{
    let v = chars_of(tag);
    let mut n: usize = 0;
    while n < v.len() && v[n] == 'v'
        invariant
            n <= v@.len(),
            forall|i: int| 0 <= i < n ==> only('v')(#[trigger] v@[i]),
        decreases v@.len() - n,
    {
        n = n + 1;
    }
    proof {
        lemma_span_unique(v@, only('v'), n as nat);
        assert(v@.subrange(n as int, v@.len() as int) =~= v@.skip(n as int));
    }
    string_of(&v.as_slice()[n..v.len()])
}

/// The components of the version string `v`.
fn components_of(v: &[char]) -> (r: Vec<u64>)
    ensures
        r@ == components(v@),
{
    let mut r: Vec<u64> = Vec::new();
    let mut rest: &[char] = v;
    loop
        invariant
            r@ + components(rest@) == components(v@),
        decreases rest@.len(),
    {
        let n: usize = find_char(rest, '.');
        let piece: &[char] = &rest[0..n];
        let number = parse_u64(piece);
        let last = n == rest.len();
        proof {
            let pieces = split(rest@, '.');
            assert(piece@ =~= rest@.take(n as int));
            if last {
                assert(piece@ =~= rest@);
                assert(pieces.skip(1) =~= Seq::empty());
            } else {
                assert(pieces.skip(1) =~= split(rest@.skip(n + 1), '.'));
            }
            assert(pieces[0] == piece@);
        }
        if let Some(k) = number {
            r.push(k);
        }
        if last {
            assert(numbers(Seq::empty()) =~= Seq::<u64>::empty());
            assert(r@ =~= components(v@));
            return r;
        }
        let ghost before = rest@;
        rest = &rest[n + 1..rest.len()];
        assert(rest@ =~= before.skip(n + 1));
        assert(r@ + components(rest@) =~= components(v@));
    }
}

/// What a version is ordered by.
struct Key<'a> {
    numbers: Vec<u64>,
    pre: Option<Vec<&'a [char]>>,
}

/// What the version string `v` is ordered by.
fn key_of<'a>(v: &'a [char]) -> (k: Key<'a>)
    ensures
        (k.numbers@, identifiers(k.pre)) == version_key(v@),
        identifiers(k.pre) matches Some(p) ==> are_pre_identifiers(p),
{
    match read_semver(v) {
        Some(semver) => Key { numbers: components_of(semver.numbers), pre: semver.pre },
        None => Key { numbers: components_of(v), pre: None },
    }
}

/// Whether `a` and `b` hold the same numbers.
fn same_numbers(a: &Vec<u64>, b: &Vec<u64>) -> (r: bool)
    ensures
        r == (a@ == b@),
{
    if a.len() != b.len() {
        return false;
    }
    let mut i: usize = 0;
    while i < a.len()
        invariant
            a@.len() == b@.len(),
            i <= a@.len(),
            forall|j: int| 0 <= j < i ==> a@[j] == b@[j],
        decreases a@.len() - i,
    {
        if a[i] != b[i] {
            return false;
        }
        i = i + 1;
    }
    assert(a@ =~= b@);
    true
}

/// Returns true when semver string `a` is strictly older than `b`. Strings that are no semver
/// strings are ordered by the numbers between their dots.
pub fn semver_older(a: &str, b: &str) -> (r: bool)
    ensures
        r == older(a@, b@),
{
    let a = chars_of(a);
    let b = chars_of(b);
    let x = key_of(a.as_slice());
    let y = key_of(b.as_slice());
    numbers_less(&x.numbers, &y.numbers) || (same_numbers(&x.numbers, &y.numbers)
        && pre_release_less(&x.pre, &y.pre))
}

// ---- The version that a program reports -----------------------------------------

/// The error of `String::from_utf8`.
#[verifier::external_type_specification]
#[verifier::external_body]
pub struct ExFromUtf8Error(std::string::FromUtf8Error);

/// `String::from_utf8` succeeds exactly on valid UTF-8 and decodes it.
pub assume_specification[ String::from_utf8 ](vec: Vec<u8>) -> (r: Result<
    String,
    std::string::FromUtf8Error,
>)
    ensures
        r is Ok <==> vstd::utf8::valid_utf8(vec@),
        r is Ok ==> r->Ok_0@ == vstd::utf8::decode_utf8(vec@),
;

/// What a finished program left behind.
#[derive(Debug)]
pub struct ProgramOutput {
    /// Whether it exited without an error.
    pub success: bool,
    /// What it wrote to its standard output.
    pub stdout: Vec<u8>,
}

/// The word at index `idx` on the first line of `s`, if there is one.
pub open spec fn first_line_word(s: Seq<char>, idx: nat) -> Option<Seq<char>> {
    let line_words = words(s.take(first_of(s, '\n') as int));
    if idx < line_words.len() {
        Some(line_words[idx as int])
    } else {
        None
    }
}

/// The version that a program reports: the word at index `idx` on the first line of its
/// output. There is none if the program did not run or failed, or if its output is no text.
pub open spec fn reported_version(run: Option<ProgramOutput>, idx: nat) -> Option<Seq<char>> {
    match run {
        Some(output) => if output.success && vstd::utf8::valid_utf8(output.stdout@) {
            first_line_word(vstd::utf8::decode_utf8(output.stdout@), idx)
        } else {
            None
        },
        None => None,
    }
}

/// The word at index `idx` on the first line of `s`, if there is one. A carriage return
/// before the line feed is white space like any other.
pub fn word_on_first_line(s: &str, idx: usize) -> (r: Option<String>)
    ensures
        r.deep_view() == first_line_word(s@, idx as nat),
{
    let v = chars_of(s);
    let end: usize = find_char(v.as_slice(), '\n');
    let ghost line = v@.take(end as int);
    let mut from: usize = 0;
    let mut seen: usize = 0;
    assert(line.skip(0) =~= line);
    loop
        invariant
            v@ == s@,
            end == first_of(v@, '\n'),
            end <= v@.len(),
            line == v@.take(end as int),
            from <= end,
            seen <= idx,
            seen <= from,
            words(line).len() == seen + words(line.skip(from as int)).len(),
            forall|k: int|
                seen <= k < words(line).len() ==> #[trigger] words(line)[k] == words(
                    line.skip(from as int),
                )[k - seen],
        decreases end - from,
    {
        let ghost rest = line.skip(from as int);
        let mut start: usize = from;
        while start < end && v[start].is_whitespace()
            invariant
                from <= start <= end,
                end <= v@.len(),
                rest == v@.take(end as int).skip(from as int),
                forall|i: int| 0 <= i < start - from ==> blank()(#[trigger] rest[i]),
            decreases end - start,
        {
            start = start + 1;
        }
        proof {
            lemma_span_unique(rest, blank(), (start - from) as nat);
        }
        if start == end {
            return None;
        }
        let ghost inner = rest.skip(start - from);
        let mut stop: usize = start;
        while stop < end && !v[stop].is_whitespace()
            invariant
                from <= start <= stop <= end,
                end <= v@.len(),
                inner == v@.take(end as int).skip(from as int).skip(start - from),
                forall|i: int| 0 <= i < stop - start ==> inked()(#[trigger] inner[i]),
            decreases end - stop,
        {
            stop = stop + 1;
        }
        proof {
            lemma_span_unique(inner, inked(), (stop - start) as nat);
            assert(inner.take(stop - start) =~= v@.subrange(start as int, stop as int));
            assert(inner.skip(stop - start) =~= line.skip(stop as int));
            assert(words(rest) =~= seq![v@.subrange(start as int, stop as int)] + words(
                line.skip(stop as int),
            ));
        }
        if seen == idx {
            assert(words(line)[idx as int] == words(rest)[0]);
            return Some(string_of(&v.as_slice()[start..stop]));
        }
        assert(stop > start) by {
            assert(rest[start - from] == inner[0]);
        }
        seen = seen + 1;
        from = stop;
    }
}

/// The version that a program reported: the word at index `idx` on the first line of its
/// output, or `None` if the program does not exist, could not be started or failed.
pub fn binary_version(run: Option<ProgramOutput>, idx: usize) -> (r: Option<String>)
    ensures
        r.deep_view() == reported_version(run, idx as nat),
{
    match run {
        Some(output) => {
            if !output.success {
                return None;
            }
            match String::from_utf8(output.stdout) {
                Ok(text) => word_on_first_line(text.as_str(), idx),
                Err(_) => None,
            }
        },
        None => None,
    }
}

// ---- Laws -----------------------------------------------------------------------

/// A stripped tag does not start with a `v`, and stripping it again changes nothing.
pub proof fn strip_v_is_idempotent(tag: Seq<char>)
    ensures
        without_v(tag).len() > 0 ==> without_v(tag)[0] != 'v',
        without_v(without_v(tag)) == without_v(tag),
{
    lemma_span(tag, only('v'));
    let t = without_v(tag);
    assert(span(t, only('v')) == 0);
    assert(t.skip(0) =~= t);
}

/// One more `v` in front of a tag makes no difference.
pub proof fn strip_v_ignores_a_leading_v(tag: Seq<char>)
    ensures
        without_v(seq!['v'] + tag) == without_v(tag),
{
    let t = seq!['v'] + tag;
    lemma_span(tag, only('v'));
    assert(t.skip(1) =~= tag);
    assert(span(t, only('v')) == 1 + span(tag, only('v')));
    assert(without_v(t) =~= without_v(tag));
}

/// No version is older than itself.
pub proof fn no_version_is_older_than_itself(a: Seq<char>)
    ensures
        !older(a, a),
{
    let (x, p) = version_key(a);
    lexicographic_is_irreflexive(number_less(), x);
    no_pre_release_precedes_itself(p);
}

/// What is older than an older version is older.
pub proof fn older_is_transitive(a: Seq<char>, b: Seq<char>, c: Seq<char>)
    requires
        older(a, b),
        older(b, c),
    ensures
        older(a, c),
{
    let (x, p) = version_key(a);
    let (y, q) = version_key(b);
    let (z, r) = version_key(c);
    if lex_less(x, y) && lex_less(y, z) {
        lexicographic_is_transitive(number_less(), x, y, z);
    } else if x == y && y == z && pre_less(p, q) && pre_less(q, r) {
        pre_less_is_transitive(p, q, r);
    }
}

/// Of two versions, each older than the other is impossible.
pub proof fn older_is_asymmetric(a: Seq<char>, b: Seq<char>)
    requires
        older(a, b),
    ensures
        !older(b, a),
{
    if older(b, a) {
        older_is_transitive(a, b, a);
        no_version_is_older_than_itself(a);
    }
}

/// Of two versions that are not ordered by the same, one is older.
pub proof fn older_is_total(a: Seq<char>, b: Seq<char>)
    ensures
        older(a, b) || older(b, a) || version_key(a) == version_key(b),
{
    let (x, p) = version_key(a);
    let (y, q) = version_key(b);
    lexicographic_is_total(number_less(), x, y);
    pre_less_is_total(p, q);
}

/// The version string that is written with the components `numbers`.
pub open spec fn dotted(numbers: Seq<u64>) -> Seq<char> {
    join(numbers.map_values(|n: u64| decimal(n as nat)), '.')
}

proof fn numbers_of_decimals(xs: Seq<u64>)
    ensures
        numbers(xs.map_values(|n: u64| decimal(n as nat))) == xs,
    decreases xs.len(),
{
    let pieces = xs.map_values(|n: u64| decimal(n as nat));
    if xs.len() > 0 {
        let tail = xs.skip(1);
        numbers_of_decimals(tail);
        assert(pieces.skip(1) =~= tail.map_values(|n: u64| decimal(n as nat)));
        decimal_reads_back(xs[0]);
        assert(seq![xs[0]] + tail =~= xs);
    } else {
        assert(numbers(pieces) =~= xs);
    }
}

/// The pieces of a written version.
proof fn lemma_dotted_pieces(xs: Seq<u64>)
    requires
        xs.len() > 0,
    ensures
        split(dotted(xs), '.') == xs.map_values(|n: u64| decimal(n as nat)),
{
    let pieces = xs.map_values(|n: u64| decimal(n as nat));
    assert forall|i: int| 0 <= i < pieces.len() implies !(#[trigger] pieces[i]).contains('.') by {
        lemma_decimal_holds_digits(xs[i], '.');
    }
    join_then_split(pieces, '.');
}

/// A decimal notation holds nothing but digits.
proof fn lemma_decimal_holds_digits(n: u64, c: char)
    requires
        !is_digit(c),
    ensures
        !decimal(n as nat).contains(c),
{
    decimal_denotes_its_number(n as nat);
    let s = decimal(n as nat);
    if s.contains(c) {
        let k = choose|k: int| 0 <= k < s.len() && s[k] == c;
        assert(is_digit(s[k]));
    }
}

/// A dotted version holds nothing but digits and dots.
proof fn lemma_dotted_holds(xs: Seq<u64>, c: char)
    requires
        !is_digit(c),
        c != '.',
    ensures
        !dotted(xs).contains(c),
{
    let pieces = xs.map_values(|n: u64| decimal(n as nat));
    assert forall|i: int| 0 <= i < pieces.len() implies !(#[trigger] pieces[i]).contains(c) by {
        lemma_decimal_holds_digits(xs[i], c);
    }
    join_holds_no_other(pieces, '.', c);
}

/// The components of a written version are the numbers that it was written with.
pub proof fn components_of_dotted(xs: Seq<u64>)
    ensures
        components(dotted(xs)) == xs,
{
    numbers_of_decimals(xs);
    if xs.len() == 0 {
        let nothing = Seq::<char>::empty();
        assert(split(nothing, '.') =~= seq![nothing]);
        assert(seq![nothing].skip(1) =~= Seq::empty());
        assert(numbers(Seq::<Seq<char>>::empty()) =~= xs);
        assert(parsed_u64(nothing) is None);
    } else {
        lemma_dotted_pieces(xs);
    }
}

/// Without a hyphen and a plus sign a version is ordered by its components alone.
proof fn lemma_key_of_plain(s: Seq<char>)
    requires
        !s.contains('-'),
        !s.contains('+'),
    ensures
        version_key(s) == (components(s), None::<Seq<Seq<char>>>),
{
    nothing_to_find(s, '+');
    nothing_to_find(s, '-');
}

/// Versions written with numbers are ordered as the lists of their numbers are.
pub proof fn dotted_versions_compare_by_number(xs: Seq<u64>, ys: Seq<u64>)
    ensures
        older(dotted(xs), dotted(ys)) == lex_less(xs, ys),
{
    components_of_dotted(xs);
    components_of_dotted(ys);
    lemma_dotted_holds(xs, '-');
    lemma_dotted_holds(xs, '+');
    lemma_dotted_holds(ys, '-');
    lemma_dotted_holds(ys, '+');
    lemma_key_of_plain(dotted(xs));
    lemma_key_of_plain(dotted(ys));
}

/// `front`, and behind it, if there are `pieces`, the sign `mark` and the pieces with dots
/// between them.
pub open spec fn marked(
    front: Seq<char>,
    mark: char,
    pieces: Option<Seq<Seq<char>>>,
) -> Seq<char> {
    match pieces {
        Some(p) => front.push(mark) + join(p, '.'),
        None => front,
    }
}

/// The semver string with the given numbers, pre-release and build metadata.
pub open spec fn written(
    numbers: Seq<u64>,
    pre: Option<Seq<Seq<char>>>,
    meta: Option<Seq<Seq<char>>>,
) -> Seq<char> {
    marked(marked(dotted(numbers), '-', pre), '+', meta)
}

/// Whether a semver string can be written with these parts.
pub open spec fn can_be_written(
    numbers: Seq<u64>,
    pre: Option<Seq<Seq<char>>>,
    meta: Option<Seq<Seq<char>>>,
) -> bool {
    &&& numbers.len() == 3
    &&& pre matches Some(p) ==> p.len() > 0 && forall|i: int|
        0 <= i < p.len() ==> is_pre_identifier(#[trigger] p[i])
    &&& meta matches Some(m) ==> m.len() > 0 && forall|i: int|
        0 <= i < m.len() ==> is_identifier(#[trigger] m[i])
}

/// Identifiers with dots between them hold no other characters, and are split at the dots.
proof fn lemma_joined_identifiers(p: Seq<Seq<char>>, c: char)
    requires
        p.len() > 0,
        are_identifiers(p),
        !identifier_char(c),
        c != '.',
    ensures
        !join(p, '.').contains(c),
        split(join(p, '.'), '.') == p,
{
    assert forall|i: int| 0 <= i < p.len() implies !(#[trigger] p[i]).contains(c) && !p[i].contains(
        '.',
    ) by {
        assert(is_identifier(p[i]));
        if p[i].contains(c) {
            let k = choose|k: int| 0 <= k < p[i].len() && p[i][k] == c;
            assert(identifier_char(p[i][k]));
        }
        if p[i].contains('.') {
            let k = choose|k: int| 0 <= k < p[i].len() && p[i][k] == '.';
            assert(identifier_char(p[i][k]));
        }
    }
    join_holds_no_other(p, '.', c);
    join_then_split(p, '.');
}

/// A written semver string is one, and it is ordered by what it was written with; build
/// metadata make no difference.
pub proof fn semver_strings_read_back(
    xs: Seq<u64>,
    pre: Option<Seq<Seq<char>>>,
    meta: Option<Seq<Seq<char>>>,
)
    requires
        can_be_written(xs, pre, meta),
    ensures
        is_semver(written(xs, pre, meta)),
        version_key(written(xs, pre, meta)) == (xs, pre),
{
    let plain = dotted(xs);
    let front = marked(plain, '-', pre);
    let s = written(xs, pre, meta);
    lemma_dotted_holds(xs, '-');
    lemma_dotted_holds(xs, '+');
    assert(!front.contains('+')) by {
        if let Some(p) = pre {
            assert forall|i: int| 0 <= i < p.len() implies is_identifier(#[trigger] p[i]) by {
                assert(is_pre_identifier(p[i]));
            }
            lemma_joined_identifiers(p, '+');
            if front.contains('+') {
                let k = choose|k: int| 0 <= k < front.len() && front[k] == '+';
                if k < plain.len() {
                    assert(plain[k] == '+');
                } else {
                    assert(join(p, '.')[k - plain.len() - 1] == '+');
                }
            }
        }
    }
    match meta {
        Some(m) => {
            lemma_joined_identifiers(m, '+');
            first_of_appended(front, '+', join(m, '.'));
        },
        None => {
            nothing_to_find(front, '+');
        },
    }
    assert(without_build(s) == front);
    match pre {
        Some(p) => {
            assert forall|i: int| 0 <= i < p.len() implies is_identifier(#[trigger] p[i]) by {
                assert(is_pre_identifier(p[i]));
            }
            lemma_joined_identifiers(p, '+');
            first_of_appended(plain, '-', join(p, '.'));
        },
        None => {
            nothing_to_find(plain, '-');
        },
    }
    assert(core_part(s) == plain);
    lemma_dotted_pieces(xs);
    let pieces = split(plain, '.');
    assert forall|i: int| 0 <= i < pieces.len() implies is_core_number(#[trigger] pieces[i]) by {
        decimals_are_numerals(xs[i] as nat);
        decimal_denotes_its_number(xs[i] as nat);
    }
    components_of_dotted(xs);
}

/// Semver strings are ordered by their numbers first. If these are the same, the order of
/// the pre-releases decides; build metadata never do.
pub proof fn semver_strings_compare_by_precedence(
    xs: Seq<u64>,
    p: Option<Seq<Seq<char>>>,
    m: Option<Seq<Seq<char>>>,
    ys: Seq<u64>,
    q: Option<Seq<Seq<char>>>,
    n: Option<Seq<Seq<char>>>,
)
    requires
        can_be_written(xs, p, m),
        can_be_written(ys, q, n),
    ensures
        older(written(xs, p, m), written(ys, q, n)) == (lex_less(xs, ys) || (xs == ys && pre_less(
            p,
            q,
        ))),
{
    semver_strings_read_back(xs, p, m);
    semver_strings_read_back(ys, q, n);
}

/// A pre-release is older than its release, and the release is not older than it.
pub proof fn pre_releases_are_older_than_their_release(
    xs: Seq<u64>,
    p: Seq<Seq<char>>,
    m: Option<Seq<Seq<char>>>,
    n: Option<Seq<Seq<char>>>,
)
    requires
        can_be_written(xs, Some(p), m),
        can_be_written(xs, None, n),
    ensures
        older(written(xs, Some(p), m), written(xs, None, n)),
        !older(written(xs, None, n), written(xs, Some(p), m)),
{
    semver_strings_read_back(xs, Some(p), m);
    semver_strings_read_back(xs, None, n);
    older_is_asymmetric(written(xs, Some(p), m), written(xs, None, n));
}

/// A tag loses the `v`s that it starts with, however many, and nothing else.
pub proof fn leading_vs_are_dropped(vs: Seq<char>, rest: Seq<char>)
    requires
        forall|i: int| 0 <= i < vs.len() ==> #[trigger] vs[i] == 'v',
        rest.len() > 0 ==> rest[0] != 'v',
    ensures
        without_v(vs + rest) == rest,
{
    let tag = vs + rest;
    assert forall|i: int| 0 <= i < vs.len() implies only('v')(#[trigger] tag[i]) by {
        assert(tag[i] == vs[i]);
    }
    if rest.len() > 0 {
        assert(tag[vs.len() as int] == rest[0]);
    }
    lemma_span_unique(tag, only('v'), vs.len());
    assert(tag.skip(vs.len() as int) =~= rest);
}

proof fn lemma_numbers_push(pieces: Seq<Seq<char>>, piece: Seq<char>)
    ensures
        numbers(pieces.push(piece)) == numbers(pieces) + (match parsed_u64(piece) {
            Some(n) => seq![n],
            None => Seq::<u64>::empty(),
        }),
    decreases pieces.len(),
{
    let all = pieces.push(piece);
    if pieces.len() == 0 {
        assert(all.skip(1) =~= Seq::empty());
        assert(numbers(Seq::<Seq<char>>::empty()) =~= Seq::<u64>::empty());
    } else {
        assert(all.skip(1) =~= pieces.skip(1).push(piece));
        lemma_numbers_push(pieces.skip(1), piece);
    }
    assert(numbers(all) =~= numbers(pieces) + (match parsed_u64(piece) {
        Some(n) => seq![n],
        None => Seq::<u64>::empty(),
    }));
}

/// Every piece behind a dot adds its number to the components, if it is one, and nothing
/// otherwise; so does a string without a dot.
pub proof fn components_are_added_piece_by_piece(s: Seq<char>, piece: Seq<char>)
    requires
        !piece.contains('.'),
    ensures
        ({
            let added = match parsed_u64(piece) {
                Some(n) => seq![n],
                None => Seq::<u64>::empty(),
            };
            &&& components(piece) == added
            &&& components(s.push('.') + piece) == components(s) + added
        }),
{
    one_piece_is_not_split(piece, '.');
    split_appended(s, '.', piece);
    lemma_numbers_push(split(s, '.'), piece);
    lemma_numbers_push(Seq::empty(), piece);
    assert(Seq::<Seq<char>>::empty().push(piece) =~= seq![piece]);
    assert(numbers(Seq::<Seq<char>>::empty()) =~= Seq::<u64>::empty());
    let added = match parsed_u64(piece) {
        Some(n) => seq![n],
        None => Seq::<u64>::empty(),
    };
    assert(Seq::<u64>::empty() + added =~= added);
}

/// Strings that are no semver strings are ordered by their components, among each other and
/// against semver strings; between a pre-release and a string with the same numbers the
/// pre-release is older.
pub proof fn other_strings_compare_by_their_components(
    a: Seq<char>,
    b: Seq<char>,
    xs: Seq<u64>,
    pre: Option<Seq<Seq<char>>>,
    meta: Option<Seq<Seq<char>>>,
)
    requires
        !is_semver(a),
        !is_semver(b),
        can_be_written(xs, pre, meta),
    ensures
        older(a, b) == lex_less(components(a), components(b)),
        older(a, written(xs, pre, meta)) == lex_less(components(a), xs),
        older(written(xs, pre, meta), a) == (lex_less(xs, components(a)) || (xs == components(a)
            && pre is Some)),
{
    semver_strings_read_back(xs, pre, meta);
}

/// Nothing else is a semver string than what can be written with three numbers, perhaps a
/// pre-release and perhaps build metadata.
pub proof fn semver_strings_are_written_with_their_parts(s: Seq<char>)
    requires
        is_semver(s),
    ensures
        exists|xs: Seq<u64>, pre: Option<Seq<Seq<char>>>, meta: Option<Seq<Seq<char>>>|
            can_be_written(xs, pre, meta) && s == #[trigger] written(xs, pre, meta),
{
    let plain = core_part(s);
    let front = without_build(s);
    let pieces = split(plain, '.');
    let xs = components(plain);
    let pre = pre_identifiers(s);
    let meta: Option<Seq<Seq<char>>> = match build(s) {
        Some(m) => Some(split(m, '.')),
        None => None,
    };
    assert forall|i: int| 0 <= i < pieces.len() implies parsed_u64(#[trigger] pieces[i]) is Some
        && decimal(parsed_u64(pieces[i])->Some_0 as nat) == pieces[i] by {
        assert(is_core_number(pieces[i]));
        assert(is_digit(pieces[i][0]));
        let n: u64 = value(pieces[i]) as u64;
        decimals_are_numerals(n as nat);
        decimal_denotes_its_number(n as nat);
        numerals_are_unique(pieces[i], decimal(n as nat));
    }
    lemma_numbers_of_all(pieces);
    assert(xs.len() == 3);
    assert(xs.map_values(|n: u64| decimal(n as nat)) =~= pieces);
    split_then_join(plain, '.');
    assert(dotted(xs) == plain);
    lemma_span(s, other_than('+'));
    lemma_span(front, other_than('-'));
    if pre_release(s) is Some {
        split_then_join(pre_release(s)->Some_0, '.');
        assert(front =~= plain.push('-') + pre_release(s)->Some_0);
    } else {
        assert(front =~= plain);
    }
    assert(marked(plain, '-', pre) == front);
    if build(s) is Some {
        split_then_join(build(s)->Some_0, '.');
        assert(s =~= front.push('+') + build(s)->Some_0);
    } else {
        assert(s =~= front);
    }
    assert(s == written(xs, pre, meta));
    assert(can_be_written(xs, pre, meta));
}

proof fn lemma_numbers_of_all(pieces: Seq<Seq<char>>)
    requires
        forall|i: int| 0 <= i < pieces.len() ==> parsed_u64(#[trigger] pieces[i]) is Some,
    ensures
        numbers(pieces).len() == pieces.len(),
        forall|i: int|
            0 <= i < pieces.len() ==> parsed_u64(pieces[i]) == Some(#[trigger] numbers(pieces)[i]),
    decreases pieces.len(),
{
    if pieces.len() > 0 {
        let tail = pieces.skip(1);
        assert(parsed_u64(pieces[0]) is Some);
        assert forall|i: int| 0 <= i < tail.len() implies parsed_u64(
            #[trigger] tail[i],
        ) is Some by {
            assert(tail[i] == pieces[i + 1]);
        }
        lemma_numbers_of_all(tail);
        assert forall|i: int| 0 <= i < pieces.len() implies parsed_u64(pieces[i]) == Some(
            #[trigger] numbers(pieces)[i],
        ) by {
            if i > 0 {
                assert(tail[i - 1] == pieces[i]);
                assert(numbers(pieces)[i] == numbers(tail)[i - 1]);
            }
        }
    }
}

/// Only the first line counts, and of it the word at the index: the first word is what stands
/// before the next white space, and behind it the words are counted on.
pub proof fn words_are_counted_on_the_first_line(
    a: Seq<char>,
    word: Seq<char>,
    rest: Seq<char>,
    below: Seq<char>,
    idx: nat,
)
    requires
        forall|i: int| 0 <= i < a.len() ==> white_space(#[trigger] a[i]),
        word.len() > 0,
        forall|i: int| 0 <= i < word.len() ==> !white_space(#[trigger] word[i]),
        rest.len() > 0 ==> white_space(rest[0]),
        !a.contains('\n'),
        !rest.contains('\n'),
    ensures
        first_line_word(a + word + rest, 0) == Some(word),
        first_line_word(a + word + rest, idx + 1) == first_line_word(rest, idx),
        first_line_word((a + word + rest).push('\n') + below, idx) == first_line_word(
            a + word + rest,
            idx,
        ),
        first_line_word(a, idx) is None,
{
    let line = a + word + rest;
    assert(!line.contains('\n')) by {
        if line.contains('\n') {
            let k = choose|k: int| 0 <= k < line.len() && line[k] == '\n';
            if k < a.len() {
                assert(a[k] == '\n');
            } else if k < a.len() + word.len() {
                assert(word[k - a.len()] == '\n');
            } else {
                assert(rest[k - a.len() - word.len()] == '\n');
            }
        }
    }
    nothing_to_find(line, '\n');
    nothing_to_find(rest, '\n');
    nothing_to_find(a, '\n');
    first_of_appended(line, '\n', below);
    words_are_taken_from_the_front(a, word, rest);
    blanks_are_no_words(a);
}

/// A program reports a version exactly if it ran without an error and its output is text whose
/// first line has the word.
pub proof fn only_programs_that_succeed_report_a_version(output: ProgramOutput, idx: nat)
    ensures
        reported_version(None, idx) is None,
        !output.success ==> reported_version(Some(output), idx) is None,
        !vstd::utf8::valid_utf8(output.stdout@) ==> reported_version(Some(output), idx) is None,
        output.success && vstd::utf8::valid_utf8(output.stdout@) ==> reported_version(
            Some(output),
            idx,
        ) == first_line_word(vstd::utf8::decode_utf8(output.stdout@), idx),
{
}

} // verus!
