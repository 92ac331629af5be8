//! Semantic version strings: `MAJOR.MINOR.PATCH`, then perhaps a pre-release after a hyphen,
//! then perhaps build metadata after a plus sign.

use vstd::prelude::*;
use crate::number::{
    all_digits, digits_value, is_digit, is_numeral, numeral_less, numerals_are_unique, only_digits,
    value,
};
use crate::order::{
    char_less, chars_less, comparable, lexicographic, lexicographic_is_irreflexive,
    lexicographic_is_total, lexicographic_is_transitive, text_less, texts_are_ordered,
    the_first_difference_decides,
};
use crate::text::{
    after_first, ascii_alphanumeric, find_char, first_of, pieces_of, same, split, texts,
};

verus! {

// ---- The parts of a version string ------------------------------------------------

/// What comes before the build metadata.
pub open spec fn without_build(s: Seq<char>) -> Seq<char> {
    s.take(first_of(s, '+') as int)
}

/// The build metadata, if there are any.
pub open spec fn build(s: Seq<char>) -> Option<Seq<char>> {
    after_first(s, '+')
}

/// What comes before the pre-release and the build metadata.
pub open spec fn core_part(s: Seq<char>) -> Seq<char> {
    without_build(s).take(first_of(without_build(s), '-') as int)
}

/// The pre-release, if there is one.
pub open spec fn pre_release(s: Seq<char>) -> Option<Seq<char>> {
    after_first(without_build(s), '-')
}

/// Whether `s` can be one of the three numbers. Its value fits in a `u64`.
pub open spec fn is_core_number(s: Seq<char>) -> bool {
    is_numeral(s) && value(s) <= u64::MAX
}

/// Whether `c` may occur in an identifier.
pub open spec fn identifier_char(c: char) -> bool {
    ascii_alphanumeric(c) || c == '-'
}

/// Whether `s` is an identifier: one or more ASCII letters, digits and hyphens.
pub open spec fn is_identifier(s: Seq<char>) -> bool {
    s.len() > 0 && forall|i: int| 0 <= i < s.len() ==> identifier_char(#[trigger] s[i])
}

/// Whether `s` can be an identifier of a pre-release: if it is made of digits, it has no
/// superfluous zeros.
pub open spec fn is_pre_identifier(s: Seq<char>) -> bool {
    is_identifier(s) && (all_digits(s) ==> is_numeral(s))
}

/// Whether the pieces between the dots of a core are three numbers.
pub open spec fn are_core_numbers(pieces: Seq<Seq<char>>) -> bool {
    &&& pieces.len() == 3
    &&& forall|i: int| 0 <= i < pieces.len() ==> is_core_number(#[trigger] pieces[i])
}

/// Whether every piece between the dots of a pre-release is an identifier.
pub open spec fn are_pre_identifiers(pieces: Seq<Seq<char>>) -> bool {
    forall|i: int| 0 <= i < pieces.len() ==> is_pre_identifier(#[trigger] pieces[i])
}

/// Whether every piece between the dots of build metadata is an identifier.
pub open spec fn are_identifiers(pieces: Seq<Seq<char>>) -> bool {
    forall|i: int| 0 <= i < pieces.len() ==> is_identifier(#[trigger] pieces[i])
}

/// Whether `s` is a semantic version string whose three numbers each fit in a `u64`.
pub open spec fn is_semver(s: Seq<char>) -> bool {
    &&& are_core_numbers(split(core_part(s), '.'))
    &&& pre_release(s) matches Some(pre) ==> are_pre_identifiers(split(pre, '.'))
    &&& build(s) matches Some(meta) ==> are_identifiers(split(meta, '.'))
}

// ---- Precedence of pre-releases ---------------------------------------------------

/// Whether one identifier of a pre-release comes before another: numbers compare as numbers
/// and come before everything else, which compares as text.
pub open spec fn identifier_precedes(a: Seq<char>, b: Seq<char>) -> bool {
    if all_digits(a) {
        !all_digits(b) || value(a) < value(b)
    } else {
        !all_digits(b) && text_less(a, b)
    }
}

/// `identifier_precedes` as a predicate.
pub open spec fn identifier_less() -> spec_fn(Seq<char>, Seq<char>) -> bool {
    |a: Seq<char>, b: Seq<char>| identifier_precedes(a, b)
}

/// Whether a version with the pre-release `p` is older than one with the same numbers and
/// the pre-release `q`: a pre-release is older than none, the first identifier that differs
/// decides, and a proper prefix is older.
pub open spec fn pre_less(p: Option<Seq<Seq<char>>>, q: Option<Seq<Seq<char>>>) -> bool {
    match (p, q) {
        (None, _) => false,
        (Some(_), None) => true,
        (Some(a), Some(b)) => lexicographic(identifier_less(), a, b),
    }
}

// ---- Executable counterparts ------------------------------------------------------

/// What follows position `n` in `v`, if that is a position in it.
fn after<'a>(v: &'a [char], n: usize) -> (r: Option<&'a [char]>)
    requires
        n <= v@.len(),
    ensures
        r is Some <==> n < v@.len(),
        r is Some ==> r->Some_0@ == v@.skip(n + 1),
{
    if n < v.len() {
        let rest: &[char] = &v[n + 1..v.len()];
        assert(rest@ =~= v@.skip(n + 1));
        Some(rest)
    } else {
        None
    }
}

/// Whether `v` can be one of the three numbers.
fn is_core_number_of(v: &[char]) -> (r: bool)
    ensures
        r == is_core_number(v@),
{
    v.len() > 0 && (v.len() == 1 || v[0] != '0') && digits_value(v).is_some()
}

/// Whether `v` is an identifier; with `strict`, one that a pre-release can hold.
fn is_identifier_of(v: &[char], strict: bool) -> (r: bool)
    ensures
        r == (if strict {
            is_pre_identifier(v@)
        } else {
            is_identifier(v@)
        }),
{
    if v.len() == 0 {
        return false;
    }
    let mut i: usize = 0;
    while i < v.len()
        invariant
            i <= v@.len(),
            forall|j: int| 0 <= j < i ==> identifier_char(#[trigger] v@[j]),
        decreases v@.len() - i,
    {
        let c = v[i];
        let letter = ('A' <= c && c <= 'Z') || ('a' <= c && c <= 'z');
        if !letter && !('0' <= c && c <= '9') && c != '-' {
            assert(!identifier_char(v@[i as int]));
            return false;
        }
        i = i + 1;
    }
    !strict || v.len() == 1 || v[0] != '0' || !only_digits(v)
}

/// Whether the core `v` is made of three numbers.
fn core_numbers_of(v: &[char]) -> (r: bool)
    ensures
        r == are_core_numbers(split(v@, '.')),
{
    let pieces = pieces_of(v, '.');
    let ghost all = split(v@, '.');
    assert(texts(pieces@).len() == pieces@.len());
    if pieces.len() != 3 {
        return false;
    }
    let mut i: usize = 0;
    while i < pieces.len()
        invariant
            i <= pieces@.len(),
            pieces@.len() == 3,
            texts(pieces@) == all,
            all == split(v@, '.'),
            forall|j: int| 0 <= j < i ==> is_core_number(#[trigger] all[j]),
        decreases pieces@.len() - i,
    {
        assert(all[i as int] == pieces@[i as int]@);
        if !is_core_number_of(pieces[i]) {
            return false;
        }
        i = i + 1;
    }
    true
}

/// Whether every piece between the dots of `v` is an identifier; with `strict`, one that a
/// pre-release can hold.
fn identifiers_of(v: &[char], strict: bool) -> (r: bool)
    ensures
        r == (if strict {
            are_pre_identifiers(split(v@, '.'))
        } else {
            are_identifiers(split(v@, '.'))
        }),
{
    let pieces = pieces_of(v, '.');
    let ghost all = split(v@, '.');
    assert(texts(pieces@).len() == pieces@.len());
    let mut i: usize = 0;
    while i < pieces.len()
        invariant
            i <= pieces@.len(),
            texts(pieces@) == all,
            all == split(v@, '.'),
            all.len() == pieces@.len(),
            strict ==> forall|j: int| 0 <= j < i ==> is_pre_identifier(#[trigger] all[j]),
            !strict ==> forall|j: int| 0 <= j < i ==> is_identifier(#[trigger] all[j]),
        decreases pieces@.len() - i,
    {
        assert(all[i as int] == pieces@[i as int]@);
        if !is_identifier_of(pieces[i], strict) {
            return false;
        }
        i = i + 1;
    }
    true
}

/// What decides about the age of a semantic version.
pub struct Semver<'a> {
    /// The text of its three numbers.
    pub numbers: &'a [char],
    /// The identifiers of its pre-release, if it is one.
    pub pre: Option<Vec<&'a [char]>>,
}

/// The identifiers of a pre-release, as texts.
pub open spec fn identifiers(pre: Option<Vec<&[char]>>) -> Option<Seq<Seq<char>>> {
    match pre {
        Some(pieces) => Some(texts(pieces@)),
        None => None,
    }
}

/// The identifiers of the pre-release of a version string, if it has one.
pub open spec fn pre_identifiers(s: Seq<char>) -> Option<Seq<Seq<char>>> {
    match pre_release(s) {
        Some(pre) => Some(split(pre, '.')),
        None => None,
    }
}

/// Reads the version string `v`, if it is a semantic one.
pub fn read_semver<'a>(v: &'a [char]) -> (r: Option<Semver<'a>>)
    ensures
        r is Some <==> is_semver(v@),
        r is Some ==> r->Some_0.numbers@ == core_part(v@),
        r is Some ==> identifiers(r->Some_0.pre) == pre_identifiers(v@),
{
    let plus: usize = find_char(v, '+');
    let front: &[char] = &v[0..plus];
    assert(front@ =~= without_build(v@));
    let hyphen: usize = find_char(front, '-');
    let numbers: &[char] = &front[0..hyphen];
    assert(numbers@ =~= core_part(v@));
    if !core_numbers_of(numbers) {
        return None;
    }
    if let Some(meta) = after(v, plus) {
        if !identifiers_of(meta, false) {
            return None;
        }
    }
    match after(front, hyphen) {
        Some(pre) => {
            if !identifiers_of(pre, true) {
                return None;
            }
            Some(Semver { numbers, pre: Some(pieces_of(pre, '.')) })
        },
        None => Some(Semver { numbers, pre: None }),
    }
}

/// Whether the identifier `a` comes before `b`.
fn precedes(a: &[char], b: &[char]) -> (r: bool)
    requires
        is_pre_identifier(a@),
        is_pre_identifier(b@),
    ensures
        r == identifier_precedes(a@, b@),
{
    if only_digits(a) {
        !only_digits(b) || numeral_less(a, b)
    } else {
        !only_digits(b) && chars_less(a, b)
    }
}

/// Whether the pre-release with the identifiers `a` is older than the one with `b`.
fn identifiers_less(a: &Vec<&[char]>, b: &Vec<&[char]>) -> (r: bool)
    requires
        are_pre_identifiers(texts(a@)),
        are_pre_identifiers(texts(b@)),
    ensures
        r == lexicographic(identifier_less(), texts(a@), texts(b@)),
{
    let ghost s = texts(a@);
    let ghost t = texts(b@);
    let mut i: usize = 0;
    assert(s.skip(0) =~= s);
    assert(t.skip(0) =~= t);
    while i < a.len() && i < b.len()
        invariant
            s == texts(a@),
            t == texts(b@),
            s.len() == a@.len(),
            t.len() == b@.len(),
            are_pre_identifiers(s),
            are_pre_identifiers(t),
            i <= a@.len(),
            i <= b@.len(),
            lexicographic(identifier_less(), s, t) == lexicographic(
                identifier_less(),
                s.skip(i as int),
                t.skip(i as int),
            ),
        decreases a@.len() - i,
    {
        assert(s[i as int] == a@[i as int]@ && t[i as int] == b@[i as int]@);
        assert(is_pre_identifier(s[i as int]) && is_pre_identifier(t[i as int]));
        assert(s.skip(i as int)[0] == s[i as int] && t.skip(i as int)[0] == t[i as int]);
        if precedes(a[i], b[i]) {
            return true;
        }
        if !same(a[i], b[i]) {
            return false;
        }
        assert(s.skip(i as int).skip(1) =~= s.skip(i + 1));
        assert(t.skip(i as int).skip(1) =~= t.skip(i + 1));
        i = i + 1;
    }
    i < b.len()
}

/// Whether a version with the pre-release `p` is older than one with the same numbers and
/// the pre-release `q`.
pub fn pre_release_less(p: &Option<Vec<&[char]>>, q: &Option<Vec<&[char]>>) -> (r: bool)
    requires
        identifiers(*p) matches Some(a) ==> are_pre_identifiers(a),
        identifiers(*q) matches Some(b) ==> are_pre_identifiers(b),
    ensures
        r == pre_less(identifiers(*p), identifiers(*q)),
{
    match (p, q) {
        (None, _) => false,
        (Some(_), None) => true,
        (Some(a), Some(b)) => identifiers_less(a, b),
    }
}

// ---- Laws -------------------------------------------------------------------------

proof fn lemma_text_less_transitive(a: Seq<char>, b: Seq<char>, c: Seq<char>)
    requires
        text_less(a, b),
        text_less(b, c),
    ensures
        text_less(a, c),
{
    lexicographic_is_transitive(char_less(), a, b, c);
}

/// Nothing comes before itself among the pre-releases.
pub proof fn no_pre_release_precedes_itself(p: Option<Seq<Seq<char>>>)
    ensures
        !pre_less(p, p),
{
    if let Some(a) = p {
        assert forall|x: Seq<char>| !#[trigger] identifier_less()(x, x) by {
            lexicographic_is_irreflexive(char_less(), x);
        }
        lexicographic_is_irreflexive(identifier_less(), a);
    }
}

/// The order of pre-releases is transitive.
pub proof fn pre_less_is_transitive(
    p: Option<Seq<Seq<char>>>,
    q: Option<Seq<Seq<char>>>,
    r: Option<Seq<Seq<char>>>,
)
    requires
        pre_less(p, q),
        pre_less(q, r),
    ensures
        pre_less(p, r),
{
    if r is Some {
        let less = identifier_less();
        assert forall|x: Seq<char>, y: Seq<char>, z: Seq<char>|
            #[trigger] less(x, y) && #[trigger] less(y, z) implies less(x, z) by {
            if !all_digits(x) {
                lemma_text_less_transitive(x, y, z);
            }
        }
        lexicographic_is_transitive(less, p->Some_0, q->Some_0, r->Some_0);
    }
}

/// Of two different pre-releases one is older.
pub proof fn pre_less_is_total(p: Option<Seq<Seq<char>>>, q: Option<Seq<Seq<char>>>)
    requires
        p matches Some(a) ==> are_pre_identifiers(a),
        q matches Some(b) ==> are_pre_identifiers(b),
    ensures
        pre_less(p, q) || p == q || pre_less(q, p),
{
    if let (Some(a), Some(b)) = (p, q) {
        let less = identifier_less();
        assert forall|i: int, j: int| 0 <= i < a.len() && 0 <= j < b.len() implies comparable(
            less,
            #[trigger] a[i],
            #[trigger] b[j],
        ) by {
            let (x, y) = (a[i], b[j]);
            assert(is_pre_identifier(x) && is_pre_identifier(y));
            if all_digits(x) && all_digits(y) {
                if value(x) == value(y) {
                    numerals_are_unique(x, y);
                }
            } else if !all_digits(x) && !all_digits(y) {
                texts_are_ordered(x, y);
            }
        }
        lexicographic_is_total(less, a, b);
    }
}

/// An identifier is made of ASCII letters, digits and hyphens; in a pre-release it does not
/// start with a zero if it is made of two or more digits.
pub proof fn identifiers_are_letters_digits_and_hyphens(s: Seq<char>)
    ensures
        is_identifier(s) <==> s.len() > 0 && forall|i: int|
            0 <= i < s.len() ==> {
                ||| '0' <= #[trigger] s[i] <= '9'
                ||| 'a' <= s[i] <= 'z'
                ||| 'A' <= s[i] <= 'Z'
                ||| s[i] == '-'
            },
        is_pre_identifier(s) <==> is_identifier(s) && !(s.len() > 1 && s[0] == '0' && forall|i: int|
            0 <= i < s.len() ==> '0' <= #[trigger] s[i] <= '9'),
{
    if is_identifier(s) {
        assert forall|i: int| 0 <= i < s.len() implies {
            ||| '0' <= #[trigger] s[i] <= '9'
            ||| 'a' <= s[i] <= 'z'
            ||| 'A' <= s[i] <= 'Z'
            ||| s[i] == '-'
        } by {
            assert(identifier_char(s[i]));
        }
    }
    assert(all_digits(s) <==> forall|i: int|
        0 <= i < s.len() ==> '0' <= #[trigger] s[i] <= '9') by {
        if all_digits(s) {
            assert forall|i: int| 0 <= i < s.len() implies '0' <= #[trigger] s[i] <= '9' by {
                assert(is_digit(s[i]));
            }
        }
    }
}

/// Two identifiers made of digits are ordered by their numbers; one made of digits comes
/// before any other; two others are ordered as texts.
pub proof fn identifiers_are_ordered_by_number_or_text(a: Seq<char>, b: Seq<char>)
    ensures
        ({
            let x = forall|i: int| 0 <= i < a.len() ==> '0' <= #[trigger] a[i] <= '9';
            let y = forall|i: int| 0 <= i < b.len() ==> '0' <= #[trigger] b[i] <= '9';
            &&& x && y ==> identifier_precedes(a, b) == (value(a) < value(b))
            &&& x && !y ==> identifier_precedes(a, b)
            &&& !x && y ==> !identifier_precedes(a, b)
            &&& !x && !y ==> identifier_precedes(a, b) == text_less(a, b)
        }),
{
    assert(all_digits(a) <==> forall|i: int|
        0 <= i < a.len() ==> '0' <= #[trigger] a[i] <= '9') by {
        if all_digits(a) {
            assert forall|i: int| 0 <= i < a.len() implies '0' <= #[trigger] a[i] <= '9' by {
                assert(is_digit(a[i]));
            }
        }
    }
    assert(all_digits(b) <==> forall|i: int|
        0 <= i < b.len() ==> '0' <= #[trigger] b[i] <= '9') by {
        if all_digits(b) {
            assert forall|i: int| 0 <= i < b.len() implies '0' <= #[trigger] b[i] <= '9' by {
                assert(is_digit(b[i]));
            }
        }
    }
}

/// Any pre-release is older than none. The first identifiers that differ decide between two of
/// them; if there are none, the one with fewer identifiers is older.
pub proof fn pre_releases_are_ordered_at_the_first_difference(
    a: Seq<Seq<char>>,
    b: Seq<Seq<char>>,
    k: int,
)
    requires
        0 <= k <= a.len(),
        0 <= k <= b.len(),
        forall|i: int| 0 <= i < k ==> #[trigger] a[i] == b[i],
        k < a.len() && k < b.len() ==> a[k] != b[k],
    ensures
        k < a.len() && k < b.len() ==> pre_less(Some(a), Some(b)) == identifier_precedes(
            a[k],
            b[k],
        ),
        k == a.len() || k == b.len() ==> pre_less(Some(a), Some(b)) == (a.len() < b.len()),
        pre_less(Some(a), None),
        !pre_less(None, Some(a)),
        !pre_less(None, None),
{
    assert forall|x: Seq<char>| !#[trigger] identifier_less()(x, x) by {
        lexicographic_is_irreflexive(char_less(), x);
    }
    the_first_difference_decides(identifier_less(), a, b, k);
}

} // verus!
