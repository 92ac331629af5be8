//! The lexicographic order.

use vstd::prelude::*;

verus! {

/// The lexicographic order over `less`: the first difference decides, and a proper prefix is
/// less.
pub open spec fn lexicographic<A>(less: spec_fn(A, A) -> bool, a: Seq<A>, b: Seq<A>) -> bool
    decreases a.len(),
{
    if b.len() == 0 {
        false
    } else if a.len() == 0 {
        true
    } else {
        less(a[0], b[0]) || (a[0] == b[0] && lexicographic(less, a.skip(1), b.skip(1)))
    }
}

/// The order of the numbers.
pub open spec fn number_less() -> spec_fn(u64, u64) -> bool {
    |x: u64, y: u64| x < y
}

/// The order of the characters.
pub open spec fn char_less() -> spec_fn(char, char) -> bool {
    |x: char, y: char| x < y
}

/// The lexicographic order of lists of numbers.
pub open spec fn lex_less(a: Seq<u64>, b: Seq<u64>) -> bool {
    lexicographic(number_less(), a, b)
}

/// The lexicographic order of texts.
pub open spec fn text_less(a: Seq<char>, b: Seq<char>) -> bool {
    lexicographic(char_less(), a, b)
}

/// Whether `less` orders `x` and `y`, if they differ.
pub open spec fn comparable<A>(less: spec_fn(A, A) -> bool, x: A, y: A) -> bool {
    less(x, y) || x == y || less(y, x)
}

/// Whether `a` is lexicographically less than `b`.
pub fn numbers_less(a: &Vec<u64>, b: &Vec<u64>) -> (r: bool)
    ensures
        r == lex_less(a@, b@),
{
    let mut i: usize = 0;
    assert(a@.skip(0) =~= a@);
    assert(b@.skip(0) =~= b@);
    while i < a.len() && i < b.len() && a[i] == b[i]
        invariant
            i <= a@.len(),
            i <= b@.len(),
            lex_less(a@, b@) == lex_less(a@.skip(i as int), b@.skip(i as int)),
        decreases a@.len() - i,
    {
        assert(a@.skip(i as int).skip(1) =~= a@.skip(i + 1));
        assert(b@.skip(i as int).skip(1) =~= b@.skip(i + 1));
        i = i + 1;
    }
    i < b.len() && (i == a.len() || a[i] < b[i])
}

/// Whether the text `a` is lexicographically less than `b`.
pub fn chars_less(a: &[char], b: &[char]) -> (r: bool)
    ensures
        r == text_less(a@, b@),
{
    let mut i: usize = 0;
    assert(a@.skip(0) =~= a@);
    assert(b@.skip(0) =~= b@);
    while i < a.len() && i < b.len() && a[i] == b[i]
        invariant
            i <= a@.len(),
            i <= b@.len(),
            text_less(a@, b@) == text_less(a@.skip(i as int), b@.skip(i as int)),
        decreases a@.len() - i,
    {
        assert(a@.skip(i as int).skip(1) =~= a@.skip(i + 1));
        assert(b@.skip(i as int).skip(1) =~= b@.skip(i + 1));
        i = i + 1;
    }
    i < b.len() && (i == a.len() || a[i] < b[i])
}

// ---- Laws -------------------------------------------------------------------------

/// If nothing is less than itself, no list is.
pub proof fn lexicographic_is_irreflexive<A>(less: spec_fn(A, A) -> bool, a: Seq<A>)
    requires
        forall|x: A| !#[trigger] less(x, x),
    ensures
        !lexicographic(less, a, a),
    decreases a.len(),
{
    if a.len() > 0 {
        lexicographic_is_irreflexive(less, a.skip(1));
    }
}

/// If `less` is transitive, so is the lexicographic order.
pub proof fn lexicographic_is_transitive<A>(
    less: spec_fn(A, A) -> bool,
    a: Seq<A>,
    b: Seq<A>,
    c: Seq<A>,
)
    requires
        forall|x: A, y: A, z: A| #[trigger] less(x, y) && #[trigger] less(y, z) ==> less(x, z),
        lexicographic(less, a, b),
        lexicographic(less, b, c),
    ensures
        lexicographic(less, a, c),
    decreases a.len(),
{
    if a.len() > 0 && a[0] == b[0] && b[0] == c[0] && !less(a[0], c[0]) {
        lexicographic_is_transitive(less, a.skip(1), b.skip(1), c.skip(1));
    }
}

/// If the members of two different lists can be compared, so can the lists.
pub proof fn lexicographic_is_total<A>(less: spec_fn(A, A) -> bool, a: Seq<A>, b: Seq<A>)
    requires
        forall|i: int, j: int|
            0 <= i < a.len() && 0 <= j < b.len() ==> comparable(
                less,
                #[trigger] a[i],
                #[trigger] b[j],
            ),
    ensures
        lexicographic(less, a, b) || a == b || lexicographic(less, b, a),
    decreases a.len(),
{
    if a.len() > 0 && b.len() > 0 {
        assert(comparable(less, a[0], b[0]));
        let (s, t) = (a.skip(1), b.skip(1));
        assert forall|i: int, j: int| 0 <= i < s.len() && 0 <= j < t.len() implies comparable(
            less,
            #[trigger] s[i],
            #[trigger] t[j],
        ) by {
            assert(comparable(less, a[i + 1], b[j + 1]));
        }
        lexicographic_is_total(less, s, t);
        if a[0] == b[0] && s == t {
            assert(a =~= seq![a[0]] + s);
            assert(b =~= seq![b[0]] + t);
        }
    } else if a.len() == 0 && b.len() == 0 {
        assert(a =~= b);
    }
}

/// Of two different texts one is less.
pub proof fn texts_are_ordered(a: Seq<char>, b: Seq<char>)
    ensures
        text_less(a, b) || a == b || text_less(b, a),
{
    lexicographic_is_total(char_less(), a, b);
}

/// The first place where two lists differ decides; if there is none, the shorter one is less.
pub proof fn the_first_difference_decides<A>(
    less: spec_fn(A, A) -> bool,
    a: Seq<A>,
    b: Seq<A>,
    k: int,
)
    requires
        0 <= k <= a.len(),
        0 <= k <= b.len(),
        forall|x: A| !#[trigger] less(x, x),
        forall|i: int| 0 <= i < k ==> #[trigger] a[i] == b[i],
        k < a.len() && k < b.len() ==> a[k] != b[k],
    ensures
        k < a.len() && k < b.len() ==> lexicographic(less, a, b) == less(a[k], b[k]),
        k == a.len() || k == b.len() ==> lexicographic(less, a, b) == (a.len() < b.len()),
    decreases k,
{
    if k > 0 {
        assert(a[0] == b[0]);
        let (s, t) = (a.skip(1), b.skip(1));
        assert forall|i: int| 0 <= i < k - 1 implies #[trigger] s[i] == t[i] by {
            assert(a[i + 1] == b[i + 1]);
        }
        the_first_difference_decides(less, s, t, k - 1);
    }
}

/// Lists of numbers, and texts, are ordered by the number or the character at the first place
/// where they differ; a proper prefix comes first.
pub proof fn numbers_and_texts_are_ordered_at_the_first_difference(
    a: Seq<u64>,
    b: Seq<u64>,
    s: Seq<char>,
    t: Seq<char>,
    k: int,
)
    ensures
        0 <= k < a.len() && k < b.len() && a[k] != b[k] && (forall|i: int|
            0 <= i < k ==> #[trigger] a[i] == b[i]) ==> lex_less(a, b) == (a[k] < b[k]),
        a.len() <= b.len() && (forall|i: int| 0 <= i < a.len() ==> #[trigger] a[i] == b[i])
            ==> lex_less(a, b) == (a.len() < b.len()) && !lex_less(b, a),
        0 <= k < s.len() && k < t.len() && s[k] != t[k] && (forall|i: int|
            0 <= i < k ==> #[trigger] s[i] == t[i]) ==> text_less(s, t) == (s[k] < t[k]),
        s.len() <= t.len() && (forall|i: int| 0 <= i < s.len() ==> #[trigger] s[i] == t[i])
            ==> text_less(s, t) == (s.len() < t.len()) && !text_less(t, s),
{
    if 0 <= k < a.len() && k < b.len() && a[k] != b[k] && (forall|i: int|
        0 <= i < k ==> #[trigger] a[i] == b[i]) {
        the_first_difference_decides(number_less(), a, b, k);
    }
    if a.len() <= b.len() && (forall|i: int| 0 <= i < a.len() ==> #[trigger] a[i] == b[i]) {
        the_first_difference_decides(number_less(), a, b, a.len() as int);
        assert forall|i: int| 0 <= i < a.len() implies #[trigger] b[i] == a[i] by {
            assert(a[i] == b[i]);
        }
        the_first_difference_decides(number_less(), b, a, a.len() as int);
    }
    if 0 <= k < s.len() && k < t.len() && s[k] != t[k] && (forall|i: int|
        0 <= i < k ==> #[trigger] s[i] == t[i]) {
        the_first_difference_decides(char_less(), s, t, k);
    }
    if s.len() <= t.len() && (forall|i: int| 0 <= i < s.len() ==> #[trigger] s[i] == t[i]) {
        the_first_difference_decides(char_less(), s, t, s.len() as int);
        assert forall|i: int| 0 <= i < s.len() implies #[trigger] t[i] == s[i] by {
            assert(s[i] == t[i]);
        }
        the_first_difference_decides(char_less(), t, s, s.len() as int);
    }
}

} // verus!
