//! Video ids and the page addresses that carry them.

use vstd::prelude::*;
use vstd::string::*;
use crate::text::{
    after_first, alphanumeric, chars_of, find_char, first_of_appended, join, join_then_split,
    lemma_span, lemma_span_unique, letter_or_digit, nothing_to_find, one_piece_is_not_split,
    other_than, span, split, string_of,
};

verus! {

/// Whether `c` may occur in a video id.
pub open spec fn id_char(c: char) -> bool {
    letter_or_digit(c) || c == '-' || c == '_'
}

/// The predicate that holds of the characters of a video id.
pub open spec fn id_chars() -> spec_fn(char) -> bool {
    |x: char| id_char(x)
}

/// The id that one `key=value` pair of a query carries: the value of `v`, up to the first
/// character that an id cannot hold, unless nothing is left of it.
pub open spec fn pair_id(pair: Seq<char>) -> Option<Seq<char>> {
    if pair.len() >= 2 && pair[0] == 'v' && pair[1] == '=' {
        let val = pair.skip(2);
        let id = val.take(span(val, id_chars()) as int);
        if id.len() > 0 {
            Some(id)
        } else {
            None
        }
    } else {
        None
    }
}

/// The id of the first pair that carries one.
pub open spec fn first_id(pairs: Seq<Seq<char>>) -> Option<Seq<char>>
    decreases pairs.len(),
{
    if pairs.len() == 0 {
        None
    } else {
        match pair_id(pairs[0]) {
            Some(id) => Some(id),
            None => first_id(pairs.skip(1)),
        }
    }
}

/// The query of an address: what follows its first question mark.
pub open spec fn query(url: Seq<char>) -> Seq<char> {
    match after_first(url, '?') {
        Some(rest) => rest,
        None => Seq::empty(),
    }
}

/// The video id in an address, if it has one.
pub open spec fn video_id(url: Seq<char>) -> Option<Seq<char>> {
    first_id(split(query(url), '&'))
}

/// The address of the page that shows the video `id`.
pub open spec fn watch_page(id: Seq<char>) -> Seq<char> {
    "https://www.youtube.com/watch?v="@ + id
}

/// The id that the pair `pair` carries, as a slice of it; empty if it carries none.
fn pair_id_of(pair: &[char]) -> (id: &[char])
    ensures
        pair_id(pair@) is Some <==> id@.len() > 0,
        id@.len() > 0 ==> pair_id(pair@) == Some(id@),
{
    if pair.len() < 2 || pair[0] != 'v' || pair[1] != '=' {
        return &pair[0..0];
    }
    let ghost val = pair@.skip(2);
    let mut to: usize = 2;
    while to < pair.len() && (pair[to].is_alphanumeric() || pair[to] == '-' || pair[to] == '_')
        invariant
            2 <= to <= pair@.len(),
            val == pair@.skip(2),
            forall|i: int| 0 <= i < to - 2 ==> id_chars()(#[trigger] val[i]),
        decreases pair@.len() - to,
    {
        to = to + 1;
    }
    proof {
        lemma_span_unique(val, id_chars(), (to - 2) as nat);
        assert(pair@.subrange(2, to as int) =~= val.take(to - 2));
    }
    &pair[2..to]
}

/// The video id in the address `url`, if it has one.
pub fn extract_video_id(url: &str) -> (r: Option<String>)
    ensures
        r.deep_view() == video_id(url@),
{
    let v = chars_of(url);
    let mark: usize = find_char(v.as_slice(), '?');
    let from: usize = if mark < v.len() {
        mark + 1
    } else {
        mark
    };
    let mut rest: &[char] = &v.as_slice()[from..v.len()];
    assert(rest@ =~= query(url@));
    loop
        invariant
            first_id(split(rest@, '&')) == video_id(url@),
        decreases rest@.len(),
    {
        let n: usize = find_char(rest, '&');
        let pair: &[char] = &rest[0..n];
        let id = pair_id_of(pair);
        let last = n == rest.len();
        proof {
            let pairs = split(rest@, '&');
            assert(pair@ =~= rest@.take(n as int));
            if last {
                assert(pair@ =~= rest@);
                assert(pairs.skip(1) =~= Seq::empty());
                assert(first_id(Seq::empty()) is None);
            } else {
                assert(pairs.skip(1) =~= split(rest@.skip(n + 1), '&'));
            }
            assert(pairs[0] == pair@);
        }
        if id.len() > 0 {
            return Some(string_of(id));
        }
        if last {
            return None;
        }
        let ghost before = rest@;
        rest = &rest[n + 1..rest.len()];
        assert(rest@ =~= before.skip(n + 1));
    }
}

/// The address of the page that shows the video `video_id`.
pub fn watch_url(video_id: &str) -> (url: String)
    ensures
        url@ == watch_page(video_id@),
{
    let mut url = "https://www.youtube.com/watch?v=".to_owned();
    url.append(video_id);
    url
}

// ---- Laws -----------------------------------------------------------------------

proof fn first_id_is_an_id(pairs: Seq<Seq<char>>)
    ensures
        first_id(pairs) is Some ==> first_id(pairs)->Some_0.len() > 0 && first_id(
            pairs,
        )->Some_0.all(id_chars()),
    decreases pairs.len(),
{
    if pairs.len() > 0 {
        let pair = pairs[0];
        match pair_id(pair) {
            Some(id) => {
                lemma_span(pair.skip(2), id_chars());
                assert forall|i: int| 0 <= i < id.len() implies #[trigger] id_chars()(id[i]) by {
                    assert(id[i] == pair.skip(2)[i]);
                }
            },
            None => {
                first_id_is_an_id(pairs.skip(1));
            },
        }
    }
}

/// An extracted id is not empty and holds nothing but letters, digits, `-` and `_`.
pub proof fn extracted_id_is_clean(url: Seq<char>)
    ensures
        video_id(url) is Some ==> video_id(url)->Some_0.len() > 0 && video_id(url)->Some_0.all(
            id_chars(),
        ),
{
    first_id_is_an_id(split(query(url), '&'));
}

/// The id in the address of a video's page is the id of that video.
pub proof fn watch_page_carries_its_id(id: Seq<char>)
    requires
        id.len() > 0,
        id.all(id_chars()),
    ensures
        video_id(watch_page(id)) == Some(id),
{
    reveal_strlit("https://www.youtube.com/watch?v=");
    let url = watch_page(id);
    let base = "https://www.youtube.com/watch?v="@;
    assert(base.len() == 32);
    assert forall|i: int| 0 <= i < 29 implies other_than('?')(#[trigger] url[i]) by {
        assert(url[i] == base[i]);
    }
    assert(url[29] == '?');
    lemma_span_unique(url, other_than('?'), 29);
    let pair = query(url);
    assert(pair =~= seq!['v', '='] + id);
    assert forall|i: int| 0 <= i < pair.len() implies other_than('&')(#[trigger] pair[i]) by {
        if i >= 2 {
            assert(id_chars()(id[i - 2]));
        }
    }
    lemma_span_unique(pair, other_than('&'), pair.len());
    let val = pair.skip(2);
    assert(val =~= id);
    assert forall|i: int| 0 <= i < val.len() implies id_chars()(#[trigger] val[i]) by {
        assert(id_chars()(id[i]));
    }
    lemma_span_unique(val, id_chars(), val.len());
    assert(val.take(val.len() as int) =~= id);
}

/// The page address built from an extracted id carries the same id.
pub proof fn extraction_is_stable(url: Seq<char>)
    requires
        video_id(url) is Some,
    ensures
        video_id(watch_page(video_id(url)->Some_0)) == video_id(url),
{
    extracted_id_is_clean(url);
    watch_page_carries_its_id(video_id(url)->Some_0);
}

/// An id is made of ASCII letters and digits, `-`, `_`, and what the Unicode tables have as a
/// letter or a digit beyond ASCII.
pub proof fn characters_of_an_id(c: char)
    ensures
        id_char(c) <==> {
            ||| 'a' <= c <= 'z'
            ||| 'A' <= c <= 'Z'
            ||| '0' <= c <= '9'
            ||| c == '-'
            ||| c == '_'
            ||| c > '\u{7f}' && alphanumeric(c)
        },
{
}

/// Whether a pair of a query starts with `v=` and a character of an id.
pub open spec fn starts_an_id(pair: Seq<char>) -> bool {
    pair.len() > 2 && pair[0] == 'v' && pair[1] == '=' && id_char(pair[2])
}

/// A pair carries an id exactly if it starts one.
proof fn lemma_pair_id(pair: Seq<char>)
    ensures
        pair_id(pair) is Some <==> starts_an_id(pair),
{
    if pair.len() >= 2 {
        let val = pair.skip(2);
        lemma_span(val, id_chars());
        if starts_an_id(pair) {
            assert(id_chars()(val[0]));
        }
        if val.len() > 0 && span(val, id_chars()) > 0 {
            assert(id_chars()(val[0]));
        }
    }
}

proof fn lemma_first_id_at(pairs: Seq<Seq<char>>, k: int)
    requires
        0 <= k < pairs.len(),
        forall|i: int| 0 <= i < k ==> !starts_an_id(#[trigger] pairs[i]),
        starts_an_id(pairs[k]),
    ensures
        first_id(pairs) == pair_id(pairs[k]),
    decreases k,
{
    lemma_pair_id(pairs[0]);
    if k > 0 {
        assert(!starts_an_id(pairs[0]));
        let tail = pairs.skip(1);
        assert forall|i: int| 0 <= i < k - 1 implies !starts_an_id(#[trigger] tail[i]) by {
            assert(tail[i] == pairs[i + 1]);
        }
        lemma_first_id_at(tail, k - 1);
    }
}

proof fn lemma_no_id(pairs: Seq<Seq<char>>)
    ensures
        first_id(pairs) is None <==> forall|i: int|
            0 <= i < pairs.len() ==> !starts_an_id(#[trigger] pairs[i]),
    decreases pairs.len(),
{
    if exists|i: int| 0 <= i < pairs.len() && starts_an_id(#[trigger] pairs[i]) {
        lemma_some_first(pairs);
    } else if pairs.len() > 0 {
        lemma_pair_id(pairs[0]);
        assert(!starts_an_id(pairs[0]));
        let tail = pairs.skip(1);
        assert forall|i: int| 0 <= i < tail.len() implies !starts_an_id(#[trigger] tail[i]) by {
            assert(tail[i] == pairs[i + 1]);
        }
        lemma_no_id(tail);
    }
}

proof fn lemma_some_first(pairs: Seq<Seq<char>>)
    requires
        exists|i: int| 0 <= i < pairs.len() && starts_an_id(#[trigger] pairs[i]),
    ensures
        first_id(pairs) is Some,
    decreases pairs.len(),
{
    let i = choose|i: int| 0 <= i < pairs.len() && starts_an_id(#[trigger] pairs[i]);
    lemma_pair_id(pairs[0]);
    if !starts_an_id(pairs[0]) {
        assert(pairs.skip(1)[i - 1] == pairs[i]);
        lemma_some_first(pairs.skip(1));
    }
}

/// The pairs of a query are what stands between its ampersands.
proof fn lemma_query_of(b: Seq<char>, pairs: Seq<Seq<char>>)
    requires
        !b.contains('?'),
        pairs.len() > 0,
        forall|i: int| 0 <= i < pairs.len() ==> !(#[trigger] pairs[i]).contains('&'),
    ensures
        video_id(b.push('?') + join(pairs, '&')) == first_id(pairs),
{
    first_of_appended(b, '?', join(pairs, '&'));
    join_then_split(pairs, '&');
}

/// The id of an address is that of the first pair of its query that starts one, wherever
/// among the pairs it stands. It reaches up to the first character that no id holds.
pub proof fn the_first_id_of_the_query_is_taken(
    b: Seq<char>,
    pairs: Seq<Seq<char>>,
    k: int,
    id: Seq<char>,
    rest: Seq<char>,
)
    requires
        !b.contains('?'),
        0 <= k < pairs.len(),
        forall|i: int| 0 <= i < pairs.len() ==> !(#[trigger] pairs[i]).contains('&'),
        forall|i: int| 0 <= i < k ==> !starts_an_id(#[trigger] pairs[i]),
        pairs[k] == seq!['v', '='] + id + rest,
        id.len() > 0,
        forall|i: int| 0 <= i < id.len() ==> id_char(#[trigger] id[i]),
        rest.len() > 0 ==> !id_char(rest[0]),
    ensures
        video_id(b.push('?') + join(pairs, '&')) == Some(id),
{
    lemma_query_of(b, pairs);
    let pair = pairs[k];
    let val = pair.skip(2);
    assert(val =~= id + rest);
    assert(pair[2] == id[0]);
    lemma_first_id_at(pairs, k);
    assert forall|i: int| 0 <= i < id.len() implies id_chars()(#[trigger] val[i]) by {
        assert(val[i] == id[i]);
    }
    lemma_span_unique(val, id_chars(), id.len());
    assert(val.take(id.len() as int) =~= id);
}

/// An address has no id exactly if it has no question mark, or no pair of its query starts
/// one.
pub proof fn addresses_without_an_id(b: Seq<char>, pairs: Seq<Seq<char>>)
    requires
        !b.contains('?'),
        pairs.len() > 0,
        forall|i: int| 0 <= i < pairs.len() ==> !(#[trigger] pairs[i]).contains('&'),
    ensures
        video_id(b) is None,
        video_id(b.push('?') + join(pairs, '&')) is None <==> forall|i: int|
            0 <= i < pairs.len() ==> !starts_an_id(#[trigger] pairs[i]),
{
    lemma_query_of(b, pairs);
    lemma_no_id(pairs);
    nothing_to_find(b, '?');
    let nothing = Seq::<char>::empty();
    one_piece_is_not_split(nothing, '&');
    lemma_no_id(seq![nothing]);
}

/// The page of a video has a fixed address with the id behind it.
pub proof fn the_id_ends_the_page_address(id: Seq<char>, other: Seq<char>)
    ensures
        watch_page(id).len() == 32 + id.len(),
        watch_page(id).skip(32) == id,
        watch_page(id).take(32) == "https://www.youtube.com/watch?v="@,
        watch_page(id) == watch_page(other) ==> id == other,
{
    reveal_strlit("https://www.youtube.com/watch?v=");
    assert(watch_page(id).skip(32) =~= id);
    assert(watch_page(other).skip(32) =~= other);
    assert(watch_page(id).take(32) =~= "https://www.youtube.com/watch?v="@);
}

} // verus!
