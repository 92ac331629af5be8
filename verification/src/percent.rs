//! The percentage in a progress line.

use vstd::prelude::*;
use crate::double::{
    capped, double_whole, huge_numbers_stay_huge, nearest_whole,
    short_numbers_keep_their_whole_part,
};
use crate::number::{
    all_digits, digits_value, is_digit, lemma_pow10_small, lemma_value_bound, only_digits, pow10,
    pow10_is_a_power, value,
};
use crate::text::{
    after_first, chars_of, find_char, first_of, first_of_appended, lemma_rspan_unique, lemma_span,
    nothing_to_find, other_than, rspan,
};

verus! {

/// The predicate that holds of the characters of a numeral: the digits and the point.
pub open spec fn numeral_chars() -> spec_fn(char) -> bool {
    |x: char| is_digit(x) || x == '.'
}

/// The digits of `t` before its first point.
pub open spec fn whole_digits(t: Seq<char>) -> Seq<char> {
    t.take(first_of(t, '.') as int)
}

/// What follows the first point of `t`; nothing if there is no point.
pub open spec fn decimal_digits(t: Seq<char>) -> Seq<char> {
    match after_first(t, '.') {
        Some(rest) => rest,
        None => Seq::empty(),
    }
}

/// Whether `t` denotes a number: digits with at most one point among them, and at least
/// one digit.
pub open spec fn is_number(t: Seq<char>) -> bool {
    &&& all_digits(whole_digits(t))
    &&& all_digits(decimal_digits(t))
    &&& whole_digits(t).len() + decimal_digits(t).len() > 0
}

/// The whole part of the double nearest to the number that `t` denotes, at most the
/// largest `u64`.
pub open spec fn reading(t: Seq<char>) -> Option<u64> {
    if is_number(t) {
        let den = pow10(decimal_digits(t).len());
        Some(capped(double_whole(value(whole_digits(t)) * den + value(decimal_digits(t)), den)))
    } else {
        None
    }
}

/// The numeral at the end of `s`, perhaps empty.
pub open spec fn final_numeral(s: Seq<char>) -> Seq<char> {
    s.skip(s.len() - rspan(s, numeral_chars()))
}

/// The percentage in a line: the number right before its first percent sign, without
/// decimals.
pub open spec fn percentage(line: Seq<char>) -> Option<u64> {
    if first_of(line, '%') < line.len() {
        reading(final_numeral(line.take(first_of(line, '%') as int)))
    } else {
        None
    }
}

/// Whether the numeral before the first percent sign of `line`, if there is a sign, is
/// preceded by nothing or by an ASCII character.
pub open spec fn numeral_follows_ascii(line: Seq<char>) -> bool {
    let before = line.take(first_of(line, '%') as int);
    let n = rspan(before, numeral_chars());
    first_of(line, '%') < line.len() && n < before.len() ==> before[before.len() - n - 1]
        <= '\u{7f}'
}

/// The number of characters of the numeral at the end of `v`.
fn final_numeral_len(v: &[char]) -> (n: usize)
    ensures
        n == rspan(v@, numeral_chars()),
        n <= v@.len(),
{
    let mut from: usize = v.len();
    while from > 0 && (('0' <= v[from - 1] && v[from - 1] <= '9') || v[from - 1] == '.')
        invariant
            from <= v@.len(),
            forall|i: int| from <= i < v@.len() ==> numeral_chars()(#[trigger] v@[i]),
        decreases from,
    {
        from = from - 1;
    }
    proof {
        lemma_rspan_unique(v@, numeral_chars(), (v@.len() - from) as nat);
    }
    v.len() - from
}

/// The whole part of the double nearest to the number that `t` denotes.
pub fn read_number(t: &[char]) -> (r: Option<u64>)
    ensures
        r == reading(t@),
{
    let point: usize = find_char(t, '.');
    let whole: &[char] = &t[0..point];
    let from: usize = if point < t.len() {
        point + 1
    } else {
        point
    };
    let decimals: &[char] = &t[from..t.len()];
    proof {
        assert(whole@ =~= whole_digits(t@));
        assert(decimals@ =~= decimal_digits(t@));
    }
    if whole.len() == 0 && decimals.len() == 0 {
        return None;
    }
    if !only_digits(whole) || !only_digits(decimals) {
        return None;
    }
    match digits_value(whole) {
        Some(i) => Some(nearest_whole(i, decimals)),
        None => {
            proof {
                let den: nat = pow10(decimals@.len());
                let num: nat = value(whole@) * den + value(decimals@);
                lemma_value_bound(decimals@);
                assert(num / den == value(whole@)) by {
                    vstd::arithmetic::div_mod::lemma_fundamental_div_mod_converse(
                        num as int,
                        den as int,
                        value(whole@) as int,
                        value(decimals@) as int,
                    );
                }
                huge_numbers_stay_huge(num, den);
            }
            Some(u64::MAX)
        },
    }
}

/// Whether `parse_pct` can be asked about `line`: the numeral before its first percent
/// sign, if there is a sign, is preceded by nothing or by an ASCII character.
pub fn has_readable_percentage(line: &str) -> (r: bool)
    ensures
        r == numeral_follows_ascii(line@),
{
    let v = chars_of(line);
    let sign: usize = find_char(v.as_slice(), '%');
    if sign == v.len() {
        return true;
    }
    let before: &[char] = &v.as_slice()[0..sign];
    assert(before@ =~= line@.take(sign as int));
    let n: usize = final_numeral_len(before);
    n == before.len() || before[before.len() - n - 1] <= '\u{7f}'
}

/// The percentage in `line`: the number right before its first percent sign, read as the
/// nearest double and cut down to its whole part.
pub fn parse_pct(line: &str) -> (r: Option<u64>)
    requires
        numeral_follows_ascii(line@),
    ensures
        r == percentage(line@),
{
    let v = chars_of(line);
    let sign: usize = find_char(v.as_slice(), '%');
    if sign == v.len() {
        return None;
    }
    let before: &[char] = &v.as_slice()[0..sign];
    assert(before@ =~= line@.take(sign as int));
    let n: usize = final_numeral_len(before);
    let numeral: &[char] = &before[before.len() - n..before.len()];
    assert(numeral@ =~= final_numeral(before@));
    read_number(numeral)
}

// ---- Laws -------------------------------------------------------------------------

/// A line without a percent sign has no percentage.
pub proof fn no_sign_no_percentage(line: Seq<char>)
    requires
        !line.contains('%'),
    ensures
        percentage(line) is None,
{
    lemma_span(line, other_than('%'));
    let n: nat = first_of(line, '%');
    if n < line.len() {
        assert(line[n as int] == '%');
    }
}

/// A numeral of fifteen digits at most reads as the number before its point.
pub proof fn short_numerals_read_as_their_whole_part(t: Seq<char>)
    requires
        is_number(t),
        whole_digits(t).len() + decimal_digits(t).len() <= 15,
    ensures
        reading(t) == Some(value(whole_digits(t)) as u64),
        value(whole_digits(t)) <= u64::MAX,
{
    short_numbers_keep_their_whole_part(whole_digits(t), decimal_digits(t));
    lemma_value_bound(whole_digits(t));
    lemma_pow10_small(whole_digits(t).len());
}

proof fn lemma_numeral_in_line(a: Seq<char>, t: Seq<char>, b: Seq<char>)
    requires
        !a.contains('%'),
        a.len() > 0 ==> !('0' <= a.last() <= '9') && a.last() != '.',
        forall|i: int| 0 <= i < t.len() ==> '0' <= #[trigger] t[i] <= '9' || t[i] == '.',
    ensures
        ({
            let line = a + t + seq!['%'] + b;
            &&& first_of(line, '%') == a.len() + t.len()
            &&& line.take(first_of(line, '%') as int) == a + t
            &&& rspan(a + t, numeral_chars()) == t.len()
        }),
{
    let line = a + t + seq!['%'] + b;
    let before = a + t;
    assert(!before.contains('%')) by {
        if before.contains('%') {
            let k = choose|k: int| 0 <= k < before.len() && before[k] == '%';
            if k < a.len() {
                assert(a[k] == '%');
            } else {
                assert(t[k - a.len()] == '%');
            }
        }
    }
    first_of_appended(before, '%', b);
    assert(line =~= before.push('%') + b);
    assert forall|i: int| before.len() - t.len() <= i < before.len() implies numeral_chars()(
        #[trigger] before[i],
    ) by {
        assert(before[i] == t[i - a.len()]);
    }
    if t.len() < before.len() {
        assert(before[before.len() - t.len() - 1] == a.last());
    }
    lemma_rspan_unique(before, numeral_chars(), t.len());
}

/// The percentage of a line is the numeral right before its first percent sign: all of it, up
/// to a character that is neither a digit nor a point, and nothing else.
pub proof fn the_numeral_before_the_sign_is_read(a: Seq<char>, t: Seq<char>, b: Seq<char>)
    requires
        !a.contains('%'),
        a.len() > 0 ==> !('0' <= a.last() <= '9') && a.last() != '.',
        forall|i: int| 0 <= i < t.len() ==> '0' <= #[trigger] t[i] <= '9' || t[i] == '.',
    ensures
        percentage(a + t + seq!['%'] + b) == reading(t),
{
    let before = a + t;
    lemma_numeral_in_line(a, t, b);
    assert(final_numeral(before) =~= t);
}

/// What a numeral is read as: digits, a point and digits denote the nearest double of their
/// number, without its decimals.
pub proof fn numerals_with_a_point_are_read(w: Seq<char>, d: Seq<char>)
    requires
        forall|i: int| 0 <= i < w.len() ==> '0' <= #[trigger] w[i] <= '9',
        forall|i: int| 0 <= i < d.len() ==> '0' <= #[trigger] d[i] <= '9',
        w.len() + d.len() > 0,
    ensures
        ({
            let den: nat = vstd::arithmetic::power::pow(10, d.len()) as nat;
            reading(w.push('.') + d) == Some(capped(double_whole(value(w) * den + value(d), den)))
        }),
        w.len() > 0 ==> reading(w) == Some(capped(double_whole(value(w), 1))),
{
    pow10_is_a_power(d.len());
    assert(all_digits(w) && all_digits(d));
    assert(!w.contains('.')) by {
        if w.contains('.') {
            let k = choose|k: int| 0 <= k < w.len() && w[k] == '.';
            assert('0' <= w[k]);
        }
    }
    first_of_appended(w, '.', d);
    nothing_to_find(w, '.');
    assert(decimal_digits(w) == Seq::<char>::empty());
    assert(value(Seq::empty()) == 0);
    assert(pow10(0) == 1);
    assert(value(w) * 1 + 0 == value(w));
}

/// A numeral with two points, or without a digit, is no number.
pub proof fn other_numerals_are_not_read(a: Seq<char>, b: Seq<char>, c: Seq<char>)
    ensures
        reading(a.push('.') + b.push('.') + c) is None,
        reading(seq!['.']) is None,
        reading(Seq::empty()) is None,
{
    let t = a.push('.') + b.push('.') + c;
    assert(t[a.len() as int] == '.');
    lemma_span(t, other_than('.'));
    let n: nat = first_of(t, '.');
    if n > a.len() {
        assert(other_than('.')(t[a.len() as int]));
    }
    let rest = t.skip(n as int + 1);
    let k: int = a.len() + b.len() - n;
    assert(rest[k] == t[(a.len() + 1 + b.len()) as int]);
    assert(rest[k] == '.');
    assert(!is_digit(rest[k]));
    assert(!all_digits(rest));
    let point = seq!['.'];
    first_of_appended(Seq::empty(), '.', Seq::empty());
    assert(Seq::<char>::empty().push('.') + Seq::<char>::empty() =~= point);
    nothing_to_find(Seq::empty(), '.');
}

/// A line can be read unless a character beyond ASCII stands right before its numeral.
pub proof fn lines_that_can_be_read(a: Seq<char>, t: Seq<char>, b: Seq<char>)
    requires
        !a.contains('%'),
        a.len() > 0 ==> !('0' <= a.last() <= '9') && a.last() != '.',
        forall|i: int| 0 <= i < t.len() ==> '0' <= #[trigger] t[i] <= '9' || t[i] == '.',
    ensures
        numeral_follows_ascii(a + t + seq!['%'] + b) <==> a.len() == 0 || a.last() <= '\u{7f}',
        !b.contains('%') ==> numeral_follows_ascii(b),
{
    let line = a + t + seq!['%'] + b;
    let before = a + t;
    lemma_numeral_in_line(a, t, b);
    if a.len() > 0 {
        assert(before[before.len() - t.len() - 1] == a.last());
    }
    if !b.contains('%') {
        nothing_to_find(b, '%');
    }
}

} // verus!
