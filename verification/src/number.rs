//! Natural numbers and their decimal notation.

use vstd::prelude::*;
use crate::order::{chars_less, text_less, texts_are_ordered};

verus! {

/// Whether `c` is one of the ten ASCII digits.
pub open spec fn is_digit(c: char) -> bool {
    '0' <= c <= '9'
}

/// Whether `s` is made of digits alone.
pub open spec fn all_digits(s: Seq<char>) -> bool {
    forall|i: int| 0 <= i < s.len() ==> is_digit(#[trigger] s[i])
}

/// The number that a digit stands for.
pub open spec fn digit_value(c: char) -> nat {
    (c as u32 - '0' as u32) as nat
}

/// The digit that stands for `d`.
pub open spec fn digit_char(d: nat) -> char {
    (d + '0' as u32) as char
}

/// The number that a string of digits denotes; the empty string denotes zero.
pub open spec fn value(s: Seq<char>) -> nat
    decreases s.len(),
{
    if s.len() == 0 {
        0
    } else {
        10 * value(s.drop_last()) + digit_value(s.last())
    }
}

/// The decimal notation of `n`, without superfluous zeros.
pub open spec fn decimal(n: nat) -> Seq<char>
    decreases n,
{
    if n < 10 {
        seq![digit_char(n)]
    } else {
        decimal(n / 10).push(digit_char(n % 10))
    }
}

/// The `u64` that `s` denotes: one or more digits, perhaps after a plus sign.
pub open spec fn parsed_u64(s: Seq<char>) -> Option<u64> {
    let digits = if s.len() > 0 && s[0] == '+' {
        s.skip(1)
    } else {
        s
    };
    if digits.len() > 0 && all_digits(digits) && value(digits) <= u64::MAX {
        Some(value(digits) as u64)
    } else {
        None
    }
}

/// A decimal notation is made of one or more digits and denotes its number.
pub proof fn decimal_denotes_its_number(n: nat)
    ensures
        decimal(n).len() > 0,
        all_digits(decimal(n)),
        value(decimal(n)) == n,
    decreases n,
{
    if n < 10 {
        assert(decimal(n).drop_last() =~= Seq::<char>::empty());
        assert(value(Seq::<char>::empty()) == 0);
    } else {
        decimal_denotes_its_number(n / 10);
        assert(decimal(n).drop_last() =~= decimal(n / 10));
    }
}

/// Reading back the notation of a `u64` gives that `u64`.
pub proof fn decimal_reads_back(n: u64)
    ensures
        parsed_u64(decimal(n as nat)) == Some(n),
{
    decimal_denotes_its_number(n as nat);
    assert(is_digit(decimal(n as nat)[0]));
}

/// A longer string of digits denotes no smaller a number.
pub proof fn lemma_value_grows(s: Seq<char>, n: int)
    requires
        0 <= n <= s.len(),
    ensures
        value(s.take(n)) <= value(s),
    decreases s.len() - n,
{
    if n < s.len() {
        lemma_value_grows(s, n + 1);
        assert(s.take(n + 1).drop_last() =~= s.take(n));
    } else {
        assert(s.take(n) =~= s);
    }
}

/// 10 to the power `n`.
pub open spec fn pow10(n: nat) -> nat
    decreases n,
{
    if n == 0 {
        1
    } else {
        10 * pow10((n - 1) as nat)
    }
}

/// A power of ten is above zero.
pub proof fn lemma_pow10_pos(n: nat)
    ensures
        pow10(n) > 0,
    decreases n,
{
    if n > 0 {
        lemma_pow10_pos((n - 1) as nat);
    }
}

/// Powers of ten multiply by adding their exponents.
pub proof fn lemma_pow10_adds(a: nat, b: nat)
    ensures
        pow10(a + b) == pow10(a) * pow10(b),
    decreases a,
{
    if a == 0 {
        assert(1 * pow10(b) == pow10(b));
    } else {
        lemma_pow10_adds((a - 1) as nat, b);
        let x: int = pow10((a - 1) as nat) as int;
        let y: int = pow10(b) as int;
        assert(10 * (x * y) == (10 * x) * y) by (nonlinear_arith);
        assert((a + b - 1) as nat == (a - 1) as nat + b);
    }
}

/// A string of digits denotes less than 10 to the power of its length.
pub proof fn lemma_value_bound(s: Seq<char>)
    requires
        all_digits(s),
    ensures
        value(s) < pow10(s.len()),
    decreases s.len(),
{
    if s.len() > 0 {
        let t = s.drop_last();
        assert(all_digits(t)) by {
            assert forall|i: int| 0 <= i < t.len() implies is_digit(#[trigger] t[i]) by {
                assert(t[i] == s[i]);
            }
        }
        lemma_value_bound(t);
        assert(is_digit(s[s.len() - 1]));
    }
}

/// The first `n` digits count for the power of ten that the others leave free.
pub proof fn lemma_value_split(s: Seq<char>, n: int)
    requires
        0 <= n <= s.len(),
    ensures
        value(s) == value(s.take(n)) * pow10((s.len() - n) as nat) + value(s.skip(n)),
    decreases s.len() - n,
{
    if n == s.len() {
        assert(s.take(n) =~= s);
        assert(value(s.skip(n)) == 0);
        assert(value(s) * 1 == value(s));
    } else {
        let t = s.drop_last();
        lemma_value_split(t, n);
        assert(t.take(n) =~= s.take(n));
        assert(s.skip(n).drop_last() =~= t.skip(n));
        assert(s.skip(n).last() == s.last());
        let x: int = value(s.take(n)) as int;
        let y: int = pow10((t.len() - n) as nat) as int;
        assert(10 * (x * y) == x * (10 * y)) by (nonlinear_arith);
        assert((s.len() - n) as nat == (t.len() - n) as nat + 1);
    }
}

/// The powers of ten up to the fifteenth.
pub proof fn lemma_pow10_small(n: nat)
    requires
        n <= 15,
    ensures
        pow10(n) <= 1_000_000_000_000_000,
{
    reveal_with_fuel(pow10, 16);
}

/// The number that `v` denotes, or `None` if it is not made of digits or denotes more
/// than a `u64` holds.
pub fn digits_value(v: &[char]) -> (r: Option<u64>)
    ensures
        r == (if all_digits(v@) && value(v@) <= u64::MAX {
            Some(value(v@) as u64)
        } else {
            None
        }),
{
    let mut n: u64 = 0;
    let mut i: usize = 0;
    while i < v.len()
        invariant
            i <= v@.len(),
            forall|j: int| 0 <= j < i ==> is_digit(#[trigger] v@[j]),
            n == value(v@.take(i as int)),
        decreases v@.len() - i,
    {
        let c = v[i];
        if !('0' <= c && c <= '9') {
            return None;
        }
        let d: u64 = c as u64 - '0' as u64;
        proof {
            assert(v@.take(i + 1).drop_last() =~= v@.take(i as int));
            lemma_value_grows(v@, i + 1);
        }
        if n > (u64::MAX - d) / 10 {
            return None;
        }
        n = n * 10 + d;
        i = i + 1;
    }
    assert(v@.take(v@.len() as int) =~= v@);
    Some(n)
}

/// Whether `v` is made of digits alone.
pub fn only_digits(v: &[char]) -> (r: bool)
    ensures
        r == all_digits(v@),
{
    let mut i: usize = 0;
    while i < v.len()
        invariant
            i <= v@.len(),
            forall|j: int| 0 <= j < i ==> is_digit(#[trigger] v@[j]),
        decreases v@.len() - i,
    {
        if !('0' <= v[i] && v[i] <= '9') {
            return false;
        }
        i = i + 1;
    }
    true
}

/// The `u64` that `v` denotes, if it denotes one.
pub fn parse_u64(v: &[char]) -> (r: Option<u64>)
    ensures
        r == parsed_u64(v@),
{
    let signed = v.len() > 0 && v[0] == '+';
    let digits: &[char] = if signed {
        &v[1..v.len()]
    } else {
        v
    };
    assert(signed ==> digits@ =~= v@.skip(1));
    if digits.len() == 0 {
        return None;
    }
    digits_value(digits)
}

/// Whether `s` is a numeral: one or more digits, without superfluous zeros in front.
pub open spec fn is_numeral(s: Seq<char>) -> bool {
    s.len() > 0 && all_digits(s) && (s.len() > 1 ==> s[0] != '0')
}

/// The first digit counts for the power of ten that the others leave free.
proof fn lemma_first_digit(s: Seq<char>)
    requires
        s.len() > 0,
        all_digits(s),
    ensures
        value(s) == digit_value(s[0]) * pow10((s.len() - 1) as nat) + value(s.skip(1)),
        all_digits(s.skip(1)),
        value(s.skip(1)) < pow10((s.len() - 1) as nat),
{
    lemma_value_split(s, 1);
    let head = s.take(1);
    assert(head.drop_last() =~= Seq::<char>::empty());
    assert(value(Seq::<char>::empty()) == 0);
    assert(value(head) == digit_value(s[0]));
    let tail = s.skip(1);
    assert forall|i: int| 0 <= i < tail.len() implies is_digit(#[trigger] tail[i]) by {
        assert(tail[i] == s[i + 1]);
    }
    lemma_value_bound(tail);
}

/// The shorter of two numerals denotes the smaller number.
proof fn lemma_shorter_is_smaller(a: Seq<char>, b: Seq<char>)
    requires
        all_digits(a),
        is_numeral(b),
        a.len() < b.len(),
        b.len() > 1,
    ensures
        value(a) < value(b),
{
    lemma_value_bound(a);
    lemma_first_digit(b);
    assert(is_digit(b[0]));
    let rest: nat = (b.len() - 1) as nat;
    lemma_pow10_adds(a.len(), (rest - a.len()) as nat);
    lemma_pow10_pos((rest - a.len()) as nat);
    lemma_pow10_pos(rest);
    let x: int = pow10(a.len()) as int;
    let y: int = pow10((rest - a.len()) as nat) as int;
    let z: int = pow10(rest) as int;
    let d: int = digit_value(b[0]) as int;
    assert(x <= z) by (nonlinear_arith)
        requires
            z == x * y,
            y >= 1,
            x >= 0,
    ;
    assert(z <= d * z) by (nonlinear_arith)
        requires
            d >= 1,
            z >= 0,
    ;
}

/// Strings of as many digits are ordered as their numbers are.
proof fn lemma_same_length_compares_as_text(a: Seq<char>, b: Seq<char>)
    requires
        all_digits(a),
        all_digits(b),
        a.len() == b.len(),
    ensures
        text_less(a, b) == (value(a) < value(b)),
    decreases a.len(),
{
    if a.len() > 0 {
        lemma_first_digit(a);
        lemma_first_digit(b);
        lemma_same_length_compares_as_text(a.skip(1), b.skip(1));
        assert(is_digit(a[0]) && is_digit(b[0]));
        let p: int = pow10((a.len() - 1) as nat) as int;
        let x: int = digit_value(a[0]) as int;
        let y: int = digit_value(b[0]) as int;
        if x < y {
            assert(x * p + p <= y * p) by (nonlinear_arith)
                requires
                    x + 1 <= y,
                    p >= 0,
            ;
        } else if y < x {
            assert(y * p + p <= x * p) by (nonlinear_arith)
                requires
                    y + 1 <= x,
                    p >= 0,
            ;
        }
    }
}

/// Whether the numeral `a` denotes a smaller number than the numeral `b`. The numbers may be
/// of any size.
pub fn numeral_less(a: &[char], b: &[char]) -> (r: bool)
    requires
        is_numeral(a@),
        is_numeral(b@),
    ensures
        r == (value(a@) < value(b@)),
{
    if a.len() < b.len() {
        proof {
            lemma_shorter_is_smaller(a@, b@);
        }
        true
    } else if b.len() < a.len() {
        proof {
            lemma_shorter_is_smaller(b@, a@);
        }
        false
    } else {
        proof {
            lemma_same_length_compares_as_text(a@, b@);
        }
        chars_less(a, b)
    }
}

/// Different numerals denote different numbers.
pub proof fn numerals_are_unique(a: Seq<char>, b: Seq<char>)
    requires
        is_numeral(a),
        is_numeral(b),
        value(a) == value(b),
    ensures
        a == b,
{
    if a.len() < b.len() {
        lemma_shorter_is_smaller(a, b);
    } else if b.len() < a.len() {
        lemma_shorter_is_smaller(b, a);
    } else {
        lemma_same_length_compares_as_text(a, b);
        lemma_same_length_compares_as_text(b, a);
        texts_are_ordered(a, b);
    }
}

/// A decimal notation is a numeral.
pub proof fn decimals_are_numerals(n: nat)
    ensures
        is_numeral(decimal(n)),
        n > 0 ==> decimal(n)[0] != '0',
    decreases n,
{
    decimal_denotes_its_number(n);
    if n >= 10 {
        decimals_are_numerals(n / 10);
        assert(decimal(n)[0] == decimal(n / 10)[0]);
    }
}

/// The decimal notation of `n`.
pub fn decimal_of(n: u64) -> (s: String)
    ensures
        s@ == decimal(n as nat),
    decreases n,
{
    let c = ((n % 10) as u8 + 48) as char;
    assert(c == digit_char((n % 10) as nat));
    if n < 10 {
        let mut s = String::new();
        s.push(c);
        assert(s@ =~= decimal(n as nat));
        s
    } else {
        let mut s = decimal_of(n / 10);
        s.push(c);
        s
    }
}

/// One more digit behind a string of digits makes its number ten times as large and adds the
/// digit; no digits denote zero.
pub proof fn digits_count_by_their_place(s: Seq<char>, d: nat)
    requires
        d < 10,
    ensures
        value(Seq::empty()) == 0,
        value(s.push((48 + d) as char)) == 10 * value(s) + d,
        is_digit((48 + d) as char),
{
    assert(s.push((48 + d) as char).drop_last() =~= s);
}

/// A string is read as the number that its digits denote, if it is made of digits and the
/// number fits; a plus sign in front makes no difference.
pub proof fn digits_are_read_as_their_number(s: Seq<char>)
    requires
        s.len() > 0,
        forall|i: int| 0 <= i < s.len() ==> '0' <= #[trigger] s[i] <= '9',
    ensures
        value(s) <= 0xffff_ffff_ffff_ffff ==> parsed_u64(s) == Some(value(s) as u64),
        value(s) > 0xffff_ffff_ffff_ffff ==> parsed_u64(s) is None,
        parsed_u64(seq!['+'] + s) == parsed_u64(s),
{
    assert(s[0] != '+');
    assert((seq!['+'] + s).skip(1) =~= s);
    assert(all_digits(s));
}

/// What is no digit, but for a plus sign in front of digits, makes a string no number.
pub proof fn other_characters_make_no_number(s: Seq<char>, i: int)
    requires
        0 <= i < s.len(),
        !('0' <= s[i] <= '9'),
        i > 0 || s[0] != '+' || s.len() == 1,
    ensures
        parsed_u64(s) is None,
        parsed_u64(Seq::empty()) is None,
{
    if s[0] == '+' {
        if i > 0 {
            assert(s.skip(1)[i - 1] == s[i]);
            assert(!is_digit(s.skip(1)[i - 1]));
        }
    } else {
        assert(!is_digit(s[i]));
    }
}

/// `pow10` is the power of ten.
pub proof fn pow10_is_a_power(n: nat)
    ensures
        pow10(n) == vstd::arithmetic::power::pow(10, n),
    decreases n,
{
    if n == 0 {
        vstd::arithmetic::power::lemma_pow0(10);
    } else {
        pow10_is_a_power((n - 1) as nat);
        reveal(vstd::arithmetic::power::pow);
    }
}

} // verus!
