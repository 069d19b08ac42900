//! Unsigned numbers as decimal text.

use vstd::prelude::*;
use crate::text::{chars_of};

verus! {

/// The character for the digit `d`.
pub open spec fn digit_char(d: int) -> char {
    (48 + d) as char
}

/// `n` in decimal, without leading zeros.
pub open spec fn decimal(n: nat) -> Seq<char>
    decreases n,
{
    if n < 10 {
        seq![digit_char(n as int)]
    } else {
        decimal(n / 10).push(digit_char((n % 10) as int))
    }
}

pub open spec fn is_digit(c: char) -> bool {
    '0' <= c <= '9'
}

pub open spec fn all_digits(s: Seq<char>) -> bool {
    forall|i: int| 0 <= i < s.len() ==> is_digit(#[trigger] s[i])
}

/// The number that the digits `s` spell.
pub open spec fn digits_value(s: Seq<char>) -> int
    decreases s.len(),
{
    if s.len() == 0 {
        0
    } else {
        10 * digits_value(s.drop_last()) + (s.last() as int - 48)
    }
}

/// The number that `s` spells, where it is one or more digits and the number
/// is at most `max`.
pub open spec fn parse_digits(s: Seq<char>, max: int) -> Option<int> {
    if s.len() > 0 && all_digits(s) && digits_value(s) <= max {
        Some(digits_value(s))
    } else {
        None
    }
}

/// The number that `s` spells, at most `max`; a leading `+` is allowed.
pub open spec fn parse_unsigned(s: Seq<char>, max: int) -> Option<int> {
    if s.len() > 0 && s[0] == '+' {
        parse_digits(s.drop_first(), max)
    } else {
        parse_digits(s, max)
    }
}

fn push_decimal(n: u64, out: &mut String)
    ensures
        final(out)@ == old(out)@ + decimal(n as nat),
    decreases n,
{
    if n >= 10 {
        push_decimal(n / 10, out);
    }
    let d: u8 = (n % 10) as u8;
    let ghost mid = out@;
    out.push((48 + d) as char);
    assert(out@ =~= old(out)@ + decimal(n as nat));
}

/// `n` in decimal.
pub fn decimal_text(n: u64) -> (r: String)
    ensures
        r@ == decimal(n as nat),
{
    let mut r: String = String::new();
    push_decimal(n, &mut r);
    assert(r@ =~= decimal(n as nat));
    r
}

/// A prefix of a digit string spells no more than the whole.
proof fn lemma_value_prefix(s: Seq<char>, i: int)
    requires
        0 <= i <= s.len(),
        all_digits(s),
    ensures
        0 <= digits_value(s.take(i)) <= digits_value(s),
    decreases s.len(),
{
    if i == s.len() {
        assert(s.take(i) =~= s);
        if s.len() > 0 {
            lemma_value_prefix(s.drop_last(), s.len() - 1);
            assert(s.drop_last().take(s.len() - 1) =~= s.drop_last());
            assert(is_digit(s[s.len() - 1]));
        }
    } else {
        lemma_value_prefix(s.drop_last(), i);
        assert(s.drop_last().take(i) =~= s.take(i));
        assert(is_digit(s[s.len() - 1]));
    }
}

/// The value of the digits `v[from..]`, where they are digits only, at least
/// one, and the value is at most `max`.
fn digits_from(v: &Vec<char>, from: usize, max: u64) -> (r: Option<u64>)
    requires
        from <= v@.len(),
    ensures
        parse_digits(v@.skip(from as int), max as int) == (match r {
            Some(n) => Some(n as int),
            None => None::<int>,
        }),
{
    let ghost s = v@.skip(from as int);
    let n: usize = v.len();
    if from >= n {
        return None;
    }
    let mut i: usize = from;
    let mut value: u64 = 0;
    assert(s.take(0) =~= Seq::<char>::empty());
    while i < n
        invariant
            n == v@.len(),
            from <= i <= n,
            from < n,
            s == v@.skip(from as int),
            value == digits_value(s.take(i - from)),
            value <= max,
            forall|j: int| 0 <= j < i - from ==> is_digit(#[trigger] s[j]),
        decreases n - i,
    {
        let c: char = v[i];
        assert(s[i - from] == c);
        if c < '0' || c > '9' {
            assert(!is_digit(s[i - from]));
            return None;
        }
        proof {
            assert(s.take(i - from + 1).drop_last() =~= s.take(i - from));
        }
        let d: u64 = (c as u32 - 48) as u64;
        let next: u128 = (value as u128) * 10 + (d as u128);
        if next > max as u128 {
            proof {
                if all_digits(s) {
                    lemma_value_prefix(s, i - from + 1);
                }
            }
            return None;
        }
        value = next as u64;
        i = i + 1;
    }
    assert(s.take(n - from) =~= s);
    Some(value)
}

/// The number that `s` spells, at most `max`; a leading `+` is allowed.
fn parse_up_to(s: &str, max: u64) -> (r: Option<u64>)
    ensures
        parse_unsigned(s@, max as int) == (match r {
            Some(n) => Some(n as int),
            None => None::<int>,
        }),
{
    let v = chars_of(s);
    proof {
        assert(v@.skip(0) =~= s@);
        assert(v@.len() > 0 ==> v@.skip(1) =~= s@.drop_first());
    }
    if v.len() > 0 && v[0] == '+' {
        digits_from(&v, 1, max)
    } else {
        digits_from(&v, 0, max)
    }
}

/// The `u64` that `s` spells.
pub fn parse_u64(s: &str) -> (r: Option<u64>)
    ensures
        parse_unsigned(s@, u64::MAX as int) == (match r {
            Some(n) => Some(n as int),
            None => None::<int>,
        }),
{
    parse_up_to(s, u64::MAX)
}

/// The `usize` that `s` spells.
pub fn parse_usize(s: &str) -> (r: Option<usize>)
    ensures
        parse_unsigned(s@, usize::MAX as int) == (match r {
            Some(n) => Some(n as int),
            None => None::<int>,
        }),
{
    match parse_up_to(s, usize::MAX as u64) {
        Some(n) => Some(n as usize),
        None => None,
    }
}

/// The decimal text of a number is digits only, spells that number, and holds
/// none of the characters that are not digits.
pub proof fn lemma_decimal(n: nat)
    ensures
        decimal(n).len() > 0,
        all_digits(decimal(n)),
        digits_value(decimal(n)) == n,
    decreases n,
{
    if n < 10 {
        assert(digits_value(seq![digit_char(n as int)].drop_last()) == 0);
        assert(digits_value(decimal(n)) == n);
    } else {
        lemma_decimal(n / 10);
        let t = decimal(n / 10);
        assert(decimal(n).drop_last() =~= t);
        assert forall|i: int| 0 <= i < decimal(n).len() implies is_digit(
            #[trigger] decimal(n)[i],
        ) by {
            if i < t.len() {
                assert(is_digit(t[i]));
            }
        }
    }
}

/// Reading back the decimal text of a number gives the number.
pub proof fn decimal_text_parses_back(n: nat, max: int)
    requires
        n <= max,
    ensures
        parse_unsigned(decimal(n), max) == Some(n as int),
        parse_digits(decimal(n), max) == Some(n as int),
{
    lemma_decimal(n);
    assert(is_digit(decimal(n)[0]));
}

/// A number that parses is one, and at most the limit.
pub proof fn lemma_parse_range(s: Seq<char>, max: int)
    ensures
        parse_unsigned(s, max) matches Some(n) ==> 0 <= n <= max,
        parse_digits(s, max) matches Some(n) ==> 0 <= n <= max,
{
    if all_digits(s) {
        lemma_value_prefix(s, s.len() as int);
        assert(s.take(s.len() as int) =~= s);
    }
    if s.len() > 0 {
        let t = s.drop_first();
        if all_digits(t) {
            lemma_value_prefix(t, t.len() as int);
            assert(t.take(t.len() as int) =~= t);
        }
    }
}

/// A number is written without zeros in front.
pub proof fn numbers_have_no_leading_zeros(n: nat)
    ensures
        n == 0 ==> decimal(n) == seq!['0'],
        n > 0 ==> decimal(n)[0] != '0',
        n >= 10 ==> decimal(n).drop_last() == decimal(n / 10) && decimal(n).last() as int == '0' as int
            + n % 10,
        n < 10 ==> decimal(n).len() == 1 && decimal(n)[0] as int == '0' as int + n,
    decreases n,
{
    if n >= 10 {
        numbers_have_no_leading_zeros(n / 10);
        lemma_decimal(n / 10);
        assert(decimal(n).drop_last() =~= decimal(n / 10));
    } else {
        assert(decimal(n) =~= seq![digit_char(n as int)]);
    }
}

/// Digits are read from the left, however many there are and whatever the first
/// of them is; one sign may stand in front.
pub proof fn digits_are_read_from_the_left(s: Seq<char>, c: char, max: int)
    requires
        max >= 9,
    ensures
        parse_digits(Seq::empty(), max) is None,
        parse_digits(seq![c], max) == (if '0' <= c <= '9' {
            Some(c as int - '0' as int)
        } else {
            None
        }),
        s.len() > 0 ==> parse_digits(s.push(c), max) == (match parse_digits(s, max) {
            Some(v) => if '0' <= c <= '9' && 10 * v + (c as int - '0' as int) <= max {
                Some(10 * v + (c as int - '0' as int))
            } else {
                None
            },
            None => None,
        }),
        parse_unsigned(seq!['+'] + s, max) == parse_digits(s, max),
        s.len() > 0 && s[0] != '+' ==> parse_unsigned(s, max) == parse_digits(s, max),
{
    let one = seq![c];
    assert(one.drop_last() =~= Seq::empty());
    assert(digits_value(Seq::<char>::empty()) == 0);
    assert(digits_value(one) == c as int - 48);
    assert(all_digits(one) == is_digit(c)) by {
        assert(one[0] == c);
    }
    let t = s.push(c);
    assert(t.drop_last() =~= s);
    assert(all_digits(t) == (all_digits(s) && is_digit(c))) by {
        assert(t[s.len() as int] == c);
        if all_digits(t) {
            assert forall|i: int| 0 <= i < s.len() implies is_digit(#[trigger] s[i]) by {
                assert(t[i] == s[i]);
            }
        }
    }
    if all_digits(s) {
        lemma_digits_positive(s);
    }
    assert((seq!['+'] + s).drop_first() =~= s);
}

proof fn lemma_digits_positive(s: Seq<char>)
    requires
        all_digits(s),
    ensures
        digits_value(s) >= 0,
    decreases s.len(),
{
    if s.len() > 0 {
        assert(is_digit(s[s.len() - 1]));
        assert forall|i: int| 0 <= i < s.drop_last().len() implies is_digit(
            #[trigger] s.drop_last()[i],
        ) by {
            assert(s.drop_last()[i] == s[i]);
        }
        lemma_digits_positive(s.drop_last());
    }
}

} // verus!
