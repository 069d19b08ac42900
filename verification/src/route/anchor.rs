//! The `#n<A>[-n<B>]` line anchor a tree or blame URL may carry.

use vstd::prelude::*;
use crate::number;
use crate::number::{decimal_text, parse_usize};
use crate::text;
use crate::text::{chars_of, find_text, rfind_char, without_prefix};

verus! {

/// A selected run of lines in a blob, as named by the `#n<A>[-n<B>]` suffix on
/// a tree URL. Inclusive at both ends; a single line is a range whose ends are
/// equal.
///
/// Line numbers are 1-based, matching what the gutter shows. A range read from
/// a URL has `start <= end`: a hand-written `#n10-n5` names the same lines as
/// `#n5-n10`.
#[derive(Clone, Copy, PartialEq, Eq, Structural, Debug)]
pub struct LineRange {
    pub start: usize,
    pub end: usize,
}

impl LineRange {
    /// A range that a URL can name: real lines, in order.
    pub open spec fn wf(self) -> bool {
        1 <= self.start <= self.end
    }

    /// The suffix naming this range.
    pub open spec fn anchor_text(self) -> Seq<char> {
        if self.start == self.end {
            "#n"@ + number::decimal(self.start as nat)
        } else {
            "#n"@ + number::decimal(self.start as nat) + "-n"@ + number::decimal(self.end as nat)
        }
    }

    /// The range covering the single line `n`.
    pub fn single(n: usize) -> (r: Self)
        ensures
            r.start == n,
            r.end == n,
    {
        LineRange { start: n, end: n }
    }

    /// The range spanning `a` and `b`, in either order.
    pub fn spanning(a: usize, b: usize) -> (r: Self)
        ensures
            r == spanning_range(a, b),
            r.start <= r.end,
    {
        if a <= b {
            LineRange { start: a, end: b }
        } else {
            LineRange { start: b, end: a }
        }
    }

    /// Whether line `n` is selected.
    pub fn contains(self, n: usize) -> (r: bool)
        ensures
            r == (self.start <= n <= self.end),
    {
        self.start <= n && n <= self.end
    }

    /// The `#n…` suffix naming this range, as appended to a tree URL. A
    /// single-line range writes the short form.
    pub fn anchor(self) -> (r: String)
        ensures
            r@ == self.anchor_text(),
    {
        let mut out: String = "#n".to_string();
        out.append(decimal_text(self.start as u64).as_str());
        if self.start != self.end {
            out.append("-n");
            out.append(decimal_text(self.end as u64).as_str());
        }
        out
    }
}

pub open spec fn spanning_range(a: usize, b: usize) -> LineRange {
    LineRange { start: if a <= b { a } else { b }, end: if a <= b { b } else { a } }
}

/// The line number that `s` spells: digits only, and not zero.
pub open spec fn line_number(s: Seq<char>) -> Option<usize> {
    match number::parse_digits(s, usize::MAX as int) {
        Some(n) => if n > 0 {
            Some(n as usize)
        } else {
            None
        },
        None => None,
    }
}

/// The range that an anchor, its `#` included, names.
pub open spec fn anchor_range(s: Seq<char>) -> Option<LineRange> {
    match text::strip_prefix(s, "#n"@) {
        None => None,
        Some(body) => match text::find(body, "-n"@) {
            None => match line_number(body) {
                Some(n) => Some(LineRange { start: n, end: n }),
                None => None,
            },
            Some(i) => match (line_number(body.take(i)), line_number(body.skip(i + 2))) {
                (Some(a), Some(b)) => Some(spanning_range(a, b)),
                _ => None,
            },
        },
    }
}

/// The position of the last `#` in `hash` other than the fragment's own, where
/// there is one.
pub open spec fn anchor_position(hash: Seq<char>) -> Option<int> {
    let i = text::last_index(hash, '#');
    if i >= 1 && hash[0] as u32 <= 0x7f {
        Some(i)
    } else {
        None
    }
}

/// The range that the anchor at the end of `hash` selects.
pub open spec fn selected_lines(hash: Seq<char>) -> Option<LineRange> {
    match anchor_position(hash) {
        Some(i) => anchor_range(hash.skip(i)),
        None => None,
    }
}

/// `hash` without its line anchor.
pub open spec fn route_part(hash: Seq<char>) -> Seq<char> {
    if selected_lines(hash) is Some {
        hash.take(text::last_index(hash, '#'))
    } else {
        hash
    }
}

/// Split a trailing `#n<A>[-n<B>]` line anchor off `hash`, returning the route
/// part and the range it named.
pub fn split_line_anchor(hash: &str) -> (r: (&str, Option<LineRange>))
    ensures
        r.0@ == route_part(hash@),
        r.1 == selected_lines(hash@),
{
    let n: usize = hash.unicode_len();
    if n == 0 {
        return (hash, None);
    }
    match rfind_char(hash, '#') {
        None => (hash, None),
        Some(i) => {
            if i == 0 || hash.get_char(0) as u32 > 0x7f {
                return (hash, None);
            }
            proof {
                text::lemma_last_index(hash@, '#');
                assert(hash@.subrange(i as int, n as int) =~= hash@.skip(i as int));
                assert(hash@.subrange(0, i as int) =~= hash@.take(i as int));
            }
            match parse_line_anchor(hash.substring_char(i, n)) {
                Some(range) => (hash.substring_char(0, i), Some(range)),
                None => (hash, None),
            }
        },
    }
}

/// Parse `#n<A>` or `#n<A>-n<B>` into the range it names, or `None` if `s` is
/// not one of those.
pub fn parse_line_anchor(s: &str) -> (r: Option<LineRange>)
    ensures
        r == anchor_range(s@),
        r matches Some(range) ==> range.wf(),
{
    let body = match without_prefix(s, "#n") {
        Some(body) => body,
        None => {
            return None;
        },
    };
    match find_text(body, "-n") {
        None => match parse_line_number(body) {
            Some(n) => Some(LineRange::single(n)),
            None => None,
        },
        Some(i) => {
            let n: usize = body.unicode_len();
            proof {
                text::lemma_find(body@, "-n"@);
                reveal_strlit("-n");
                assert(body@.subrange(0, i as int) =~= body@.take(i as int));
                assert(body@.subrange(i + 2, n as int) =~= body@.skip(i + 2));
            }
            let a = parse_line_number(body.substring_char(0, i));
            let b = parse_line_number(body.substring_char(i + 2, n));
            match (a, b) {
                (Some(a), Some(b)) => Some(LineRange::spanning(a, b)),
                _ => None,
            }
        },
    }
}

/// The line number that `s` spells: digits only, and not zero.
pub fn parse_line_number(s: &str) -> (r: Option<usize>)
    ensures
        r == line_number(s@),
{
    let v = chars_of(s);
    if v.len() > 0 && v[0] == '+' {
        assert(!number::is_digit(s@[0]));
        return None;
    }
    match parse_usize(s) {
        Some(n) => if n > 0 {
            Some(n)
        } else {
            None
        },
        None => None,
    }
}

/// Digits spell no hyphen.
proof fn lemma_digits_hold_no_hyphen(s: Seq<char>)
    requires
        number::all_digits(s),
    ensures
        text::find(s, "-n"@) is None,
{
    reveal_strlit("-n");
    text::lemma_find(s, "-n"@);
    match text::find(s, "-n"@) {
        Some(i) => {
            assert(s.skip(i)[0] == "-n"@[0]);
            assert(number::is_digit(s[i]));
        },
        None => {},
    }
}

/// An anchor reads back as the range it was written for.
pub proof fn lemma_anchor_reads_back(range: LineRange)
    requires
        range.wf(),
    ensures
        anchor_range(range.anchor_text()) == Some(range),
        range.anchor_text().len() > 2,
        range.anchor_text()[0] == '#',
        forall|i: int| 0 < i < range.anchor_text().len() ==> range.anchor_text()[i] != '#',
{
    reveal_strlit("#n");
    reveal_strlit("-n");
    let a = number::decimal(range.start as nat);
    let b = number::decimal(range.end as nat);
    let whole = range.anchor_text();
    let body = whole.skip(2);
    number::lemma_decimal(range.start as nat);
    number::lemma_decimal(range.end as nat);
    number::decimal_text_parses_back(range.start as nat, usize::MAX as int);
    number::decimal_text_parses_back(range.end as nat, usize::MAX as int);
    assert("#n"@.is_prefix_of(whole));
    if range.start == range.end {
        assert(body =~= a);
        lemma_digits_hold_no_hyphen(a);
        assert forall|i: int| 0 < i < whole.len() implies whole[i] != '#' by {
            if i >= 2 {
                assert(number::is_digit(a[i - 2]));
            }
        }
    } else {
        assert(body =~= a + "-n"@ + b);
        let n = a.len() as int;
        text::lemma_find(body, "-n"@);
        assert("-n"@.is_prefix_of(body.skip(n)));
        match text::find(body, "-n"@) {
            None => {},
            Some(i) => {
                assert(body.skip(i)[0] == "-n"@[0]);
                if i < n {
                    assert(number::is_digit(a[i]));
                    assert(body[i] == a[i]);
                }
                if i > n {
                    assert(!"-n"@.is_prefix_of(body.skip(n)));
                }
            },
        }
        assert(body.take(n) =~= a);
        assert(body.skip(n + 2) =~= b);
        assert forall|i: int| 0 < i < whole.len() implies whole[i] != '#' by {
            if 2 <= i < n + 2 {
                assert(number::is_digit(a[i - 2]));
            } else if i >= n + 4 {
                assert(number::is_digit(b[i - n - 4]));
            }
        }
    }
}

/// Appending a range's anchor to a hash and splitting it off again gives the
/// hash and the range back.
pub proof fn line_anchor_round_trips(hash: Seq<char>, range: LineRange)
    requires
        hash.len() > 0,
        hash[0] as u32 <= 0x7f,
        range.wf(),
    ensures
        route_part(hash + range.anchor_text()) == hash,
        selected_lines(hash + range.anchor_text()) == Some(range),
{
    lemma_anchor_reads_back(range);
    let whole = hash + range.anchor_text();
    let n = hash.len() as int;
    text::lemma_last_index(whole, '#');
    assert(whole[n] == '#');
    assert forall|j: int| n < j < whole.len() implies whole[j] != '#' by {
        assert(whole[j] == range.anchor_text()[j - n]);
    }
    assert(text::last_index(whole, '#') == n);
    assert(whole.skip(n) =~= range.anchor_text());
    assert(whole.take(n) =~= hash);
}

/// The lines a hash selects are real lines, in order.
pub proof fn selected_lines_are_in_order(hash: Seq<char>)
    ensures
        selected_lines(hash) matches Some(range) ==> range.wf(),
{
}

/// A range that is written backwards selects the same lines.
pub proof fn backward_ranges_select_the_same_lines(a: nat, b: nat)
    requires
        1 <= a < b <= usize::MAX,
    ensures
        anchor_range(seq!['#', 'n'] + number::decimal(b) + seq!['-', 'n'] + number::decimal(a))
            == Some(LineRange { start: a as usize, end: b as usize }),
        anchor_range(seq!['#', 'n'] + number::decimal(a) + seq!['-', 'n'] + number::decimal(b))
            == Some(LineRange { start: a as usize, end: b as usize }),
        anchor_range(seq!['#', 'n'] + number::decimal(a)) == Some(
            LineRange { start: a as usize, end: a as usize },
        ),
{
    lemma_two_lines(a, b);
    lemma_two_lines(b, a);
    lemma_one_line(a);
}

proof fn lemma_two_lines(a: nat, b: nat)
    requires
        1 <= a <= usize::MAX,
        1 <= b <= usize::MAX,
    ensures
        anchor_range(seq!['#', 'n'] + number::decimal(a) + seq!['-', 'n'] + number::decimal(b))
            == Some(spanning_range(a as usize, b as usize)),
{
    reveal_strlit("#n");
    reveal_strlit("-n");
    let front = number::decimal(a);
    let back = number::decimal(b);
    let mark = seq!['-', 'n'];
    let body = front + mark + back;
    let s = seq!['#', 'n'] + front + mark + back;
    assert("#n"@ =~= seq!['#', 'n']);
    assert("-n"@ =~= mark);
    assert(s.subrange(0, 2) =~= "#n"@);
    assert(s.skip(2) =~= body);
    number::decimal_text_parses_back(a, usize::MAX as int);
    number::decimal_text_parses_back(b, usize::MAX as int);
    number::lemma_decimal(a);
    lemma_mark_behind_digits(front, back);
    assert(body.take(front.len() as int) =~= front);
    assert(body.skip(front.len() as int + 2) =~= back);
}

proof fn lemma_mark_behind_digits(front: Seq<char>, back: Seq<char>)
    requires
        number::all_digits(front),
    ensures
        text::find(front + seq!['-', 'n'] + back, seq!['-', 'n']) == Some(front.len() as int),
    decreases front.len(),
{
    let mark = seq!['-', 'n'];
    let s = front + mark + back;
    if front.len() == 0 {
        assert(s.subrange(0, 2) =~= mark);
    } else {
        let rest = front.drop_first();
        assert(number::is_digit(front[0]));
        assert forall|i: int| 0 <= i < rest.len() implies number::is_digit(#[trigger] rest[i]) by {
            assert(rest[i] == front[i + 1]);
        }
        text::lemma_other_beginning(mark, s);
        assert(s.drop_first() =~= rest + mark + back);
        lemma_mark_behind_digits(rest, back);
    }
}

proof fn lemma_one_line(a: nat)
    requires
        1 <= a <= usize::MAX,
    ensures
        anchor_range(seq!['#', 'n'] + number::decimal(a)) == Some(
            LineRange { start: a as usize, end: a as usize },
        ),
{
    reveal_strlit("#n");
    let range = LineRange { start: a as usize, end: a as usize };
    lemma_anchor_reads_back(range);
    assert("#n"@ =~= seq!['#', 'n']);
}

/// A hash without a second `#`, or with one that no line number follows, selects
/// nothing and is a route as it stands.
pub proof fn other_hashes_select_nothing(route: Seq<char>, rest: Seq<char>)
    requires
        !rest.contains('#'),
    ensures
        selected_lines(seq!['#'] + rest) is None,
        route_part(seq!['#'] + rest) == seq!['#'] + rest,
        rest.len() == 0 || rest[0] != 'n' ==> selected_lines(route + seq!['#'] + rest) is None
            && route_part(route + seq!['#'] + rest) == route + seq!['#'] + rest,
{
    let a = seq!['#'] + rest;
    let b = route + seq!['#'] + rest;
    let n = route.len() as int;
    text::lemma_last_index(a, '#');
    text::lemma_last_index(b, '#');
    let i = text::last_index(a, '#');
    if i > 0 {
        assert(a[i] == rest[i - 1]);
        assert(rest.contains(rest[i - 1]));
    }
    assert(b[n] == '#');
    let k = text::last_index(b, '#');
    if k > n {
        assert(b[k] == rest[k - n - 1]);
        assert(rest.contains(rest[k - n - 1]));
    }
    assert(k == n);
    assert(b.skip(n) =~= a);
    reveal_strlit("#n");
    text::lemma_prefix("#n"@, a);
    assert("#n"@[1] == 'n');
    if rest.len() > 0 {
        assert(a[1] == rest[0]);
    }
}

} // verus!
