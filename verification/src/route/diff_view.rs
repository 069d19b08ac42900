//! The knobs on a commit's diff, as the `?dt=`/`?context=`/`?ignorews=`/
//! `?ss=` query carries them.

use vstd::prelude::*;
use crate::number;
use crate::number::{decimal_text, parse_usize};
use crate::route::query;
use crate::route::query::find_last_value;
use crate::text;
use crate::text::{concat, join_with, split_on, text_eq, without_prefix};

verus! {

/// How much of a commit's diff to show.
#[derive(Clone, Copy, PartialEq, Eq, Structural, Debug)]
pub enum DiffMode {
    /// The diff itself, under the diffstat.
    Unified,
    /// The diffstat alone, for reading which files a commit touched without
    /// paying for the diff.
    StatOnly,
}

/// The knobs on a commit's diff, as `?context=`, `?ignorews=`, `?dt=` and
/// `?ss=` carry them. The default is git's own default view, and the state in
/// which none of them appear in the URL.
#[derive(Clone, Copy, PartialEq, Eq, Structural, Debug)]
pub struct DiffView {
    /// Lines of context around each hunk. `None` is git's default of three.
    pub context: Option<usize>,
    /// Ignore whitespace-only changes (`ignorews=1`, git's `-w`).
    pub ignore_whitespace: bool,
    /// Which parts of the diff to render (`dt=`).
    pub mode: DiffMode,
    /// Lay the diff out in two columns (`ss=1`). Meaningless, and dropped from
    /// the URL, when the mode hides the diff.
    pub side_by_side: bool,
}

/// What a line-by-line comparison makes of whitespace.
#[derive(Clone, Copy, PartialEq, Eq, Structural, Debug)]
pub enum Whitespace {
    Significant,
    Ignore,
}

/// The settings in the form the diff machinery takes them.
#[derive(Clone, Copy, PartialEq, Eq, Structural, Debug)]
pub struct DiffOptions {
    pub context: usize,
    pub whitespace: Whitespace,
}

/// git's default, and the width that is left out of a URL.
pub const CONTEXT_DEFAULT: usize = 3;

/// The widest context a URL may ask for.
pub const CONTEXT_MAX: usize = 40;

impl Default for DiffMode {
    fn default() -> (r: Self)
        ensures
            r == DiffMode::Unified,
    {
        DiffMode::Unified
    }
}

impl Default for DiffView {
    fn default() -> (r: Self)
        ensures
            r == default_view(),
    {
        DiffView {
            context: None,
            ignore_whitespace: false,
            mode: DiffMode::Unified,
            side_by_side: false,
        }
    }
}

pub open spec fn default_view() -> DiffView {
    DiffView {
        context: None,
        ignore_whitespace: false,
        mode: DiffMode::Unified,
        side_by_side: false,
    }
}

/// `part` alone where `present`, nothing otherwise.
pub open spec fn when(present: bool, part: Seq<char>) -> Seq<Seq<char>> {
    if present {
        seq![part]
    } else {
        Seq::empty()
    }
}

/// A width that a URL spells out: one that is set, and not git's default.
pub open spec fn written_context(view: DiffView) -> Option<usize> {
    match view.context {
        Some(n) => if n != CONTEXT_DEFAULT {
            Some(n)
        } else {
            None
        },
        None => None,
    }
}

/// The parts of a view's query, in the order in which they are written.
pub open spec fn query_parts(view: DiffView) -> Seq<Seq<char>> {
    when(view.mode == DiffMode::StatOnly, "dt=2"@) + when(
        written_context(view) is Some,
        "context="@ + number::decimal(written_context(view)->0 as nat),
    ) + when(view.ignore_whitespace, "ignorews=1"@) + when(
        view.side_by_side && view.mode == DiffMode::Unified,
        "ss=1"@,
    )
}

/// A view's query, `?` included; empty at the default.
pub open spec fn query_text(view: DiffView) -> Seq<char> {
    if query_parts(view).len() == 0 {
        Seq::empty()
    } else {
        "?"@ + text::join(query_parts(view), "&"@)
    }
}

/// The width that `value` asks for, where a URL may ask for it.
pub open spec fn asked_context(value: Seq<char>) -> Option<usize> {
    match number::parse_unsigned(value, usize::MAX as int) {
        Some(n) => if 1 <= n <= CONTEXT_MAX {
            Some(n as usize)
        } else {
            None
        },
        None => None,
    }
}

/// Whether the parts ask for two columns: the last of `ss=` and `dt=1` says.
pub open spec fn asks_side_by_side(parts: Seq<Seq<char>>) -> bool
    decreases parts.len(),
{
    if parts.len() == 0 {
        false
    } else {
        match text::strip_prefix(parts.last(), "ss="@) {
            Some(v) => v == "1"@,
            None => parts.last() == "dt=1"@ || asks_side_by_side(parts.drop_last()),
        }
    }
}

/// What the parts ask to be shown: the last `dt=` other than `dt=1` says.
pub open spec fn asked_mode(parts: Seq<Seq<char>>) -> DiffMode
    decreases parts.len(),
{
    if parts.len() == 0 {
        DiffMode::Unified
    } else {
        match text::strip_prefix(parts.last(), "dt="@) {
            Some(v) => if v == "2"@ {
                DiffMode::StatOnly
            } else if v == "1"@ {
                asked_mode(parts.drop_last())
            } else {
                DiffMode::Unified
            },
            None => asked_mode(parts.drop_last()),
        }
    }
}

/// The view that the parts of a query ask for.
pub open spec fn asked_view(parts: Seq<Seq<char>>) -> DiffView {
    DiffView {
        context: match query::last_value(parts, "context="@) {
            Some(v) => asked_context(v),
            None => None,
        },
        ignore_whitespace: query::last_value(parts, "ignorews="@) == Some("1"@),
        mode: asked_mode(parts),
        side_by_side: asks_side_by_side(parts),
    }
}

impl DiffView {
    /// The context width to diff at, with the unset case resolved to git's.
    pub fn context_lines(self) -> (r: usize)
        ensures
            r == (match self.context {
                Some(n) => n,
                None => CONTEXT_DEFAULT,
            }),
    {
        match self.context {
            Some(n) => n,
            None => CONTEXT_DEFAULT,
        }
    }

    /// The same settings in the form the diff machinery takes them.
    pub fn diff_options(self) -> (r: DiffOptions)
        ensures
            r.context == (match self.context {
                Some(n) => n,
                None => CONTEXT_DEFAULT,
            }),
            r.whitespace == (if self.ignore_whitespace {
                Whitespace::Ignore
            } else {
                Whitespace::Significant
            }),
    {
        DiffOptions {
            context: self.context_lines(),
            whitespace: if self.ignore_whitespace {
                Whitespace::Ignore
            } else {
                Whitespace::Significant
            },
        }
    }

    /// Whether the diff body is rendered at all.
    pub fn shows_diff(self) -> (r: bool)
        ensures
            r == (self.mode == DiffMode::Unified),
    {
        self.mode == DiffMode::Unified
    }

    /// The query string for this view, `?` included, or empty when every
    /// setting is at its default.
    pub fn query(self) -> (r: String)
        ensures
            r@ == query_text(self),
    {
        let mut parts: Vec<String> = Vec::new();
        if self.mode == DiffMode::StatOnly {
            parts.push("dt=2".to_string());
        }
        assert(text::texts(parts@) =~= when(self.mode == DiffMode::StatOnly, "dt=2"@));
        match self.context {
            Some(n) => {
                if n != CONTEXT_DEFAULT {
                    parts.push(concat("context=", decimal_text(n as u64).as_str()));
                }
            },
            None => {},
        }
        assert(text::texts(parts@) =~= when(self.mode == DiffMode::StatOnly, "dt=2"@) + when(
            written_context(self) is Some,
            "context="@ + number::decimal(written_context(self)->0 as nat),
        ));
        if self.ignore_whitespace {
            parts.push("ignorews=1".to_string());
        }
        // A hidden diff has no layout, so the flag would only be a setting the
        // reader cannot see the effect of.
        if self.side_by_side && self.shows_diff() {
            parts.push("ss=1".to_string());
        }
        assert(text::texts(parts@) =~= query_parts(self));
        if parts.len() == 0 {
            String::new()
        } else {
            concat("?", join_with(&parts, "&").as_str())
        }
    }

    /// Read the settings out of a commit URL's query string.
    pub fn parse(query_string: &str) -> (r: Self)
        ensures
            r == asked_view(text::split(query_string@, '&')),
    {
        let parts = split_on(query_string, '&');
        let ghost all = text::texts(parts@);
        // Out-of-range and unparseable widths fall back to the default rather
        // than to an error page: a diff is still a diff.
        let context: Option<usize> = match find_last_value(&parts, "context=") {
            Some(v) => match parse_usize(v) {
                Some(n) => if 1 <= n && n <= CONTEXT_MAX {
                    Some(n)
                } else {
                    None
                },
                None => None,
            },
            None => None,
        };
        let ignore_whitespace = match find_last_value(&parts, "ignorews=") {
            Some(v) => text_eq(v, "1"),
            None => false,
        };
        let mut mode = DiffMode::Unified;
        let mut side_by_side = false;
        let n: usize = parts.len();
        let mut i: usize = 0;
        assert(all.take(0) =~= Seq::<Seq<char>>::empty());
        while i < n
            invariant
                n == parts@.len(),
                i <= n,
                all == text::texts(parts@),
                mode == asked_mode(all.take(i as int)),
                side_by_side == asks_side_by_side(all.take(i as int)),
            decreases n - i,
        {
            let part = parts[i].as_str();
            proof {
                assert(all.take(i + 1).drop_last() =~= all.take(i as int));
                assert(all.take(i + 1).last() == part@);
                lemma_dt_1(part@);
            }
            if let Some(v) = without_prefix(part, "ss=") {
                side_by_side = text_eq(v, "1");
            } else if let Some(v) = without_prefix(part, "dt=") {
                if text_eq(v, "1") {
                    side_by_side = true;
                } else if text_eq(v, "2") {
                    mode = DiffMode::StatOnly;
                } else {
                    mode = DiffMode::Unified;
                }
            }
            i = i + 1;
        }
        assert(all.take(n as int) =~= all);
        DiffView { context, ignore_whitespace, mode, side_by_side }
    }
}

/// `dt=1` is the one part whose `dt=` value is `1`, and no part has both keys.
proof fn lemma_dt_1(part: Seq<char>)
    ensures
        part == "dt=1"@ <==> text::strip_prefix(part, "dt="@) == Some("1"@),
        text::strip_prefix(part, "ss="@) is Some ==> text::strip_prefix(part, "dt="@) is None,
        "1"@ != "2"@,
{
    reveal_strlit("dt=1");
    reveal_strlit("dt=");
    reveal_strlit("ss=");
    reveal_strlit("1");
    reveal_strlit("2");
    assert("dt=1"@.skip(3) =~= "1"@);
    assert("dt=1"@.take(3) =~= "dt="@);
    if text::strip_prefix(part, "dt="@) == Some("1"@) {
        assert(part.skip(3) == "1"@);
        assert(part =~= "dt="@ + part.skip(3));
        assert(part =~= "dt=1"@);
    }
    if text::strip_prefix(part, "ss="@) is Some && text::strip_prefix(part, "dt="@) is Some {
        assert(part.subrange(0, 3)[0] == 's');
        assert(part.subrange(0, 3)[0] == 'd');
    }
    assert("1"@[0] != "2"@[0]);
}

/// The view that a URL can carry of `view`: an explicit width of three is the
/// default, a width no URL may ask for is dropped, and a hidden diff has no
/// layout.
pub open spec fn url_view(view: DiffView) -> DiffView {
    DiffView {
        context: match written_context(view) {
            Some(n) => if 1 <= n <= CONTEXT_MAX {
                Some(n)
            } else {
                None
            },
            None => None,
        },
        side_by_side: view.side_by_side && view.mode == DiffMode::Unified,
        ..view
    }
}

/// The settings that one more part adds to those of the parts before it.
proof fn lemma_view_push(parts: Seq<Seq<char>>, part: Seq<char>)
    ensures
        asked_mode(parts.push(part)) == (match text::strip_prefix(part, "dt="@) {
            Some(v) => if v == "2"@ {
                DiffMode::StatOnly
            } else if v == "1"@ {
                asked_mode(parts)
            } else {
                DiffMode::Unified
            },
            None => asked_mode(parts),
        }),
        asks_side_by_side(parts.push(part)) == (match text::strip_prefix(part, "ss="@) {
            Some(v) => v == "1"@,
            None => part == "dt=1"@ || asks_side_by_side(parts),
        }),
        query::last_value(parts.push(part), "context="@) == (match text::strip_prefix(
            part,
            "context="@,
        ) {
            Some(v) => Some(v),
            None => query::last_value(parts, "context="@),
        }),
        query::last_value(parts.push(part), "ignorews="@) == (match text::strip_prefix(
            part,
            "ignorews="@,
        ) {
            Some(v) => Some(v),
            None => query::last_value(parts, "ignorews="@),
        }),
{
    assert(parts.push(part).drop_last() =~= parts);
}

/// What each part of a written query says, and that it says nothing else.
proof fn lemma_written_parts(n: nat)
    ensures
        text::strip_prefix("dt=2"@, "dt="@) == Some("2"@),
        text::strip_prefix("dt=2"@, "ss="@) is None,
        text::strip_prefix("dt=2"@, "context="@) is None,
        text::strip_prefix("dt=2"@, "ignorews="@) is None,
        "dt=2"@ != "dt=1"@,
        ({
            let c = "context="@ + number::decimal(n);
            &&& text::strip_prefix(c, "dt="@) is None
            &&& text::strip_prefix(c, "ss="@) is None
            &&& text::strip_prefix(c, "context="@) == Some(number::decimal(n))
            &&& text::strip_prefix(c, "ignorews="@) is None
            &&& c != "dt=1"@
        }),
        text::strip_prefix("ignorews=1"@, "dt="@) is None,
        text::strip_prefix("ignorews=1"@, "ss="@) is None,
        text::strip_prefix("ignorews=1"@, "context="@) is None,
        text::strip_prefix("ignorews=1"@, "ignorews="@) == Some("1"@),
        "ignorews=1"@ != "dt=1"@,
        text::strip_prefix("ss=1"@, "dt="@) is None,
        text::strip_prefix("ss=1"@, "ss="@) == Some("1"@),
        text::strip_prefix("ss=1"@, "context="@) is None,
        text::strip_prefix("ss=1"@, "ignorews="@) is None,
        text::strip_prefix(Seq::<char>::empty(), "dt="@) is None,
        text::strip_prefix(Seq::<char>::empty(), "ss="@) is None,
        text::strip_prefix(Seq::<char>::empty(), "context="@) is None,
        text::strip_prefix(Seq::<char>::empty(), "ignorews="@) is None,
        Seq::<char>::empty() != "dt=1"@,
{
    reveal_strlit("dt=");
    reveal_strlit("ss=");
    reveal_strlit("context=");
    reveal_strlit("ignorews=");
    reveal_strlit("dt=1");
    reveal_strlit("dt=2");
    reveal_strlit("ss=1");
    reveal_strlit("ignorews=1");
    reveal_strlit("1");
    reveal_strlit("2");
    let c = "context="@ + number::decimal(n);
    assert("dt=2"@.skip(3) =~= "2"@);
    assert("ss=1"@.skip(3) =~= "1"@);
    assert("ignorews=1"@.skip(9) =~= "1"@);
    assert(c.skip(8) =~= number::decimal(n));
    assert("dt=2"@[3] != "dt=1"@[3]);
    assert(c[0] == 'c');
    assert forall|s: Seq<char>, p: Seq<char>|
        s.len() > 0 && p.len() > 0 && s[0] != p[0] implies text::strip_prefix(s, p) is None by {
        if p.is_prefix_of(s) {
            assert(s.subrange(0, p.len() as int)[0] == p[0]);
        }
    }
}

/// A view comes back out of its own query, as far as a URL carries it.
pub proof fn view_round_trips(view: DiffView)
    ensures
        query_text(view).len() == 0 ==> asked_view(text::split(Seq::empty(), '&')) == url_view(view),
        query_text(view).len() > 0 ==> query_text(view)[0] == '?' && asked_view(
            text::split(query_text(view).skip(1), '&'),
        ) == url_view(view),
{
    reveal_strlit("?");
    reveal_strlit("&");
    let n: nat = match written_context(view) {
        Some(n) => n as nat,
        None => 0,
    };
    lemma_written_parts(n);
    if written_context(view) is Some {
        number::decimal_text_parses_back(n, usize::MAX as int);
    }
    let p0 = Seq::<Seq<char>>::empty();
    let p1 = p0 + when(view.mode == DiffMode::StatOnly, "dt=2"@);
    let p2 = p1 + when(written_context(view) is Some, "context="@ + number::decimal(n));
    let p3 = p2 + when(view.ignore_whitespace, "ignorews=1"@);
    let p4 = p3 + when(view.side_by_side && view.mode == DiffMode::Unified, "ss=1"@);
    assert(p4 =~= query_parts(view));
    lemma_view_push(p0, "dt=2"@);
    lemma_view_push(p1, "context="@ + number::decimal(n));
    lemma_view_push(p2, "ignorews=1"@);
    lemma_view_push(p3, "ss=1"@);
    assert(p1 =~= p0 || p1 =~= p0.push("dt=2"@));
    assert(p2 =~= p1 || p2 =~= p1.push("context="@ + number::decimal(n)));
    assert(p3 =~= p2 || p3 =~= p2.push("ignorews=1"@));
    assert(p4 =~= p3 || p4 =~= p3.push("ss=1"@));
    assert(asked_view(p4) == url_view(view));
    if p4.len() == 0 {
        lemma_view_push(p0, Seq::empty());
        assert(text::split(Seq::<char>::empty(), '&') =~= p0.push(Seq::empty()));
    } else {
        assert("&"@ =~= seq!['&']);
        assert(query_text(view).skip(1) =~= text::join(p4, seq!['&']));
        number::lemma_decimal(n);
        assert forall|i: int| 0 <= i < p4.len() implies !(#[trigger] p4[i]).contains('&') by {
            lemma_written_parts_hold_no_ampersand(n);
            assert(p4[i] == "dt=2"@ || p4[i] == "context="@ + number::decimal(n) || p4[i]
                == "ignorews=1"@ || p4[i] == "ss=1"@);
        }
        text::splitting_a_join_gives_the_pieces_back(p4, '&');
    }
}

proof fn lemma_written_parts_hold_no_ampersand(n: nat)
    ensures
        !"dt=2"@.contains('&'),
        !("context="@ + number::decimal(n)).contains('&'),
        !"ignorews=1"@.contains('&'),
        !"ss=1"@.contains('&'),
{
    reveal_strlit("context=");
    reveal_strlit("dt=2");
    reveal_strlit("ss=1");
    reveal_strlit("ignorews=1");
    number::lemma_decimal(n);
    let c = "context="@ + number::decimal(n);
    if c.contains('&') {
        let k = c.index_of('&');
        if k >= 8 {
            assert(number::is_digit(number::decimal(n)[k - 8]));
        }
    }
}

/// The last parameter that says how a diff is to be shown wins, and one that says
/// nothing of that changes nothing.
pub proof fn later_parameters_win(parts: Seq<Seq<char>>, n: nat, other: Seq<char>)
    ensures
        1 <= n <= 40 ==> asked_view(parts.push("context="@ + number::decimal(n))) == (DiffView {
            context: Some(n as usize),
            ..asked_view(parts)
        }),
        n == 0 || 40 < n <= usize::MAX ==> asked_view(parts.push("context="@ + number::decimal(n)))
            == (DiffView { context: None, ..asked_view(parts) }),
        asked_view(parts.push("ignorews=1"@)) == (DiffView {
            ignore_whitespace: true,
            ..asked_view(parts)
        }),
        asked_view(parts.push("ss=1"@)) == (DiffView { side_by_side: true, ..asked_view(parts) }),
        asked_view(parts.push("dt=2"@)) == (DiffView { mode: DiffMode::StatOnly, ..asked_view(parts) }),
        asked_view(parts.push("dt=1"@)) == (DiffView { side_by_side: true, ..asked_view(parts) }),
        asked_view(parts.push("dt=0"@)) == (DiffView { mode: DiffMode::Unified, ..asked_view(parts) }),
        !"context="@.is_prefix_of(other) && !"ignorews="@.is_prefix_of(other)
            && !"ss="@.is_prefix_of(other) && !"dt="@.is_prefix_of(other) ==> asked_view(
            parts.push(other),
        ) == asked_view(parts),
{
    reveal_strlit("context=");
    reveal_strlit("ignorews=");
    reveal_strlit("ss=");
    reveal_strlit("dt=");
    reveal_strlit("ignorews=1");
    reveal_strlit("ss=1");
    reveal_strlit("dt=2");
    reveal_strlit("dt=1");
    reveal_strlit("dt=0");
    reveal_strlit("2");
    reveal_strlit("1");
    reveal_strlit("0");
    assert("2"@[0] == '2' && "1"@[0] == '1' && "0"@[0] == '0');
    assert("dt=2"@[3] == '2' && "dt=1"@[3] == '1' && "dt=0"@[3] == '0');
    assert("ss="@[0] == 's' && "dt="@[0] == 'd');
    let context = "context="@ + number::decimal(n);
    lemma_part(parts, context, "context="@, number::decimal(n));
    lemma_part(parts, "ignorews=1"@, "ignorews="@, "1"@);
    lemma_part(parts, "ss=1"@, "ss="@, "1"@);
    lemma_part(parts, "dt=2"@, "dt="@, "2"@);
    lemma_part(parts, "dt=1"@, "dt="@, "1"@);
    lemma_part(parts, "dt=0"@, "dt="@, "0"@);
    assert("ignorews=1"@ =~= "ignorews="@ + "1"@);
    assert("ss=1"@ =~= "ss="@ + "1"@);
    assert("dt=2"@ =~= "dt="@ + "2"@);
    assert("dt=1"@ =~= "dt="@ + "1"@);
    assert("dt=0"@ =~= "dt="@ + "0"@);
    if n <= usize::MAX {
        number::decimal_text_parses_back(n, usize::MAX as int);
    }
    assert(parts.push(other).drop_last() =~= parts);
    if !"dt="@.is_prefix_of(other) {
        assert("dt=1"@.subrange(0, 3) =~= "dt="@);
        assert(other != "dt=1"@);
    }
}

/// A parameter at the end is read by its own key and passed over by the others.
proof fn lemma_part(parts: Seq<Seq<char>>, part: Seq<char>, key: Seq<char>, value: Seq<char>)
    requires
        key == "context="@ || key == "ignorews="@ || key == "ss="@ || key == "dt="@,
    ensures
        part == key + value ==> {
            let more = parts.push(part);
            &&& more.drop_last() == parts
            &&& more.last() == part
            &&& text::strip_prefix(part, key) == Some(value)
            &&& key != "context="@ ==> text::strip_prefix(part, "context="@) is None
            &&& key != "ignorews="@ ==> text::strip_prefix(part, "ignorews="@) is None
            &&& key != "ss="@ ==> text::strip_prefix(part, "ss="@) is None
            &&& key != "dt="@ ==> text::strip_prefix(part, "dt="@) is None && part != "dt=1"@
        },
{
    reveal_strlit("context=");
    reveal_strlit("ignorews=");
    reveal_strlit("ss=");
    reveal_strlit("dt=");
    reveal_strlit("dt=1");
    let more = parts.push(part);
    assert(more.drop_last() =~= parts);
    assert("context="@[0] == 'c' && "ignorews="@[0] == 'i' && "ss="@[0] == 's' && "dt="@[0] == 'd'
        && "dt=1"@[0] == 'd');
    if part == key + value {
        assert(part.subrange(0, key.len() as int) =~= key);
        assert(part.skip(key.len() as int) =~= value);
        assert(part[0] == key[0]);
        if key != "context="@ {
            text::lemma_other_beginning("context="@, part);
        }
        if key != "ignorews="@ {
            text::lemma_other_beginning("ignorews="@, part);
        }
        if key != "ss="@ {
            text::lemma_other_beginning("ss="@, part);
        }
        if key != "dt="@ {
            text::lemma_other_beginning("dt="@, part);
        }
    }
}

/// A view that nothing is asked of is git's own: its width, all whitespace, the
/// whole diff, one line under the other.
pub proof fn diffs_are_shown_as_git_shows_them()
    ensures
        default_view().context is None,
        !default_view().ignore_whitespace,
        default_view().mode == DiffMode::Unified,
        !default_view().side_by_side,
{
}

} // verus!
