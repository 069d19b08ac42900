//! The diff options: every setting is a link to the URL that view has, so each
//! state is addressable and the back button walks the settings.

use vstd::prelude::*;
use crate::route;
use crate::route::commit_url;
use crate::route::diff_view;
use crate::route::diff_view::{DiffMode, DiffView};

verus! {

/// The widths of context on offer: every one up to ten, then fives.
pub open spec fn ladder() -> Seq<usize> {
    seq![1usize, 2, 3, 4, 5, 6, 7, 8, 9, 10, 15, 20, 25, 30, 35, 40]
}

/// The widths of context on offer.
pub fn context_choices() -> (r: Vec<usize>)
    ensures
        r@ == ladder(),
{
    let r: Vec<usize> = vec![1usize, 2, 3, 4, 5, 6, 7, 8, 9, 10, 15, 20, 25, 30, 35, 40];
    assert(r@ =~= ladder());
    r
}

/// The first width on offer that is at least `context`; past the last, where
/// none is.
pub open spec fn rung(choices: Seq<usize>, context: int) -> int
    decreases choices.len(),
{
    if choices.len() == 0 || choices[0] >= context {
        0
    } else {
        1 + rung(choices.drop_first(), context)
    }
}

/// The width one step narrower, or wider, than `context`; none at the end of
/// the ladder.
pub open spec fn stepped(context: usize, wider: bool) -> Option<usize> {
    let at = rung(ladder(), context as int);
    let to = if wider {
        at + 1
    } else {
        at - 1
    };
    if at < ladder().len() && 0 <= to < ladder().len() {
        Some(ladder()[to])
    } else {
        None
    }
}

/// Step along the ladder, rather than by one line, so the wide end is a few
/// clicks away instead of thirty.
pub fn step_context(context: usize, wider: bool) -> (r: Option<usize>)
    ensures
        r == stepped(context, wider),
{
    let choices = context_choices();
    let mut at: usize = 0;
    proof {
        assert(choices@.skip(0) =~= choices@);
    }
    while at < choices.len() && choices[at] < context
        invariant
            at <= choices@.len(),
            rung(choices@, context as int) == at + rung(choices@.skip(at as int), context as int),
        decreases choices@.len() - at,
    {
        proof {
            assert(choices@.skip(at as int)[0] == choices@[at as int]);
            assert(choices@.skip(at as int).drop_first() =~= choices@.skip(at + 1));
        }
        at = at + 1;
    }
    proof {
        if at < choices@.len() {
            assert(choices@.skip(at as int)[0] == choices@[at as int]);
        }
        assert(rung(choices@, context as int) == at);
    }
    if at >= choices.len() {
        return None;
    }
    if wider {
        if at + 1 < choices.len() {
            Some(choices[at + 1])
        } else {
            None
        }
    } else if at > 0 {
        Some(choices[at - 1])
    } else {
        None
    }
}

/// One segment of a control.
pub enum Segment {
    /// The current setting. It is not a link: it is where the reader already
    /// is.
    On,
    /// A setting to go to.
    Link(String),
    /// A setting that would do nothing.
    Off,
}

/// What a segment is.
pub open spec fn segment_is(s: Segment, active: bool, href: Option<Seq<char>>) -> bool {
    match s {
        Segment::On => active,
        Segment::Link(url) => !active && href == Some(url@),
        Segment::Off => !active && href is None,
    }
}

fn seg(active: bool, href: Option<String>) -> (r: Segment)
    ensures
        segment_is(r, active, route::query::opt_text(href)),
{
    if active {
        Segment::On
    } else {
        match href {
            Some(url) => Segment::Link(url),
            None => Segment::Off,
        }
    }
}

/// The diff options, as links.
pub struct Controls {
    /// Lines of context.
    pub context: usize,
    pub narrower: Segment,
    pub wider: Segment,
    pub include_space: Segment,
    pub ignore_space: Segment,
    pub unified: Segment,
    pub stat_only: Segment,
    pub inline: Segment,
    pub side_by_side: Segment,
    /// Back to the defaults; none where that is where the reader is.
    pub reset: Option<String>,
}

/// The lines of context that a view shows.
pub open spec fn context_of(view: DiffView) -> usize {
    match view.context {
        Some(n) => n,
        None => diff_view::CONTEXT_DEFAULT,
    }
}

/// The URL of the view whose context is one step along the ladder.
pub open spec fn step_target(sha: Seq<char>, view: DiffView, wider: bool) -> Option<Seq<char>> {
    match stepped(context_of(view), wider) {
        Some(n) => Some(route::commit_hash(sha, (DiffView { context: Some(n), ..view }))),
        None => None,
    }
}

/// The URL, where there is something to choose.
pub open spec fn where_shown(shown: bool, url: Seq<char>) -> Option<Seq<char>> {
    if shown {
        Some(url)
    } else {
        None
    }
}

fn step_url(sha: &str, view: DiffView, wider: bool) -> (r: Option<String>)
    ensures
        route::query::opt_text(r) == step_target(sha@, view, wider),
{
    match step_context(view.context_lines(), wider) {
        Some(n) => Some(commit_url(sha, DiffView { context: Some(n), ..view })),
        None => None,
    }
}

/// The diff options of a view. `url_sha` is the commit as the URL names it, so
/// that a view that follows HEAD keeps following HEAD.
pub fn diff_controls(url_sha: &str, view: DiffView) -> (r: Controls)
    ensures
        ({
            let shown = view.mode == DiffMode::Unified;
            &&& r.context == context_of(view)
            &&& segment_is(r.narrower, false, step_target(url_sha@, view, false))
            &&& segment_is(r.wider, false, step_target(url_sha@, view, true))
            &&& segment_is(
                r.include_space,
                !view.ignore_whitespace,
                Some(
                    route::commit_hash(url_sha@, (DiffView { ignore_whitespace: false, ..view })),
                ),
            )
            &&& segment_is(
                r.ignore_space,
                view.ignore_whitespace,
                Some(route::commit_hash(url_sha@, (DiffView { ignore_whitespace: true, ..view }))),
            )
            &&& segment_is(
                r.unified,
                shown,
                Some(
                    route::commit_hash(url_sha@, (DiffView { mode: DiffMode::Unified, ..view })),
                ),
            )
            &&& segment_is(
                r.stat_only,
                !shown,
                Some(
                    route::commit_hash(url_sha@, (DiffView { mode: DiffMode::StatOnly, ..view })),
                ),
            )
            &&& segment_is(
                r.inline,
                shown && !view.side_by_side,
                where_shown(
                    shown,
                    route::commit_hash(url_sha@, (DiffView { side_by_side: false, ..view })),
                ),
            )
            &&& segment_is(
                r.side_by_side,
                shown && view.side_by_side,
                where_shown(
                    shown,
                    route::commit_hash(url_sha@, (DiffView { side_by_side: true, ..view })),
                ),
            )
            &&& match r.reset {
                Some(url) => view != diff_view::default_view() && url@ == route::commit_hash(
                    url_sha@,
                    diff_view::default_view(),
                ),
                None => view == diff_view::default_view(),
            }
        }),
{
    let shown = view.shows_diff();
    // With the diff hidden there is no layout to choose, so both sides go dead
    // rather than offering a setting that would change nothing on the page.
    let (inline, columns) = if shown {
        (
            Some(commit_url(url_sha, DiffView { side_by_side: false, ..view })),
            Some(commit_url(url_sha, DiffView { side_by_side: true, ..view })),
        )
    } else {
        (None, None)
    };
    let default: DiffView = Default::default();
    Controls {
        context: view.context_lines(),
        narrower: seg(false, step_url(url_sha, view, false)),
        wider: seg(false, step_url(url_sha, view, true)),
        include_space: seg(
            !view.ignore_whitespace,
            Some(commit_url(url_sha, DiffView { ignore_whitespace: false, ..view })),
        ),
        ignore_space: seg(
            view.ignore_whitespace,
            Some(commit_url(url_sha, DiffView { ignore_whitespace: true, ..view })),
        ),
        unified: seg(
            shown,
            Some(commit_url(url_sha, DiffView { mode: DiffMode::Unified, ..view })),
        ),
        stat_only: seg(
            !shown,
            Some(commit_url(url_sha, DiffView { mode: DiffMode::StatOnly, ..view })),
        ),
        inline: seg(shown && !view.side_by_side, inline),
        side_by_side: seg(shown && view.side_by_side, columns),
        reset: if view == default {
            None
        } else {
            Some(commit_url(url_sha, default))
        },
    }
}

/// Whatever width a view is at, a step leads to a width on offer, which a URL
/// may ask for; wider is wider, and narrower is narrower.
pub proof fn steps_stay_on_the_ladder(context: usize, wider: bool)
    ensures
        stepped(context, wider) matches Some(n) ==> {
            &&& ladder().contains(n)
            &&& 1 <= n <= diff_view::CONTEXT_MAX
            &&& wider ==> n > context
            &&& !wider ==> n < context
        },
{
    lemma_rung(context as int);
    let at = rung(ladder(), context as int);
    if let Some(n) = stepped(context, wider) {
        let to = if wider {
            at + 1
        } else {
            at - 1
        };
        assert(ladder()[to] == n);
    }
}

/// From a width on offer, a step wider and a step narrower undo each other.
pub proof fn steps_undo_each_other(at: int)
    requires
        0 <= at < ladder().len() - 1,
    ensures
        stepped(ladder()[at], true) == Some(ladder()[at + 1]),
        stepped(ladder()[at + 1], false) == Some(ladder()[at]),
{
    lemma_rung(ladder()[at] as int);
    lemma_rung(ladder()[at + 1] as int);
}

/// A rung is the first that is wide enough.
proof fn lemma_rung(context: int)
    ensures
        0 <= rung(ladder(), context) <= ladder().len(),
        forall|i: int| 0 <= i < rung(ladder(), context) ==> ladder()[i] < context,
        rung(ladder(), context) < ladder().len() ==> ladder()[rung(ladder(), context)] >= context,
{
    lemma_rung_of(ladder(), context);
}

proof fn lemma_rung_of(choices: Seq<usize>, context: int)
    ensures
        0 <= rung(choices, context) <= choices.len(),
        forall|i: int| 0 <= i < rung(choices, context) ==> choices[i] < context,
        rung(choices, context) < choices.len() ==> choices[rung(choices, context)] >= context,
    decreases choices.len(),
{
    if choices.len() > 0 && choices[0] < context {
        let rest = choices.drop_first();
        lemma_rung_of(rest, context);
        assert forall|i: int| 0 <= i < rung(choices, context) implies choices[i] < context by {
            if i > 0 {
                assert(rest[i - 1] == choices[i]);
            }
        }
    }
}

/// The widths on offer are one to ten, and by fives up to forty.
pub proof fn widths_are_fine_and_then_coarse(n: usize)
    ensures
        ladder().contains(n) <==> 1 <= n <= 10 || (10 < n <= 40 && n % 5 == 0),
        forall|i: int, j: int| 0 <= i < j < ladder().len() ==> ladder()[i] < ladder()[j],
{
    let l = ladder();
    assert(l[0] == 1 && l[1] == 2 && l[2] == 3 && l[3] == 4 && l[4] == 5 && l[5] == 6 && l[6] == 7
        && l[7] == 8 && l[8] == 9 && l[9] == 10 && l[10] == 15 && l[11] == 20 && l[12] == 25
        && l[13] == 30 && l[14] == 35 && l[15] == 40);
    if 10 < n <= 40 && n % 5 == 0 {
        assert(n == 15 || n == 20 || n == 25 || n == 30 || n == 35 || n == 40);
    }
}

/// From a width that is not on offer a narrower step goes to the next one below
/// it, and a wider one past the next one above it. A step is missing only at the
/// ends.
pub proof fn steps_go_to_neighbours(context: usize, k: int)
    requires
        0 <= k < ladder().len(),
    ensures
        match stepped(context, false) {
            Some(n) => n < context <= 40 && (ladder()[k] <= n || ladder()[k] >= context),
            None => context <= 1 || context > 40,
        },
        match stepped(context, true) {
            Some(n) => exists|m: int|
                {
                    &&& 0 <= m < ladder().len() - 1
                    &&& context <= #[trigger] ladder()[m]
                    &&& ladder()[m + 1] == n
                    &&& m > 0 ==> ladder()[m - 1] < context
                },
            None => context > 35,
        },
{
    let l = ladder();
    widths_are_fine_and_then_coarse(context);
    assert(l[0] == 1 && l[14] == 35 && l[15] == 40);
    lemma_rung_is(l, context as int);
    let at = rung(l, context as int);
    if at < l.len() {
        assert(l[at] >= context);
        if at > 0 {
            assert(l[at - 1] < context);
        }
        if k < at - 1 {
            assert(l[k] < l[at - 1]);
        } else if k > at {
            assert(l[at] < l[k]);
        }
        if at < 15 {
            assert(l[at] <= l[14]);
        }
        if at > 0 {
            assert(l[0] <= l[at - 1]);
        }
    }
}

proof fn lemma_rung_is(choices: Seq<usize>, context: int)
    ensures
        0 <= rung(choices, context) <= choices.len(),
        rung(choices, context) < choices.len() ==> choices[rung(choices, context)] >= context,
        forall|i: int| 0 <= i < rung(choices, context) ==> choices[i] < context,
    decreases choices.len(),
{
    if choices.len() > 0 && choices[0] < context {
        let rest = choices.drop_first();
        lemma_rung_is(rest, context);
        assert forall|i: int| 0 <= i < rung(choices, context) implies choices[i] < context by {
            if i > 0 {
                assert(rest[i - 1] == choices[i]);
            }
        }
    }
}

/// A step's link shows the same commit with the next width, and all else of the
/// view as it is.
pub proof fn steps_change_only_the_width(sha: Seq<char>, view: DiffView, wider: bool)
    requires
        view.side_by_side ==> view.mode == DiffMode::Unified,
    ensures
        ({
            let width = match view.context {
                Some(n) => n,
                None => 3usize,
            };
            match stepped(width, wider) {
                Some(n) => {
                    &&& step_target(sha, view, wider) is Some
                    &&& route::route_of(step_target(sha, view, wider)->0) == ({
                        let next = DiffView {
                            context: if n == 3 {
                                None
                            } else {
                                Some(n)
                            },
                            ..view
                        };
                        if sha.len() == 0 {
                            route::RouteModel::CommitHead(next)
                        } else {
                            route::RouteModel::Commit(sha, next)
                        }
                    })
                },
                None => step_target(sha, view, wider) is None,
            }
        }),
{
    let width = context_of(view);
    steps_stay_on_the_ladder(width, wider);
    match stepped(width, wider) {
        Some(n) => {
            let next = DiffView { context: Some(n), ..view };
            route::round_trip::diff_settings_come_back(sha, next);
        },
        None => {},
    }
}

/// A segment that is lit leads nowhere, one that is not leads where it is said to,
/// and is off where that is nowhere.
pub proof fn lit_segments_are_no_links(s: Segment, active: bool, href: Option<Seq<char>>)
    requires
        segment_is(s, active, href),
    ensures
        active <==> s is On,
        !active && href is None <==> s is Off,
        s matches Segment::Link(url) ==> !active && href == Some(url@),
{
}

} // verus!
