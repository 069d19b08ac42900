//! Selecting lines: the anchors that clicks write and pages read.

use vstd::prelude::*;
use crate::number;
use crate::number::{decimal_text, parse_usize};
use crate::route::anchor;
use crate::route::anchor::LineRange;
use crate::route::query;
use crate::text::concat;

verus! {

/// `url` with the anchor of the selected lines, where there are any.
pub open spec fn anchored_text(url: Seq<char>, lines: Option<LineRange>) -> Seq<char> {
    match lines {
        Some(range) => url + range.anchor_text(),
        None => url,
    }
}

/// `url` with the anchor of the selected lines, where there are any.
pub fn anchored(url: &str, lines: Option<LineRange>) -> (r: String)
    ensures
        r@ == anchored_text(url@, lines),
{
    match lines {
        Some(range) => concat(url, range.anchor().as_str()),
        None => url.to_string(),
    }
}

/// The id of a line's row, which the page is scrolled to once the lines that
/// begin with it are selected.
pub fn row_id(n: usize) -> (r: String)
    ensures
        r@ == "n"@ + number::decimal(n as nat),
{
    concat("n", decimal_text(n as u64).as_str())
}

/// The lines that a click on line `n` selects while shift is held. It extends
/// from the anchor the reader last set, not from whichever end of the range is
/// nearer, so that a second click can shrink a range as well as grow it.
pub open spec fn clicked_lines(lines: Option<LineRange>, n: usize) -> LineRange {
    match lines {
        Some(range) => anchor::spanning_range(range.start, n),
        None => LineRange { start: n, end: n },
    }
}

/// Where a click on a line number leads: nowhere of its own without shift, or
/// where the number does not read as one; with shift, to the extended
/// selection.
pub fn line_click(
    self_url: &str,
    lines: Option<LineRange>,
    shift: bool,
    data_n: Option<&str>,
) -> (r: Option<String>)
    ensures
        query::opt_text(r) == (match data_n {
            Some(s) => match number::parse_unsigned(s@, usize::MAX as int) {
                Some(n) => if shift {
                    Some(self_url@ + clicked_lines(lines, n as usize).anchor_text())
                } else {
                    None
                },
                None => None,
            },
            None => None,
        }),
{
    if !shift {
        return None;
    }
    match data_n {
        Some(s) => match parse_usize(s) {
            Some(n) => {
                let range = match lines {
                    Some(range) => LineRange::spanning(range.start, n),
                    None => LineRange::single(n),
                };
                Some(concat(self_url, range.anchor().as_str()))
            },
            None => None,
        },
        None => None,
    }
}

/// A shift-click selects the lines between the one that the selection began with
/// and the one that was clicked, both among them, and no others.
pub proof fn clicks_select_what_lies_between(lines: Option<LineRange>, n: usize, m: int)
    ensures
        ({
            let range = clicked_lines(lines, n);
            let from = match lines {
                Some(r) => r.start,
                None => n,
            };
            range.start <= m <= range.end <==> (from <= m <= n || n <= m <= from)
        }),
{
}

/// A selection goes along to another page of the file, and leads to that page.
pub proof fn selections_go_along(url: Seq<char>, range: LineRange)
    requires
        url.len() > 0,
        url[0] as u32 <= 0x7f,
        range.wf(),
    ensures
        anchor::selected_lines(anchored_text(url, Some(range))) == Some(range),
        anchor::route_part(anchored_text(url, Some(range))) == url,
        anchored_text(url, None) == url,
{
    anchor::line_anchor_round_trips(url, range);
}

} // verus!
