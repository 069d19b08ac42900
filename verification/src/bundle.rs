//! Pacing the writing of a git bundle.

use vstd::prelude::*;
use crate::archive::{WriteStep, FLUSH_BYTES};
use crate::pace;
use crate::pace::Pace;

verus! {

/// The bundle's content type.
pub const BUNDLE_MIME: &'static str = "application/x-git-bundle";

/// How many object fetches to keep in flight while writing.
pub const FETCH_AHEAD: usize = 48;

/// What follows an object, when `written` of them have been.
///
/// Reports come on the clock alone: a small repository's objects land in
/// bursts, and may never fill a piece.
pub fn after_object(
    pending: usize,
    written: usize,
    total: usize,
    now: u64,
    pace: &mut Pace,
) -> (r: WriteStep)
    ensures
        r.flush == (pending >= FLUSH_BYTES),
        r.report == (if pace::due_at(old(pace).last, now) {
            Some((written, total))
        } else {
            None::<(usize, usize)>
        }),
        final(pace).last == (if r.report is Some {
            now
        } else {
            old(pace).last
        }),
{
    let flush = pending >= FLUSH_BYTES;
    if pace.due(now) {
        WriteStep { flush, report: Some((written, total)) }
    } else {
        WriteStep { flush, report: None }
    }
}

} // verus!
