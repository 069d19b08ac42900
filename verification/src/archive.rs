//! Pacing a download that is written piece by piece: when what has gathered is
//! handed to the browser, and when the page is told how far it has got.

use vstd::prelude::*;
use crate::pace;
use crate::pace::Pace;
use crate::text::{concat, concat3};

verus! {

/// How much to gather before handing it to the browser.
///
/// Small enough that no single slice is perceptible, large enough that a big
/// archive isn't thousands of promises.
pub const FLUSH_BYTES: usize = 1024 * 1024;

/// The archive's content type, on the blob the browser hands back.
pub const GZIP_MIME: &'static str = "application/gzip";

/// What follows an entry that has been written.
#[derive(Clone, Copy, PartialEq, Eq, Debug)]
pub struct WriteStep {
    /// Hand what has gathered to the browser.
    pub flush: bool,
    /// Tell the page: how many are written, out of how many.
    pub report: Option<(usize, usize)>,
}

/// What follows the archive's entry number `written`, counted from zero.
///
/// A report comes only with a flush: in between nothing has gone to the
/// encoder. The clock is read when the flush is done.
pub fn after_entry(
    pending: usize,
    written: usize,
    total: usize,
    now: u64,
    pace: &mut Pace,
) -> (r: WriteStep)
    requires
        written < total,
    ensures
        r.flush == (pending >= FLUSH_BYTES),
        r.report == (if pending >= FLUSH_BYTES && pace::due_at(old(pace).last, now) {
            Some(((written + 1) as usize, total))
        } else {
            None::<(usize, usize)>
        }),
        final(pace).last == (if r.report is Some {
            now
        } else {
            old(pace).last
        }),
{
    let flush = pending >= FLUSH_BYTES;
    if flush && pace.due(now) {
        WriteStep { flush, report: Some((written + 1, total)) }
    } else {
        WriteStep { flush, report: None }
    }
}

/// Whether a piece is worth handing over: an empty one is not.
pub fn pushes(chunk: &[u8]) -> (r: bool)
    ensures
        r == (chunk@.len() > 0),
{
    chunk.len() > 0
}

/// A browser call that failed: what was being done, and how it went wrong.
pub fn browser_error(what: &str, detail: &str) -> (r: String)
    ensures
        r@ == "Failed to "@ + what@ + ": "@ + detail@,
{
    let head = concat3("Failed to ", what, ": ");
    concat(head.as_str(), detail)
}

} // verus!
