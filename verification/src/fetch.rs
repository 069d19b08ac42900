//! Reading files over HTTP: what to ask for, what a response means, and the
//! running totals shown while a page loads.

use vstd::prelude::*;
use crate::error::{FetchError, FetchFailure};
use crate::number;
use crate::number::{decimal_text, parse_u64};
use crate::route::query;
use crate::text;
use crate::text::{
    contains_char, find_text, has_suffix, split_once, text_eq, trimmed, without_prefix,
};
use crate::utf8;
use crate::utf8::checked_text;

verus! {

/// What is kept for the length of one load: the totals, whether anyone is
/// watching them, and the files worth reading only once.
pub struct Session {
    pub requests: u32,
    pub bytes: u64,
    pub cached: u64,
    /// Whether a progress callback is registered.
    pub watched: bool,
    /// Whether the console has been told that the server ignores `Range`.
    pub warned: bool,
    /// The files read whole this session, by URL. The last of a URL counts.
    pub files: Vec<(String, Vec<u8>)>,
}

/// The files that a list of them holds.
pub open spec fn files_by_url(files: Seq<(String, Vec<u8>)>) -> Map<Seq<char>, Seq<u8>>
    decreases files.len(),
{
    if files.len() == 0 {
        Map::empty()
    } else {
        files_by_url(files.drop_last()).insert(files.last().0@, files.last().1@)
    }
}

impl Session {
    /// A session that nothing has been read in and nobody is watching.
    pub fn new() -> (r: Self)
        ensures
            r.totals() == (0u32, 0u64, 0u64),
            !r.watched,
            !r.warned,
            files_by_url(r.files@) == Map::<Seq<char>, Seq<u8>>::empty(),
    {
        Session {
            requests: 0,
            bytes: 0,
            cached: 0,
            watched: false,
            warned: false,
            files: Vec::new(),
        }
    }

    /// The totals: requests, bytes received, bytes served from a cache.
    pub open spec fn totals(self) -> (u32, u64, u64) {
        (self.requests, self.bytes, self.cached)
    }

    /// Whether the totals can take this much more.
    pub open spec fn has_room(self, requests: int, bytes: int, cached: int) -> bool {
        &&& self.requests + requests <= u32::MAX
        &&& self.bytes + bytes <= u64::MAX
        &&& self.cached + cached <= u64::MAX
    }

    /// Whether the totals can take this much more.
    pub fn can_count(&self, requests: u32, bytes: u64, cached: u64) -> (r: bool)
        ensures
            r == self.has_room(requests as int, bytes as int, cached as int),
    {
        requests <= u32::MAX - self.requests && bytes <= u64::MAX - self.bytes && cached <= u64::MAX
            - self.cached
    }

    /// The session after counting this much more.
    pub open spec fn counted(self, requests: int, bytes: int, cached: int) -> Session {
        Session {
            requests: (self.requests + requests) as u32,
            bytes: (self.bytes + bytes) as u64,
            cached: (self.cached + cached) as u64,
            ..self
        }
    }

    /// What a watcher is told: the totals, where there is one.
    pub open spec fn report(self) -> Option<(u32, u64, u64)> {
        if self.watched {
            Some(self.totals())
        } else {
            None
        }
    }
}

/// Reset the totals, forget what was read, and begin to be watched.
pub fn reset_and_watch(session: &mut Session)
    ensures
        final(session).totals() == (0u32, 0u64, 0u64),
        final(session).watched,
        !final(session).warned,
        files_by_url(final(session).files@) == Map::<Seq<char>, Seq<u8>>::empty(),
{
    session.files = Vec::new();
    session.requests = 0;
    session.bytes = 0;
    session.cached = 0;
    session.warned = false;
    session.watched = true;
}

/// The totals: requests, bytes received, bytes served from a cache.
pub fn fetch_stats(session: &Session) -> (r: (u32, u64, u64))
    ensures
        r == session.totals(),
{
    (session.requests, session.bytes, session.cached)
}

/// Stop being watched, as when the component showing the totals unmounts.
pub fn clear_watch(session: &mut Session)
    ensures
        *final(session) == (Session { watched: false, ..*old(session) }),
{
    session.watched = false;
}

/// Count a cache hit, and say what to tell the watcher.
pub fn record_cache_hit(session: &mut Session, bytes: u64) -> (r: Option<(u32, u64, u64)>)
    requires
        old(session).has_room(0, 0, bytes as int),
    ensures
        *final(session) == old(session).counted(0, 0, bytes as int),
        r == final(session).report(),
{
    fire(session, 0, 0, bytes)
}

/// Count requests and the bytes they brought, and say what to tell the watcher.
pub fn fire_progress(session: &mut Session, req_delta: u32, byte_delta: u64) -> (r: Option<
    (u32, u64, u64),
>)
    requires
        old(session).has_room(req_delta as int, byte_delta as int, 0),
    ensures
        *final(session) == old(session).counted(req_delta as int, byte_delta as int, 0),
        r == final(session).report(),
{
    fire(session, req_delta, byte_delta, 0)
}

/// Add to the totals, and say what to tell the watcher.
pub fn fire(session: &mut Session, req_delta: u32, byte_delta: u64, cache_delta: u64) -> (r: Option<
    (u32, u64, u64),
>)
    requires
        old(session).has_room(req_delta as int, byte_delta as int, cache_delta as int),
    ensures
        *final(session) == old(session).counted(
            req_delta as int,
            byte_delta as int,
            cache_delta as int,
        ),
        r == final(session).report(),
{
    session.requests = session.requests + req_delta;
    session.bytes = session.bytes + byte_delta;
    session.cached = session.cached + cache_delta;
    if session.watched {
        Some((session.requests, session.bytes, session.cached))
    } else {
        None
    }
}

/// The files worth keeping for the session: large, and stable while it lasts.
pub open spec fn session_cacheable(url: Seq<char>) -> bool {
    "/packed-refs"@.is_suffix_of(url)
}

/// Whether a file is worth keeping for the session.
pub fn is_session_cacheable(url: &str) -> (r: bool)
    ensures
        r == session_cacheable(url@),
{
    has_suffix(url, "/packed-refs")
}

/// A URL without its query and fragment.
pub open spec fn bare_url(url: Seq<char>) -> Seq<char> {
    text::before(text::before(url, '?'), '#')
}

/// Whether a URL names metadata that is rewritten as the repository changes.
pub open spec fn volatile_metadata(url: Seq<char>) -> bool {
    let url = bare_url(url);
    "/HEAD"@.is_suffix_of(url) || "/packed-refs"@.is_suffix_of(url) || "/info/refs"@.is_suffix_of(
        url,
    ) || "/objects/info/packs"@.is_suffix_of(url) || text::find(url, "/refs/"@) is Some
}

/// Mutable dumb-HTTP metadata: small files that are rewritten as the repo
/// changes (refs move, `update-server-info` regenerates the manifests). Unlike
/// content-addressed objects and packs, these must not be served stale from
/// the browser's HTTP cache, and they are tiny, so revalidating them on every
/// load is cheap.
pub fn is_volatile_metadata(url: &str) -> (r: bool)
    ensures
        r == volatile_metadata(url@),
{
    let url = match split_once(url, '?') {
        Some((head, _)) => head,
        None => url,
    };
    let url = match split_once(url, '#') {
        Some((head, _)) => head,
        None => url,
    };
    has_suffix(url, "/HEAD") || has_suffix(url, "/packed-refs") || has_suffix(url, "/info/refs")
        || has_suffix(url, "/objects/info/packs") || find_text(url, "/refs/").is_some()
}

/// What to do with a response, decided from its status code and whether a
/// `Range` header was sent.
#[derive(Debug, Clone, Copy, PartialEq, Eq, Structural)]
pub enum ResponseAction {
    /// Success (200 for a whole-file read, 206 for a range): the body *is* the
    /// bytes asked for.
    Body,
    /// A range was asked for and 200 came back: the server ignored `Range` and
    /// sent the whole entity, so the window has to be cut out locally.
    SliceRange,
    /// Report a zero-length read so the caller sees EOF.
    Eof,
    /// The file does not exist.
    NotFound,
    /// Anything else. The body is an error page, not repository data.
    HttpError,
}

/// What a response with this status means.
pub open spec fn action_for(status: u16, range_requested: bool) -> ResponseAction {
    if status == 404 {
        ResponseAction::NotFound
    } else if status == 416 {
        ResponseAction::Eof
    } else if status == 200 && range_requested {
        ResponseAction::SliceRange
    } else if 200 <= status <= 299 {
        ResponseAction::Body
    } else {
        ResponseAction::HttpError
    }
}

/// What a response with this status means.
///
/// A range that starts at or past the end is answered with 416, and is a
/// zero-length read rather than an error. A server or proxy is allowed to
/// ignore `Range`, and some do. A redirect that reaches here was not followed,
/// so its body is not the file.
pub fn classify(status: u16, range_requested: bool) -> (r: ResponseAction)
    ensures
        r == action_for(status, range_requested),
{
    if status == 404 {
        ResponseAction::NotFound
    } else if status == 416 {
        ResponseAction::Eof
    } else if status == 200 && range_requested {
        ResponseAction::SliceRange
    } else if 200 <= status && status <= 299 {
        ResponseAction::Body
    } else {
        ResponseAction::HttpError
    }
}

/// The start, and the end where there is one, that a range header names.
pub open spec fn byte_range(header: Seq<char>) -> Option<(int, Option<int>)> {
    match text::strip_prefix(text::trim_space(header), "bytes="@) {
        None => None,
        Some(spec) => if spec.contains(',') || !spec.contains('-') {
            None
        } else {
            let start = number::parse_unsigned(
                text::trim_space(text::before(spec, '-')),
                u64::MAX as int,
            );
            let end_text = text::trim_space(text::after(spec, '-'));
            let end = number::parse_unsigned(end_text, u64::MAX as int);
            if start is None {
                None
            } else if end_text.len() == 0 {
                Some((start->0, None))
            } else if end is None || end->0 < start->0 {
                None
            } else {
                Some((start->0, end))
            }
        },
    }
}

/// Parse a single byte range spec (`bytes=START-END`, `END` inclusive and
/// optional) into `(start, Some(end_inclusive))`.
///
/// Multi-range and suffix (`bytes=-500`) specs return `None` rather than being
/// guessed at, because honouring them wrongly is exactly the silent corruption
/// this parsing exists to prevent.
pub fn parse_byte_range(header: &str) -> (r: Option<(u64, Option<u64>)>)
    ensures
        byte_range(header@) == (match r {
            None => None,
            Some((start, None)) => Some((start as int, None::<int>)),
            Some((start, Some(end))) => Some((start as int, Some(end as int))),
        }),
{
    let spec_text = match without_prefix(trimmed(header), "bytes=") {
        Some(s) => s,
        None => {
            return None;
        },
    };
    if contains_char(spec_text, ',') {
        return None;
    }
    let (start, end) = match split_once(spec_text, '-') {
        Some(pair) => pair,
        None => {
            return None;
        },
    };
    let start: u64 = match parse_u64(trimmed(start)) {
        Some(n) => n,
        None => {
            return None;
        },
    };
    let end = trimmed(end);
    if end.is_empty() {
        return Some((start, None));
    }
    match parse_u64(end) {
        None => None,
        Some(end) => if end < start {
            None
        } else {
            Some((start, Some(end)))
        },
    }
}

/// The bytes of `body` from `start` to `end`, as far as there are any.
pub open spec fn window(body: Seq<u8>, start: int, end: Option<int>) -> Seq<u8> {
    if start >= body.len() {
        Seq::empty()
    } else {
        match end {
            None => body.skip(start),
            Some(end) => if end + 1 <= body.len() {
                body.subrange(start, end + 1)
            } else {
                body.skip(start)
            },
        }
    }
}

/// The window of `body` that a range header asks for; nothing for a header
/// that cannot be honoured, or for a start past what can be addressed.
pub open spec fn sliced(body: Seq<u8>, header: Seq<char>) -> Option<Seq<u8>> {
    match byte_range(header) {
        Some((start, end)) => if start <= usize::MAX {
            Some(window(body, start, end))
        } else {
            None
        },
        None => None,
    }
}

/// Cut the window a `Range` header asked for out of a full-entity body.
///
/// Returns `None` only for a range that cannot be honoured. Overruns are
/// clamped to the end of the body, so an over-long range yields a short read
/// and one entirely past the end yields nothing.
pub fn slice_range<'a>(body: &'a [u8], range_header: &str) -> (r: Option<&'a [u8]>)
    ensures
        match r {
            Some(bytes) => sliced(body@, range_header@) == Some(bytes@),
            None => sliced(body@, range_header@) is None,
        },
{
    let (start, end) = match parse_byte_range(range_header) {
        Some(pair) => pair,
        None => {
            return None;
        },
    };
    if start > usize::MAX as u64 {
        return None;
    }
    let start: usize = start as usize;
    let n: usize = body.len();
    if start >= n {
        let r = vstd::slice::slice_subrange(body, 0, 0);
        assert(r@ =~= Seq::<u8>::empty());
        return Some(r);
    }
    // `end` is inclusive, and absent means "to EOF".
    let stop: usize = match end {
        None => n,
        Some(end) => if end < n as u64 {
            end as usize + 1
        } else {
            n
        },
    };
    let r = vstd::slice::slice_subrange(body, start, stop);
    proof {
        assert(body@.skip(start as int) =~= body@.subrange(start as int, n as int));
    }
    Some(r)
}

/// The file that the session already holds, where it may be answered with it.
pub open spec fn session_hit(session: Session, url: Seq<char>, range: Option<Seq<char>>) -> Option<
    Seq<u8>,
> {
    if session_cacheable(url) && range is None && files_by_url(session.files@).dom().contains(url) {
        Some(files_by_url(session.files@)[url])
    } else {
        None
    }
}

/// How a read begins.
pub enum FetchStart {
    /// With the bytes already held, and what to tell the watcher.
    Cached { bytes: Vec<u8>, progress: Option<(u32, u64, u64)> },
    /// With a request, which a browser's own cache must revalidate first for
    /// metadata that moves.
    Send { revalidate: bool },
}

fn find_file(files: &Vec<(String, Vec<u8>)>, url: &str) -> (r: Option<usize>)
    ensures
        match r {
            Some(i) => i < files@.len() && files_by_url(files@).dom().contains(url@)
                && files_by_url(files@)[url@] == files@[i as int].1@,
            None => !files_by_url(files@).dom().contains(url@),
        },
{
    let mut i: usize = files.len();
    assert(files@.take(i as int) =~= files@);
    while i > 0
        invariant
            i <= files@.len(),
            files_by_url(files@).dom().contains(url@) == files_by_url(
                files@.take(i as int),
            ).dom().contains(url@),
            files_by_url(files@).dom().contains(url@) ==> files_by_url(files@)[url@]
                == files_by_url(files@.take(i as int))[url@],
        decreases i,
    {
        assert(files@.take(i as int).drop_last() =~= files@.take(i - 1));
        if text_eq(files[i - 1].0.as_str(), url) {
            return Some(i - 1);
        }
        i = i - 1;
    }
    None
}

/// The bytes, copied.
pub fn copy_bytes(bytes: &Vec<u8>) -> (r: Vec<u8>)
    ensures
        r@ == bytes@,
{
    let mut r: Vec<u8> = Vec::new();
    let n: usize = bytes.len();
    let mut i: usize = 0;
    while i < n
        invariant
            n == bytes@.len(),
            i <= n,
            r@ == bytes@.take(i as int),
        decreases n - i,
    {
        r.push(bytes[i]);
        assert(bytes@.take(i + 1) =~= bytes@.take(i as int).push(bytes@[i as int]));
        i = i + 1;
    }
    assert(bytes@.take(n as int) =~= bytes@);
    r
}

/// Begin a read: from what the session holds, or with a request.
pub fn start_fetch(session: &mut Session, url: &str, range: Option<&str>) -> (r: FetchStart)
    requires
        session_hit(*old(session), url@, query::opt_str(range)) matches Some(bytes) ==> old(
            session,
        ).has_room(0, 0, bytes.len() as int),
    ensures
        match session_hit(*old(session), url@, query::opt_str(range)) {
            Some(held) => {
                &&& r matches FetchStart::Cached { bytes, progress }
                &&& bytes@ == held
                &&& progress == final(session).report()
                &&& *final(session) == old(session).counted(0, 0, held.len() as int)
            },
            None => {
                &&& r == FetchStart::Send { revalidate: volatile_metadata(url@) }
                &&& *final(session) == *old(session)
            },
        },
{
    if is_session_cacheable(url) && range.is_none() {
        if let Some(i) = find_file(&session.files, url) {
            let bytes = copy_bytes(&session.files[i].1);
            let progress = record_cache_hit(session, bytes.len() as u64);
            return FetchStart::Cached { bytes, progress };
        }
    }
    FetchStart::Send { revalidate: is_volatile_metadata(url) }
}

/// The end of a read that a response's status and body bring about. Only a
/// status that [`classify`] reads the body for looks at the body.
pub open spec fn fetch_outcome(
    url: Seq<char>,
    range: Option<Seq<char>>,
    status: u16,
    body: Seq<u8>,
) -> Result<Seq<u8>, FetchFailure> {
    match action_for(status, range is Some) {
        ResponseAction::NotFound => Err(FetchFailure::NotFound(url)),
        ResponseAction::Eof => Ok(Seq::empty()),
        ResponseAction::HttpError => Err(
            FetchFailure::Other("HTTP "@ + number::decimal(status as nat) + " for "@ + url),
        ),
        ResponseAction::Body => Ok(body),
        ResponseAction::SliceRange => match sliced(body, range->0) {
            Some(bytes) => Ok(bytes),
            None => Err(
                FetchFailure::Other(
                    "server ignored Range '"@ + range->0 + "' for "@ + url
                        + " and it can't be applied locally"@,
                ),
            ),
        },
    }
}

/// What a read's result says.
pub open spec fn result_view(r: Result<Vec<u8>, FetchError>) -> Result<Seq<u8>, FetchFailure> {
    match r {
        Ok(bytes) => Ok(bytes@),
        Err(e) => Err(e@),
    }
}

/// Where a read stands once the status is known.
pub enum StatusStep {
    /// The body is wanted.
    ReadBody,
    /// It is over, whatever the body says.
    Done { result: Result<Vec<u8>, FetchError>, progress: Option<(u32, u64, u64)> },
}

/// Take the status of a response. Every read that ends here counts one
/// request: the round trip happened and cost latency.
pub fn take_status(session: &mut Session, url: &str, range: Option<&str>, status: u16) -> (r:
    StatusStep)
    requires
        old(session).has_room(1, 0, 0),
    ensures
        match action_for(status, range is Some) {
            ResponseAction::Body | ResponseAction::SliceRange => {
                &&& r is ReadBody
                &&& *final(session) == *old(session)
            },
            _ => {
                &&& r matches StatusStep::Done { result, progress }
                &&& forall|body: Seq<u8>|
                    result_view(result) == #[trigger] fetch_outcome(
                        url@,
                        query::opt_str(range),
                        status,
                        body,
                    )
                &&& progress == final(session).report()
                &&& *final(session) == old(session).counted(1, 0, 0)
            },
        },
{
    match classify(status, range.is_some()) {
        ResponseAction::Body | ResponseAction::SliceRange => StatusStep::ReadBody,
        ResponseAction::NotFound => {
            let progress = fire_progress(session, 1, 0);
            StatusStep::Done { result: Err(FetchError::NotFound(url.to_string())), progress }
        },
        ResponseAction::Eof => {
            let progress = fire_progress(session, 1, 0);
            let bytes: Vec<u8> = Vec::new();
            assert(bytes@ =~= Seq::<u8>::empty());
            StatusStep::Done { result: Ok(bytes), progress }
        },
        ResponseAction::HttpError => {
            let progress = fire_progress(session, 1, 0);
            let mut words: String = "HTTP ".to_string();
            words.append(decimal_text(status as u64).as_str());
            words.append(" for ");
            words.append(url);
            StatusStep::Done { result: Err(FetchError::Other(words)), progress }
        },
    }
}

/// Where a read ends once the body is in.
pub struct BodyStep {
    pub result: Result<Vec<u8>, FetchError>,
    pub progress: Option<(u32, u64, u64)>,
    /// What the console is told, once a session, where the server ignored the
    /// range.
    pub warning: Option<String>,
}

/// What the console is told where the server ignored the range.
pub open spec fn range_warning(url: Seq<char>) -> Seq<char> {
    "webgit: server ignored the Range header for "@ + url
        + " and returned the whole file; reading the requested bytes locally instead. Everything still works, but every read downloads the entire pack, so expect this to be slow and bandwidth-hungry."@
}

/// The session after a whole file is read.
pub open spec fn after_body(
    session: Session,
    url: Seq<char>,
    range: Option<Seq<char>>,
    status: u16,
    body: Seq<u8>,
    next: Session,
) -> bool {
    let counted = session.counted(1, body.len() as int, 0);
    let keep = session_cacheable(url) && range is None;
    &&& next.totals() == counted.totals()
    &&& next.watched == session.watched
    &&& next.warned == (session.warned || action_for(status, range is Some)
        == ResponseAction::SliceRange)
    &&& files_by_url(next.files@) == if keep {
        files_by_url(session.files@).insert(url, body)
    } else {
        files_by_url(session.files@)
    }
}

/// Take the body of a response whose status asked for it. Ranged responses are
/// partial by definition, so only whole-file reads are remembered.
pub fn take_body(
    session: &mut Session,
    url: &str,
    range: Option<&str>,
    status: u16,
    body: Vec<u8>,
) -> (r: BodyStep)
    requires
        action_for(status, range is Some) == ResponseAction::Body || action_for(
            status,
            range is Some,
        ) == ResponseAction::SliceRange,
        old(session).has_room(1, body@.len() as int, 0),
    ensures
        result_view(r.result) == fetch_outcome(url@, query::opt_str(range), status, body@),
        r.progress == final(session).report(),
        match r.warning {
            Some(words) => !old(session).warned && action_for(status, range is Some)
                == ResponseAction::SliceRange && words@ == range_warning(url@),
            None => old(session).warned || action_for(status, range is Some)
                != ResponseAction::SliceRange,
        },
        after_body(*old(session), url@, query::opt_str(range), status, body@, *final(session)),
{
    let progress = fire_progress(session, 1, body.len() as u64);
    match range {
        Some(header) => {
            if classify(status, true) == ResponseAction::SliceRange {
                let warning = warn_range_ignored_once(session, url);
                let result = match slice_range(body.as_slice(), header) {
                    Some(bytes) => Ok(vstd::slice::slice_to_vec(bytes)),
                    None => {
                        let mut words: String = "server ignored Range '".to_string();
                        words.append(header);
                        words.append("' for ");
                        words.append(url);
                        words.append(" and it can't be applied locally");
                        Err(FetchError::Other(words))
                    },
                };
                return BodyStep { result, progress, warning };
            }
        },
        None => {
            if is_session_cacheable(url) {
                let ghost before = session.files@;
                session.files.push((url.to_string(), copy_bytes(&body)));
                assert(session.files@.drop_last() =~= before);
            }
        },
    }
    BodyStep { result: Ok(body), progress, warning: None }
}

/// Warn, once a session, that the server ignores `Range`: every pack read takes
/// the fallback path once it starts, so warning per request would bury the
/// console.
pub fn warn_range_ignored_once(session: &mut Session, url: &str) -> (r: Option<String>)
    ensures
        *final(session) == (Session { warned: true, ..*old(session) }),
        match r {
            Some(words) => !old(session).warned && words@ == range_warning(url@),
            None => old(session).warned,
        },
{
    if session.warned {
        return None;
    }
    session.warned = true;
    let mut words: String = "webgit: server ignored the Range header for ".to_string();
    words.append(url);
    words.append(
        " and returned the whole file; reading the requested bytes locally instead. Everything still works, but every read downloads the entire pack, so expect this to be slow and bandwidth-hungry.",
    );
    Some(words)
}

/// A file that was read whole, as text.
pub fn fetch_text(bytes: Vec<u8>) -> (r: Result<String, FetchError>)
    ensures
        match r {
            Ok(text) => vstd::utf8::valid_utf8(bytes@) && text@ == vstd::utf8::decode_utf8(bytes@),
            Err(e) => !vstd::utf8::valid_utf8(bytes@) && e@ == FetchFailure::Other(
                utf8::utf8_error(bytes@),
            ),
        },
{
    match checked_text(bytes) {
        Ok(text) => Ok(text),
        Err(why) => Err(FetchError::Other(why)),
    }
}

/// A range that the server ignored is read as if it had not: from the whole
/// body, what a 206 would have brought, and past its end, what a 416 says.
pub proof fn ignored_range_reads_the_same(url: Seq<char>, header: Seq<char>, body: Seq<u8>)
    requires
        sliced(body, header) is Some,
    ensures
        fetch_outcome(url, Some(header), 200, body) == fetch_outcome(
            url,
            Some(header),
            206,
            sliced(body, header)->0,
        ),
        byte_range(header) matches Some((start, _)) && start >= body.len() ==> fetch_outcome(
            url,
            Some(header),
            200,
            body,
        ) == fetch_outcome(url, Some(header), 416, body),
{
}

/// What a whole-file read of a stable file brought is what the next such read
/// is answered with, without a request.
pub proof fn kept_file_answers_the_next_read(
    session: Session,
    url: Seq<char>,
    body: Seq<u8>,
    next: Session,
)
    requires
        session_cacheable(url),
        after_body(session, url, None, 200, body, next),
    ensures
        session_hit(next, url, None) == Some(body),
{
}

/// A range header asks for the bytes from its first number to its second, both
/// among them, or to the end where it has no second.
pub proof fn ranges_are_read_as_they_are_written(a: nat, b: nat)
    requires
        a <= b <= u64::MAX,
    ensures
        byte_range(
            seq!['b', 'y', 't', 'e', 's', '='] + number::decimal(a) + seq!['-'] + number::decimal(b),
        ) == Some((a as int, Some(b as int))),
        byte_range(seq!['b', 'y', 't', 'e', 's', '='] + number::decimal(a) + seq!['-']) == Some(
            (a as int, None::<int>),
        ),
        b > a ==> byte_range(
            seq!['b', 'y', 't', 'e', 's', '='] + number::decimal(b) + seq!['-'] + number::decimal(a),
        ) is None,
        byte_range(seq!['b', 'y', 't', 'e', 's', '=', '-'] + number::decimal(a)) is None,
{
    let key = seq!['b', 'y', 't', 'e', 's', '='];
    let none = Seq::<char>::empty();
    number::decimal_text_parses_back(a, u64::MAX as int);
    number::decimal_text_parses_back(b, u64::MAX as int);
    number::lemma_decimal(a);
    number::lemma_decimal(b);
    lemma_range(number::decimal(a), number::decimal(b));
    lemma_range(number::decimal(b), number::decimal(a));
    lemma_range(number::decimal(a), none);
    assert(key + number::decimal(a) + seq!['-'] + none =~= key + number::decimal(a) + seq!['-']);
    lemma_range(none, number::decimal(a));
    assert(key + none + seq!['-'] + number::decimal(a) =~= seq!['b', 'y', 't', 'e', 's', '=', '-']
        + number::decimal(a));
    assert(number::parse_unsigned(none, u64::MAX as int) is None);
}

proof fn lemma_range(from: Seq<char>, to: Seq<char>)
    requires
        number::all_digits(from),
        number::all_digits(to),
    ensures
        ({
            let start = number::parse_unsigned(from, u64::MAX as int);
            let end = number::parse_unsigned(to, u64::MAX as int);
            byte_range(seq!['b', 'y', 't', 'e', 's', '='] + from + seq!['-'] + to) == (
            if start is None {
                None
            } else if to.len() == 0 {
                Some((start->0, None))
            } else if end is None || end->0 < start->0 {
                None
            } else {
                Some((start->0, end))
            })
        }),
{
    reveal_strlit("bytes=");
    let key = seq!['b', 'y', 't', 'e', 's', '='];
    assert("bytes="@ =~= key);
    let spec_text = from + seq!['-'] + to;
    let header = key + from + seq!['-'] + to;
    assert(header =~= key + spec_text);
    lemma_digits_untrimmed(from);
    lemma_digits_untrimmed(to);
    assert(text::trim_space(header) == header) by {
        text::only_blanks_are_trimmed(header);
        text::only_blanks_are_trimmed(text::trim_space_start(header));
        assert(header[0] == 'b');
        assert(text::trim_space_start(header) =~= header);
        if to.len() > 0 {
            assert(header.last() == to.last());
            assert(number::is_digit(to[to.len() - 1]));
        } else {
            assert(header.last() == '-');
        }
        assert(text::trim_space_end(header) =~= header);
    }
    text::lemma_prefix(key, header);
    assert(header.skip(6) =~= spec_text);
    let n = from.len() as int;
    assert(spec_text[n] == '-');
    assert(spec_text.contains('-'));
    assert(!spec_text.contains(',')) by {
        if spec_text.contains(',') {
            let k = spec_text.index_of(',');
            if k < n {
                assert(number::is_digit(from[k]));
            } else if k > n {
                assert(number::is_digit(to[k - n - 1]));
            }
        }
    }
    assert forall|j: int| 0 <= j < n implies spec_text[j] != '-' by {
        assert(number::is_digit(from[j]));
    }
    text::lemma_first_index_is(spec_text, '-', n);
    assert(text::before(spec_text, '-') =~= from);
    assert(text::after(spec_text, '-') =~= to);
}

proof fn lemma_digits_untrimmed(s: Seq<char>)
    requires
        number::all_digits(s),
    ensures
        text::trim_space(s) == s,
{
    text::only_blanks_are_trimmed(s);
    text::only_blanks_are_trimmed(text::trim_space_start(s));
    if s.len() > 0 {
        assert(number::is_digit(s[0]));
        assert(number::is_digit(s[s.len() - 1]));
        if text::trim_space_start(s).len() < s.len() {
            assert(text::is_blank(s[0]));
        }
        assert(text::trim_space_start(s) =~= s);
        if text::trim_space_end(s).len() < s.len() {
            assert(text::is_blank(s[s.len() - 1]));
        }
        assert(text::trim_space_end(s) =~= s);
    } else {
        assert(text::trim_space(s) =~= s);
    }
}

/// A window holds the bytes that stand there in the body, up to the end of the
/// one or of the other.
pub proof fn windows_hold_what_stands_there(body: Seq<u8>, start: int, end: Option<int>, i: int)
    requires
        0 <= start,
        end matches Some(last) ==> start <= last,
    ensures
        ({
            let got = window(body, start, end);
            &&& 0 <= i < got.len() ==> start + i < body.len() && got[i] == body[start + i]
            &&& 0 <= i && start + i < body.len() && (end matches Some(last) ==> start + i <= last)
                ==> i < got.len()
            &&& 0 <= i < got.len() ==> (end matches Some(last) ==> start + i <= last)
        }),
{
}

/// What the body of a response is worth goes by its status: it is the file where
/// that begins with a two, and no answer else has the file in it.
pub proof fn statuses_say_what_a_body_is(
    url: Seq<char>,
    range: Option<Seq<char>>,
    status: u16,
    body: Seq<u8>,
)
    ensures
        range is None && status as int / 100 == 2 ==> fetch_outcome(url, range, status, body) == Ok::<
            Seq<u8>,
            FetchFailure,
        >(body),
        range is Some && status as int / 100 == 2 && status != 200 ==> fetch_outcome(
            url,
            range,
            status,
            body,
        ) == Ok::<Seq<u8>, FetchFailure>(body),
        status == 404 ==> fetch_outcome(url, range, status, body) == Err::<Seq<u8>, FetchFailure>(
            FetchFailure::NotFound(url),
        ),
        status == 416 ==> fetch_outcome(url, range, status, body) == Ok::<Seq<u8>, FetchFailure>(
            Seq::empty(),
        ),
        status as int / 100 != 2 && status != 404 && status != 416 ==> fetch_outcome(
            url,
            range,
            status,
            body,
        ) matches Err(FetchFailure::Other(_)),
{
}

/// HEAD and the lists of refs and packs move with the repository, wherever it is
/// and whatever query follows.
pub proof fn moving_files_are_read_anew(dir: Seq<char>, query: Seq<char>)
    requires
        !dir.contains('?'),
        !dir.contains('#'),
    ensures
        volatile_metadata(dir + "/HEAD"@),
        volatile_metadata(dir + "/HEAD"@ + seq!['?'] + query),
        volatile_metadata(dir + "/packed-refs"@),
        volatile_metadata(dir + "/packed-refs"@ + seq!['?'] + query),
        volatile_metadata(dir + "/info/refs"@),
        volatile_metadata(dir + "/info/refs"@ + seq!['?'] + query),
        volatile_metadata(dir + "/objects/info/packs"@),
        volatile_metadata(dir + "/objects/info/packs"@ + seq!['?'] + query),
        session_cacheable(dir + "/packed-refs"@),
{
    reveal_strlit("/HEAD");
    reveal_strlit("/packed-refs");
    reveal_strlit("/info/refs");
    reveal_strlit("/objects/info/packs");
    lemma_bare_file(dir, "/HEAD"@, query);
    lemma_bare_file(dir, "/packed-refs"@, query);
    lemma_bare_file(dir, "/info/refs"@, query);
    lemma_bare_file(dir, "/objects/info/packs"@, query);
    text::lemma_suffix(dir, "/HEAD"@, dir);
    text::lemma_suffix(dir, "/packed-refs"@, dir);
    text::lemma_suffix(dir, "/info/refs"@, dir);
    text::lemma_suffix(dir, "/objects/info/packs"@, dir);
}

/// Every ref moves with the repository.
pub proof fn refs_are_read_anew(dir: Seq<char>, rest: Seq<char>, query: Seq<char>)
    requires
        !dir.contains('?'),
        !dir.contains('#'),
        !rest.contains('?'),
        !rest.contains('#'),
    ensures
        volatile_metadata(dir + "/refs/"@ + rest),
        volatile_metadata(dir + "/refs/"@ + rest + seq!['?'] + query),
{
    reveal_strlit("/refs/");
    let tail = "/refs/"@ + rest;
    assert forall|c: char| (c == '?' || c == '#') implies !tail.contains(c) by {
        if tail.contains(c) {
            let k = tail.index_of(c);
            if k >= 6 {
                assert(rest[k - 6] == c);
            }
        }
    }
    lemma_bare_file(dir, tail, query);
    assert(dir + "/refs/"@ + rest =~= dir + tail);
    lemma_found(dir, "/refs/"@, rest);
}

proof fn lemma_found(dir: Seq<char>, pat: Seq<char>, rest: Seq<char>)
    ensures
        text::find(dir + pat + rest, pat) is Some,
    decreases dir.len(),
{
    let s = dir + pat + rest;
    if dir.len() == 0 {
        assert(s.subrange(0, pat.len() as int) =~= pat);
    } else {
        assert(s.drop_first() =~= dir.drop_first() + pat + rest);
        lemma_found(dir.drop_first(), pat, rest);
    }
}

/// No other file moves, such as an object or a pack: those may be kept.
pub proof fn other_files_may_be_kept(dir: Seq<char>, name: Seq<char>)
    requires
        !dir.contains('?'),
        !dir.contains('#'),
        !name.contains('?'),
        !name.contains('#'),
        !name.contains('/'),
        name != "HEAD"@,
        name != "packed-refs"@,
        name != "refs"@,
        name != "packs"@,
        text::find(dir + seq!['/'] + name, "/refs/"@) is None,
    ensures
        !volatile_metadata(dir + seq!['/'] + name),
        !session_cacheable(dir + seq!['/'] + name),
{
    let part = seq!['/'] + name;
    assert forall|c: char| (c == '?' || c == '#') implies !part.contains(c) by {
        if part.contains(c) {
            let k = part.index_of(c);
            assert(name[k - 1] == c);
        }
    }
    lemma_bare_file(dir, part, Seq::empty());
    assert(dir + part =~= dir + seq!['/'] + name);
    lemma_moving_names(dir, name);
}

proof fn lemma_moving_names(dir: Seq<char>, name: Seq<char>)
    requires
        !name.contains('/'),
        name != "HEAD"@,
        name != "packed-refs"@,
        name != "refs"@,
        name != "packs"@,
    ensures
        !"/HEAD"@.is_suffix_of(dir + seq!['/'] + name),
        !"/packed-refs"@.is_suffix_of(dir + seq!['/'] + name),
        !"/info/refs"@.is_suffix_of(dir + seq!['/'] + name),
        !"/objects/info/packs"@.is_suffix_of(dir + seq!['/'] + name),
{
    reveal_strlit("/HEAD");
    reveal_strlit("/packed-refs");
    reveal_strlit("/info/refs");
    reveal_strlit("/objects/info/packs");
    reveal_strlit("HEAD");
    reveal_strlit("packed-refs");
    reveal_strlit("refs");
    reveal_strlit("packs");
    reveal_strlit("/info");
    reveal_strlit("/objects/info");
    lemma_last_name(dir, name, Seq::empty(), "HEAD"@);
    lemma_last_name(dir, name, Seq::empty(), "packed-refs"@);
    lemma_last_name(dir, name, "/info"@, "refs"@);
    lemma_last_name(dir, name, "/objects/info"@, "packs"@);
    assert(Seq::<char>::empty() + seq!['/'] + "HEAD"@ =~= "/HEAD"@);
    assert(Seq::<char>::empty() + seq!['/'] + "packed-refs"@ =~= "/packed-refs"@);
    assert("/info"@ + seq!['/'] + "refs"@ =~= "/info/refs"@);
    assert("/objects/info"@ + seq!['/'] + "packs"@ =~= "/objects/info/packs"@);
}

proof fn lemma_last_name(dir: Seq<char>, rest: Seq<char>, front: Seq<char>, name: Seq<char>)
    requires
        !rest.contains('/'),
        !name.contains('/'),
    ensures
        rest != name ==> !(front + seq!['/'] + name).is_suffix_of(dir + seq!['/'] + rest),
{
    let p = front + seq!['/'] + name;
    let s = dir + seq!['/'] + rest;
    if p.is_suffix_of(s) {
        text::lemma_suffix(dir, p, s);
        let before = s.take(s.len() - p.len()) + front;
        assert(s =~= before + seq!['/'] + name);
        text::paths_end_in_their_names(dir, rest);
        text::paths_end_in_their_names(before, name);
    }
}

proof fn lemma_bare_file(dir: Seq<char>, file: Seq<char>, query: Seq<char>)
    requires
        !dir.contains('?'),
        !dir.contains('#'),
        !file.contains('?'),
        !file.contains('#'),
    ensures
        bare_url(dir + file) == dir + file,
        bare_url(dir + file + seq!['?'] + query) == dir + file,
{
    let url = dir + file;
    assert forall|c: char| (c == '?' || c == '#') implies !url.contains(c) by {
        if url.contains(c) {
            let k = url.index_of(c);
            if k < dir.len() {
                assert(dir[k] == c);
            } else {
                assert(file[k - dir.len()] == c);
            }
        }
    }
    let n = url.len() as int;
    text::lemma_first_index(url, '?');
    text::lemma_first_index(url, '#');
    assert(url.take(n) =~= url);
    let asked = url + seq!['?'] + query;
    assert(asked[n] == '?');
    assert forall|j: int| 0 <= j < n implies asked[j] != '?' by {
        assert(asked[j] == url[j]);
        assert(url.contains(url[j]));
    }
    text::lemma_first_index_is(asked, '?', n);
    assert(asked.take(n) =~= url);
}

/// Totals add up: counting twice is counting the sum once, and touches nothing
/// but the totals.
pub proof fn totals_add_up(
    session: Session,
    requests: int,
    bytes: int,
    cached: int,
    more_requests: int,
    more_bytes: int,
    more_cached: int,
)
    requires
        0 <= requests && 0 <= bytes && 0 <= cached,
        0 <= more_requests && 0 <= more_bytes && 0 <= more_cached,
        session.requests + requests + more_requests <= u32::MAX,
        session.bytes + bytes + more_bytes <= u64::MAX,
        session.cached + cached + more_cached <= u64::MAX,
    ensures
        ({
            let once = session.counted(requests, bytes, cached);
            &&& once.requests == session.requests + requests
            &&& once.bytes == session.bytes + bytes
            &&& once.cached == session.cached + cached
            &&& once.files == session.files
            &&& once.watched == session.watched
            &&& once.warned == session.warned
            &&& once.counted(more_requests, more_bytes, more_cached) == session.counted(
                requests + more_requests,
                bytes + more_bytes,
                cached + more_cached,
            )
            &&& once.report() == (if session.watched {
                Some((once.requests, once.bytes, once.cached))
            } else {
                None
            })
        }),
{
}

/// Of all files only the packed refs of a repository are kept for the session.
pub proof fn packed_refs_are_kept(base: Seq<char>, url: Seq<char>)
    ensures
        session_cacheable(
            base + seq!['/', 'p', 'a', 'c', 'k', 'e', 'd', '-', 'r', 'e', 'f', 's'],
        ),
        session_cacheable(url) ==> url.len() >= 12 && url.skip(url.len() - 12) == seq![
            '/',
            'p',
            'a',
            'c',
            'k',
            'e',
            'd',
            '-',
            'r',
            'e',
            'f',
            's',
        ],
{
    reveal_strlit("/packed-refs");
    let mark = seq!['/', 'p', 'a', 'c', 'k', 'e', 'd', '-', 'r', 'e', 'f', 's'];
    assert("/packed-refs"@ =~= mark);
    let whole = base + mark;
    assert(whole.subrange(whole.len() - 12, whole.len() as int) =~= mark);
    if mark.is_suffix_of(url) {
        assert(url.skip(url.len() - 12) =~= url.subrange(url.len() - 12, url.len() as int));
    }
}

/// Several ranges at once are no range that can be read.
pub proof fn several_ranges_are_refused(a: Seq<char>, b: Seq<char>)
    requires
        a.len() > 0 ==> !text::is_blank(a[0]),
        b.len() > 0 && !text::is_blank(b.last()),
    ensures
        byte_range(seq!['b', 'y', 't', 'e', 's', '='] + a + seq![','] + b) is None,
{
    reveal_strlit("bytes=");
    let key = seq!['b', 'y', 't', 'e', 's', '='];
    assert("bytes="@ =~= key);
    let header = key + a + seq![','] + b;
    assert(header[0] == 'b' && header.last() == b.last());
    text::only_blanks_are_trimmed(header);
    let rest = a + seq![','] + b;
    assert(header.skip(6) =~= rest);
    assert(rest[a.len() as int] == ',');
}

/// A file that is read counts as one request and by its size, and one that is
/// kept can be found by its URL beside those that were; a server that ignored a
/// range is told of from then on.
pub proof fn reads_are_counted(
    session: Session,
    url: Seq<char>,
    range: Option<Seq<char>>,
    status: u16,
    body: Seq<u8>,
    next: Session,
    other: Seq<char>,
)
    requires
        after_body(session, url, range, status, body, next),
        session.requests + 1 <= u32::MAX,
        session.bytes + body.len() <= u64::MAX,
    ensures
        next.requests == session.requests + 1,
        next.bytes == session.bytes + body.len(),
        next.cached == session.cached,
        next.watched == session.watched,
        session.warned ==> next.warned,
        range is None ==> next.warned == session.warned,
        range is Some && status == 200 ==> next.warned,
        range is Some && status == 206 ==> next.warned == session.warned,
        other != url ==> (files_by_url(next.files@).contains_key(other) <==> files_by_url(
            session.files@,
        ).contains_key(other)) && files_by_url(next.files@)[other] == files_by_url(
            session.files@,
        )[other],
        range is None && session_cacheable(url) ==> files_by_url(next.files@).contains_key(url)
            && files_by_url(next.files@)[url] == body,
        range is Some || !session_cacheable(url) ==> files_by_url(next.files@) == files_by_url(
            session.files@,
        ),
{
}

/// Only a whole read of a file that may be kept, and was, is answered from the
/// session.
pub proof fn only_whole_reads_are_answered_from_the_session(
    session: Session,
    url: Seq<char>,
    header: Seq<char>,
)
    ensures
        session_hit(session, url, Some(header)) is None,
        !session_cacheable(url) ==> session_hit(session, url, None) is None,
        !files_by_url(session.files@).contains_key(url) ==> session_hit(session, url, None) is None,
        session_cacheable(url) && files_by_url(session.files@).contains_key(url) ==> session_hit(
            session,
            url,
            None,
        ) == Some(files_by_url(session.files@)[url]),
{
}

} // verus!
