//! The commit-graph accelerators, and the store behind them.
//!
//! A history walk needs each commit's tree, parents and time, and a verdict on
//! whether a path changed. Answering those from the commit-graph instead of the
//! commit object is the difference between a ranged request per commit and
//! none, so the records get a store of their own, keyed per repository.

use vstd::prelude::*;
use crate::cache::codec::oid_from_bytes;
use crate::cache::keys;
use crate::object;
use crate::object::{ObjectId, Standing};
use crate::text;
use crate::text::{concat, concat3, without_prefix};

verus! {

/// A commit as the commit-graph describes it.
pub struct GraphRecord {
    pub tree: ObjectId,
    pub parents: Vec<ObjectId>,
    pub commit_time: i64,
    /// The changed-path filter, where there is one to be trusted.
    pub bloom: Option<Vec<u8>>,
}

/// What a [`GraphRecord`] says.
pub struct GraphModel {
    pub tree: Seq<u8>,
    pub parents: Seq<Seq<u8>>,
    pub commit_time: int,
    pub bloom: Option<Seq<u8>>,
}

/// A record as the store holds it.
pub struct StoredRecord {
    pub key: String,
    pub tree: Option<Vec<u8>>,
    /// The parents' names, one after the other.
    pub parents: Option<Vec<u8>>,
    pub time: Option<i64>,
    pub bloom: Option<Vec<u8>>,
    /// The fingerprint of the settings the filter was written under.
    pub tag: Option<u32>,
}

pub open spec fn opt_bytes(o: Option<Vec<u8>>) -> Option<Seq<u8>> {
    match o {
        Some(b) => Some(b@),
        None => None,
    }
}

pub open spec fn names(ids: Seq<ObjectId>) -> Seq<Seq<u8>> {
    ids.map_values(|id: ObjectId| id@)
}

impl View for GraphRecord {
    type V = GraphModel;

    open spec fn view(&self) -> GraphModel {
        GraphModel {
            tree: self.tree@,
            parents: names(self.parents@),
            commit_time: self.commit_time as int,
            bloom: opt_bytes(self.bloom),
        }
    }
}

/// The whole runs of twenty bytes that `bytes` begin with.
pub open spec fn runs(bytes: Seq<u8>) -> Seq<Seq<u8>> {
    Seq::new(bytes.len() / 20, |i: int| bytes.subrange(20 * i, 20 * i + 20))
}

/// The record that the stored fields describe, where the tree and the time are
/// there. Only a filter written under the current settings is trusted.
pub open spec fn stored_graph(r: StoredRecord, graph_tag: u32) -> Option<GraphModel> {
    match (r.tree, r.time) {
        (Some(tree), Some(time)) => if tree@.len() == 20 {
            Some(
                GraphModel {
                    tree: tree@,
                    parents: match r.parents {
                        Some(bytes) => runs(bytes@),
                        None => Seq::empty(),
                    },
                    commit_time: time as int,
                    bloom: if r.tag == Some(graph_tag) {
                        opt_bytes(r.bloom)
                    } else {
                        None
                    },
                },
            )
        } else {
            None
        },
        _ => None,
    }
}

fn parents_from(bytes: &Vec<u8>) -> (r: Vec<ObjectId>)
    ensures
        names(r@) == runs(bytes@),
{
    let mut out: Vec<ObjectId> = Vec::new();
    let len: usize = bytes.len();
    let n: usize = len / 20;
    let mut i: usize = 0;
    while i < n
        invariant
            len == bytes@.len(),
            n == len / 20,
            i <= n,
            out@.len() == i,
            forall|j: int| 0 <= j < i ==> (#[trigger] out@[j])@ == runs(bytes@)[j],
        decreases n - i,
    {
        let run = vstd::slice::slice_subrange(bytes.as_slice(), 20 * i, 20 * i + 20);
        match oid_from_bytes(run) {
            Some(id) => {
                out.push(id);
            },
            None => {},
        }
        i = i + 1;
    }
    assert(names(out@) =~= runs(bytes@));
    out
}

/// Read a stored record.
pub fn parse_graph_record(r: StoredRecord, graph_tag: u32) -> (out: Option<GraphRecord>)
    ensures
        match out {
            Some(rec) => stored_graph(r, graph_tag) == Some(rec@),
            None => stored_graph(r, graph_tag) is None,
        },
{
    let tree = match &r.tree {
        Some(bytes) => match oid_from_bytes(bytes.as_slice()) {
            Some(id) => id,
            None => {
                return None;
            },
        },
        None => {
            return None;
        },
    };
    let parents: Vec<ObjectId> = match &r.parents {
        Some(bytes) => parents_from(bytes),
        None => {
            let none: Vec<ObjectId> = Vec::new();
            assert(names(none@) =~= Seq::<Seq<u8>>::empty());
            none
        },
    };
    let commit_time: i64 = match r.time {
        Some(time) => time,
        None => {
            return None;
        },
    };
    let trusted = match r.tag {
        Some(tag) => tag == graph_tag,
        None => false,
    };
    let bloom = if trusted {
        r.bloom
    } else {
        None
    };
    Some(GraphRecord { tree, parents, commit_time, bloom })
}

/// The names of the parents, one after the other.
pub open spec fn flat(ids: Seq<ObjectId>) -> Seq<u8>
    decreases ids.len(),
{
    if ids.len() == 0 {
        Seq::empty()
    } else {
        flat(ids.drop_last()) + ids.last()@
    }
}

fn push_bytes(out: &mut Vec<u8>, id: &ObjectId)
    ensures
        final(out)@ == old(out)@ + id@,
{
    let mut i: usize = 0;
    while i < 20
        invariant
            i <= 20,
            id@.len() == 20,
            out@ == old(out)@ + id@.take(i as int),
        decreases 20 - i,
    {
        out.push(id.bytes[i]);
        assert(id@.take(i + 1) =~= id@.take(i as int).push(id@[i as int]));
        assert(out@ =~= old(out)@ + id@.take(i + 1));
        i = i + 1;
    }
    assert(id@.take(20) =~= id@);
}

fn flatten(ids: &Vec<ObjectId>) -> (r: Vec<u8>)
    ensures
        r@ == flat(ids@),
{
    let mut out: Vec<u8> = Vec::new();
    let n: usize = ids.len();
    let mut i: usize = 0;
    assert(ids@.take(0) =~= Seq::<ObjectId>::empty());
    while i < n
        invariant
            n == ids@.len(),
            i <= n,
            out@ == flat(ids@.take(i as int)),
        decreases n - i,
    {
        assert(ids@.take(i + 1).drop_last() =~= ids@.take(i as int));
        push_bytes(&mut out, &ids[i]);
        i = i + 1;
    }
    assert(ids@.take(n as int) =~= ids@);
    out
}

/// The stored form of a commit's record.
pub fn build_graph_record(repo_url: &str, id: ObjectId, rec: &GraphRecord, graph_tag: u32) -> (r:
    StoredRecord)
    ensures
        r.key@ == keys::graph_key(repo_url@, id@),
        opt_bytes(r.tree) == Some(rec.tree@),
        opt_bytes(r.parents) == Some(flat(rec.parents@)),
        r.time == Some(rec.commit_time),
        opt_bytes(r.bloom) == opt_bytes(rec.bloom),
        r.tag == Some(graph_tag),
{
    let key = concat3(repo_url, "::", id.to_hex().as_str());
    let mut tree: Vec<u8> = Vec::new();
    push_bytes(&mut tree, &rec.tree);
    assert(tree@ =~= rec.tree@);
    let bloom = match &rec.bloom {
        Some(bytes) => Some(crate::fetch::copy_bytes(bytes)),
        None => None,
    };
    StoredRecord {
        key,
        tree: Some(tree),
        parents: Some(flatten(&rec.parents)),
        time: Some(rec.commit_time),
        bloom,
        tag: Some(graph_tag),
    }
}

proof fn lemma_flat(ids: Seq<ObjectId>)
    ensures
        flat(ids).len() == 20 * ids.len(),
        runs(flat(ids)) == names(ids),
    decreases ids.len(),
{
    if ids.len() == 0 {
        assert(runs(flat(ids)) =~= names(ids));
    } else {
        let rest = ids.drop_last();
        lemma_flat(rest);
        let all = flat(ids);
        assert(ids.last()@.len() == 20);
        assert(all.len() / 20 == ids.len());
        assert(runs(all) =~= names(ids)) by {
            assert forall|i: int| 0 <= i < ids.len() implies runs(all)[i] == names(ids)[i] by {
                if i < rest.len() {
                    assert(all.subrange(20 * i, 20 * i + 20) =~= flat(rest).subrange(
                        20 * i,
                        20 * i + 20,
                    ));
                    assert(runs(flat(rest))[i] == names(rest)[i]);
                } else {
                    assert(all.subrange(20 * i, 20 * i + 20) =~= ids.last()@);
                }
            }
        }
    }
}

/// A record reads back as it was written, and its filter is trusted only under
/// the settings it was written under.
pub proof fn graph_record_round_trips(stored: StoredRecord, rec: GraphRecord, tag: u32, now: u32)
    requires
        opt_bytes(stored.tree) == Some(rec.tree@),
        opt_bytes(stored.parents) == Some(flat(rec.parents@)),
        stored.time == Some(rec.commit_time),
        opt_bytes(stored.bloom) == opt_bytes(rec.bloom),
        stored.tag == Some(tag),
    ensures
        stored_graph(stored, now) == Some(
            GraphModel {
                bloom: if tag == now {
                    rec@.bloom
                } else {
                    None
                },
                ..rec@
            },
        ),
{
    lemma_flat(rec.parents@);
    assert(rec.tree@.len() == 20);
}

/// The commit and record that a stored record holds for a repository: its key
/// is the repository's prefix and the commit's name.
pub open spec fn stored_entry(repo_url: Seq<char>, r: StoredRecord, graph_tag: u32) -> Option<
    (Seq<u8>, GraphModel),
> {
    match text::strip_prefix(r.key@, keys::key_prefix(repo_url)) {
        Some(hex) => match object::named_object(vstd::utf8::encode_utf8(hex)) {
            Some(id) => match stored_graph(r, graph_tag) {
                Some(rec) => Some((id, rec)),
                None => None,
            },
            None => None,
        },
        None => None,
    }
}

/// Read a stored record as one of this repository's. The store is asked for a
/// prefix range, which still admits a repository whose URL begins with this
/// one's followed by `::`; the key says which it is.
pub fn parse_stored(repo_url: &str, r: StoredRecord, graph_tag: u32) -> (out: Option<
    (ObjectId, GraphRecord),
>)
    ensures
        match out {
            Some((id, rec)) => stored_entry(repo_url@, r, graph_tag) == Some((id@, rec@)),
            None => stored_entry(repo_url@, r, graph_tag) is None,
        },
{
    let prefix = concat(repo_url, "::");
    let id: ObjectId = match without_prefix(r.key.as_str(), prefix.as_str()) {
        Some(hex) => match ObjectId::from_hex(hex.as_bytes()) {
            Some(id) => id,
            None => {
                return None;
            },
        },
        None => {
            return None;
        },
    };
    match parse_graph_record(r, graph_tag) {
        Some(rec) => Some((id, rec)),
        None => None,
    }
}

/// Where the session stands with the repository's commit-graph.
pub struct GraphState {
    /// The records in memory, in the order of their commits' names.
    pub records: Vec<(ObjectId, GraphRecord)>,
    /// Whether loading was begun.
    pub loaded: bool,
    /// Whether the store holds a complete set of this repository's records:
    /// true once a bulk load has succeeded, or once a non-empty store was read
    /// back. Single records are not written until then.
    pub seeded: bool,
}

/// The records that a list of them holds.
pub open spec fn by_id(records: Seq<(ObjectId, GraphRecord)>) -> Map<Seq<u8>, GraphModel>
    decreases records.len(),
{
    if records.len() == 0 {
        Map::empty()
    } else {
        by_id(records.drop_last()).insert(records.last().0@, records.last().1@)
    }
}

/// What loading the commit-graph does next.
#[derive(Clone, Copy, PartialEq, Eq, Structural, Debug)]
pub enum GraphStep {
    /// Nothing: it is loaded, or there is nothing to load.
    Done,
    /// Read the repository's records from the store.
    ReadStore,
    /// Read the whole commit-graph from the network.
    BulkLoad,
    /// Write every record that the network brought to the store.
    PersistAll,
}

/// What happens to a repository's commit-graph in a session.
pub enum GraphEvent {
    Started,
    /// The store was read, and held this many records.
    Stored(nat),
    /// The bulk load ended, and whether it brought the records.
    Bulk(bool),
    /// One record was read from the live file.
    Record,
    Cleared,
}

/// Whether the session's store is known complete after an event.
pub open spec fn seeded_after(seeded: bool, event: GraphEvent) -> bool {
    match event {
        GraphEvent::Started | GraphEvent::Record => seeded,
        GraphEvent::Stored(count) => seeded || count > 0,
        GraphEvent::Bulk(ok) => seeded || ok,
        GraphEvent::Cleared => false,
    }
}

/// Whether an event writes to the store.
pub open spec fn writes(seeded: bool, event: GraphEvent) -> bool {
    match event {
        GraphEvent::Bulk(ok) => ok,
        GraphEvent::Record => seeded,
        _ => false,
    }
}

/// A list that holds its records in the order of their commits' names, and so
/// none twice.
pub open spec fn in_name_order(records: Seq<(ObjectId, GraphRecord)>) -> bool {
    forall|i: int, j: int|
        0 <= i < j < records.len() ==> object::sorts_before(
            (#[trigger] records[i]).0@,
            (#[trigger] records[j]).0@,
        )
}

/// A list in order holds each of its records, and nothing else.
proof fn lemma_by_id(records: Seq<(ObjectId, GraphRecord)>)
    requires
        in_name_order(records),
    ensures
        forall|i: int|
            0 <= i < records.len() ==> by_id(records).dom().contains(
                (#[trigger] records[i]).0@,
            ) && by_id(records)[records[i].0@] == records[i].1@,
        forall|id: Seq<u8>| #[trigger]
            by_id(records).dom().contains(id) ==> exists|i: int|
                0 <= i < records.len() && (#[trigger] records[i]).0@ == id,
    decreases records.len(),
{
    if records.len() > 0 {
        let rest = records.drop_last();
        lemma_by_id(rest);
        assert forall|i: int| 0 <= i < records.len() implies by_id(records).dom().contains(
            (#[trigger] records[i]).0@,
        ) && by_id(records)[records[i].0@] == records[i].1@ by {
            if i < rest.len() {
                assert(rest[i] == records[i]);
                assert(object::sorts_before(records[i].0@, records[records.len() - 1].0@));
                object::lemma_never_before_itself(records[i].0@);
            }
        }
        assert forall|id: Seq<u8>| #[trigger] by_id(records).dom().contains(id) implies exists|
            i: int,
        | 0 <= i < records.len() && (#[trigger] records[i]).0@ == id by {
            if id != records.last().0@ {
                assert(by_id(rest).dom().contains(id));
                let i = choose|i: int| 0 <= i < rest.len() && (#[trigger] rest[i]).0@ == id;
                assert(records[i].0@ == id);
            } else {
                assert(records[records.len() - 1].0@ == id);
            }
        }
    }
}

/// Putting a record at its place among others adds it to what they hold.
proof fn lemma_put(
    before: Seq<(ObjectId, GraphRecord)>,
    after: Seq<(ObjectId, GraphRecord)>,
    at: int,
    replaced: bool,
)
    requires
        in_name_order(before),
        0 <= at < after.len(),
        forall|j: int| 0 <= j < at && j < before.len() ==> object::sorts_before(
            (#[trigger] before[j]).0@,
            after[at].0@,
        ),
        if replaced {
            &&& at < before.len()
            &&& before[at].0@ == after[at].0@
            &&& after == before.update(at, after[at])
        } else {
            &&& at <= before.len()
            &&& after == before.insert(at, after[at])
            &&& forall|j: int| at <= j < before.len() ==> object::sorts_before(
                after[at].0@,
                (#[trigger] before[j]).0@,
            )
        },
    ensures
        in_name_order(after),
        by_id(after) == by_id(before).insert(after[at].0@, after[at].1@),
{
    let new = after[at];
    assert forall|i: int, j: int| 0 <= i < j < after.len() implies object::sorts_before(
        (#[trigger] after[i]).0@,
        (#[trigger] after[j]).0@,
    ) by {
        let x = if replaced || i < at {
            i
        } else {
            i - 1
        };
        let y = if replaced || j < at {
            j
        } else {
            j - 1
        };
        if i == at {
            assert(after[j] == before[y]);
            if replaced {
                assert(object::sorts_before(before[at].0@, before[y].0@));
            }
        } else if j == at {
            assert(after[i] == before[x]);
        } else {
            assert(after[i] == before[x]);
            assert(after[j] == before[y]);
        }
    }
    lemma_by_id(before);
    lemma_by_id(after);
    let held = by_id(before).insert(new.0@, new.1@);
    assert forall|id: Seq<u8>| #[trigger] by_id(after).dom().contains(id) == held.dom().contains(
        id,
    ) by {
        if by_id(after).dom().contains(id) {
            let i = choose|i: int| 0 <= i < after.len() && (#[trigger] after[i]).0@ == id;
            if i != at {
                let x = if replaced || i < at {
                    i
                } else {
                    i - 1
                };
                assert(after[i] == before[x]);
            }
        }
        if by_id(before).dom().contains(id) {
            let x = choose|x: int| 0 <= x < before.len() && (#[trigger] before[x]).0@ == id;
            let i = if replaced || x < at {
                x
            } else {
                x + 1
            };
            assert(after[i].0@ == before[x].0@);
        }
    }
    assert forall|id: Seq<u8>| #[trigger] held.dom().contains(id) implies by_id(after)[id]
        == held[id] by {
        assert(by_id(after).dom().contains(id));
        if id == new.0@ {
            assert(by_id(after)[after[at].0@] == after[at].1@);
        } else {
            let x = choose|x: int| 0 <= x < before.len() && (#[trigger] before[x]).0@ == id;
            let i = if replaced || x < at {
                x
            } else {
                x + 1
            };
            assert(i != at);
            assert(after[i] == before[x]);
            assert(by_id(after)[after[i].0@] == after[i].1@);
        }
    }
    assert(by_id(after) =~= held);
}

impl GraphState {
    /// No commit's record is held twice, and they stand in the order of the
    /// commits' names.
    pub open spec fn wf(self) -> bool {
        in_name_order(self.records@)
    }

    pub fn new() -> (r: Self)
        ensures
            r.wf(),
            by_id(r.records@) == Map::<Seq<u8>, GraphModel>::empty(),
            !r.loaded,
            !r.seeded,
    {
        GraphState { records: Vec::new(), loaded: false, seeded: false }
    }

    /// Begin to load the records, once per session. A second call while the
    /// first is under way finds it begun.
    pub fn ensure_graph_loaded(&mut self, has_graph: bool) -> (r: GraphStep)
        ensures
            r == (if !old(self).loaded && has_graph {
                GraphStep::ReadStore
            } else {
                GraphStep::Done
            }),
            *final(self) == (GraphState { loaded: true, ..*old(self) }),
    {
        if self.loaded {
            return GraphStep::Done;
        }
        self.loaded = true;
        if has_graph {
            GraphStep::ReadStore
        } else {
            GraphStep::Done
        }
    }

    /// Take what the store held. A non-empty store means that a bulk load
    /// finished, since that is all that writes to an empty one; an empty one
    /// asks for a bulk load, where there are commits to load.
    pub fn take_stored(&mut self, cached: Vec<(ObjectId, GraphRecord)>, num_commits: u32) -> (r:
        GraphStep)
        requires
            old(self).wf(),
        ensures
            final(self).wf(),
            r == (if cached@.len() == 0 && num_commits != 0 {
                GraphStep::BulkLoad
            } else {
                GraphStep::Done
            }),
            final(self).seeded == seeded_after(
                old(self).seeded,
                GraphEvent::Stored(cached@.len()),
            ),
            final(self).loaded == old(self).loaded,
            by_id(final(self).records@) == by_id(old(self).records@).union_prefer_right(
                by_id(cached@),
            ),
    {
        if cached.len() > 0 {
            self.put_all(cached);
            self.seeded = true;
            return GraphStep::Done;
        }
        assert(by_id(self.records@).union_prefer_right(by_id(cached@)) =~= by_id(self.records@));
        if num_commits == 0 {
            GraphStep::Done
        } else {
            GraphStep::BulkLoad
        }
    }

    /// Take what the bulk load brought. A failed one leaves the store exactly
    /// as empty as it found it, so that the next session tries again instead of
    /// inheriting a partial load.
    pub fn take_bulk(&mut self, records: Option<Vec<(ObjectId, GraphRecord)>>) -> (r: GraphStep)
        requires
            old(self).wf(),
        ensures
            final(self).wf(),
            final(self).seeded == seeded_after(
                old(self).seeded,
                GraphEvent::Bulk(records is Some),
            ),
            (r == GraphStep::PersistAll) == writes(
                old(self).seeded,
                GraphEvent::Bulk(records is Some),
            ),
            match records {
                Some(records) => {
                    &&& r == GraphStep::PersistAll
                    &&& final(self).loaded == old(self).loaded
                    &&& by_id(final(self).records@) == by_id(
                        old(self).records@,
                    ).union_prefer_right(by_id(records@))
                },
                None => r == GraphStep::Done && *final(self) == *old(self),
            },
    {
        match records {
            Some(records) => {
                self.put_all(records);
                self.seeded = true;
                GraphStep::PersistAll
            },
            None => GraphStep::Done,
        }
    }

    /// Where a commit's record stands, or where it would.
    fn slot(&self, id: &ObjectId) -> (r: Result<usize, usize>)
        requires
            self.wf(),
        ensures
            match r {
                Ok(at) => at < self.records@.len() && self.records@[at as int].0@ == id@,
                Err(at) => {
                    &&& at <= self.records@.len()
                    &&& forall|j: int|
                        0 <= j < at ==> object::sorts_before((#[trigger] self.records@[j]).0@, id@)
                    &&& forall|j: int|
                        at <= j < self.records@.len() ==> object::sorts_before(
                            id@,
                            (#[trigger] self.records@[j]).0@,
                        )
                },
            },
    {
        let mut low: usize = 0;
        let mut high: usize = self.records.len();
        while low < high
            invariant
                self.wf(),
                low <= high <= self.records@.len(),
                forall|j: int|
                    0 <= j < low ==> object::sorts_before((#[trigger] self.records@[j]).0@, id@),
                forall|j: int|
                    high <= j < self.records@.len() ==> object::sorts_before(
                        id@,
                        (#[trigger] self.records@[j]).0@,
                    ),
            decreases high - low,
        {
            let mid: usize = low + (high - low) / 2;
            let ghost name = self.records@[mid as int].0@;
            match self.records[mid].0.standing(id) {
                Standing::Same => {
                    return Ok(mid);
                },
                Standing::Before => {
                    assert forall|j: int| 0 <= j <= mid implies object::sorts_before(
                        (#[trigger] self.records@[j]).0@,
                        id@,
                    ) by {
                        if j < mid {
                            object::lemma_sorts_before(self.records@[j].0@, name, id@);
                        }
                    }
                    low = mid + 1;
                },
                Standing::After => {
                    assert forall|j: int| mid <= j < self.records@.len() implies object::sorts_before(
                        id@,
                        (#[trigger] self.records@[j]).0@,
                    ) by {
                        if j > mid {
                            object::lemma_sorts_before(id@, name, self.records@[j].0@);
                        }
                    }
                    high = mid;
                },
            }
        }
        Err(low)
    }

    /// Hold this record of a commit, in place of one that is held.
    fn put(&mut self, id: ObjectId, rec: GraphRecord)
        requires
            old(self).wf(),
        ensures
            final(self).wf(),
            final(self).loaded == old(self).loaded,
            final(self).seeded == old(self).seeded,
            by_id(final(self).records@) == by_id(old(self).records@).insert(id@, rec@),
    {
        let ghost before = self.records@;
        match self.slot(&id) {
            Ok(at) => {
                self.records.set(at, (id, rec));
                proof {
                    lemma_put(before, self.records@, at as int, true);
                }
            },
            Err(at) => {
                self.records.insert(at, (id, rec));
                proof {
                    assert(self.records@[at as int] == (id, rec));
                    lemma_put(before, self.records@, at as int, false);
                }
            },
        }
    }

    /// Hold all of these, one after the other.
    fn put_all(&mut self, records: Vec<(ObjectId, GraphRecord)>)
        requires
            old(self).wf(),
        ensures
            final(self).wf(),
            final(self).loaded == old(self).loaded,
            final(self).seeded == old(self).seeded,
            by_id(final(self).records@) == by_id(old(self).records@).union_prefer_right(
                by_id(records@),
            ),
    {
        let ghost held = by_id(self.records@);
        let ghost all = records@;
        proof {
            assert(all.take(0) =~= Seq::<(ObjectId, GraphRecord)>::empty());
            assert(held.union_prefer_right(by_id(all.take(0))) =~= held);
        }
        for entry in it: records
            invariant
                it.seq() == all,
                self.wf(),
                self.loaded == old(self).loaded,
                self.seeded == old(self).seeded,
                by_id(self.records@) == held.union_prefer_right(by_id(all.take(it.index() as int))),
        {
            let ghost done = all.take(it.index() as int);
            let ghost next = all.take(it.index() + 1);
            self.put(entry.0, entry.1);
            proof {
                assert(next.drop_last() =~= done);
                assert(next.last() == entry);
                assert(held.union_prefer_right(by_id(next)) =~= held.union_prefer_right(
                    by_id(done),
                ).insert(entry.0@, entry.1@));
            }
        }
        assert(all.take(all.len() as int) =~= all);
    }

    /// The position of the record held for a commit.
    pub fn find(&self, id: &ObjectId) -> (r: Option<usize>)
        requires
            self.wf(),
        ensures
            match r {
                Some(i) => i < self.records@.len() && by_id(self.records@).dom().contains(id@)
                    && by_id(self.records@)[id@] == self.records@[i as int].1@,
                None => !by_id(self.records@).dom().contains(id@),
            },
    {
        proof {
            lemma_by_id(self.records@);
            object::lemma_never_before_itself(id@);
        }
        match self.slot(id) {
            Ok(at) => Some(at),
            Err(_) => None,
        }
    }

    /// Take one commit's record, read from the live file because it is newer
    /// than what is held. It is written to the store only where a bulk load has
    /// filled that: single records in an unfilled store would read as a
    /// finished load, and suppress the bulk load forever.
    pub fn take_record(&mut self, id: ObjectId, rec: GraphRecord) -> (persist: bool)
        requires
            old(self).wf(),
        ensures
            final(self).wf(),
            persist == writes(old(self).seeded, GraphEvent::Record),
            final(self).seeded == seeded_after(old(self).seeded, GraphEvent::Record),
            final(self).loaded == old(self).loaded,
            by_id(final(self).records@) == by_id(old(self).records@).insert(id@, rec@),
    {
        self.put(id, rec);
        self.seeded
    }

    /// Forget the records, whose store was emptied: the next walk loads them
    /// again, and until that has succeeded nothing is written.
    pub fn clear_cache(&mut self)
        ensures
            final(self).wf(),
            by_id(final(self).records@) == Map::<Seq<u8>, GraphModel>::empty(),
            !final(self).loaded,
            final(self).seeded == seeded_after(old(self).seeded, GraphEvent::Cleared),
    {
        self.records = Vec::new();
        self.loaded = false;
        self.seeded = false;
    }
}

/// Whether the session's store is known complete after a run of events.
pub open spec fn seeded_after_all(events: Seq<GraphEvent>) -> bool
    decreases events.len(),
{
    if events.len() == 0 {
        false
    } else {
        seeded_after(seeded_after_all(events.drop_last()), events.last())
    }
}

/// An event that shows the store complete: records read back from it, or a
/// bulk load that finished.
pub open spec fn completes(event: GraphEvent) -> bool {
    match event {
        GraphEvent::Stored(count) => count > 0,
        GraphEvent::Bulk(ok) => ok,
        _ => false,
    }
}

/// A store that nothing has shown complete is not written to: in a session in
/// which no bulk load finished and nothing was read back, no record is.
pub proof fn nothing_is_written_before_a_load_completes(events: Seq<GraphEvent>)
    requires
        forall|i: int| 0 <= i < events.len() ==> !completes(#[trigger] events[i]),
    ensures
        !seeded_after_all(events),
        forall|i: int|
            0 <= i < events.len() ==> !writes(
                seeded_after_all(events.take(i)),
                #[trigger] events[i],
            ),
    decreases events.len(),
{
    if events.len() > 0 {
        let earlier = events.drop_last();
        assert forall|i: int| 0 <= i < earlier.len() implies !completes(#[trigger] earlier[i]) by {
            assert(earlier[i] == events[i]);
        }
        nothing_is_written_before_a_load_completes(earlier);
        assert(!completes(events[events.len() - 1]));
        assert forall|i: int| 0 <= i < events.len() implies !writes(
            seeded_after_all(events.take(i)),
            #[trigger] events[i],
        ) by {
            assert(!completes(events[i]));
            if i < earlier.len() {
                assert(earlier.take(i) =~= events.take(i));
                assert(earlier[i] == events[i]);
            } else {
                assert(events.take(i) =~= earlier);
            }
        }
    }
}

/// A record is found again under the repository that it was stored for, by its
/// commit, and under no other repository's keys.
pub proof fn stored_records_are_found_by_their_commit(
    repo_url: Seq<char>,
    other: Seq<char>,
    r: StoredRecord,
    id: Seq<u8>,
    tag: u32,
)
    requires
        id.len() == 20,
        r.key@ == keys::graph_key(repo_url, id),
    ensures
        stored_entry(repo_url, r, tag) == (match stored_graph(r, tag) {
            Some(rec) => Some((id, rec)),
            None => None,
        }),
        !(other + seq![':', ':']).is_prefix_of(r.key@) ==> stored_entry(other, r, tag) is None,
{
    reveal_strlit("::");
    assert("::"@ =~= seq![':', ':']);
    let prefix = keys::key_prefix(repo_url);
    let hex = object::hex_text(id);
    assert(r.key@.subrange(0, prefix.len() as int) =~= prefix);
    assert(r.key@.skip(prefix.len() as int) =~= hex);
    object::object_name_round_trips(id);
}

/// Of the records of one commit the last counts.
pub proof fn last_record_of_a_commit_counts(
    records: Seq<(ObjectId, GraphRecord)>,
    more: Seq<(ObjectId, GraphRecord)>,
    one: (ObjectId, GraphRecord),
)
    requires
        forall|k: int| 0 <= k < more.len() ==> (#[trigger] more[k]).0@ != one.0@,
    ensures
        by_id(records.push(one) + more).dom().contains(one.0@),
        by_id(records.push(one) + more)[one.0@] == one.1@,
        by_id(more).dom().contains(one.0@) == false,
    decreases more.len(),
{
    let all = records.push(one) + more;
    if more.len() == 0 {
        assert(all =~= records.push(one));
        assert(all.drop_last() =~= records);
    } else {
        let front = more.drop_last();
        assert(more[more.len() - 1].0@ != one.0@);
        assert forall|k: int| 0 <= k < front.len() implies (#[trigger] front[k]).0@ != one.0@ by {
            assert(front[k] == more[k]);
        }
        last_record_of_a_commit_counts(records, front, one);
        assert(all.drop_last() =~= records.push(one) + front);
        assert(all.last() == more.last());
    }
}

/// A bulk load that ended, or records that were read back, show the store
/// complete, and from there every record is written, until the session is
/// cleared; nothing else shows it.
pub proof fn loads_show_a_store_complete(seeded: bool, count: nat)
    ensures
        seeded_after(seeded, GraphEvent::Bulk(true)),
        seeded_after(seeded, GraphEvent::Bulk(false)) == seeded,
        seeded_after(seeded, GraphEvent::Stored(count)) == (seeded || count != 0),
        seeded_after(seeded, GraphEvent::Started) == seeded,
        seeded_after(seeded, GraphEvent::Record) == seeded,
        !seeded_after(seeded, GraphEvent::Cleared),
        writes(seeded, GraphEvent::Record) == seeded,
        writes(seeded, GraphEvent::Bulk(true)),
        !writes(seeded, GraphEvent::Bulk(false)),
{
}

} // verus!
