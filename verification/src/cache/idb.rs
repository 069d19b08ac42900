//! The database's versions, and what takes one to the next.

use vstd::prelude::*;
use crate::text;

verus! {

/// The version of the database that this build reads and writes.
pub const DB_VERSION: u32 = 6;

/// The stores that a version of the database may hold.
#[derive(Clone, Copy, PartialEq, Eq, Structural, Debug)]
pub enum Store {
    Objects,
    /// Tags, one by one: superseded by reading all refs at once.
    TagRefs,
    /// Commit-graph records.
    Graph,
}

/// The name of a store.
pub fn store_name(store: Store) -> (r: &'static str)
    ensures
        r@ == (match store {
            Store::Objects => "objects"@,
            Store::TagRefs => "tag_refs"@,
            Store::Graph => "graph"@,
        }),
{
    match store {
        Store::Objects => "objects",
        Store::TagRefs => "tag_refs",
        Store::Graph => "graph",
    }
}

/// One step of a migration.
#[derive(Clone, Copy, PartialEq, Eq, Structural, Debug)]
pub enum MigrationStep {
    Delete(Store),
    /// Create the store, with records keyed by their `id`.
    Create(Store),
    /// Rewrite every object's key to the bare OID, which [`bare_key`] gives.
    DropObjectPrefixes,
}

pub open spec fn step_when(present: bool, step: MigrationStep) -> Seq<MigrationStep> {
    if present {
        seq![step]
    } else {
        Seq::empty()
    }
}

/// What takes a database from version `old` to this one.
pub open spec fn steps_from(old: u32) -> Seq<MigrationStep> {
    // Objects keyed by the repository as well, at first; what was cached
    // before that is discarded.
    step_when(1 <= old < 3, MigrationStep::Delete(Store::Objects))
    + step_when(old < 3, MigrationStep::Create(Store::Objects))
    + step_when(2 <= old < 4, MigrationStep::Delete(Store::TagRefs))
    + step_when(old < 5, MigrationStep::Create(Store::Graph))
    // Objects are content-addressed, so forks share one cached copy under the
    // bare name.
    + step_when(3 <= old < 6, MigrationStep::DropObjectPrefixes)
}

/// What takes a database from version `old` to this one, in order.
pub fn migration_steps(old: u32) -> (r: Vec<MigrationStep>)
    ensures
        r@ == steps_from(old),
{
    let mut steps: Vec<MigrationStep> = Vec::new();
    if old < 3 {
        if old >= 1 {
            steps.push(MigrationStep::Delete(Store::Objects));
        }
        steps.push(MigrationStep::Create(Store::Objects));
    }
    if 2 <= old && old < 4 {
        steps.push(MigrationStep::Delete(Store::TagRefs));
    }
    if old < 5 {
        steps.push(MigrationStep::Create(Store::Graph));
    }
    if 3 <= old && old < 6 {
        steps.push(MigrationStep::DropObjectPrefixes);
    }
    assert(steps@ =~= steps_from(old));
    steps
}

/// The stores that a database of this version holds.
pub open spec fn stores_at(version: u32) -> Set<Store> {
    if version == 0 {
        Set::empty()
    } else if version == 1 {
        set![Store::Objects]
    } else if version <= 3 {
        set![Store::Objects, Store::TagRefs]
    } else if version == 4 {
        set![Store::Objects]
    } else {
        set![Store::Objects, Store::Graph]
    }
}

/// The stores after a step, and whether the step could be taken: only what is
/// there is deleted or rewritten, and only what is not there is created.
pub open spec fn stores_after(stores: Set<Store>, step: MigrationStep) -> (Set<Store>, bool) {
    match step {
        MigrationStep::Delete(store) => (stores.remove(store), stores.contains(store)),
        MigrationStep::Create(store) => (stores.insert(store), !stores.contains(store)),
        MigrationStep::DropObjectPrefixes => (stores, stores.contains(Store::Objects)),
    }
}

/// The stores after a run of steps, and whether each could be taken.
pub open spec fn stores_after_all(stores: Set<Store>, steps: Seq<MigrationStep>) -> (
    Set<Store>,
    bool,
)
    decreases steps.len(),
{
    if steps.len() == 0 {
        (stores, true)
    } else {
        let (before, ok) = stores_after_all(stores, steps.drop_last());
        let (after, last_ok) = stores_after(before, steps.last());
        (after, ok && last_ok)
    }
}

proof fn lemma_push_step(stores: Set<Store>, steps: Seq<MigrationStep>, step: MigrationStep)
    ensures
        stores_after_all(stores, steps.push(step)) == ({
            let (before, ok) = stores_after_all(stores, steps);
            let (after, last_ok) = stores_after(before, step);
            (after, ok && last_ok)
        }),
{
    assert(steps.push(step).drop_last() =~= steps);
}

/// From every earlier version, the steps can each be taken in their order, and
/// leave the stores that this version holds.
pub proof fn every_version_migrates_to_this_one(old: u32)
    requires
        old <= DB_VERSION,
    ensures
        stores_after_all(stores_at(old), steps_from(old)) == (stores_at(DB_VERSION), true),
{
    let s = stores_at(old);
    let none = Seq::<MigrationStep>::empty();
    let d = MigrationStep::Delete(Store::Objects);
    let c = MigrationStep::Create(Store::Objects);
    let t = MigrationStep::Delete(Store::TagRefs);
    let g = MigrationStep::Create(Store::Graph);
    let b = MigrationStep::DropObjectPrefixes;
    let p1 = none + step_when(1 <= old < 3, d);
    let p2 = p1 + step_when(old < 3, c);
    let p3 = p2 + step_when(2 <= old < 4, t);
    let p4 = p3 + step_when(old < 5, g);
    let p5 = p4 + step_when(3 <= old < 6, b);
    assert(steps_from(old) =~= p5);
    lemma_push_step(s, none, d);
    lemma_push_step(s, p1, c);
    lemma_push_step(s, p2, t);
    lemma_push_step(s, p3, g);
    lemma_push_step(s, p4, b);
    assert(p1 =~= if 1 <= old < 3 {
        none.push(d)
    } else {
        none
    });
    assert(p2 =~= if old < 3 {
        p1.push(c)
    } else {
        p1
    });
    assert(p3 =~= if 2 <= old < 4 {
        p2.push(t)
    } else {
        p2
    });
    assert(p4 =~= if old < 5 {
        p3.push(g)
    } else {
        p3
    });
    assert(p5 =~= if 3 <= old < 6 {
        p4.push(b)
    } else {
        p4
    });
    assert(stores_after_all(s, p5).0 =~= stores_at(DB_VERSION));
}

/// What follows the last `::` of a key, where there is one.
pub open spec fn after_last_colons(key: Seq<char>) -> Option<Seq<char>>
    decreases key.len(),
{
    if key.len() < 2 {
        None
    } else {
        match after_last_colons(key.drop_first()) {
            Some(rest) => Some(rest),
            None => if key[0] == ':' && key[1] == ':' {
                Some(key.skip(2))
            } else {
                None
            },
        }
    }
}

proof fn lemma_after_last_colons(key: Seq<char>, i: int)
    requires
        0 <= i <= key.len() - 2,
        key[i] == ':' && key[i + 1] == ':',
        forall|j: int| i < j < key.len() - 1 ==> !(#[trigger] key[j] == ':' && key[j + 1] == ':'),
    ensures
        after_last_colons(key) == Some(key.skip(i + 2)),
    decreases key.len(),
{
    let t = key.drop_first();
    if i == 0 {
        assert forall|j: int| 0 <= j < t.len() - 1 implies !(#[trigger] t[j] == ':' && t[j + 1]
            == ':') by {
            assert(t[j] == key[j + 1]);
        }
        lemma_no_colons(t);
    } else {
        assert forall|j: int| i - 1 < j < t.len() - 1 implies !(#[trigger] t[j] == ':' && t[j + 1]
            == ':') by {
            assert(t[j] == key[j + 1]);
        }
        lemma_after_last_colons(t, i - 1);
        assert(t.skip(i + 1) =~= key.skip(i + 2));
    }
}

proof fn lemma_no_colons(key: Seq<char>)
    requires
        forall|j: int| 0 <= j < key.len() - 1 ==> !(#[trigger] key[j] == ':' && key[j + 1] == ':'),
    ensures
        after_last_colons(key) is None,
    decreases key.len(),
{
    if key.len() >= 2 {
        let t = key.drop_first();
        assert forall|j: int| 0 <= j < t.len() - 1 implies !(#[trigger] t[j] == ':' && t[j + 1]
            == ':') by {
            assert(t[j] == key[j + 1]);
        }
        assert(!(key[0] == ':' && key[1] == ':'));
        lemma_no_colons(t);
    }
}

/// The bare OID that a key of the form `"{repo_url}::{oid}"` ends in; `None`
/// for one that is bare already, which is skipped.
pub fn bare_key(key: &str) -> (r: Option<String>)
    ensures
        match r {
            Some(bare) => after_last_colons(key@) == Some(bare@),
            None => after_last_colons(key@) is None,
        },
{
    let v = text::chars_of(key);
    let n: usize = v.len();
    if n < 2 {
        return None;
    }
    let mut i: usize = n - 1;
    while i > 0
        invariant
            v@ == key@,
            n == v@.len(),
            i < n,
            forall|j: int|
                i <= j < key@.len() - 1 ==> !(#[trigger] key@[j] == ':' && key@[j + 1] == ':'),
        decreases i,
    {
        if v[i - 1] == ':' && v[i] == ':' {
            proof {
                lemma_after_last_colons(key@, i - 1);
                assert(key@.subrange(i + 1, n as int) =~= key@.skip(i + 1));
            }
            return Some(text::string_of(&v, i + 1, n));
        }
        i = i - 1;
    }
    proof {
        lemma_no_colons(key@);
    }
    None
}

/// A bare key stays as it is: rewriting the keys twice is rewriting them once.
pub proof fn rewriting_keys_is_idempotent(key: Seq<char>)
    ensures
        after_last_colons(key) matches Some(bare) ==> after_last_colons(bare) is None,
    decreases key.len(),
{
    if key.len() >= 2 {
        rewriting_keys_is_idempotent(key.drop_first());
        if after_last_colons(key.drop_first()) is None && key[0] == ':' && key[1] == ':' {
            let t = key.drop_first();
            assert(t.drop_first() =~= key.skip(2));
            if t.len() >= 2 {
                assert(after_last_colons(t.drop_first()) is None);
            }
        }
    }
}

/// A key is rewritten to the name behind its last two colons, whatever stands
/// before them.
pub proof fn keys_are_rewritten_to_their_names(front: Seq<char>, name: Seq<char>)
    requires
        !name.contains(':'),
    ensures
        after_last_colons(front + seq![':', ':'] + name) == Some(name),
        after_last_colons(name) is None,
{
    let key = front + seq![':', ':'] + name;
    let n = front.len() as int;
    assert(key[n] == ':' && key[n + 1] == ':');
    assert forall|j: int| n < j < key.len() - 1 implies !(#[trigger] key[j] == ':' && key[j + 1]
        == ':') by {
        assert(key[j + 1] == name[j + 1 - n - 2]);
        assert(name.contains(name[j - n - 1]));
    }
    lemma_after_last_colons(key, n);
    assert(key.skip(n + 2) =~= name);
    assert forall|j: int| 0 <= j < name.len() - 1 implies !(#[trigger] name[j] == ':' && name[j + 1]
        == ':') by {
        assert(name.contains(name[j]));
    }
    lemma_no_colons(name);
}

} // verus!
