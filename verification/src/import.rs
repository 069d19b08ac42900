//! Loading a git bundle into the object cache: objects gather into batches, and
//! an object is found in the batch that has not been written yet.

use vstd::prelude::*;
use crate::object::{ObjectId, RawModel, RawObject};
use crate::stats;
use crate::stats::format_bytes;
use crate::text::{concat, concat3};

verus! {

/// How much object content to hold before writing a batch.
///
/// One transaction per object would spend most of the import opening and
/// committing them; one transaction for everything would keep a repository in
/// memory twice over.
pub const BATCH_BYTES: usize = 4 * 1024 * 1024;

/// And a ceiling on the count, for a history of very small objects.
pub const BATCH_OBJECTS: usize = 512;

/// What an import put into the cache.
#[derive(Clone, Copy, PartialEq, Eq, Structural, Debug)]
pub struct Imported {
    /// How many objects the bundle carried.
    pub objects: usize,
    /// How many refs its header named.
    pub refs: usize,
}

/// Objects read but not yet written, and what they weigh.
pub struct Batch {
    pub pending: Vec<(ObjectId, RawObject)>,
    pub bytes: usize,
}

/// What a batch holds, in the order it was put in.
pub open spec fn held(pending: Seq<(ObjectId, RawObject)>) -> Seq<(Seq<u8>, RawModel)> {
    pending.map_values(|p: (ObjectId, RawObject)| (p.0@, p.1@))
}

/// How many bytes of content there are in `objects`.
pub open spec fn weight(objects: Seq<(Seq<u8>, RawModel)>) -> int
    decreases objects.len(),
{
    if objects.len() == 0 {
        0
    } else {
        weight(objects.drop_last()) + objects.last().1.1.len()
    }
}

/// The object that `id` names, where it is held.
pub open spec fn found(objects: Seq<(Seq<u8>, RawModel)>, id: Seq<u8>) -> Option<RawModel>
    decreases objects.len(),
{
    if objects.len() == 0 {
        None
    } else if objects[0].0 == id {
        Some(objects[0].1)
    } else {
        found(objects.drop_first(), id)
    }
}

impl View for Batch {
    type V = Seq<(Seq<u8>, RawModel)>;

    open spec fn view(&self) -> Seq<(Seq<u8>, RawModel)> {
        held(self.pending@)
    }
}

impl Batch {
    /// The weight on record is that of what is held.
    pub open spec fn wf(self) -> bool {
        self.bytes == weight(self@)
    }

    pub fn new() -> (r: Self)
        ensures
            r.wf(),
            r@.len() == 0,
    {
        Batch { pending: Vec::new(), bytes: 0 }
    }

    /// Hold an object back. The answer is whether the batch is full and wants
    /// writing.
    pub fn put(&mut self, id: ObjectId, object: &RawObject) -> (r: bool)
        requires
            old(self).wf(),
            old(self).bytes + object@.1.len() <= usize::MAX,
        ensures
            final(self).wf(),
            final(self)@ == old(self)@.push((id@, object@)),
            r == (final(self)@.len() >= BATCH_OBJECTS || weight(final(self)@) >= BATCH_BYTES),
    {
        let ghost was = self@;
        let size: usize = object.body.len();
        self.pending.push((id, object.copy()));
        self.bytes = self.bytes + size;
        proof {
            assert(self@ =~= was.push((id@, object@)));
            assert(self@.drop_last() =~= was);
        }
        self.pending.len() >= BATCH_OBJECTS || self.bytes >= BATCH_BYTES
    }

    /// Everything held back, to be written; nothing is held after. An empty
    /// batch is not written.
    pub fn take(&mut self) -> (r: Option<Vec<(ObjectId, RawObject)>>)
        ensures
            final(self).wf(),
            final(self)@.len() == 0,
            match r {
                Some(batch) => held(batch@) == old(self)@ && batch@.len() > 0,
                None => old(self)@.len() == 0,
            },
    {
        let mut batch: Vec<(ObjectId, RawObject)> = Vec::new();
        std::mem::swap(&mut batch, &mut self.pending);
        self.bytes = 0;
        if batch.len() == 0 {
            None
        } else {
            Some(batch)
        }
    }

    /// An object that is still held back. One that is not may be in the cache,
    /// from long before this import too.
    pub fn get(&self, id: &ObjectId) -> (r: Option<RawObject>)
        ensures
            match r {
                Some(object) => found(self@, id@) == Some(object@),
                None => found(self@, id@) is None,
            },
    {
        let mut i: usize = 0;
        proof {
            assert(self@.skip(0) =~= self@);
        }
        while i < self.pending.len()
            invariant
                i <= self.pending@.len(),
                found(self@, id@) == found(self@.skip(i as int), id@),
            decreases self.pending@.len() - i,
        {
            proof {
                assert(self@.skip(i as int)[0] == self@[i as int]);
                assert(self@.skip(i as int).drop_first() =~= self@.skip(i + 1));
            }
            if self.pending[i].0.same(id) {
                return Some(self.pending[i].1.copy());
            }
            i = i + 1;
        }
        None
    }
}

/// Why a file of this size is refused.
pub open spec fn refusal(size: nat, limit: nat) -> Seq<char> {
    "that file is "@ + stats::bytes_text(size) + ", which is more than the "@ + stats::bytes_text(
        limit,
    ) + " this can read at once"@
}

/// Whether a file is small enough to be read whole; why not, where it isn't.
pub fn check_size(size: u64, limit: u64) -> (r: Result<(), String>)
    ensures
        match r {
            Ok(_) => size <= limit,
            Err(why) => size > limit && why@ == refusal(size as nat, limit as nat),
        },
{
    if size > limit {
        let head = concat3(
            "that file is ",
            format_bytes(size).as_str(),
            ", which is more than the ",
        );
        let tail = concat(format_bytes(limit).as_str(), " this can read at once");
        let why = concat(head.as_str(), tail.as_str());
        proof {
            assert(why@ =~= refusal(size as nat, limit as nat));
        }
        Err(why)
    } else {
        Ok(())
    }
}

/// An object that has just been put in is found, unless one of the same name
/// was there already; then that one is.
pub proof fn held_object_is_found(
    objects: Seq<(Seq<u8>, RawModel)>,
    id: Seq<u8>,
    object: RawModel,
)
    ensures
        found(objects.push((id, object)), id) == (match found(objects, id) {
            Some(earlier) => Some(earlier),
            None => Some(object),
        }),
    decreases objects.len(),
{
    let more = objects.push((id, object));
    if objects.len() == 0 {
        assert(more[0] == (id, object));
    } else {
        assert(more[0] == objects[0]);
        assert(more.drop_first() =~= objects.drop_first().push((id, object)));
        held_object_is_found(objects.drop_first(), id, object);
    }
}

/// An object is found by its name wherever it is held, the first that was held
/// under it; what is held weighs what its objects do.
pub proof fn held_objects_are_found_by_name(
    objects: Seq<(Seq<u8>, RawModel)>,
    more: Seq<(Seq<u8>, RawModel)>,
    id: Seq<u8>,
    i: int,
)
    ensures
        0 <= i < objects.len() && objects[i].0 == id && (forall|j: int|
            0 <= j < i ==> (#[trigger] objects[j]).0 != id) ==> found(objects, id) == Some(
            objects[i].1,
        ),
        (forall|j: int| 0 <= j < objects.len() ==> (#[trigger] objects[j]).0 != id) ==> found(
            objects,
            id,
        ) is None,
        weight(objects + more) == weight(objects) + weight(more),
        0 <= i < objects.len() ==> weight(seq![objects[i]]) == objects[i].1.1.len(),
    decreases objects.len(), more.len(),
{
    if 0 <= i < objects.len() {
        let one = seq![objects[i]];
        assert(one.drop_last() =~= Seq::empty());
        assert(weight(Seq::<(Seq<u8>, RawModel)>::empty()) == 0);
    }
    if more.len() == 0 {
        assert(objects + more =~= objects);
    } else {
        assert((objects + more).drop_last() =~= objects + more.drop_last());
        held_objects_are_found_by_name(objects, more.drop_last(), id, i);
    }
    if objects.len() > 0 {
        let rest = objects.drop_first();
        held_objects_are_found_by_name(rest, Seq::empty(), id, i - 1);
        if 0 < i < objects.len() && objects[i].0 == id && (forall|j: int|
            0 <= j < i ==> (#[trigger] objects[j]).0 != id) {
            assert(objects[0].0 != id);
            assert(rest[i - 1] == objects[i]);
            assert forall|j: int| 0 <= j < i - 1 implies (#[trigger] rest[j]).0 != id by {
                assert(rest[j] == objects[j + 1]);
            }
        }
        if forall|j: int| 0 <= j < objects.len() ==> (#[trigger] objects[j]).0 != id {
            assert(objects[0].0 != id);
            assert forall|j: int| 0 <= j < rest.len() implies (#[trigger] rest[j]).0 != id by {
                assert(rest[j] == objects[j + 1]);
            }
        }
    }
}

} // verus!
