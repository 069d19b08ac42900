//! The fields a cached record is stored as.

use vstd::prelude::*;
use crate::object;
use crate::object::{ObjectId, ObjectType, RawModel, RawObject};
use crate::fetch::copy_bytes;

verus! {

/// The settings of a commit-graph's changed-path Bloom filters.
#[derive(Clone, Copy, PartialEq, Eq, Structural, Debug)]
pub struct BloomSettings {
    pub hash_version: u32,
    pub num_hashes: u32,
    pub bits_per_entry: u32,
}

/// A fingerprint of the Bloom settings: the low byte of the version and of the
/// number of hashes, and the low two bytes of the bits per entry.
pub open spec fn tag_of(s: BloomSettings) -> int {
    s.hash_version as int % 256 + 256 * (s.num_hashes as int % 256) + 65536 * (
    s.bits_per_entry as int % 65536)
}

/// A numeric fingerprint of the Bloom settings, stored beside each filter so a
/// settings change invalidates only the filters (not the metadata).
pub fn settings_tag(s: BloomSettings) -> (r: u32)
    ensures
        r == tag_of(s),
{
    let version: u32 = s.hash_version % 256;
    let hashes: u32 = s.num_hashes % 256;
    let bits: u32 = s.bits_per_entry % 65536;
    version + 256 * hashes + 65536 * bits
}

/// The object named by these bytes, where there are twenty of them.
pub fn oid_from_bytes(bytes: &[u8]) -> (r: Option<ObjectId>)
    ensures
        match r {
            Some(id) => id@ == bytes@,
            None => bytes@.len() != 20,
        },
{
    if bytes.len() != 20 {
        return None;
    }
    let mut out: [u8; 20] = [0;20];
    let mut i: usize = 0;
    while i < 20
        invariant
            i <= 20,
            bytes@.len() == 20,
            out@.len() == 20,
            forall|j: int| 0 <= j < i ==> out@[j] == bytes@[j],
        decreases 20 - i,
    {
        out[i] = bytes[i];
        i = i + 1;
    }
    assert(out@ =~= bytes@);
    Some(ObjectId { bytes: out })
}

/// The number an object's kind is stored as, which is git's own in a pack.
pub open spec fn type_code(t: ObjectType) -> u8 {
    match t {
        ObjectType::Commit => 1,
        ObjectType::Tree => 2,
        ObjectType::Blob => 3,
        ObjectType::Tag => 4,
    }
}

/// The number an object's kind is stored as.
pub fn object_type_to_u8(t: ObjectType) -> (r: u8)
    ensures
        r == type_code(t),
{
    match t {
        ObjectType::Commit => 1,
        ObjectType::Tree => 2,
        ObjectType::Blob => 3,
        ObjectType::Tag => 4,
    }
}

/// The kind that a stored number stands for.
pub fn u8_to_object_type(n: u8) -> (r: Option<ObjectType>)
    ensures
        match r {
            Some(t) => n == type_code(t),
            None => n < 1 || n > 4,
        },
{
    if n == 1 {
        Some(ObjectType::Commit)
    } else if n == 2 {
        Some(ObjectType::Tree)
    } else if n == 3 {
        Some(ObjectType::Blob)
    } else if n == 4 {
        Some(ObjectType::Tag)
    } else {
        None
    }
}

/// An object's record in the database.
pub struct StoredObject {
    pub id: String,
    pub kind: u8,
    pub data: Vec<u8>,
}

/// An object's record. Objects are content-addressed, so the name alone is the
/// key: every repository shares one copy.
pub fn object_record(id: ObjectId, raw: &RawObject) -> (r: StoredObject)
    ensures
        r.id@ == object::hex_text(id@),
        r.kind == type_code(raw.object_type),
        r.data@ == raw.body@,
{
    StoredObject {
        id: id.to_hex(),
        kind: object_type_to_u8(raw.object_type),
        data: copy_bytes(&raw.body),
    }
}

/// The object that a record's fields hold; none, where one of them is missing
/// or the kind is unknown.
pub open spec fn recorded(kind: Option<u8>, data: Option<Seq<u8>>) -> Option<RawModel> {
    match (kind, data) {
        (Some(n), Some(body)) => if n == 1 {
            Some((ObjectType::Commit, body))
        } else if n == 2 {
            Some((ObjectType::Tree, body))
        } else if n == 3 {
            Some((ObjectType::Blob, body))
        } else if n == 4 {
            Some((ObjectType::Tag, body))
        } else {
            None
        },
        _ => None,
    }
}

/// The object that a record's fields hold.
pub fn object_from_record(kind: Option<u8>, data: Option<Vec<u8>>) -> (r: Option<RawObject>)
    ensures
        recorded(
            kind,
            (match data {
                Some(body) => Some(body@),
                None => None,
            }),
        ) == (match r {
            Some(raw) => Some(raw@),
            None => None::<RawModel>,
        }),
{
    match (kind, data) {
        (Some(n), Some(body)) => match u8_to_object_type(n) {
            Some(object_type) => Some(RawObject { object_type, body }),
            None => None,
        },
        _ => None,
    }
}

/// An object's record reads back as the object.
pub proof fn object_record_round_trips(raw: RawModel)
    ensures
        recorded(Some(type_code(raw.0)), Some(raw.1)) == Some(raw),
{
}

/// A kind's number stands for that kind alone.
pub proof fn type_codes_are_distinct(a: ObjectType, b: ObjectType)
    ensures
        type_code(a) == type_code(b) <==> a == b,
        1 <= type_code(a) <= 4,
{
}

/// The total size of the cached objects' bodies.
pub open spec fn total(sizes: Seq<u64>) -> int
    decreases sizes.len(),
{
    if sizes.len() == 0 {
        0
    } else {
        total(sizes.drop_last()) + sizes.last()
    }
}

/// The sizes of a prefix add up to no more than those of the whole.
proof fn lemma_total_prefix(sizes: Seq<u64>, i: int)
    requires
        0 <= i <= sizes.len(),
    ensures
        0 <= total(sizes.take(i)) <= total(sizes),
    decreases sizes.len(),
{
    if i == sizes.len() {
        assert(sizes.take(i) =~= sizes);
        if i > 0 {
            lemma_total_prefix(sizes.drop_last(), i - 1);
        }
    } else {
        lemma_total_prefix(sizes.drop_last(), i);
        assert(sizes.drop_last().take(i) =~= sizes.take(i));
    }
}

/// How many objects are cached, and the size of their bodies together.
pub fn cached_object_stats(sizes: &Vec<u64>) -> (r: (usize, u64))
    requires
        total(sizes@) <= u64::MAX,
    ensures
        r.0 == sizes@.len(),
        r.1 == total(sizes@),
{
    let n: usize = sizes.len();
    let mut sum: u64 = 0;
    let mut i: usize = 0;
    assert(sizes@.take(0) =~= Seq::<u64>::empty());
    while i < n
        invariant
            n == sizes@.len(),
            i <= n,
            total(sizes@) <= u64::MAX,
            sum == total(sizes@.take(i as int)),
        decreases n - i,
    {
        proof {
            lemma_total_prefix(sizes@, i + 1);
            assert(sizes@.take(i + 1).drop_last() =~= sizes@.take(i as int));
        }
        sum = sum + sizes[i];
        i = i + 1;
    }
    assert(sizes@.take(n as int) =~= sizes@);
    (n, sum)
}

/// Settings that differ have tags that differ, as long as each of them fits its
/// share of the tag.
pub proof fn settings_have_their_own_tags(a: BloomSettings, b: BloomSettings)
    requires
        a.hash_version < 256,
        b.hash_version < 256,
        a.num_hashes < 256,
        b.num_hashes < 256,
        a.bits_per_entry < 65536,
        b.bits_per_entry < 65536,
        tag_of(a) == tag_of(b),
    ensures
        a.hash_version == b.hash_version,
        a.num_hashes == b.num_hashes,
        a.bits_per_entry == b.bits_per_entry,
{
    lemma_tag(a);
    lemma_tag(b);
    lemma_shares(
        (a.hash_version as int, a.num_hashes as int, a.bits_per_entry as int),
        (b.hash_version as int, b.num_hashes as int, b.bits_per_entry as int),
    );
}

proof fn lemma_tag(s: BloomSettings)
    requires
        s.hash_version < 256,
        s.num_hashes < 256,
        s.bits_per_entry < 65536,
    ensures
        tag_of(s) == s.hash_version + 256 * s.num_hashes + 65536 * s.bits_per_entry,
{
    vstd::arithmetic::div_mod::lemma_small_mod(s.hash_version as nat, 256);
    vstd::arithmetic::div_mod::lemma_small_mod(s.num_hashes as nat, 256);
    vstd::arithmetic::div_mod::lemma_small_mod(s.bits_per_entry as nat, 65536);
}

proof fn lemma_shares(a: (int, int, int), b: (int, int, int))
    requires
        0 <= a.0 < 256,
        0 <= b.0 < 256,
        0 <= a.1 < 256,
        0 <= b.1 < 256,
        a.0 + 256 * a.1 + 65536 * a.2 == b.0 + 256 * b.1 + 65536 * b.2,
    ensures
        a == b,
{
}

/// Kinds are stored under git's own numbers.
pub proof fn kinds_have_gits_numbers(kind: u8, body: Seq<u8>)
    ensures
        recorded(Some(kind), Some(body)) == (match kind {
            1u8 => Some((ObjectType::Commit, body)),
            2u8 => Some((ObjectType::Tree, body)),
            3u8 => Some((ObjectType::Blob, body)),
            4u8 => Some((ObjectType::Tag, body)),
            _ => None,
        }),
        recorded(None, Some(body)) is None,
        recorded(Some(kind), None) is None,
{
}

/// Sizes add up.
pub proof fn sizes_add_up(a: Seq<u64>, b: Seq<u64>, n: u64)
    ensures
        total(a + b) == total(a) + total(b),
        total(seq![n]) == n,
    decreases b.len(),
{
    assert(seq![n].drop_last() =~= Seq::empty());
    assert(total(Seq::<u64>::empty()) == 0);
    if b.len() == 0 {
        assert(a + b =~= a);
    } else {
        assert((a + b).drop_last() =~= a + b.drop_last());
        sizes_add_up(a, b.drop_last(), n);
    }
}

} // verus!
