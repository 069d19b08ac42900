//! The key computations the cache does.

use vstd::prelude::*;
use crate::object;
use crate::object::{ObjectId, ObjectIdPrefix, PrefixResolution};
use crate::text;
use crate::text::concat;

verus! {

/// Whether `digits` abbreviate the key of entry `i`.
pub open spec fn key_matches<T>(map: Seq<(ObjectId, T)>, digits: Seq<u8>, i: int) -> bool {
    0 <= i < map.len() && object::begins_with(map[i].0@, digits)
}

/// What `digits` name among the keys of `map`: none of them, exactly one, or
/// two different ones.
pub open spec fn resolves<T>(
    map: Seq<(ObjectId, T)>,
    digits: Seq<u8>,
    resolved: PrefixResolution,
) -> bool {
    match resolved {
        PrefixResolution::NotFound => forall|i: int| !key_matches(map, digits, i),
        PrefixResolution::Found(id) => exists|i: int|
            {
                &&& #[trigger] key_matches(map, digits, i)
                &&& map[i].0@ == id@
                &&& forall|j: int| #[trigger]
                    key_matches(map, digits, j) ==> map[j].0@ == id@
            },
        PrefixResolution::Ambiguous => exists|i: int, j: int|
            #![trigger key_matches(map, digits, i), key_matches(map, digits, j)]
            key_matches(map, digits, i) && key_matches(map, digits, j) && map[i].0@ != map[j].0@,
    }
}

/// Resolve an abbreviated SHA against a map keyed by object ID. An ID that is
/// held twice is still one.
pub fn resolve_prefix_in_map<T>(map: &Vec<(ObjectId, T)>, prefix: &ObjectIdPrefix) -> (r:
    PrefixResolution)
    requires
        prefix.wf(),
    ensures
        resolves(map@, prefix.digits@, r),
{
    let n: usize = map.len();
    let mut first: Option<usize> = None;
    let mut i: usize = 0;
    while i < n
        invariant
            n == map@.len(),
            i <= n,
            prefix.wf(),
            match first {
                None => forall|j: int| 0 <= j < i ==> !key_matches(map@, prefix.digits@, j),
                Some(k) => {
                    &&& k < i
                    &&& key_matches(map@, prefix.digits@, k as int)
                    &&& forall|j: int|
                        0 <= j < i && #[trigger] key_matches(map@, prefix.digits@, j)
                            ==> map@[j].0@ == map@[k as int].0@
                },
            },
        decreases n - i,
    {
        if prefix.covers(&map[i].0) {
            assert(key_matches(map@, prefix.digits@, i as int));
            match first {
                Some(k) => {
                    assert(key_matches(map@, prefix.digits@, k as int));
                    if !map[k].0.same(&map[i].0) {
                        return PrefixResolution::Ambiguous;
                    }
                },
                None => {
                    first = Some(i);
                },
            }
        }
        i = i + 1;
    }
    match first {
        None => PrefixResolution::NotFound,
        Some(k) => {
            let id = map[k].0;
            assert(key_matches(map@, prefix.digits@, k as int) && map@[k as int].0@ == id@);
            PrefixResolution::Found(id)
        },
    }
}

/// What every key of a repository's records in the graph store begins with.
pub open spec fn key_prefix(repo_url: Seq<char>) -> Seq<char> {
    repo_url + "::"@
}

/// The key of a commit's record in the graph store.
pub open spec fn graph_key(repo_url: Seq<char>, id: Seq<u8>) -> Seq<char> {
    key_prefix(repo_url) + object::hex_text(id)
}

/// Inclusive key bounds selecting one repo's records in the graph store, whose
/// keys are `"{repo_url}::{oid}"`. The lower bound is the bare prefix; the upper
/// appends U+FFFF, which sorts above every character a hex OID can contain.
pub fn graph_key_bounds(repo_url: &str) -> (r: (String, String))
    ensures
        r.0@ == key_prefix(repo_url@),
        r.1@ == key_prefix(repo_url@).push('\u{ffff}'),
{
    let prefix = concat(repo_url, "::");
    let mut upper: String = prefix.clone();
    upper.push('\u{ffff}');
    (prefix, upper)
}

/// Whether a key lies in the range that selects a repository's records.
pub open spec fn in_range(repo_url: Seq<char>, key: Seq<char>) -> bool {
    text::sorts_up_to(key_prefix(repo_url), key) && text::sorts_up_to(
        key,
        key_prefix(repo_url).push('\u{ffff}'),
    )
}

proof fn lemma_sorts_shared(p: Seq<char>, a: Seq<char>, b: Seq<char>)
    ensures
        text::sorts_up_to(p + a, p + b) == text::sorts_up_to(a, b),
    decreases p.len(),
{
    if p.len() == 0 {
        assert(p + a =~= a);
        assert(p + b =~= b);
    } else {
        lemma_sorts_shared(p.drop_first(), a, b);
        assert((p + a).drop_first() =~= p.drop_first() + a);
        assert((p + b).drop_first() =~= p.drop_first() + b);
    }
}

proof fn lemma_between(p: Seq<char>, tail: Seq<char>, k: Seq<char>)
    requires
        text::sorts_up_to(p, k),
        text::sorts_up_to(k, p + tail),
    ensures
        p.is_prefix_of(k),
    decreases p.len(),
{
    if p.len() > 0 {
        assert((p + tail)[0] == p[0]);
        assert(k.len() > 0);
        assert(k[0] == p[0]);
        assert((p + tail).drop_first() =~= p.drop_first() + tail);
        lemma_between(p.drop_first(), tail, k.drop_first());
        let q = p.drop_first();
        let m = k.drop_first();
        assert(k.subrange(0, p.len() as int) =~= p) by {
            assert forall|i: int| 0 <= i < p.len() implies k[i] == p[i] by {
                if i > 0 {
                    assert(m.subrange(0, q.len() as int)[i - 1] == q[i - 1]);
                }
            }
        }
    } else {
        assert(k.subrange(0, 0) =~= p);
    }
}

/// The range holds every record of the repository, and only keys that begin
/// with the repository's prefix.
pub proof fn graph_range_covers_one_repository(repo_url: Seq<char>, id: Seq<u8>, key: Seq<char>)
    requires
        id.len() == 20,
    ensures
        in_range(repo_url, graph_key(repo_url, id)),
        in_range(repo_url, key) ==> key_prefix(repo_url).is_prefix_of(key),
{
    let p = key_prefix(repo_url);
    let hex = object::hex_text(id);
    let none = Seq::<char>::empty();
    lemma_sorts_shared(p, none, hex);
    assert(p + none =~= p);
    let top = seq!['\u{ffff}'];
    assert(p.push('\u{ffff}') =~= p + top);
    assert(hex.len() == 40);
    assert(hex[0] as u32 <= 0x66);
    assert(text::sorts_up_to(hex, top));
    lemma_sorts_shared(p, hex, top);
    if in_range(repo_url, key) {
        lemma_between(p, top, key);
    }
}

/// A key whose text after the repository's prefix is an object's name is that
/// object's key in that repository, and in no other.
pub proof fn graph_key_names_one_repository(a: Seq<char>, b: Seq<char>, id: Seq<u8>, other: Seq<u8>)
    requires
        id.len() == 20,
        other.len() == 20,
        graph_key(a, id) == graph_key(b, other),
    ensures
        a == b,
        object::hex_text(id) == object::hex_text(other),
{
    let x = graph_key(a, id);
    reveal_strlit("::");
    assert(x.len() == a.len() + 2 + 40);
    assert(x.len() == b.len() + 2 + 40);
    assert(x.take(a.len() as int) =~= a);
    assert(x.take(a.len() as int) =~= b);
    assert(x.skip(a.len() as int + 2) =~= object::hex_text(id));
    assert(x.skip(a.len() as int + 2) =~= object::hex_text(other));
}

/// An abbreviation names an object where the object's name is the only one among
/// the keys that begins with it; where none does it names none, and where two do
/// it is ambiguous.
pub proof fn abbreviations_name_single_objects<T>(
    map: Seq<(ObjectId, T)>,
    digits: Seq<u8>,
    resolved: PrefixResolution,
    i: int,
    j: int,
)
    requires
        resolves(map, digits, resolved),
        0 <= i < map.len(),
        0 <= j < map.len(),
    ensures
        (forall|k: int|
            0 <= k < map.len() ==> !object::begins_with((#[trigger] map[k]).0@, digits))
            ==> resolved is NotFound,
        object::begins_with(map[i].0@, digits) && (forall|k: int|
            0 <= k < map.len() && object::begins_with((#[trigger] map[k]).0@, digits)
                ==> map[k].0@ == map[i].0@) ==> (resolved matches PrefixResolution::Found(id)
            && id@ == map[i].0@),
        object::begins_with(map[i].0@, digits) && object::begins_with(map[j].0@, digits)
            && map[i].0@ != map[j].0@ ==> resolved is Ambiguous,
{
    if object::begins_with(map[i].0@, digits) {
        assert(key_matches(map, digits, i));
    }
    if object::begins_with(map[j].0@, digits) {
        assert(key_matches(map, digits, j));
    }
}

} // verus!
