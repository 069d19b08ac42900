//! Repository paths: resolving `.` and `..` against a directory.

use vstd::prelude::*;
use crate::text;
use crate::text::text_eq;

verus! {

/// A name that a tree entry can have: not empty, no dots that mean a place,
/// and no separator.
pub open spec fn proper_name(name: Seq<char>) -> bool {
    name.len() > 0 && name != "."@ && name != ".."@ && !name.contains('/')
}

/// Names that tree entries can have, one below the other.
pub open spec fn proper_names(names: Seq<Seq<char>>) -> bool {
    forall|i: int| 0 <= i < names.len() ==> proper_name(#[trigger] names[i])
}

/// Where walking `parts` from `start` leads. A `..` that would climb past the
/// root is dropped.
pub open spec fn walked(start: Seq<Seq<char>>, parts: Seq<Seq<char>>) -> Seq<Seq<char>>
    decreases parts.len(),
{
    if parts.len() == 0 {
        start
    } else {
        let here = walked(start, parts.drop_last());
        let part = parts.last();
        if part.len() == 0 || part == "."@ {
            here
        } else if part == ".."@ {
            if here.len() > 0 {
                here.drop_last()
            } else {
                here
            }
        } else {
            here.push(part)
        }
    }
}

/// Whether walking `parts` from `start` climbs past the root on the way.
pub open spec fn escapes(start: Seq<Seq<char>>, parts: Seq<Seq<char>>) -> bool
    decreases parts.len(),
{
    parts.len() > 0 && (escapes(start, parts.drop_last()) || (parts.last() == ".."@ && walked(
        start,
        parts.drop_last(),
    ).len() == 0))
}

/// The parts that are not empty.
pub open spec fn filled(parts: Seq<Seq<char>>) -> Seq<Seq<char>>
    decreases parts.len(),
{
    if parts.len() == 0 {
        parts
    } else if parts.last().len() == 0 {
        filled(parts.drop_last())
    } else {
        filled(parts.drop_last()).push(parts.last())
    }
}

/// What is true of every part is true of those that are not empty.
pub proof fn lemma_filled(parts: Seq<Seq<char>>)
    ensures
        forall|i: int| 0 <= i < filled(parts).len() ==> (#[trigger] filled(parts)[i]).len() > 0,
        forall|i: int|
            0 <= i < filled(parts).len() ==> parts.contains(#[trigger] filled(parts)[i]),
    decreases parts.len(),
{
    if parts.len() > 0 {
        lemma_filled(parts.drop_last());
        assert forall|i: int| 0 <= i < filled(parts).len() implies parts.contains(
            #[trigger] filled(parts)[i],
        ) by {
            if i < filled(parts.drop_last()).len() {
                let part = filled(parts.drop_last())[i];
                assert(parts.drop_last().contains(part));
                let k = parts.drop_last().index_of(part);
                assert(parts[k] == part);
            } else {
                assert(parts[parts.len() - 1] == parts.last());
            }
        }
    }
}

/// The parts that are not empty.
pub fn filled_parts(parts: Vec<String>) -> (r: Vec<String>)
    ensures
        text::texts(r@) == filled(text::texts(parts@)),
{
    let mut r: Vec<String> = Vec::new();
    let n: usize = parts.len();
    let mut i: usize = 0;
    let ghost all = text::texts(parts@);
    assert(all.take(0) =~= Seq::<Seq<char>>::empty());
    assert(text::texts(r@) =~= Seq::<Seq<char>>::empty());
    while i < n
        invariant
            n == parts@.len(),
            i <= n,
            all == text::texts(parts@),
            text::texts(r@) == filled(all.take(i as int)),
        decreases n - i,
    {
        assert(all.take(i + 1).drop_last() =~= all.take(i as int));
        if !parts[i].as_str().is_empty() {
            let ghost before = r@;
            r.push(parts[i].clone());
            assert(text::texts(r@) =~= text::texts(before).push(all[i as int]));
        }
        i = i + 1;
    }
    assert(all.take(n as int) =~= all);
    r
}

/// Walk `parts` from `at`, and say whether that climbed past the root.
pub fn walk(at: &mut Vec<String>, parts: &Vec<String>) -> (r: bool)
    ensures
        text::texts(final(at)@) == walked(text::texts(old(at)@), text::texts(parts@)),
        r == escapes(text::texts(old(at)@), text::texts(parts@)),
{
    let n: usize = parts.len();
    let mut i: usize = 0;
    let mut escaped = false;
    let ghost all = text::texts(parts@);
    let ghost start = text::texts(at@);
    assert(all.take(0) =~= Seq::<Seq<char>>::empty());
    while i < n
        invariant
            n == parts@.len(),
            i <= n,
            all == text::texts(parts@),
            start == text::texts(old(at)@),
            text::texts(at@) == walked(start, all.take(i as int)),
            escaped == escapes(start, all.take(i as int)),
        decreases n - i,
    {
        let part = parts[i].as_str();
        let ghost here = at@;
        proof {
            assert(all.take(i + 1).drop_last() =~= all.take(i as int));
            assert(all.take(i + 1).last() == part@);
            reveal_strlit(".");
            reveal_strlit("..");
        }
        if part.is_empty() || text_eq(part, ".") {
        } else if text_eq(part, "..") {
            match at.pop() {
                Some(_) => {
                    assert(text::texts(at@) =~= text::texts(here).drop_last());
                },
                None => {
                    escaped = true;
                },
            }
        } else {
            at.push(part.to_string());
            assert(text::texts(at@) =~= text::texts(here).push(part@));
        }
        i = i + 1;
    }
    assert(all.take(n as int) =~= all);
    escaped
}

/// Walking the pieces of a path leads to names that tree entries can have,
/// from a place made of such names.
pub proof fn walking_keeps_proper_names(start: Seq<Seq<char>>, parts: Seq<Seq<char>>)
    requires
        proper_names(start),
        forall|i: int| 0 <= i < parts.len() ==> !(#[trigger] parts[i]).contains('/'),
    ensures
        proper_names(walked(start, parts)),
    decreases parts.len(),
{
    if parts.len() > 0 {
        let earlier = parts.drop_last();
        assert forall|i: int| 0 <= i < earlier.len() implies !(#[trigger] earlier[i]).contains(
            '/',
        ) by {
            assert(earlier[i] == parts[i]);
        }
        walking_keeps_proper_names(start, earlier);
        let here = walked(start, earlier);
        let part = parts.last();
        assert(!parts[parts.len() - 1].contains('/'));
        let there = walked(start, parts);
        assert forall|i: int| 0 <= i < there.len() implies proper_name(#[trigger] there[i]) by {
            if i < here.len() {
                assert(proper_name(here[i]));
            }
        }
    }
}

/// A path made of names that tree entries can have does not begin with the
/// separator.
pub proof fn lemma_joined_names(names: Seq<Seq<char>>)
    requires
        proper_names(names),
    ensures
        ({
            let path = text::join(names, "/"@);
            path.len() == 0 || path[0] != '/'
        }),
        names.len() > 0 ==> text::join(names, "/"@).len() > 0,
{
    if names.len() > 0 {
        assert(proper_name(names[0]));
        let path = text::join(names, "/"@);
        assert(path[0] == names[0][0]);
        assert(names[0].contains(names[0][0]));
    }
}

/// Walking goes on from where it has come to.
pub proof fn walking_goes_part_by_part(
    start: Seq<Seq<char>>,
    first: Seq<Seq<char>>,
    then: Seq<Seq<char>>,
)
    ensures
        walked(start, first + then) == walked(walked(start, first), then),
        escapes(start, first + then) == (escapes(start, first) || escapes(
            walked(start, first),
            then,
        )),
    decreases then.len(),
{
    if then.len() == 0 {
        assert(first + then =~= first);
    } else {
        assert((first + then).drop_last() =~= first + then.drop_last());
        assert((first + then).last() == then.last());
        walking_goes_part_by_part(start, first, then.drop_last());
    }
}

/// One part leads down to its name; `..` leads up, and past the root only from
/// the root; a `.` and an empty part lead nowhere.
pub proof fn one_part_leads_one_step(start: Seq<Seq<char>>, part: Seq<char>)
    ensures
        walked(start, Seq::empty()) == start,
        !escapes(start, Seq::empty()),
        proper_name(part) ==> walked(start, seq![part]) == start.push(part) && !escapes(
            start,
            seq![part],
        ),
        part == seq!['.', '.'] ==> {
            &&& start.len() > 0 ==> walked(start, seq![part]) == start.drop_last()
            &&& start.len() == 0 ==> walked(start, seq![part]) == start
            &&& escapes(start, seq![part]) == (start.len() == 0)
        },
        part == seq!['.'] || part.len() == 0 ==> walked(start, seq![part]) == start && !escapes(
            start,
            seq![part],
        ),
{
    reveal_strlit(".");
    reveal_strlit("..");
    assert("."@ =~= seq!['.']);
    assert(".."@ =~= seq!['.', '.']);
    let parts = seq![part];
    assert(parts.drop_last() =~= Seq::empty());
    assert(parts.last() == part);
    assert(walked(start, Seq::empty()) == start);
    assert(!escapes(start, Seq::empty()));
    if part == seq!['.'] {
        assert(part.len() == 1);
        assert(".."@.len() == 2);
    }
    if part == seq!['.', '.'] {
        assert(part.len() == 2);
        assert("."@.len() == 1);
    }
}

/// Of the parts of a path only the empty ones are left out.
pub proof fn only_empty_parts_are_left_out(a: Seq<Seq<char>>, b: Seq<Seq<char>>, part: Seq<char>)
    ensures
        filled(a + b) == filled(a) + filled(b),
        filled(seq![part]) == (if part.len() == 0 {
            Seq::<Seq<char>>::empty()
        } else {
            seq![part]
        }),
    decreases b.len(),
{
    assert(seq![part].drop_last() =~= Seq::empty());
    assert(filled(Seq::<Seq<char>>::empty()) =~= Seq::empty());
    assert(filled(seq![part]) =~= (if part.len() == 0 {
        Seq::<Seq<char>>::empty()
    } else {
        seq![part]
    }));
    if b.len() == 0 {
        assert(a + b =~= a);
        assert(filled(a) + filled(b) =~= filled(a));
    } else {
        assert((a + b).drop_last() =~= a + b.drop_last());
        only_empty_parts_are_left_out(a, b.drop_last(), part);
        assert(filled(a + b) =~= filled(a) + filled(b));
    }
}

/// Names that tree entries can have are all kept.
pub proof fn lemma_filled_names(names: Seq<Seq<char>>)
    requires
        proper_names(names),
    ensures
        filled(names) == names,
    decreases names.len(),
{
    if names.len() > 0 {
        let earlier = names.drop_last();
        assert(proper_name(names[names.len() - 1]));
        assert forall|i: int| 0 <= i < earlier.len() implies proper_name(#[trigger] earlier[i]) by {
            assert(earlier[i] == names[i]);
        }
        lemma_filled_names(earlier);
        assert(filled(names) =~= names);
    }
}

} // verus!
