//! Sorting that keeps equals in the order in which they came.

use vstd::prelude::*;

verus! {

/// A way of ordering values, in which two may rank the same.
pub trait Order<T> {
    /// Whether `a` ranks before `b` or with it.
    spec fn ranks_up_to(a: T, b: T) -> bool;

    proof fn total(a: T, b: T)
        ensures
            Self::ranks_up_to(a, b) || Self::ranks_up_to(b, a),
    ;

    proof fn transitive(a: T, b: T, c: T)
        requires
            Self::ranks_up_to(a, b),
            Self::ranks_up_to(b, c),
        ensures
            Self::ranks_up_to(a, c),
    ;

    fn check(a: &T, b: &T) -> (r: bool)
        ensures
            r == Self::ranks_up_to(*a, *b),
    ;
}

/// The values of `s` that rank the same as `x`, in their order.
pub open spec fn peers<T, O: Order<T>>(s: Seq<T>, x: T) -> Seq<T>
    decreases s.len(),
{
    if s.len() == 0 {
        s
    } else {
        let earlier = peers::<T, O>(s.drop_last(), x);
        if O::ranks_up_to(x, s.last()) && O::ranks_up_to(s.last(), x) {
            earlier.push(s.last())
        } else {
            earlier
        }
    }
}

/// Each value ranks before every later one or with it.
pub open spec fn in_rank<T, O: Order<T>>(s: Seq<T>) -> bool {
    forall|i: int, j: int| 0 <= i < j < s.len() ==> O::ranks_up_to(#[trigger] s[i], #[trigger] s[j])
}

/// `sorted` holds the values of `s` in rank, those that rank the same in the
/// order in which `s` holds them.
pub open spec fn sorts<T, O: Order<T>>(s: Seq<T>, sorted: Seq<T>) -> bool {
    &&& sorted.len() == s.len()
    &&& in_rank::<T, O>(sorted)
    &&& forall|x: T| #[trigger] peers::<T, O>(sorted, x) == peers::<T, O>(s, x)
}

proof fn lemma_peers_concat<T, O: Order<T>>(a: Seq<T>, b: Seq<T>, x: T)
    ensures
        peers::<T, O>(a + b, x) == peers::<T, O>(a, x) + peers::<T, O>(b, x),
    decreases b.len(),
{
    if b.len() == 0 {
        assert(a + b =~= a);
        assert(peers::<T, O>(a, x) + peers::<T, O>(b, x) =~= peers::<T, O>(a, x));
    } else {
        assert((a + b).drop_last() =~= a + b.drop_last());
        lemma_peers_concat::<T, O>(a, b.drop_last(), x);
        assert(peers::<T, O>(a + b, x) =~= peers::<T, O>(a, x) + peers::<T, O>(b, x));
    }
}

/// Where nothing in `b` ranks the same as `x`, it has no peers there.
proof fn lemma_no_peers<T, O: Order<T>>(b: Seq<T>, x: T)
    requires
        forall|i: int|
            0 <= i < b.len() ==> !(O::ranks_up_to(x, #[trigger] b[i]) && O::ranks_up_to(b[i], x)),
    ensures
        peers::<T, O>(b, x).len() == 0,
    decreases b.len(),
{
    if b.len() > 0 {
        let t = b.drop_last();
        assert forall|i: int| 0 <= i < t.len() implies !(O::ranks_up_to(x, #[trigger] t[i])
            && O::ranks_up_to(t[i], x)) by {
            assert(t[i] == b[i]);
        }
        lemma_no_peers::<T, O>(t, x);
        assert(!(O::ranks_up_to(x, b[b.len() - 1]) && O::ranks_up_to(b[b.len() - 1], x)));
    }
}

/// Moving a value ahead of a run that all ranks after it disturbs no peers.
proof fn lemma_move_ahead<T, O: Order<T>>(a: Seq<T>, b: Seq<T>, v: T, c: Seq<T>, x: T)
    requires
        forall|i: int| 0 <= i < b.len() ==> !O::ranks_up_to(#[trigger] b[i], v),
    ensures
        peers::<T, O>(a + seq![v] + b + c, x) == peers::<T, O>(a + b + seq![v] + c, x),
{
    let one = seq![v];
    lemma_peers_concat::<T, O>(a + one + b, c, x);
    lemma_peers_concat::<T, O>(a + one, b, x);
    lemma_peers_concat::<T, O>(a, one, x);
    lemma_peers_concat::<T, O>(a + b + one, c, x);
    lemma_peers_concat::<T, O>(a + b, one, x);
    lemma_peers_concat::<T, O>(a, b, x);
    if O::ranks_up_to(x, v) && O::ranks_up_to(v, x) {
        assert forall|i: int| 0 <= i < b.len() implies !(O::ranks_up_to(x, #[trigger] b[i])
            && O::ranks_up_to(b[i], x)) by {
            if O::ranks_up_to(b[i], x) {
                O::transitive(b[i], x, v);
            }
        }
        lemma_no_peers::<T, O>(b, x);
    } else {
        assert forall|i: int| 0 <= i < one.len() implies !(O::ranks_up_to(x, #[trigger] one[i])
            && O::ranks_up_to(one[i], x)) by {}
        lemma_no_peers::<T, O>(one, x);
    }
    let pa = peers::<T, O>(a, x);
    let pb = peers::<T, O>(b, x);
    let pv = peers::<T, O>(one, x);
    let pc = peers::<T, O>(c, x);
    assert(pa + pv + pb + pc =~= pa + pb + pv + pc);
}

/// Sort in place, keeping values that rank the same in their order.
pub fn sort<T, O: Order<T>>(v: &mut Vec<T>)
    ensures
        sorts::<T, O>(old(v)@, final(v)@),
{
    let n: usize = v.len();
    let mut i: usize = 0;
    while i < n
        invariant
            n == v@.len(),
            n == old(v)@.len(),
            i <= n,
            forall|p: int, q: int|
                0 <= p < q < i ==> O::ranks_up_to(#[trigger] v@[p], #[trigger] v@[q]),
            forall|x: T| #[trigger] peers::<T, O>(v@, x) == peers::<T, O>(old(v)@, x),
        decreases n - i,
    {
        let ghost before = v@;
        let mut j: usize = i;
        while j > 0 && !O::check(&v[j - 1], &v[i])
            invariant
                v@ == before,
                n == v@.len(),
                i < n,
                j <= i,
                forall|q: int| j <= q < i ==> !O::ranks_up_to(#[trigger] before[q], before[i as int]),
            decreases j,
        {
            j = j - 1;
        }
        let x = v.remove(i);
        v.insert(j, x);
        proof {
            let a = before.take(j as int);
            let b = before.subrange(j as int, i as int);
            let c = before.skip(i + 1);
            let moved = before[i as int];
            assert(before =~= a + b + seq![moved] + c);
            assert(v@ =~= a + seq![moved] + b + c);
            assert forall|q: int| 0 <= q < b.len() implies !O::ranks_up_to(
                #[trigger] b[q],
                moved,
            ) by {
                assert(b[q] == before[j + q]);
            }
            assert forall|y: T| #[trigger] peers::<T, O>(v@, y) == peers::<T, O>(old(v)@, y) by {
                lemma_move_ahead::<T, O>(a, b, moved, c, y);
            }
            assert forall|p: int, q: int| 0 <= p < q < i + 1 implies O::ranks_up_to(
                #[trigger] v@[p],
                #[trigger] v@[q],
            ) by {
                if q < j {
                    assert(v@[p] == before[p] && v@[q] == before[q]);
                } else if q == j {
                    assert(v@[p] == before[p]);
                    assert(O::ranks_up_to(before[j - 1], moved));
                    if p < j - 1 {
                        assert(O::ranks_up_to(before[p], before[j - 1]));
                        O::transitive(before[p], before[j - 1], moved);
                    }
                } else {
                    assert(v@[q] == before[q - 1]);
                    assert(!O::ranks_up_to(before[q - 1], moved));
                    if p == j {
                        O::total(moved, before[q - 1]);
                    } else if p < j {
                        assert(v@[p] == before[p]);
                    } else {
                        assert(v@[p] == before[p - 1]);
                    }
                }
            }
        }
        i = i + 1;
    }
}

/// Sorting keeps what there is: nothing is lost, added or changed.
pub proof fn sorting_keeps_what_there_is<T, O: Order<T>>(s: Seq<T>, sorted: Seq<T>)
    requires
        sorts::<T, O>(s, sorted),
    ensures
        sorted.to_multiset() == s.to_multiset(),
        forall|i: int, j: int|
            0 <= i < j < sorted.len() ==> O::ranks_up_to(#[trigger] sorted[i], #[trigger] sorted[j]),
{
    assert forall|x: T| #[trigger] sorted.to_multiset().count(x) == s.to_multiset().count(x) by {
        lemma_peers_count::<T, O>(s, x);
        lemma_peers_count::<T, O>(sorted, x);
        assert(peers::<T, O>(sorted, x) == peers::<T, O>(s, x));
    }
    assert(sorted.to_multiset() =~= s.to_multiset());
}

proof fn lemma_peers_count<T, O: Order<T>>(s: Seq<T>, x: T)
    ensures
        s.to_multiset().count(x) == peers::<T, O>(s, x).to_multiset().count(x),
    decreases s.len(),
{
    broadcast use vstd::seq_lib::group_to_multiset_ensures;

    if s.len() > 0 {
        let t = s.drop_last();
        lemma_peers_count::<T, O>(t, x);
        O::total(x, x);
        assert(t.push(s.last()) =~= s);
        assert(s.to_multiset() =~= t.to_multiset().insert(s.last()));
        let earlier = peers::<T, O>(t, x);
        assert(earlier.push(s.last()).to_multiset() =~= earlier.to_multiset().insert(s.last()));
    }
}

/// Sorting keeps values that rank the same in the order in which they came.
pub proof fn sorting_keeps_equals_in_order<T, O: Order<T>>(s: Seq<T>, sorted: Seq<T>, i: int, j: int)
    requires
        sorts::<T, O>(s, sorted),
        0 <= i < j < s.len(),
        O::ranks_up_to(s[i], s[j]),
        O::ranks_up_to(s[j], s[i]),
    ensures
        exists|p: int, q: int|
            0 <= p < q < sorted.len() && #[trigger] sorted[p] == s[i] && #[trigger] sorted[q] == s[j],
{
    let x = s[i];
    let a = s.take(i);
    let b = s.subrange(i + 1, j);
    let c = s.skip(j + 1);
    O::total(x, x);
    assert(a + seq![s[i]] + b + seq![s[j]] + c =~= s);
    lemma_peers_concat::<T, O>(a + seq![s[i]] + b + seq![s[j]], c, x);
    lemma_peers_concat::<T, O>(a + seq![s[i]] + b, seq![s[j]], x);
    lemma_peers_concat::<T, O>(a + seq![s[i]], b, x);
    lemma_peers_concat::<T, O>(a, seq![s[i]], x);
    lemma_one_peer::<T, O>(s[i], x);
    lemma_one_peer::<T, O>(s[j], x);
    let found = peers::<T, O>(s, x);
    let m = peers::<T, O>(a, x).len() as int;
    let n = m + 1 + peers::<T, O>(b, x).len();
    assert(found[m] == s[i]);
    assert(found[n] == s[j]);
    assert(peers::<T, O>(sorted, x) == found);
    lemma_peers_stand_in_order::<T, O>(sorted, x, m, n);
}

proof fn lemma_one_peer<T, O: Order<T>>(y: T, x: T)
    requires
        O::ranks_up_to(x, y),
        O::ranks_up_to(y, x),
    ensures
        peers::<T, O>(seq![y], x) == seq![y],
{
    assert(seq![y].drop_last() =~= Seq::empty());
    assert(peers::<T, O>(Seq::<T>::empty(), x) =~= Seq::empty());
    assert(peers::<T, O>(seq![y], x) =~= seq![y]);
}

proof fn lemma_peer_stands<T, O: Order<T>>(s: Seq<T>, x: T, m: int) -> (p: int)
    requires
        0 <= m < peers::<T, O>(s, x).len(),
    ensures
        0 <= p < s.len(),
        s[p] == peers::<T, O>(s, x)[m],
        peers::<T, O>(s.take(p), x).len() == m,
    decreases s.len(),
{
    let t = s.drop_last();
    let earlier = peers::<T, O>(t, x);
    if m < earlier.len() {
        let p = lemma_peer_stands::<T, O>(t, x, m);
        assert(t.take(p) =~= s.take(p));
        p
    } else {
        assert(s.take(s.len() - 1) =~= t);
        s.len() - 1
    }
}

proof fn lemma_peers_stand_in_order<T, O: Order<T>>(s: Seq<T>, x: T, m: int, n: int)
    requires
        0 <= m < n < peers::<T, O>(s, x).len(),
    ensures
        exists|p: int, q: int|
            0 <= p < q < s.len() && #[trigger] s[p] == peers::<T, O>(s, x)[m] && #[trigger] s[q]
                == peers::<T, O>(s, x)[n],
{
    let p = lemma_peer_stands::<T, O>(s, x, m);
    let q = lemma_peer_stands::<T, O>(s, x, n);
    if q <= p {
        assert(s.take(p) =~= s.take(q) + s.subrange(q, p));
        lemma_peers_concat::<T, O>(s.take(q), s.subrange(q, p), x);
    }
    assert(s[p] == peers::<T, O>(s, x)[m] && s[q] == peers::<T, O>(s, x)[n]);
}

} // verus!
