//! Chains of linked segments (ropes, vines) and what destroying a segment
//! does to them: the chain is cut at that segment first, so that only the
//! segment goes and the rest falls apart into at most two shorter chains.
use vstd::prelude::*;

use crate::fire::Flammable;
use crate::store::{EntityId, FlammableStore, distinct_ids, lemma_remove_twice, without};

verus! {

/// The first place where `e` stands in `s`.
pub open spec fn first_index(s: Seq<EntityId>, e: EntityId) -> int {
    choose|k: int| 0 <= k < s.len() && s[k] == e && forall|j: int| 0 <= j < k ==> s[j] != e
}

/// The chains that are left of `s`, in order, once segment `e` is taken out
/// of it: the segments before `e` and those after it, leaving out an empty
/// one. A chain without `e` stays as it is.
pub open spec fn pieces(s: Seq<EntityId>, e: EntityId) -> Seq<Seq<EntityId>> {
    if s.contains(e) {
        let k = first_index(s, e);
        let front = s.take(k);
        let back = s.skip(k + 1);
        if front.len() == 0 && back.len() == 0 {
            seq![]
        } else if front.len() == 0 {
            seq![back]
        } else if back.len() == 0 {
            seq![front]
        } else {
            seq![front, back]
        }
    } else if s.len() == 0 {
        seq![]
    } else {
        seq![s]
    }
}

/// Every chain of `cs` cut at `e`, in order.
pub open spec fn cut_all(cs: Seq<Seq<EntityId>>, e: EntityId) -> Seq<Seq<EntityId>>
    decreases cs.len(),
{
    if cs.len() == 0 {
        seq![]
    } else {
        cut_all(cs.drop_last(), e) + pieces(cs.last(), e)
    }
}

/// The chains after each entity of `doomed` is cut out, in turn.
pub open spec fn chains_after(cs: Seq<Seq<EntityId>>, doomed: Seq<EntityId>) -> Seq<Seq<EntityId>>
    decreases doomed.len(),
{
    if doomed.len() == 0 {
        cs
    } else {
        cut_all(chains_after(cs, doomed.drop_last()), doomed.last())
    }
}

/// The store after each entity of `doomed` is removed, in turn.
pub open spec fn store_after(
    s: Seq<(EntityId, Flammable)>,
    doomed: Seq<EntityId>,
) -> Seq<(EntityId, Flammable)>
    decreases doomed.len(),
{
    if doomed.len() == 0 {
        s
    } else {
        without(store_after(s, doomed.drop_last()), doomed.last())
    }
}

pub open spec fn views(cs: Seq<Vec<EntityId>>) -> Seq<Seq<EntityId>> {
    Seq::new(cs.len(), |i: int| cs[i]@)
}

/// A chain names each segment once.
pub open spec fn distinct_segments(s: Seq<EntityId>) -> bool {
    forall|i: int, j: int| 0 <= i < j < s.len() ==> s[i] != s[j]
}

/// Every chain has segments, and none of them is `e`.
pub open spec fn all_clear_of(cs: Seq<Seq<EntityId>>, e: EntityId) -> bool {
    forall|i: int| 0 <= i < cs.len() ==> #[trigger] cs[i].len() > 0 && !cs[i].contains(e)
}

proof fn lemma_first_index(s: Seq<EntityId>, k: int)
    requires
        distinct_segments(s),
        0 <= k < s.len(),
    ensures
        s.contains(s[k]),
        first_index(s, s[k]) == k,
{
    let e = s[k];
    assert(s.contains(e));
    assert(0 <= k < s.len() && s[k] == e && forall|j: int| 0 <= j < k ==> s[j] != e);
    let c = first_index(s, e);
    if c < k {
        assert(s[c] != s[k]);
    } else if c > k {
        assert(s[k] != e);
    }
}

/// Partial removal: cutting segment number `k` (counting from zero) out of
/// a chain of `n` distinct segments leaves the `k` segments before it and
/// the `n - k - 1` after it as chains of their own, one where it was an end,
/// and none where it was the only one. No remaining chain holds it.
pub proof fn lemma_partial_removal(s: Seq<EntityId>, k: int)
    requires
        distinct_segments(s),
        0 <= k < s.len(),
    ensures
        ({
            let n = s.len() as int;
            let r = pieces(s, s[k]);
            &&& 0 < k < n - 1 ==> r.len() == 2 && r[0] == s.take(k) && r[1] == s.skip(k + 1)
                && r[0].len() == k && r[1].len() == n - k - 1
            &&& k == 0 && n > 1 ==> r.len() == 1 && r[0] == s.skip(1) && r[0].len() == n - 1
            &&& k == n - 1 && n > 1 ==> r.len() == 1 && r[0] == s.take(k) && r[0].len() == n - 1
            &&& n == 1 ==> r.len() == 0
            &&& all_clear_of(r, s[k])
        }),
{
    lemma_first_index(s, k);
    let e = s[k];
    let r = pieces(s, e);
    assert forall|i: int| 0 <= i < r.len() implies #[trigger] r[i].len() > 0 && !r[i].contains(e) by {
        if r[i].contains(e) {
            let j = choose|j: int| 0 <= j < r[i].len() && r[i][j] == e;
            if r[i] == s.take(k) {
                assert(s[j] == e);
                assert(s[j] != s[k]);
            } else {
                assert(r[i] == s.skip(k + 1));
                assert(s[k + 1 + j] == e);
                assert(s[k] != s[k + 1 + j]);
            }
        }
    }
}

proof fn lemma_pieces_clear(s: Seq<EntityId>, e: EntityId)
    requires
        distinct_segments(s),
    ensures
        all_clear_of(pieces(s, e), e),
{
    if s.contains(e) {
        let k = choose|k: int| 0 <= k < s.len() && s[k] == e;
        lemma_partial_removal(s, k);
    }
}

proof fn lemma_cut_all_clear(cs: Seq<Seq<EntityId>>, e: EntityId)
    requires
        forall|i: int| 0 <= i < cs.len() ==> distinct_segments(#[trigger] cs[i]),
    ensures
        all_clear_of(cut_all(cs, e), e),
    decreases cs.len(),
{
    if cs.len() > 0 {
        let t = cs.drop_last();
        assert forall|i: int| 0 <= i < t.len() implies distinct_segments(#[trigger] t[i]) by {
            assert(t[i] == cs[i]);
        }
        lemma_cut_all_clear(t, e);
        assert(distinct_segments(cs[cs.len() - 1]));
        lemma_pieces_clear(cs.last(), e);
        let a = cut_all(t, e);
        let b = pieces(cs.last(), e);
        assert forall|i: int| 0 <= i < (a + b).len() implies #[trigger] (a + b)[i].len() > 0 && !(a
            + b)[i].contains(e) by {
            if i < a.len() {
                assert((a + b)[i] == a[i]);
            } else {
                assert((a + b)[i] == b[i - a.len()]);
            }
        }
    }
}

/// Cutting chains that do not hold `e` at `e` changes nothing.
pub proof fn lemma_cut_absent(cs: Seq<Seq<EntityId>>, e: EntityId)
    requires
        all_clear_of(cs, e),
    ensures
        cut_all(cs, e) == cs,
    decreases cs.len(),
{
    if cs.len() > 0 {
        let t = cs.drop_last();
        assert forall|i: int| 0 <= i < t.len() implies #[trigger] t[i].len() > 0 && !t[i].contains(e) by {
            assert(t[i] == cs[i]);
        }
        lemma_cut_absent(t, e);
        assert(cs[cs.len() - 1].len() > 0);
        assert(cut_all(cs, e) =~= cs);
    }
}

/// Destroying an entity a second time changes neither the store nor the
/// chains: the first time took it out of both.
pub proof fn lemma_destroy_twice(
    s: Seq<(EntityId, Flammable)>,
    cs: Seq<Seq<EntityId>>,
    e: EntityId,
)
    requires
        distinct_ids(s),
        forall|i: int| 0 <= i < cs.len() ==> distinct_segments(#[trigger] cs[i]),
    ensures
        store_after(s, seq![e, e]) == store_after(s, seq![e]),
        chains_after(cs, seq![e, e]) == chains_after(cs, seq![e]),
{
    assert(seq![e, e].drop_last() =~= seq![e]);
    assert(seq![e].drop_last() =~= Seq::<EntityId>::empty());
    assert(seq![e].last() == e);
    assert(seq![e, e].last() == e);
    assert(store_after(s, Seq::<EntityId>::empty()) == s);
    assert(chains_after(cs, Seq::<EntityId>::empty()) == cs);
    assert(store_after(s, seq![e]) == without(s, e));
    lemma_remove_twice(s, e);
    assert(chains_after(cs, seq![e]) == cut_all(cs, e));
    lemma_cut_all_clear(cs, e);
    lemma_cut_absent(cut_all(cs, e), e);
}

/// The segments of `s` from `lo` up to `hi`, as a chain of their own.
fn segment_range(s: &Vec<EntityId>, lo: usize, hi: usize) -> (r: Vec<EntityId>)
    requires
        lo <= hi <= s@.len(),
    ensures
        r@ == s@.subrange(lo as int, hi as int),
{
    let mut out: Vec<EntityId> = Vec::new();
    let mut i: usize = lo;
    while i < hi
        invariant
            lo <= i <= hi,
            hi <= s@.len(),
            out@ == s@.subrange(lo as int, i as int),
        decreases hi - i,
    {
        out.push(s[i]);
        proof {
            assert(out@ =~= s@.subrange(lo as int, i + 1));
        }
        i += 1;
    }
    out
}

/// Cuts the chain `segments` at segment `e`. Returns what is left of it:
/// two chains, or one where `e` was an end, or none where `e` was all of it.
/// A chain without `e` comes back whole.
pub fn cut_chain(segments: &Vec<EntityId>, e: EntityId) -> (r: Vec<Vec<EntityId>>)
    ensures
        views(r@) == pieces(segments@, e),
{
    let s = segments;
    let mut k: usize = 0;
    while k < s.len() && s[k] != e
        invariant
            k <= s@.len(),
            forall|j: int| 0 <= j < k ==> s@[j] != e,
        decreases s@.len() - k,
    {
        k += 1;
    }
    let mut out: Vec<Vec<EntityId>> = Vec::new();
    if k == s.len() {
        proof {
            assert(!s@.contains(e));
        }
        if s.len() > 0 {
            out.push(segment_range(s, 0, s.len()));
            proof {
                assert(s@.subrange(0, s@.len() as int) =~= s@);
                assert(views(out@) =~= pieces(s@, e));
            }
        } else {
            proof {
                assert(views(out@) =~= pieces(s@, e));
            }
        }
        return out;
    }
    proof {
        assert(s@[k as int] == e);
        assert(s@.contains(e));
        assert(0 <= k < s@.len() && s@[k as int] == e && forall|j: int| 0 <= j < k ==> s@[j] != e);
        let c = first_index(s@, e);
        if c < k as int {
            assert(s@[c] != e);
        } else if c > k as int {
            assert(s@[k as int] != e);
        }
    }
    if k > 0 {
        out.push(segment_range(s, 0, k));
    }
    if k + 1 < s.len() {
        out.push(segment_range(s, k + 1, s.len()));
    }
    proof {
        assert(s@.take(k as int) =~= s@.subrange(0, k as int));
        assert(s@.skip(k + 1) =~= s@.subrange(k + 1, s@.len() as int));
        assert(views(out@) =~= pieces(s@, e));
    }
    out
}

/// Cuts every chain of `chains` at segment `e`; chains without `e` stay as
/// they are. Cutting where `e` no longer stands changes nothing.
pub fn cut_chains(chains: &mut Vec<Vec<EntityId>>, e: EntityId)
    ensures
        views(final(chains)@) == cut_all(views(old(chains)@), e),
{
    let ghost start = views(chains@);
    let mut out: Vec<Vec<EntityId>> = Vec::new();
    let mut i: usize = 0;
    while i < chains.len()
        invariant
            i <= chains@.len(),
            start == views(chains@),
            views(out@) == cut_all(start.take(i as int), e),
        decreases chains@.len() - i,
    {
        let mut p = cut_chain(&chains[i], e);
        let ghost before = views(out@);
        let ghost added = views(p@);
        out.append(&mut p);
        proof {
            assert(start.take(i + 1).drop_last() =~= start.take(i as int));
            assert(start.take(i + 1).last() == chains@[i as int]@);
            assert(views(out@) =~= before + added);
        }
        i += 1;
    }
    proof {
        assert(start.take(i as int) =~= start);
    }
    *chains = out;
}

/// Destroys the entities of `doomed`, in turn: each is first cut out of the
/// chains it belongs to, so that the rest of its chain stays, and then taken
/// out of the store. An entity that is already gone changes nothing.
pub fn destroy(store: &mut FlammableStore, chains: &mut Vec<Vec<EntityId>>, doomed: &Vec<EntityId>)
    requires
        old(store).wf(),
    ensures
        final(store).wf(),
        final(store)@ == store_after(old(store)@, doomed@),
        views(final(chains)@) == chains_after(views(old(chains)@), doomed@),
{
    let ghost s0 = store@;
    let ghost c0 = views(chains@);
    let mut i: usize = 0;
    while i < doomed.len()
        invariant
            i <= doomed@.len(),
            store.wf(),
            store@ == store_after(s0, doomed@.take(i as int)),
            views(chains@) == chains_after(c0, doomed@.take(i as int)),
        decreases doomed@.len() - i,
    {
        let e = doomed[i];
        proof {
            assert(doomed@.take(i + 1).drop_last() =~= doomed@.take(i as int));
        }
        cut_chains(chains, e);
        store.remove(e);
        i += 1;
    }
    proof {
        assert(doomed@.take(i as int) =~= doomed@);
    }
}

} // verus!
