//! The order of a listing: most recently updated first.

use vstd::prelude::*;
use crate::model::{CollectionMeta, CollectionMetaView};

verus! {

/// The views of a list of entries, in order.
pub open spec fn meta_views(metas: Seq<CollectionMeta>) -> Seq<CollectionMetaView> {
    Seq::new(metas.len(), |i: int| metas[i]@)
}

/// Every entry is at least as recent as the ones after it.
pub open spec fn is_by_recency(metas: Seq<CollectionMetaView>) -> bool {
    forall|i: int, j: int|
        0 <= i < j < metas.len() ==> (#[trigger] metas[i]).updated_at >= (
        #[trigger] metas[j]).updated_at
}

/// Where an entry with the given time goes in an ordered listing: behind the
/// entries that are more recent, in front of all others.
pub open spec fn slot_for(metas: Seq<CollectionMetaView>, updated_at: u64) -> int
    decreases metas.len(),
{
    if metas.len() == 0 || metas[0].updated_at <= updated_at {
        0
    } else {
        1 + slot_for(metas.drop_first(), updated_at)
    }
}

/// The listing order of some entries: each in turn is put into the ordered
/// listing of those before it. Of two entries with the same time, the later
/// one comes first.
pub open spec fn by_recency(metas: Seq<CollectionMetaView>) -> Seq<CollectionMetaView>
    decreases metas.len(),
{
    if metas.len() == 0 {
        Seq::empty()
    } else {
        let earlier = by_recency(metas.drop_last());
        earlier.insert(slot_for(earlier, metas.last().updated_at), metas.last())
    }
}

/// The slot is the one place with only more recent entries in front and a
/// not more recent entry, or nothing, at it.
pub proof fn lemma_slot(metas: Seq<CollectionMetaView>, updated_at: u64, at: int)
    requires
        0 <= at <= metas.len(),
        forall|k: int| 0 <= k < at ==> (#[trigger] metas[k]).updated_at > updated_at,
        at == metas.len() || metas[at].updated_at <= updated_at,
    ensures
        slot_for(metas, updated_at) == at,
    decreases metas.len(),
{
    if at > 0 {
        assert(metas[0].updated_at > updated_at);
        let rest = metas.drop_first();
        assert forall|k: int| 0 <= k < at - 1 implies (#[trigger] rest[k]).updated_at
            > updated_at by {
            assert(rest[k] == metas[k + 1]);
        }
        lemma_slot(rest, updated_at, at - 1);
    }
}

/// The slot lies within the listing, with only more recent entries in front
/// of it; in an ordered listing nothing from the slot on is more recent.
pub proof fn lemma_slot_bounds(metas: Seq<CollectionMetaView>, updated_at: u64)
    ensures
        0 <= slot_for(metas, updated_at) <= metas.len(),
        forall|k: int|
            0 <= k < slot_for(metas, updated_at) ==> (#[trigger] metas[k]).updated_at > updated_at,
        is_by_recency(metas) ==> forall|k: int|
            slot_for(metas, updated_at) <= k < metas.len() ==> (#[trigger] metas[k]).updated_at
                <= updated_at,
    decreases metas.len(),
{
    if metas.len() == 0 || metas[0].updated_at <= updated_at {
        if is_by_recency(metas) {
            assert forall|k: int| 0 <= k < metas.len() implies (#[trigger] metas[k]).updated_at
                <= updated_at by {
                if k > 0 {
                    assert(metas[0].updated_at >= metas[k].updated_at);
                }
            }
        }
    } else {
        let rest = metas.drop_first();
        lemma_slot_bounds(rest, updated_at);
        let slot = slot_for(metas, updated_at);
        assert forall|k: int| 0 <= k < slot implies (#[trigger] metas[k]).updated_at
            > updated_at by {
            if k > 0 {
                assert(rest[k - 1] == metas[k]);
            }
        }
        if is_by_recency(metas) {
            assert(is_by_recency(rest)) by {
                assert forall|i: int, j: int| 0 <= i < j < rest.len() implies (
                #[trigger] rest[i]).updated_at >= (#[trigger] rest[j]).updated_at by {
                    assert(metas[i + 1].updated_at >= metas[j + 1].updated_at);
                }
            }
            assert forall|k: int| slot <= k < metas.len() implies (#[trigger] metas[k]).updated_at
                <= updated_at by {
                assert(rest[k - 1] == metas[k]);
            }
        }
    }
}

/// A listing in listing order is ordered: most recently updated first.
pub proof fn lemma_listing_is_by_recency(metas: Seq<CollectionMetaView>)
    ensures
        is_by_recency(by_recency(metas)),
        by_recency(metas).len() == metas.len(),
    decreases metas.len(),
{
    if metas.len() > 0 {
        let earlier = by_recency(metas.drop_last());
        let last = metas.last();
        lemma_listing_is_by_recency(metas.drop_last());
        lemma_slot_bounds(earlier, last.updated_at);
        let slot = slot_for(earlier, last.updated_at);
        let listed = earlier.insert(slot, last);
        assert forall|i: int, j: int| 0 <= i < j < listed.len() implies (
        #[trigger] listed[i]).updated_at >= (#[trigger] listed[j]).updated_at by {
            if j < slot {
                assert(earlier[i].updated_at >= earlier[j].updated_at);
            } else if j == slot {
                assert(earlier[i].updated_at > last.updated_at);
            } else if i < slot {
                assert(earlier[i].updated_at >= earlier[j - 1].updated_at);
            } else if i == slot {
                assert(earlier[j - 1].updated_at <= last.updated_at);
            } else {
                assert(earlier[i - 1].updated_at >= earlier[j - 1].updated_at);
            }
        }
    }
}

/// A listing in listing order holds the same entries, each as often as before.
pub proof fn lemma_listing_keeps_entries(metas: Seq<CollectionMetaView>)
    ensures
        by_recency(metas).to_multiset() == metas.to_multiset(),
    decreases metas.len(),
{
    broadcast use vstd::seq_lib::group_to_multiset_ensures;

    if metas.len() > 0 {
        let front = metas.drop_last();
        let earlier = by_recency(front);
        let last = metas.last();
        lemma_listing_keeps_entries(front);
        lemma_slot_bounds(earlier, last.updated_at);
        let slot = slot_for(earlier, last.updated_at);
        assert(metas =~= front.push(last));
        assert(earlier.insert(slot, last).to_multiset() =~= earlier.to_multiset().insert(last));
    } else {
        assert(by_recency(metas) =~= metas);
    }
}

/// Puts listing entries in listing order.
pub fn sort_by_recency(metas: &Vec<CollectionMeta>) -> (listed: Vec<CollectionMeta>)
    ensures
        meta_views(listed@) == by_recency(meta_views(metas@)),
{
    let ghost all = meta_views(metas@);
    let mut listed: Vec<CollectionMeta> = Vec::new();
    let mut i: usize = 0;
    while i < metas.len()
        invariant
            i <= metas@.len(),
            all == meta_views(metas@),
            meta_views(listed@) == by_recency(all.take(i as int)),
        decreases metas@.len() - i,
    {
        let meta = metas[i].clone();
        let mut at: usize = 0;
        while at < listed.len() && listed[at].updated_at > meta.updated_at
            invariant
                at <= listed@.len(),
                forall|k: int|
                    0 <= k < at ==> (#[trigger] meta_views(listed@)[k]).updated_at
                        > meta.updated_at,
            decreases listed@.len() - at,
        {
            assert(meta_views(listed@)[at as int] == listed@[at as int]@);
            at = at + 1;
        }
        proof {
            let before = meta_views(listed@);
            if at < listed@.len() {
                assert(before[at as int] == listed@[at as int]@);
            }
            lemma_slot(before, meta.updated_at, at as int);
            assert(all.take(i + 1).drop_last() =~= all.take(i as int));
            assert(all.take(i + 1).last() == meta@);
            assert(meta_views(listed@.insert(at as int, meta)) =~= before.insert(at as int, meta@));
        }
        listed.insert(at, meta);
        i = i + 1;
    }
    assert(all.take(metas@.len() as int) =~= all);
    listed
}

} // verus!
