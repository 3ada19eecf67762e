use vstd::prelude::*;
use crate::quote::QuoteView;

verus! {

/// Round trip: saving a quote into an empty collection and then listing it
/// yields exactly one entry, and that entry holds the saved quote unchanged.
/// `before` and `after` are the collection's contents around a successful
/// save that generated `id`, as `save_quote`'s contract describes them.
pub proof fn lemma_save_round_trip(
    before: Map<Seq<char>, QuoteView>,
    after: Map<Seq<char>, QuoteView>,
    id: Seq<char>,
    q: QuoteView,
)
    requires
        before == Map::<Seq<char>, QuoteView>::empty(),
        after == before.insert(id, q),
    ensures
        after.dom() =~= set![id],
        after.dom().len() == 1,
        after[id] == q,
        forall|k: Seq<char>| after.contains_key(k) ==> after[k] == q,
{
    assert(after.dom() =~= set![id]);
    assert(set![id].len() == 1) by {
        assert(set![id] =~= Set::empty().insert(id));
    }
}

/// Uniqueness: the id generated by a second save is fresh for the collection
/// that already holds the first saved quote, so the two ids are distinct.
pub proof fn lemma_saved_ids_distinct(
    m: Map<Seq<char>, QuoteView>,
    id1: Seq<char>,
    q1: QuoteView,
    id2: Seq<char>,
)
    requires
        !m.insert(id1, q1).contains_key(id2),
    ensures
        id1 != id2,
{
}

/// Deleting one of two saved quotes removes exactly the targeted record:
/// only the other quote remains, under its own id.
pub proof fn lemma_delete_removes_only_target(
    id1: Seq<char>,
    q1: QuoteView,
    id2: Seq<char>,
    q2: QuoteView,
)
    requires
        id1 != id2,
    ensures
        Map::<Seq<char>, QuoteView>::empty().insert(id1, q1).insert(id2, q2).remove(id1)
            == Map::<Seq<char>, QuoteView>::empty().insert(id2, q2),
{
    assert(Map::<Seq<char>, QuoteView>::empty().insert(id1, q1).insert(id2, q2).remove(id1)
        =~= Map::<Seq<char>, QuoteView>::empty().insert(id2, q2));
}

} // verus!
