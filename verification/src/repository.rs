use vstd::prelude::*;
use crate::error::StoreError;
use crate::quote::{Quote, QuoteView};
use crate::store::{lex_lt, map_of, recs_of, Record, RecordView, Store};

verus! {

/// Relies on `uuid::Uuid::new_v4` and the `Display` form of `Uuid`
/// (lowercase hyphenated, always 36 characters): a freshly generated
/// random identifier.  The value is random, so nothing more is promised
/// of it; the store itself checks that it is not already taken.
#[verifier::external_body]
fn fresh_id() -> (r: String)
    ensures
        r@.len() == 36,
{
    uuid::Uuid::new_v4().to_string()
}

/// The domain-level facade over the record store: saves, lists and
/// deletes quotes, addressing them by their generated ids.
pub struct Repository {
    store: Store,
}

impl View for Repository {
    type V = Map<Seq<char>, QuoteView>;

    closed spec fn view(&self) -> Map<Seq<char>, QuoteView> {
        self.store@
    }
}

impl Repository {
    /// The records in store order, ascending by id.
    pub closed spec fn recs(self) -> Seq<RecordView> {
        self.store.recs()
    }

    pub closed spec fn wf(self) -> bool {
        self.store.wf()
    }

    /// A freshly initialized repository holds no quotes.
    pub fn new() -> (r: Repository)
        ensures
            r.wf(),
            r@ == Map::<Seq<char>, QuoteView>::empty(),
            r.recs() == Seq::<RecordView>::empty(),
    {
        Repository { store: Store::new() }
    }

    /// Wraps an already loaded collection.
    pub fn from_store(store: Store) -> (r: Repository)
        requires
            store.wf(),
        ensures
            r.wf(),
            r@ == store@,
            r.recs() == store.recs(),
    {
        Repository { store }
    }

    /// Saves `quote` under a freshly generated id, then re-reads the stored
    /// copy and returns it together with its id, so the caller sees exactly
    /// what the collection now holds.  Fails only if the generated id
    /// collides with a 36-character id already present; the collection is
    /// unchanged then.  In particular, saving into a collection that holds
    /// no 36-character id — an empty one, say — always succeeds.
    pub fn save_quote(&mut self, quote: Quote) -> (r: Result<Record, StoreError>)
        requires
            old(self).wf(),
        ensures
            final(self).wf(),
            match r {
                Ok(rec) => rec@.quote == quote@ && rec@.id.len() == 36 && !old(
                    self,
                )@.contains_key(rec@.id) && final(self)@ == old(self)@.insert(rec@.id, quote@),
                Err(e) => *final(self) == *old(self) && (e matches StoreError::DuplicateId {
                    id: d,
                } && old(self)@.contains_key(d@) && d@.len() == 36),
            },
            (forall|k: Seq<char>| #[trigger] old(self)@.contains_key(k) ==> k.len() != 36) ==> r
                is Ok,
            old(self)@ == Map::<Seq<char>, QuoteView>::empty() ==> r is Ok,
    {
        let id = fresh_id();
        let id_copy = id.clone();
        match self.store.insert(id, quote) {
            Ok(_) => {
                let saved = self.store.get(&id_copy).unwrap().clone();
                Ok(Record { id: id_copy, quote: saved })
            },
            Err(e) => Err(e),
        }
    }

    /// A copy of every stored record, in ascending id order; an empty
    /// collection yields an empty listing, not an error.
    pub fn get_quotes(&self) -> (v: Vec<Record>)
        requires
            self.wf(),
        ensures
            recs_of(v@) == self.recs(),
            map_of(recs_of(v@)) == self@,
            forall|i: int, j: int|
                0 <= i < j < recs_of(v@).len() ==> lex_lt(
                    (#[trigger] recs_of(v@)[i]).id,
                    (#[trigger] recs_of(v@)[j]).id,
                ),
    {
        self.store.all()
    }

    /// Deletes the quote stored under `id`.  Succeeds exactly when the id is
    /// present; deleting an unknown id reports `NotFound` carrying that id
    /// and leaves the collection unchanged.
    pub fn delete_quote(&mut self, id: &String) -> (r: Result<(), StoreError>)
        requires
            old(self).wf(),
        ensures
            final(self).wf(),
            r is Ok <==> old(self)@.contains_key(id@),
            r is Ok ==> final(self)@ == old(self)@.remove(id@),
            r is Err ==> *final(self) == *old(self),
            match r {
                Ok(_) => true,
                Err(e) => e matches StoreError::NotFound { id: d } && d@ == id@,
            },
    {
        self.store.delete(id)
    }
}

} // verus!
