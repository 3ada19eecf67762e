use vstd::prelude::*;
use vstd::string::StrSliceExecFns;
use crate::error::StoreError;
use crate::quote::{Quote, QuoteView};

verus! {

/// One persisted entry: a generated identifier and the quote stored under it.
#[derive(Debug)]
pub struct Record {
    pub id: String,
    pub quote: Quote,
}

/// The mathematical content of a `Record`.
pub ghost struct RecordView {
    pub id: Seq<char>,
    pub quote: QuoteView,
}

impl View for Record {
    type V = RecordView;

    open spec fn view(&self) -> RecordView {
        RecordView { id: self.id@, quote: self.quote@ }
    }
}

impl Clone for Record {
    fn clone(&self) -> (r: Self)
        ensures
            r@ == self@,
    {
        Record { id: self.id.clone(), quote: self.quote.clone() }
    }
}

/// The views of a sequence of records.
pub open spec fn recs_of(s: Seq<Record>) -> Seq<RecordView> {
    s.map_values(|r: Record| r@)
}

/// Strict lexicographic order on character sequences, comparing by unicode
/// scalar value; the empty sequence comes first.
pub open spec fn lex_lt(a: Seq<char>, b: Seq<char>) -> bool
    decreases a.len(),
{
    if b.len() == 0 {
        false
    } else if a.len() == 0 {
        true
    } else if a[0] != b[0] {
        a[0] < b[0]
    } else {
        lex_lt(a.skip(1), b.skip(1))
    }
}

pub proof fn lemma_lex_lt_irrefl(a: Seq<char>)
    ensures
        !lex_lt(a, a),
    decreases a.len(),
{
    if a.len() > 0 {
        lemma_lex_lt_irrefl(a.skip(1));
    }
}

pub proof fn lemma_lex_lt_total(a: Seq<char>, b: Seq<char>)
    ensures
        lex_lt(a, b) || lex_lt(b, a) || a == b,
    decreases a.len(),
{
    if b.len() == 0 {
        if a.len() == 0 {
            assert(a =~= b);
        }
    } else if a.len() == 0 {
    } else if a[0] == b[0] {
        lemma_lex_lt_total(a.skip(1), b.skip(1));
        if a.skip(1) == b.skip(1) {
            assert(a.skip(1).len() == a.len() - 1);
            assert(b.skip(1).len() == b.len() - 1);
            assert(a.len() == b.len());
            assert forall|i: int| 0 <= i < a.len() implies a[i] == b[i] by {
                if i > 0 {
                    assert(a.skip(1)[i - 1] == a[i]);
                    assert(b.skip(1)[i - 1] == b[i]);
                }
            }
            assert(a =~= b);
        }
    }
}

pub proof fn lemma_lex_lt_trans(a: Seq<char>, b: Seq<char>, c: Seq<char>)
    requires
        lex_lt(a, b),
        lex_lt(b, c),
    ensures
        lex_lt(a, c),
    decreases a.len(),
{
    if a.len() > 0 && b.len() > 0 && c.len() > 0 && a[0] == b[0] && b[0] == c[0] {
        lemma_lex_lt_trans(a.skip(1), b.skip(1), c.skip(1));
    }
}

/// The mapping denoted by a sequence of records: each id maps to the quote
/// stored under it (a later occurrence would win, though a well-formed store
/// never repeats an id).
pub open spec fn map_of(s: Seq<RecordView>) -> Map<Seq<char>, QuoteView>
    decreases s.len(),
{
    if s.len() == 0 {
        Map::empty()
    } else {
        map_of(s.drop_last()).insert(s.last().id, s.last().quote)
    }
}

/// Some record in `s` carries the id `id`.
pub open spec fn has_id(s: Seq<RecordView>, id: Seq<char>) -> bool {
    exists|i: int| 0 <= i < s.len() && s[i].id == id
}

/// No two records in `s` share an id.
pub open spec fn distinct_ids(s: Seq<RecordView>) -> bool {
    forall|i: int, j: int| 0 <= i < j < s.len() ==> s[i].id != s[j].id
}

pub proof fn lemma_map_of_contains(s: Seq<RecordView>, id: Seq<char>)
    ensures
        map_of(s).contains_key(id) <==> has_id(s, id),
    decreases s.len(),
{
    if s.len() > 0 {
        lemma_map_of_contains(s.drop_last(), id);
        if s.last().id == id {
            assert(s[s.len() - 1].id == id);
        } else {
            if has_id(s, id) {
                let i = choose|i: int| 0 <= i < s.len() && s[i].id == id;
                assert(s.drop_last()[i].id == id);
            }
            if has_id(s.drop_last(), id) {
                let i = choose|i: int| 0 <= i < s.drop_last().len() && s.drop_last()[i].id == id;
                assert(s[i].id == id);
            }
        }
    }
}

pub proof fn lemma_map_of_value(s: Seq<RecordView>, i: int)
    requires
        distinct_ids(s),
        0 <= i < s.len(),
    ensures
        map_of(s).contains_key(s[i].id),
        map_of(s)[s[i].id] == s[i].quote,
    decreases s.len(),
{
    if i == s.len() - 1 {
    } else {
        assert(forall|x: int, y: int|
            0 <= x < y < s.drop_last().len() ==> s.drop_last()[x].id != s.drop_last()[y].id);
        lemma_map_of_value(s.drop_last(), i);
        assert(s.drop_last()[i] == s[i]);
        assert(s[i].id != s.last().id);
    }
}

pub proof fn lemma_map_of_insert(s: Seq<RecordView>, k: int, rv: RecordView)
    requires
        0 <= k <= s.len(),
        !has_id(s, rv.id),
    ensures
        map_of(s.insert(k, rv)) == map_of(s).insert(rv.id, rv.quote),
    decreases s.len(),
{
    let s2 = s.insert(k, rv);
    s.insert_ensures(k, rv);
    if k == s.len() {
        assert(s2.drop_last() =~= s);
        assert(s2.last() == rv);
    } else {
        assert(s2.last() == s.last());
        assert(s2.drop_last() =~= s.drop_last().insert(k, rv)) by {
            s.drop_last().insert_ensures(k, rv);
        }
        assert(!has_id(s.drop_last(), rv.id)) by {
            if has_id(s.drop_last(), rv.id) {
                let i = choose|i: int|
                    0 <= i < s.drop_last().len() && s.drop_last()[i].id == rv.id;
                assert(s[i].id == rv.id);
            }
        }
        lemma_map_of_insert(s.drop_last(), k, rv);
        assert(s.last().id != rv.id) by {
            if s.last().id == rv.id {
                assert(s[s.len() - 1].id == rv.id);
            }
        }
        assert(map_of(s.drop_last()).insert(rv.id, rv.quote).insert(s.last().id, s.last().quote)
            =~= map_of(s.drop_last()).insert(s.last().id, s.last().quote).insert(
            rv.id,
            rv.quote,
        ));
    }
}

pub proof fn lemma_map_of_remove(s: Seq<RecordView>, i: int)
    requires
        distinct_ids(s),
        0 <= i < s.len(),
    ensures
        map_of(s.remove(i)) == map_of(s).remove(s[i].id),
    decreases s.len(),
{
    s.remove_ensures(i);
    assert(forall|x: int, y: int|
        0 <= x < y < s.drop_last().len() ==> s.drop_last()[x].id != s.drop_last()[y].id);
    if i == s.len() - 1 {
        assert(s.remove(i) =~= s.drop_last());
        assert(!has_id(s.drop_last(), s[i].id)) by {
            if has_id(s.drop_last(), s[i].id) {
                let j = choose|j: int|
                    0 <= j < s.drop_last().len() && s.drop_last()[j].id == s[i].id;
                assert(s[j].id == s[i].id);
            }
        }
        lemma_map_of_contains(s.drop_last(), s[i].id);
        assert(map_of(s.drop_last()) =~= map_of(s.drop_last()).insert(
            s.last().id,
            s.last().quote,
        ).remove(s[i].id));
    } else {
        assert(s.remove(i).drop_last() =~= s.drop_last().remove(i)) by {
            s.drop_last().remove_ensures(i);
        }
        assert(s.remove(i).last() == s.last());
        lemma_map_of_remove(s.drop_last(), i);
        assert(s.drop_last()[i] == s[i]);
        assert(s[i].id != s.last().id);
        assert(map_of(s.drop_last()).remove(s[i].id).insert(s.last().id, s.last().quote)
            =~= map_of(s.drop_last()).insert(s.last().id, s.last().quote).remove(s[i].id));
    }
}

/// Compares two strings; true exactly when `a` comes strictly before `b`
/// in lexicographic order.
pub fn str_lex_lt(a: &str, b: &str) -> (r: bool)
    ensures
        r == lex_lt(a@, b@),
{
    let alen = a.unicode_len();
    let blen = b.unicode_len();
    let mut i: usize = 0;
    proof {
        assert(a@.skip(0) =~= a@);
        assert(b@.skip(0) =~= b@);
    }
    loop
        invariant
            i <= alen,
            i <= blen,
            alen == a@.len(),
            blen == b@.len(),
            lex_lt(a@, b@) == lex_lt(a@.skip(i as int), b@.skip(i as int)),
        decreases alen - i,
    {
        if i >= blen {
            return false;
        }
        if i >= alen {
            return true;
        }
        let ca = a.get_char(i);
        let cb = b.get_char(i);
        if ca != cb {
            return ca < cb;
        }
        proof {
            assert(a@.skip(i as int).skip(1) =~= a@.skip(i + 1));
            assert(b@.skip(i as int).skip(1) =~= b@.skip(i + 1));
        }
        i = i + 1;
    }
}

/// The record store: the full collection of quotes, kept sorted by id in
/// ascending lexicographic order, with every id non-empty and unique.
pub struct Store {
    records: Vec<Record>,
}

impl View for Store {
    type V = Map<Seq<char>, QuoteView>;

    open spec fn view(&self) -> Map<Seq<char>, QuoteView> {
        map_of(self.recs())
    }
}

impl Store {
    /// The records as a sequence of views, in the order the store keeps them.
    pub closed spec fn recs(self) -> Seq<RecordView> {
        recs_of(self.records@)
    }

    /// Well-formed: ids strictly ascending (hence unique) and non-empty.
    pub open spec fn wf(self) -> bool {
        &&& forall|i: int, j: int|
            0 <= i < j < self.recs().len() ==> lex_lt(
                (#[trigger] self.recs()[i]).id,
                (#[trigger] self.recs()[j]).id,
            )
        &&& forall|i: int| 0 <= i < self.recs().len() ==> (#[trigger] self.recs()[i].id).len() > 0
    }

    pub proof fn lemma_wf_distinct(self)
        requires
            self.wf(),
        ensures
            distinct_ids(self.recs()),
    {
        assert forall|i: int, j: int|
            0 <= i < j < self.recs().len() implies self.recs()[i].id != self.recs()[j].id by {
            lemma_lex_lt_irrefl(self.recs()[i].id);
        }
    }

    /// A freshly initialized store holds nothing.
    pub fn new() -> (s: Store)
        ensures
            s.wf(),
            s@ == Map::<Seq<char>, QuoteView>::empty(),
            s.recs() == Seq::<RecordView>::empty(),
    {
        let s = Store { records: Vec::new() };
        proof {
            assert(s.recs() =~= Seq::<RecordView>::empty());
        }
        s
    }

    pub fn len(&self) -> (n: usize)
        ensures
            n == self.recs().len(),
    {
        self.records.len()
    }

    /// Inserts `quote` under `id`, keeping the collection sorted.  Succeeds
    /// exactly when `id` is non-empty and not already present; on failure the
    /// store is unchanged and the error says why.
    pub fn insert(&mut self, id: String, quote: Quote) -> (r: Result<(), StoreError>)
        requires
            old(self).wf(),
        ensures
            final(self).wf(),
            r is Ok <==> (id@.len() > 0 && !old(self)@.contains_key(id@)),
            r is Ok ==> final(self)@ == old(self)@.insert(id@, quote@),
            r is Err ==> *final(self) == *old(self),
            match r {
                Ok(_) => true,
                Err(e) => match e {
                    StoreError::EmptyId => id@.len() == 0,
                    StoreError::DuplicateId { id: d } => d@ == id@ && old(self)@.contains_key(
                        id@,
                    ),
                    _ => false,
                },
            },
    {
        if id.as_str().unicode_len() == 0 {
            proof {
                lemma_map_of_contains(self.recs(), id@);
            }
            return Err(StoreError::EmptyId);
        }
        let ghost s = self.recs();
        let mut k: usize = 0;
        loop
            invariant
                *self == *old(self),
                s == self.recs(),
                k <= self.records@.len(),
                forall|i: int| 0 <= i < k ==> lex_lt(#[trigger] s[i].id, id@),
            ensures
                *self == *old(self),
                k <= self.records@.len(),
                forall|i: int| 0 <= i < k ==> lex_lt(#[trigger] s[i].id, id@),
                k < self.records@.len() ==> !lex_lt(s[k as int].id, id@),
            decreases self.records@.len() - k,
        {
            if k == self.records.len() {
                break ;
            }
            if !str_lex_lt(self.records[k].id.as_str(), id.as_str()) {
                break ;
            }
            k = k + 1;
        }
        if k < self.records.len() && self.records[k].id == id {
            proof {
                assert(s[k as int].id == id@);
                lemma_map_of_contains(s, id@);
            }
            return Err(StoreError::DuplicateId { id });
        }
        proof {
            // `id` is fresh: earlier records are strictly below it, the record
            // at `k` (if any) differs from it, and later records are strictly
            // above the one at `k`.
            assert forall|i: int| 0 <= i < s.len() implies s[i].id != id@ by {
                if i < k {
                    lemma_lex_lt_irrefl(s[i].id);
                } else if i == k {
                } else {
                    assert(lex_lt(s[k as int].id, s[i].id));
                    if s[i].id == id@ {
                        lemma_lex_lt_irrefl(s[k as int].id);
                    }
                }
            }
            lemma_map_of_contains(s, id@);
            // Everything at or after `k` is strictly above `id`.
            assert forall|i: int| k <= i < s.len() implies lex_lt(id@, #[trigger] s[i].id) by {
                lemma_lex_lt_total(id@, s[k as int].id);
                if i > k {
                    lemma_lex_lt_trans(id@, s[k as int].id, s[i].id);
                }
            }
        }
        let ghost rv = RecordView { id: id@, quote: quote@ };
        self.records.insert(k, Record { id, quote });
        proof {
            assert(self.recs() =~= s.insert(k as int, rv));
            s.insert_ensures(k as int, rv);
            lemma_map_of_insert(s, k as int, rv);
        }
        Ok(())
    }

    /// Looks up the quote stored under `id`.
    pub fn get(&self, id: &String) -> (r: Option<&Quote>)
        requires
            self.wf(),
        ensures
            r is Some <==> self@.contains_key(id@),
            match r {
                Some(q) => q@ == self@[id@],
                None => true,
            },
    {
        let ghost s = self.recs();
        let mut j: usize = 0;
        loop
            invariant
                self.wf(),
                s == self.recs(),
                j <= self.records@.len(),
                forall|i: int| 0 <= i < j ==> (#[trigger] s[i].id) != id@,
            decreases self.records@.len() - j,
        {
            if j == self.records.len() {
                proof {
                    lemma_map_of_contains(s, id@);
                }
                return None;
            }
            if self.records[j].id == *id {
                proof {
                    self.lemma_wf_distinct();
                    lemma_map_of_value(s, j as int);
                }
                return Some(&self.records[j].quote);
            }
            j = j + 1;
        }
    }

    /// Removes the record stored under `id`.  Succeeds exactly when `id` is
    /// present; deleting an absent id reports `NotFound` and leaves the
    /// collection unchanged.
    pub fn delete(&mut self, id: &String) -> (r: Result<(), StoreError>)
        requires
            old(self).wf(),
        ensures
            final(self).wf(),
            r is Ok <==> old(self)@.contains_key(id@),
            r is Ok ==> final(self)@ == old(self)@.remove(id@),
            r is Err ==> *final(self) == *old(self),
            match r {
                Ok(_) => true,
                Err(e) => match e {
                    StoreError::NotFound { id: d } => d@ == id@,
                    _ => false,
                },
            },
    {
        let ghost s = self.recs();
        let mut j: usize = 0;
        loop
            invariant
                old(self).wf(),
                *self == *old(self),
                s == self.recs(),
                j <= self.records@.len(),
                forall|i: int| 0 <= i < j ==> (#[trigger] s[i].id) != id@,
            ensures
                *self == *old(self),
                j < self.records@.len(),
                s[j as int].id == id@,
            decreases self.records@.len() - j,
        {
            if j == self.records.len() {
                proof {
                    lemma_map_of_contains(s, id@);
                }
                return Err(StoreError::NotFound { id: id.clone() });
            }
            if self.records[j].id == *id {
                break ;
            }
            j = j + 1;
        }
        proof {
            self.lemma_wf_distinct();
            assert(s[j as int].id == id@);
            lemma_map_of_contains(s, id@);
            lemma_map_of_remove(s, j as int);
            s.remove_ensures(j as int);
        }
        self.records.remove(j);
        proof {
            assert(self.recs() =~= s.remove(j as int));
        }
        Ok(())
    }

    /// A copy of every record, in ascending id order.
    pub fn all(&self) -> (v: Vec<Record>)
        ensures
            recs_of(v@) == self.recs(),
    {
        let mut v: Vec<Record> = Vec::new();
        let mut i: usize = 0;
        while i < self.records.len()
            invariant
                i <= self.records@.len(),
                recs_of(v@) =~= self.recs().take(i as int),
            decreases self.records@.len() - i,
        {
            let rec = self.records[i].clone();
            let ghost vpre = v@;
            v.push(rec);
            proof {
                assert(recs_of(vpre).len() == vpre.len());
                assert(vpre.len() == i);
                assert(v@ == vpre.push(rec));
                assert forall|j: int| 0 <= j < v@.len() implies recs_of(v@)[j] == self.recs().take(
                    i + 1,
                )[j] by {
                    assert(recs_of(v@)[j] == v@[j]@);
                    assert(self.recs().take(i + 1)[j] == self.recs()[j]);
                    if j < i {
                        assert(v@[j] == vpre[j]);
                        assert(recs_of(vpre)[j] == vpre[j]@);
                        assert(recs_of(vpre)[j] == self.recs().take(i as int)[j]);
                        assert(self.recs().take(i as int)[j] == self.recs()[j]);
                    } else {
                        assert(v@[j] == rec);
                        assert(self.recs()[i as int] == self.records@[i as int]@);
                    }
                }
                assert(recs_of(v@) =~= self.recs().take(i + 1));
            }
            i = i + 1;
        }
        proof {
            assert(recs_of(v@) =~= self.recs());
        }
        v
    }
}

} // verus!
