//! The capsule store: the stored capsules, kept newest first, with public
//! identifiers that never repeat.
use crate::capsule::{models, Capsule, CapsuleModel};
use crate::error::StoreError;
use vstd::prelude::*;

verus! {

/// The order in which a listing hands capsules out.
#[derive(Clone, Copy, Debug, PartialEq, Eq, Structural)]
pub enum ListOrder {
    /// By `created_at`, latest first.
    NewestFirst,
    /// By `created_at`, earliest first.
    OldestFirst,
}

/// Whether `a` is listed before `b` when the newest come first: it was
/// created later, or at the same instant and stored later.
pub open spec fn newer(a: CapsuleModel, b: CapsuleModel) -> bool {
    a.created_at > b.created_at || (a.created_at == b.created_at && a.internal_id > b.internal_id)
}

/// The first place at or after `from` whose capsule was created at `instant`
/// or before it; the number of capsules where there is none.
pub open spec fn first_not_after(rows: Seq<CapsuleModel>, instant: int, from: int) -> int
    decreases rows.len() - from,
{
    if 0 <= from < rows.len() && rows[from].created_at > instant {
        first_not_after(rows, instant, from + 1)
    } else {
        from
    }
}

/// The part of `rows` that a page of at most `limit` capsules holds after
/// `offset` capsules were passed over.
pub open spec fn page(rows: Seq<CapsuleModel>, limit: nat, offset: nat) -> Seq<CapsuleModel> {
    let start = if offset < rows.len() {
        offset as int
    } else {
        rows.len() as int
    };
    let end = if start + limit < rows.len() {
        start + limit
    } else {
        rows.len() as int
    };
    rows.subrange(start, end)
}

/// What a store holds, as plain mathematical values: the capsules, newest
/// first, and the internal identifier that the next capsule gets.
pub struct StoreModel {
    pub rows: Seq<CapsuleModel>,
    pub next_internal_id: nat,
}

impl StoreModel {
    /// The store that holds nothing yet.
    pub open spec fn empty() -> StoreModel {
        StoreModel { rows: Seq::<CapsuleModel>::empty(), next_internal_id: 1 }
    }

    /// What holds of every store: internal identifiers were handed out from
    /// 1 up to, but without, `next_internal_id`; no public identifier and no
    /// internal one occurs twice; and the capsules stand newest first.
    pub open spec fn wf(self) -> bool {
        &&& 1 <= self.next_internal_id
        &&& forall|i: int|
            0 <= i < self.rows.len() ==> 1 <= (#[trigger] self.rows[i]).internal_id
                < self.next_internal_id
        &&& forall|i: int, j: int|
            #![trigger self.rows[i], self.rows[j]]
            0 <= i < j < self.rows.len() ==> self.rows[i].public_id != self.rows[j].public_id
                && self.rows[i].internal_id != self.rows[j].internal_id
        &&& forall|i: int, j: int|
            #![trigger self.rows[i], self.rows[j]]
            0 <= i < j < self.rows.len() ==> newer(self.rows[i], self.rows[j])
    }

    /// Whether a stored capsule has this public identifier.
    pub open spec fn contains_id(self, public_id: Seq<char>) -> bool {
        exists|i: int| 0 <= i < self.rows.len() && (#[trigger] self.rows[i]).public_id == public_id
    }

    /// A place at which a capsule with this public identifier stands.
    pub open spec fn index_of(self, public_id: Seq<char>) -> int {
        choose|i: int| 0 <= i < self.rows.len() && (#[trigger] self.rows[i]).public_id == public_id
    }

    /// The capsule with this public identifier, or `NotFound`.
    pub open spec fn find(self, public_id: Seq<char>) -> Result<CapsuleModel, StoreError> {
        if self.contains_id(public_id) {
            Ok(self.rows[self.index_of(public_id)])
        } else {
            Err(StoreError::NotFound)
        }
    }

    /// Whether every internal identifier has been handed out.
    pub open spec fn is_full(self) -> bool {
        self.next_internal_id >= u64::MAX
    }

    /// The capsule that an insertion stores.
    pub open spec fn new_row(
        self,
        public_id: Seq<char>,
        title: Seq<char>,
        content: Seq<char>,
        unlock_at: int,
        now: int,
    ) -> CapsuleModel {
        CapsuleModel {
            internal_id: self.next_internal_id,
            public_id,
            title,
            content,
            unlock_at,
            created_at: now,
        }
    }

    /// What an insertion answers: `Conflict` where the public identifier is
    /// taken, else `Unavailable` where the store is full, else the stored
    /// capsule.
    pub open spec fn insert_outcome(
        self,
        public_id: Seq<char>,
        title: Seq<char>,
        content: Seq<char>,
        unlock_at: int,
        now: int,
    ) -> Result<CapsuleModel, StoreError> {
        if self.contains_id(public_id) {
            Err(StoreError::Conflict)
        } else if self.is_full() {
            Err(StoreError::Unavailable)
        } else {
            Ok(self.new_row(public_id, title, content, unlock_at, now))
        }
    }

    /// The store after an insertion: unchanged where the insertion failed,
    /// else with the new capsule in front of all that were created at `now`
    /// or earlier.
    pub open spec fn after_insert(
        self,
        public_id: Seq<char>,
        title: Seq<char>,
        content: Seq<char>,
        unlock_at: int,
        now: int,
    ) -> StoreModel {
        match self.insert_outcome(public_id, title, content, unlock_at, now) {
            Ok(row) => StoreModel {
                rows: self.rows.insert(first_not_after(self.rows, now, 0), row),
                next_internal_id: self.next_internal_id + 1,
            },
            Err(_) => self,
        }
    }

    /// All stored capsules in the order asked for.
    pub open spec fn ordered(self, order: ListOrder) -> Seq<CapsuleModel> {
        match order {
            ListOrder::NewestFirst => self.rows,
            ListOrder::OldestFirst => self.rows.reverse(),
        }
    }

    /// One page of a listing.
    pub open spec fn list(self, order: ListOrder, limit: nat, offset: nat) -> Seq<CapsuleModel> {
        page(self.ordered(order), limit, offset)
    }
}

/// Where an insertion puts a capsule: behind every capsule created after
/// `instant`, and in front of the first one that was not.
pub proof fn lemma_first_not_after(rows: Seq<CapsuleModel>, instant: int, from: int)
    requires
        0 <= from <= rows.len(),
    ensures
        from <= first_not_after(rows, instant, from) <= rows.len(),
        forall|i: int|
            from <= i < first_not_after(rows, instant, from) ==> (#[trigger] rows[i]).created_at
                > instant,
        first_not_after(rows, instant, from) < rows.len() ==> rows[first_not_after(
            rows,
            instant,
            from,
        )].created_at <= instant,
    decreases rows.len() - from,
{
    if from < rows.len() && rows[from].created_at > instant {
        lemma_first_not_after(rows, instant, from + 1);
    }
}

/// In a store no two capsules share a public identifier, so a lookup has
/// one answer: the capsule at whichever place holds the identifier.
pub proof fn lemma_find_at(store: StoreModel, i: int)
    requires
        store.wf(),
        0 <= i < store.rows.len(),
    ensures
        store.contains_id(store.rows[i].public_id),
        store.find(store.rows[i].public_id) == Ok::<CapsuleModel, StoreError>(store.rows[i]),
{
    let id = store.rows[i].public_id;
    let j = store.index_of(id);
    assert(0 <= j < store.rows.len() && store.rows[j].public_id == id);
    if i < j {
        assert(store.rows[i].public_id != store.rows[j].public_id);
    } else if j < i {
        assert(store.rows[j].public_id != store.rows[i].public_id);
    }
}

/// An insertion keeps a store a store. Where it succeeds, the new capsule
/// is stored under the public identifier it was given, and every capsule
/// that was stored before is still stored, unchanged.
pub proof fn lemma_insert(
    store: StoreModel,
    public_id: Seq<char>,
    title: Seq<char>,
    content: Seq<char>,
    unlock_at: int,
    now: int,
)
    requires
        store.wf(),
    ensures
        store.after_insert(public_id, title, content, unlock_at, now).wf(),
        store.insert_outcome(public_id, title, content, unlock_at, now) is Ok ==> {
            let after = store.after_insert(public_id, title, content, unlock_at, now);
            let row = store.new_row(public_id, title, content, unlock_at, now);
            &&& after.rows.len() == store.rows.len() + 1
            &&& after.find(public_id) == Ok::<CapsuleModel, StoreError>(row)
            &&& forall|other: Seq<char>|
                other != public_id ==> after.find(other) == store.find(other)
        },
{
    if store.insert_outcome(public_id, title, content, unlock_at, now) is Ok {
        let after = store.after_insert(public_id, title, content, unlock_at, now);
        let row = store.new_row(public_id, title, content, unlock_at, now);
        let at = first_not_after(store.rows, now, 0);
        lemma_first_not_after(store.rows, now, 0);
        lemma_rows_after_insert(store.rows, at, row);
        assert forall|j: int| at <= j < store.rows.len() implies (#[trigger] store.rows[j]).created_at
            <= now by {
            if at < j {
                assert(newer(store.rows[at], store.rows[j]));
            }
        }
        assert(!store.contains_id(public_id));
        assert forall|i: int| 0 <= i < store.rows.len() implies (#[trigger] store.rows[i]).public_id
            != public_id by {}
        assert(after.wf()) by {
            assert forall|i: int, j: int|
                #![trigger after.rows[i], after.rows[j]]
                0 <= i < j < after.rows.len() implies after.rows[i].public_id
                != after.rows[j].public_id && after.rows[i].internal_id
                != after.rows[j].internal_id && newer(after.rows[i], after.rows[j]) by {
                let oi = if i < at { i } else { i - 1 };
                let oj = if j < at { j } else { j - 1 };
                if i != at && j != at {
                    assert(after.rows[i] == store.rows[oi]);
                    assert(after.rows[j] == store.rows[oj]);
                    assert(newer(store.rows[oi], store.rows[oj]));
                } else if i == at {
                    assert(after.rows[j] == store.rows[oj]);
                } else {
                    assert(after.rows[i] == store.rows[oi]);
                }
            }
            assert forall|i: int| 0 <= i < after.rows.len() implies 1 <= (
            #[trigger] after.rows[i]).internal_id < after.next_internal_id by {
                let oi = if i < at { i } else { i - 1 };
                if i != at {
                    assert(after.rows[i] == store.rows[oi]);
                }
            }
        }
        assert(after.rows[at] == row);
        lemma_find_at(after, at);
        assert forall|other: Seq<char>| other != public_id implies after.find(other)
            == store.find(other) by {
            if store.contains_id(other) {
                let k = store.index_of(other);
                let nk = if k < at { k } else { k + 1 };
                assert(after.rows[nk] == store.rows[k]);
                lemma_find_at(store, k);
                lemma_find_at(after, nk);
            } else if after.contains_id(other) {
                let nk = after.index_of(other);
                let k = if nk < at { nk } else { nk - 1 };
                assert(nk != at);
                assert(after.rows[nk] == store.rows[k]);
                assert(store.contains_id(other));
            }
        }
    }
}

/// What stands at each place after one capsule was put in at `at`.
pub proof fn lemma_rows_after_insert(rows: Seq<CapsuleModel>, at: int, row: CapsuleModel)
    requires
        0 <= at <= rows.len(),
    ensures
        rows.insert(at, row).len() == rows.len() + 1,
        rows.insert(at, row)[at] == row,
        forall|i: int| 0 <= i < at ==> #[trigger] rows.insert(at, row)[i] == rows[i],
        forall|i: int| at < i <= rows.len() ==> #[trigger] rows.insert(at, row)[i] == rows[i - 1],
{
}

/// The capsules of a store, kept in a vector.
pub struct CapsuleStore {
    rows: Vec<Capsule>,
    next_internal_id: u64,
}

impl View for CapsuleStore {
    type V = StoreModel;

    closed spec fn view(&self) -> StoreModel {
        StoreModel { rows: models(self.rows@), next_internal_id: self.next_internal_id as nat }
    }
}

impl CapsuleStore {
    /// A store that holds nothing yet.
    pub fn new() -> (r: CapsuleStore)
        ensures
            r@ == StoreModel::empty(),
            r@.wf(),
    {
        let r = CapsuleStore { rows: Vec::new(), next_internal_id: 1 };
        assert(r@.rows =~= Seq::<CapsuleModel>::empty());
        r
    }

    /// The number of stored capsules.
    pub fn len(&self) -> (r: usize)
        ensures
            r == self@.rows.len(),
    {
        self.rows.len()
    }

    fn position_of(&self, public_id: &String) -> (r: Option<usize>)
        ensures
            match r {
                Some(i) => i < self@.rows.len() && self@.rows[i as int].public_id == public_id@,
                None => !self@.contains_id(public_id@),
            },
    {
        let mut i: usize = 0;
        while i < self.rows.len()
            invariant
                0 <= i <= self.rows.len(),
                forall|k: int| 0 <= k < i ==> (#[trigger] self@.rows[k]).public_id != public_id@,
            decreases self.rows.len() - i,
        {
            if self.rows[i].public_id == *public_id {
                return Some(i);
            }
            i = i + 1;
        }
        None
    }

    /// Whether a stored capsule has this public identifier.
    pub fn contains(&self, public_id: &str) -> (r: bool)
        ensures
            r == self@.contains_id(public_id@),
    {
        let wanted: String = public_id.to_owned();
        self.position_of(&wanted).is_some()
    }

    /// Stores a new capsule, created at `now`, and hands back what was
    /// stored. Fails with `Conflict` where `public_id` is taken, and with
    /// `Unavailable` where no internal identifier is left; the store is then
    /// unchanged.
    pub fn insert(
        &mut self,
        public_id: String,
        title: String,
        content: String,
        unlock_at: i64,
        now: i64,
    ) -> (r: Result<Capsule, StoreError>)
        requires
            old(self)@.wf(),
        ensures
            final(self)@.wf(),
            final(self)@ == old(self)@.after_insert(
                public_id@,
                title@,
                content@,
                unlock_at as int,
                now as int,
            ),
            match r {
                Ok(capsule) => old(self)@.insert_outcome(
                    public_id@,
                    title@,
                    content@,
                    unlock_at as int,
                    now as int,
                ) == Ok::<CapsuleModel, StoreError>(capsule@),
                Err(error) => old(self)@.insert_outcome(
                    public_id@,
                    title@,
                    content@,
                    unlock_at as int,
                    now as int,
                ) == Err::<CapsuleModel, StoreError>(error),
            },
    {
        proof {
            lemma_insert(old(self)@, public_id@, title@, content@, unlock_at as int, now as int);
        }
        if self.position_of(&public_id).is_some() {
            return Err(StoreError::Conflict);
        }
        if self.next_internal_id == u64::MAX {
            return Err(StoreError::Unavailable);
        }
        let mut at: usize = 0;
        while at < self.rows.len() && self.rows[at].created_at > now
            invariant
                0 <= at <= self.rows.len(),
                first_not_after(self@.rows, now as int, 0) == first_not_after(
                    self@.rows,
                    now as int,
                    at as int,
                ),
            decreases self.rows.len() - at,
        {
            at = at + 1;
        }
        let capsule = Capsule {
            internal_id: self.next_internal_id,
            public_id,
            title,
            content,
            unlock_at,
            created_at: now,
        };
        let stored = capsule.clone();
        self.rows.insert(at, capsule);
        self.next_internal_id = self.next_internal_id + 1;
        assert(self@.rows =~= old(self)@.rows.insert(at as int, stored@));
        Ok(stored)
    }

    /// Looks a capsule up by its public identifier. The content is handed
    /// out as stored: the store withholds nothing.
    pub fn get_by_public_id(&self, public_id: &str) -> (r: Result<Capsule, StoreError>)
        requires
            self@.wf(),
        ensures
            match r {
                Ok(capsule) => self@.find(public_id@) == Ok::<CapsuleModel, StoreError>(capsule@),
                Err(error) => self@.find(public_id@) == Err::<CapsuleModel, StoreError>(error),
            },
    {
        let wanted: String = public_id.to_owned();
        match self.position_of(&wanted) {
            Some(i) => {
                proof {
                    lemma_find_at(self@, i as int);
                }
                Ok(self.rows[i].clone())
            },
            None => Err(StoreError::NotFound),
        }
    }

    /// One page of a listing: after `offset` capsules of the order asked
    /// for, the next `limit` of them, or as many as are left. An empty page
    /// is no failure.
    pub fn list(&self, order: ListOrder, limit: usize, offset: usize) -> (r: Vec<Capsule>)
        ensures
            models(r@) == self@.list(order, limit as nat, offset as nat),
            r.len() == self@.list(order, limit as nat, offset as nat).len(),
    {
        let total: usize = self.rows.len();
        let start: usize = if offset < total {
            offset
        } else {
            total
        };
        let count: usize = if limit < total - start {
            limit
        } else {
            total - start
        };
        let ghost wanted = self@.list(order, limit as nat, offset as nat);
        let mut out: Vec<Capsule> = Vec::new();
        let mut taken: usize = 0;
        while taken < count
            invariant
                total == self.rows.len(),
                start + count <= total,
                0 <= taken <= count,
                out.len() == taken,
                wanted == self@.ordered(order).subrange(start as int, start + count),
                self@.ordered(order).len() == total,
                forall|k: int| 0 <= k < taken ==> (#[trigger] out[k])@ == wanted[k],
            decreases count - taken,
        {
            let index: usize = match order {
                ListOrder::NewestFirst => start + taken,
                ListOrder::OldestFirst => total - 1 - (start + taken),
            };
            out.push(self.rows[index].clone());
            taken = taken + 1;
        }
        assert(models(out@) =~= wanted);
        out
    }
}

} // verus!
