//! The capsule service: the rules by which capsules are created, read and
//! listed.
//!
//! The service never reads a clock and never draws a random number. Every
//! operation takes the current instant as `now`, and a creation takes the
//! public identifiers it may use, so that each result is a function of the
//! arguments and of what is stored.
use crate::capsule::{all_seen_at, apply_time_lock, models, Capsule, CapsuleModel};
use crate::capsule::{MAX_CONTENT_CHARS, MAX_TITLE_CHARS};
use crate::error::{service_error_of, Field, Reason, ServiceError, StoreError};
use crate::store::{
    first_not_after, lemma_first_not_after, lemma_insert, lemma_rows_after_insert, CapsuleStore,
    ListOrder, StoreModel,
};
use crate::timestamp::{instant_of, parse_timestamp};
use vstd::prelude::*;

verus! {

/// The largest number of capsules that one page of a listing holds.
pub const MAX_PAGE_SIZE: usize = 100;

/// Why a text of a creation request is refused, if it is: it is empty, or
/// longer than `max` characters.
pub open spec fn text_fault(text: Seq<char>, max: nat) -> Option<Reason> {
    if text.len() == 0 {
        Some(Reason::Empty)
    } else if text.len() > max {
        Some(Reason::TooLong)
    } else {
        None
    }
}

/// Why an unlock instant is refused, if it is: the text is no timestamp, or
/// the instant is not strictly after `now`.
pub open spec fn unlock_fault(unlock_at: Seq<char>, now: int) -> Option<Reason> {
    match instant_of(unlock_at) {
        None => Some(Reason::Unparseable),
        Some(instant) => if instant <= now {
            Some(Reason::NotInFuture)
        } else {
            None
        },
    }
}

/// The failure with which a creation request is refused, and `None` for a
/// request that is accepted. The title is judged first, then the content,
/// then the unlock instant.
pub open spec fn creation_fault(
    title: Seq<char>,
    content: Seq<char>,
    unlock_at: Seq<char>,
    now: int,
) -> Option<ServiceError> {
    match text_fault(title, MAX_TITLE_CHARS as nat) {
        Some(reason) => Some(ServiceError::ValidationFailed(Field::Title, reason)),
        None => match text_fault(content, MAX_CONTENT_CHARS as nat) {
            Some(reason) => Some(ServiceError::ValidationFailed(Field::Content, reason)),
            None => match unlock_fault(unlock_at, now) {
                Some(reason) => Some(ServiceError::ValidationFailed(Field::UnlockAt, reason)),
                None => None,
            },
        },
    }
}

/// The page size that is used for a requested one: at least 1 and at most
/// `MAX_PAGE_SIZE`.
pub open spec fn clamped_limit(limit: int) -> nat {
    if limit < 1 {
        1
    } else if limit > MAX_PAGE_SIZE {
        MAX_PAGE_SIZE as nat
    } else {
        limit as nat
    }
}

/// The number of capsules that is passed over for a requested offset: none
/// for a negative one, and for one that no `usize` holds the largest that
/// one does.
pub open spec fn clamped_offset(offset: int) -> nat {
    if offset < 0 {
        0
    } else if offset > usize::MAX {
        usize::MAX as nat
    } else {
        offset as nat
    }
}

/// Whether a creation offers a second public identifier after this answer
/// of the store: only after a conflict on the first one.
pub open spec fn retries_after(first_attempt: bool, outcome: Result<CapsuleModel, StoreError>) -> bool {
    first_attempt && outcome == Err::<CapsuleModel, StoreError>(StoreError::Conflict)
}

/// What the service answers for the store's last answer to a creation.
pub open spec fn settled(outcome: Result<CapsuleModel, StoreError>) -> Result<
    CapsuleModel,
    ServiceError,
> {
    match outcome {
        Ok(capsule) => Ok(capsule),
        Err(error) => Err(service_error_of(error)),
    }
}

/// What a creation answers. A refused request fails with its fault. An
/// accepted one is stored under `first_id`; after a conflict on it, under
/// `second_id`; and any other answer of the store is handed on.
pub open spec fn create_outcome(
    store: StoreModel,
    title: Seq<char>,
    content: Seq<char>,
    unlock_at: Seq<char>,
    now: int,
    first_id: Seq<char>,
    second_id: Seq<char>,
) -> Result<CapsuleModel, ServiceError> {
    match creation_fault(title, content, unlock_at, now) {
        Some(fault) => Err(fault),
        None => {
            let unlock = instant_of(unlock_at)->0;
            let first = store.insert_outcome(first_id, title, content, unlock, now);
            if retries_after(true, first) {
                settled(store.insert_outcome(second_id, title, content, unlock, now))
            } else {
                settled(first)
            }
        },
    }
}

/// The store after a creation: unchanged where the creation failed.
pub open spec fn after_create(
    store: StoreModel,
    title: Seq<char>,
    content: Seq<char>,
    unlock_at: Seq<char>,
    now: int,
    first_id: Seq<char>,
    second_id: Seq<char>,
) -> StoreModel {
    match creation_fault(title, content, unlock_at, now) {
        Some(_) => store,
        None => {
            let unlock = instant_of(unlock_at)->0;
            let first = store.insert_outcome(first_id, title, content, unlock, now);
            if retries_after(true, first) {
                store.after_insert(second_id, title, content, unlock, now)
            } else {
                store.after_insert(first_id, title, content, unlock, now)
            }
        },
    }
}

/// What the service answers at `now` for the store's answer to a lookup:
/// the capsule under the time lock, or the failure of the same kind.
pub open spec fn read_outcome(found: Result<CapsuleModel, StoreError>, now: int) -> Result<
    CapsuleModel,
    ServiceError,
> {
    match found {
        Ok(capsule) => Ok(capsule.seen_at(now)),
        Err(error) => Err(service_error_of(error)),
    }
}

/// What a read by public identifier answers at `now`: the stored capsule
/// under the time lock, or `NotFound`.
pub open spec fn get_outcome(store: StoreModel, public_id: Seq<char>, now: int) -> Result<
    CapsuleModel,
    ServiceError,
> {
    read_outcome(store.find(public_id), now)
}

/// What a listing answers at `now`: one page of the capsules, newest first,
/// each under the time lock.
pub open spec fn list_outcome(store: StoreModel, limit: int, offset: int, now: int) -> Seq<
    CapsuleModel,
> {
    all_seen_at(
        store.list(ListOrder::NewestFirst, clamped_limit(limit), clamped_offset(offset)),
        now,
    )
}

/// Whether every capsule of a sequence is valid.
pub open spec fn all_valid(rows: Seq<CapsuleModel>) -> bool {
    forall|i: int| 0 <= i < rows.len() ==> (#[trigger] rows[i]).is_valid()
}

/// An executable answer that says what a model answer says.
pub open spec fn same_answer(
    r: Result<Capsule, ServiceError>,
    model: Result<CapsuleModel, ServiceError>,
) -> bool {
    match r {
        Ok(capsule) => model == Ok::<CapsuleModel, ServiceError>(capsule@),
        Err(error) => model == Err::<CapsuleModel, ServiceError>(error),
    }
}

/// The store's answer to an insertion, as the model has it.
pub open spec fn store_answer(r: Result<Capsule, StoreError>) -> Result<CapsuleModel, StoreError> {
    match r {
        Ok(capsule) => Ok(capsule@),
        Err(error) => Err(error),
    }
}

fn check_text(text: &str, max: usize) -> (r: Option<Reason>)
    ensures
        r == text_fault(text@, max as nat),
{
    let length: usize = text.unicode_len();
    if length == 0 {
        Some(Reason::Empty)
    } else if length > max {
        Some(Reason::TooLong)
    } else {
        None
    }
}

/// Judges a creation request at `now`. An accepted request yields its
/// unlock instant; a refused one the failure that names the first field at
/// fault.
pub fn validate_creation(title: &str, content: &str, unlock_at: &str, now: i64) -> (r: Result<
    i64,
    ServiceError,
>)
    ensures
        match r {
            Ok(unlock) => creation_fault(title@, content@, unlock_at@, now as int) is None
                && instant_of(unlock_at@) == Some(unlock as int) && now < unlock,
            Err(fault) => creation_fault(title@, content@, unlock_at@, now as int) == Some(fault),
        },
{
    match check_text(title, MAX_TITLE_CHARS) {
        Some(reason) => {
            return Err(ServiceError::ValidationFailed(Field::Title, reason));
        },
        None => {},
    }
    match check_text(content, MAX_CONTENT_CHARS) {
        Some(reason) => {
            return Err(ServiceError::ValidationFailed(Field::Content, reason));
        },
        None => {},
    }
    match parse_timestamp(unlock_at) {
        None => Err(ServiceError::ValidationFailed(Field::UnlockAt, Reason::Unparseable)),
        Some(unlock) => {
            if unlock <= now {
                Err(ServiceError::ValidationFailed(Field::UnlockAt, Reason::NotInFuture))
            } else {
                Ok(unlock)
            }
        },
    }
}

/// Whether a creation must offer the store a fresh public identifier after
/// the store's answer `outcome`: only after a conflict on the first attempt.
pub fn should_retry(first_attempt: bool, outcome: &Result<Capsule, StoreError>) -> (r: bool)
    ensures
        r == retries_after(first_attempt, store_answer(*outcome)),
{
    first_attempt && match outcome {
        Err(StoreError::Conflict) => true,
        _ => false,
    }
}

/// Turns the store's last answer to a creation into the service's answer:
/// the stored capsule as it is, content included, or the failure of the same
/// kind.
pub fn settle(outcome: Result<Capsule, StoreError>) -> (r: Result<Capsule, ServiceError>)
    ensures
        same_answer(r, settled(store_answer(outcome))),
{
    match outcome {
        Ok(capsule) => Ok(capsule),
        Err(error) => Err(ServiceError::from_store(error)),
    }
}

/// Turns the store's answer to a lookup into the service's answer at `now`:
/// the capsule under the time lock, or the failure of the same kind.
pub fn read_answer(found: Result<Capsule, StoreError>, now: i64) -> (r: Result<
    Capsule,
    ServiceError,
>)
    ensures
        same_answer(r, read_outcome(store_answer(found), now as int)),
{
    match found {
        Ok(capsule) => Ok(capsule.seen_at(now)),
        Err(error) => Err(ServiceError::from_store(error)),
    }
}

/// The page size to use for a requested one.
pub fn clamp_limit(limit: i64) -> (r: usize)
    ensures
        r == clamped_limit(limit as int),
        1 <= r <= MAX_PAGE_SIZE,
{
    if limit < 1 {
        1
    } else if limit > 100 {
        MAX_PAGE_SIZE
    } else {
        limit as usize
    }
}

/// The number of capsules to pass over for a requested offset.
pub fn clamp_offset(offset: i64) -> (r: usize)
    ensures
        r == clamped_offset(offset as int),
{
    if offset < 0 {
        0
    } else if offset as u64 > usize::MAX as u64 {
        usize::MAX
    } else {
        offset as usize
    }
}

/// The capsule service over a store of its own.
pub struct CapsuleService {
    store: CapsuleStore,
}

impl View for CapsuleService {
    type V = StoreModel;

    closed spec fn view(&self) -> StoreModel {
        self.store@
    }
}

impl CapsuleService {
    /// What holds of every service: its store is a store, and every stored
    /// capsule is valid.
    pub open spec fn wf(&self) -> bool {
        self@.wf() && all_valid(self@.rows)
    }

    /// A service over an empty store.
    pub fn new() -> (r: CapsuleService)
        ensures
            r@ == StoreModel::empty(),
            r.wf(),
    {
        CapsuleService { store: CapsuleStore::new() }
    }

    /// The store, for reading.
    pub fn store(&self) -> (r: &CapsuleStore)
        ensures
            r@ == self@,
    {
        &self.store
    }

    /// Creates a capsule at `now`. A request that is refused fails with
    /// `ValidationFailed` and leaves the store untouched. An accepted one is
    /// stored under `public_id`, or, where that is taken, under
    /// `retry_public_id`; where both are taken the creation fails with
    /// `Conflict`. The created capsule is handed back as stored, content
    /// included.
    pub fn create_capsule(
        &mut self,
        title: &str,
        content: &str,
        unlock_at: &str,
        now: i64,
        public_id: String,
        retry_public_id: String,
    ) -> (r: Result<Capsule, ServiceError>)
        requires
            old(self).wf(),
        ensures
            final(self).wf(),
            same_answer(
                r,
                create_outcome(
                    old(self)@,
                    title@,
                    content@,
                    unlock_at@,
                    now as int,
                    public_id@,
                    retry_public_id@,
                ),
            ),
            final(self)@ == after_create(
                old(self)@,
                title@,
                content@,
                unlock_at@,
                now as int,
                public_id@,
                retry_public_id@,
            ),
    {
        let unlock: i64 = match validate_creation(title, content, unlock_at, now) {
            Ok(unlock) => unlock,
            Err(fault) => {
                return Err(fault);
            },
        };
        proof {
            lemma_create_keeps_store(
                old(self)@,
                title@,
                content@,
                unlock_at@,
                now as int,
                public_id@,
                retry_public_id@,
            );
            lemma_create_keeps_valid(
                old(self)@,
                title@,
                content@,
                unlock_at@,
                now as int,
                public_id@,
                retry_public_id@,
            );
        }
        let first = self.store.insert(public_id, title.to_owned(), content.to_owned(), unlock, now);
        if should_retry(true, &first) {
            let second = self.store.insert(
                retry_public_id,
                title.to_owned(),
                content.to_owned(),
                unlock,
                now,
            );
            settle(second)
        } else {
            settle(first)
        }
    }

    /// Reads a capsule by its public identifier at `now`: with its content
    /// where `now` has reached `unlock_at`, and with the marker in place of
    /// the content before. Fails with `NotFound` where no capsule has the
    /// identifier.
    pub fn get_capsule(&self, public_id: &str, now: i64) -> (r: Result<Capsule, ServiceError>)
        requires
            self.wf(),
        ensures
            same_answer(r, get_outcome(self@, public_id@, now as int)),
    {
        read_answer(self.store.get_by_public_id(public_id), now)
    }

    /// Lists capsules at `now`, newest first: after `offset` capsules the
    /// next `limit` of them, where a `limit` below 1 counts as 1, one above
    /// `MAX_PAGE_SIZE` as `MAX_PAGE_SIZE`, and a negative `offset` as 0.
    /// A page beyond the last capsule is empty.
    /// Every listed capsule is under the time lock.
    pub fn list_capsules(&self, limit: i64, offset: i64, now: i64) -> (r: Vec<Capsule>)
        ensures
            models(r@) == list_outcome(self@, limit as int, offset as int, now as int),
            r.len() == list_outcome(self@, limit as int, offset as int, now as int).len(),
    {
        let rows = self.store.list(ListOrder::NewestFirst, clamp_limit(limit), clamp_offset(offset));
        apply_time_lock(rows, now)
    }
}

/// A creation keeps a store a store.
pub proof fn lemma_create_keeps_store(
    store: StoreModel,
    title: Seq<char>,
    content: Seq<char>,
    unlock_at: Seq<char>,
    now: int,
    first_id: Seq<char>,
    second_id: Seq<char>,
)
    requires
        store.wf(),
    ensures
        after_create(store, title, content, unlock_at, now, first_id, second_id).wf(),
{
    if creation_fault(title, content, unlock_at, now) is None {
        let unlock = instant_of(unlock_at)->0;
        lemma_insert(store, first_id, title, content, unlock, now);
        lemma_insert(store, second_id, title, content, unlock, now);
    }
}

/// A creation stores none but valid capsules: where all were valid before,
/// all are valid after.
pub proof fn lemma_create_keeps_valid(
    store: StoreModel,
    title: Seq<char>,
    content: Seq<char>,
    unlock_at: Seq<char>,
    now: int,
    first_id: Seq<char>,
    second_id: Seq<char>,
)
    requires
        all_valid(store.rows),
    ensures
        all_valid(after_create(store, title, content, unlock_at, now, first_id, second_id).rows),
{
    let after = after_create(store, title, content, unlock_at, now, first_id, second_id);
    if creation_fault(title, content, unlock_at, now) is None {
        let unlock = instant_of(unlock_at)->0;
        let first = store.insert_outcome(first_id, title, content, unlock, now);
        let id = if retries_after(true, first) {
            second_id
        } else {
            first_id
        };
        if store.insert_outcome(id, title, content, unlock, now) is Ok {
            let at = first_not_after(store.rows, now, 0);
            lemma_first_not_after(store.rows, now, 0);
            lemma_rows_after_insert(
                store.rows,
                at,
                store.new_row(id, title, content, unlock, now),
            );
            assert forall|i: int| 0 <= i < after.rows.len() implies (
            #[trigger] after.rows[i]).is_valid() by {
                if i < at {
                    assert(after.rows[i] == store.rows[i]);
                } else if i > at {
                    assert(after.rows[i] == store.rows[i - 1]);
                }
            }
        }
    }
}

} // verus!
