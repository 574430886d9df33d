//! What holds of the service whatever is asked of it, stated over the model
//! of the store and proved once and for all.
use crate::capsule::{locked_marker, CapsuleModel};
use crate::error::{ServiceError, StoreError};
use crate::service::{
    after_create, all_valid, clamped_limit, clamped_offset, create_outcome, creation_fault,
    get_outcome, lemma_create_keeps_store, lemma_create_keeps_valid, list_outcome,
};
use crate::store::{
    first_not_after, lemma_find_at, lemma_first_not_after, lemma_insert, lemma_rows_after_insert,
    newer, ListOrder, StoreModel,
};
use crate::timestamp::instant_of;
use vstd::prelude::*;

verus! {

/// One creation request, with the instant at which it is made and the two
/// public identifiers that it may use.
pub struct Creation {
    pub title: Seq<char>,
    pub content: Seq<char>,
    pub unlock_at: Seq<char>,
    pub now: int,
    pub first_id: Seq<char>,
    pub second_id: Seq<char>,
}

impl Creation {
    /// What the creation answers when made on `store`.
    pub open spec fn outcome(self, store: StoreModel) -> Result<CapsuleModel, ServiceError> {
        create_outcome(
            store,
            self.title,
            self.content,
            self.unlock_at,
            self.now,
            self.first_id,
            self.second_id,
        )
    }

    /// The store after the creation was made on `store`.
    pub open spec fn after(self, store: StoreModel) -> StoreModel {
        after_create(
            store,
            self.title,
            self.content,
            self.unlock_at,
            self.now,
            self.first_id,
            self.second_id,
        )
    }
}

/// The store after the creations of a sequence were made one after the
/// other, the first of them on `store`.
pub open spec fn after_all(store: StoreModel, creations: Seq<Creation>) -> StoreModel
    decreases creations.len(),
{
    if creations.len() == 0 {
        store
    } else {
        creations.last().after(after_all(store, creations.drop_last()))
    }
}

/// A capsule that was created holds what the request gave: its title, its
/// content, its unlock instant, and the instant of the request as its
/// instant of creation. It is valid, and it is stored under one of the two
/// identifiers offered.
pub proof fn lemma_created_as_requested(store: StoreModel, creation: Creation)
    requires
        creation.outcome(store) is Ok,
    ensures
        ({
            let created = creation.outcome(store)->Ok_0;
            &&& created.title == creation.title
            &&& created.content == creation.content
            &&& instant_of(creation.unlock_at) == Some(created.unlock_at)
            &&& created.created_at == creation.now
            &&& created.internal_id == store.next_internal_id
            &&& created.public_id == creation.first_id || created.public_id == creation.second_id
            &&& created.is_valid()
            &&& !store.contains_id(created.public_id)
        }),
{
}

/// Reading a capsule back right after its creation, or at any later
/// instant, finds it: with the marker in place of its content while the
/// instant of the read is before `unlock_at`, and with the content of the
/// request once that instant has reached `unlock_at`.
pub proof fn lemma_read_after_create(store: StoreModel, creation: Creation, read_at: int)
    requires
        store.wf(),
        creation.outcome(store) is Ok,
    ensures
        ({
            let created = creation.outcome(store)->Ok_0;
            let read = get_outcome(creation.after(store), created.public_id, read_at);
            &&& read == Ok::<CapsuleModel, ServiceError>(created.seen_at(read_at))
            &&& read_at < created.unlock_at ==> read->Ok_0.content == locked_marker()
            &&& read_at >= created.unlock_at ==> read->Ok_0.content == creation.content
            &&& read->Ok_0.same_but_content(created)
        }),
{
    let unlock = instant_of(creation.unlock_at)->0;
    let created = creation.outcome(store)->Ok_0;
    lemma_insert(
        store,
        created.public_id,
        creation.title,
        creation.content,
        unlock,
        creation.now,
    );
}

/// In a store no two capsules have the same public identifier, nor the
/// same internal one.
pub proof fn lemma_identifiers_are_distinct(store: StoreModel, i: int, j: int)
    requires
        store.wf(),
        0 <= i < store.rows.len(),
        0 <= j < store.rows.len(),
        i != j,
    ensures
        store.rows[i].public_id != store.rows[j].public_id,
        store.rows[i].internal_id != store.rows[j].internal_id,
{
    if i < j {
        assert(store.rows[i].public_id != store.rows[j].public_id);
        assert(newer(store.rows[i], store.rows[j]));
    } else {
        assert(store.rows[j].public_id != store.rows[i].public_id);
        assert(newer(store.rows[j], store.rows[i]));
    }
}

/// Whatever creations are made, and in whatever number, what comes of them
/// is a store again, with valid capsules only: so the public identifiers of
/// all capsules ever created are pairwise distinct.
pub proof fn lemma_creations_keep_identifiers_distinct(store: StoreModel, creations: Seq<Creation>)
    requires
        store.wf(),
        all_valid(store.rows),
    ensures
        after_all(store, creations).wf(),
        all_valid(after_all(store, creations).rows),
        forall|i: int, j: int|
            #![trigger after_all(store, creations).rows[i], after_all(store, creations).rows[j]]
            0 <= i < after_all(store, creations).rows.len() && 0 <= j < after_all(
                store,
                creations,
            ).rows.len() && i != j ==> after_all(store, creations).rows[i].public_id != after_all(
                store,
                creations,
            ).rows[j].public_id,
    decreases creations.len(),
{
    if creations.len() > 0 {
        let before = after_all(store, creations.drop_last());
        let last = creations.last();
        lemma_creations_keep_identifiers_distinct(store, creations.drop_last());
        lemma_create_keeps_store(
            before,
            last.title,
            last.content,
            last.unlock_at,
            last.now,
            last.first_id,
            last.second_id,
        );
        lemma_create_keeps_valid(
            before,
            last.title,
            last.content,
            last.unlock_at,
            last.now,
            last.first_id,
            last.second_id,
        );
    }
    let all = after_all(store, creations);
    assert forall|i: int, j: int|
        #![trigger all.rows[i], all.rows[j]]
        0 <= i < all.rows.len() && 0 <= j < all.rows.len() && i != j implies all.rows[i].public_id
        != all.rows[j].public_id by {
        lemma_identifiers_are_distinct(all, i, j);
    }
}

/// Two capsules created one after the other have different public
/// identifiers and different internal ones, and both are stored.
pub proof fn lemma_successive_creations_differ(store: StoreModel, first: Creation, second: Creation)
    requires
        store.wf(),
        first.outcome(store) is Ok,
        second.outcome(first.after(store)) is Ok,
    ensures
        ({
            let a = first.outcome(store)->Ok_0;
            let b = second.outcome(first.after(store))->Ok_0;
            let end = second.after(first.after(store));
            &&& a.public_id != b.public_id
            &&& a.internal_id != b.internal_id
            &&& end.find(a.public_id) == Ok::<CapsuleModel, StoreError>(a)
            &&& end.find(b.public_id) == Ok::<CapsuleModel, StoreError>(b)
        }),
{
    let a = first.outcome(store)->Ok_0;
    let middle = first.after(store);
    let b = second.outcome(middle)->Ok_0;
    lemma_insert(
        store,
        a.public_id,
        first.title,
        first.content,
        instant_of(first.unlock_at)->0,
        first.now,
    );
    lemma_insert(
        middle,
        b.public_id,
        second.title,
        second.content,
        instant_of(second.unlock_at)->0,
        second.now,
    );
    assert(middle.contains_id(a.public_id));
}

/// A creation whose unlock instant is not strictly after the instant of the
/// request fails with `ValidationFailed` and stores nothing: the store, and
/// with it every listing, is as it was.
pub proof fn lemma_unlock_not_in_future_is_refused(store: StoreModel, creation: Creation)
    requires
        instant_of(creation.unlock_at) is Some ==> instant_of(creation.unlock_at)->0
            <= creation.now,
    ensures
        creation.outcome(store) is Err,
        creation.outcome(store)->Err_0 is ValidationFailed,
        creation.after(store) == store,
        forall|limit: int, offset: int, now: int|
            #[trigger] list_outcome(creation.after(store), limit, offset, now) == list_outcome(
                store,
                limit,
                offset,
                now,
            ),
{
}

/// A creation that fails, for whatever reason, stores nothing.
pub proof fn lemma_failed_creation_stores_nothing(store: StoreModel, creation: Creation)
    requires
        creation.outcome(store) is Err,
    ensures
        creation.after(store) == store,
        creation_fault(creation.title, creation.content, creation.unlock_at, creation.now)
            is Some ==> creation.outcome(store)->Err_0 is ValidationFailed,
{
}

/// A capsule created at an instant that is not before the creation of any
/// stored capsule is the first of every listing from offset 0, and the
/// capsules stored before follow it in the order they had.
pub proof fn lemma_latest_creation_is_listed_first(store: StoreModel, creation: Creation)
    requires
        store.wf(),
        creation.outcome(store) is Ok,
        forall|i: int|
            0 <= i < store.rows.len() ==> (#[trigger] store.rows[i]).created_at <= creation.now,
    ensures
        creation.after(store).rows == seq![creation.outcome(store)->Ok_0] + store.rows,
        forall|limit: int, now: int|
            (#[trigger] list_outcome(creation.after(store), limit, 0, now))[0] == (creation.outcome(
                store,
            )->Ok_0).seen_at(now),
{
    let created = creation.outcome(store)->Ok_0;
    lemma_first_not_after(store.rows, creation.now, 0);
    let at = first_not_after(store.rows, creation.now, 0);
    if at > 0 {
        assert(store.rows[0].created_at > creation.now);
    }
    assert(at == 0);
    lemma_rows_after_insert(store.rows, 0, created);
    assert(creation.after(store).rows =~= seq![created] + store.rows);
}

/// The listings of one page at two instants hold the same capsules in the
/// same order, and differ in nothing but content. Each listed capsule shows
/// the marker at an instant before its `unlock_at` and its stored content
/// from `unlock_at` on: between an instant before and an instant not
/// before, the marker gives way to the content and no other field changes.
pub proof fn lemma_listing_across_unlock(
    store: StoreModel,
    limit: int,
    offset: int,
    earlier: int,
    later: int,
)
    requires
        earlier <= later,
    ensures
        ({
            let stored = store.list(
                ListOrder::NewestFirst,
                clamped_limit(limit),
                clamped_offset(offset),
            );
            let before = list_outcome(store, limit, offset, earlier);
            let after = list_outcome(store, limit, offset, later);
            &&& before.len() == stored.len()
            &&& after.len() == stored.len()
            &&& forall|i: int|
                #![trigger before[i]]
                #![trigger after[i]]
                0 <= i < stored.len() ==> {
                    &&& before[i].same_but_content(stored[i])
                    &&& after[i].same_but_content(before[i])
                    &&& before[i].content == if earlier < stored[i].unlock_at {
                        locked_marker()
                    } else {
                        stored[i].content
                    }
                    &&& after[i].content == if later < stored[i].unlock_at {
                        locked_marker()
                    } else {
                        stored[i].content
                    }
                }
        }),
{
}

/// No listing and no read shows the content of a capsule that is still
/// locked: what it shows for one is the marker, which no valid capsule has
/// as its content.
pub proof fn lemma_locked_content_is_withheld(
    store: StoreModel,
    limit: int,
    offset: int,
    now: int,
    i: int,
)
    requires
        store.wf(),
        all_valid(store.rows),
        0 <= i < list_outcome(store, limit, offset, now).len(),
        now < list_outcome(store, limit, offset, now)[i].unlock_at,
    ensures
        list_outcome(store, limit, offset, now)[i].content == locked_marker(),
        store.find(list_outcome(store, limit, offset, now)[i].public_id) is Ok,
        store.find(list_outcome(store, limit, offset, now)[i].public_id)->Ok_0.content
            != locked_marker(),
        get_outcome(store, list_outcome(store, limit, offset, now)[i].public_id, now)->Ok_0
            == list_outcome(store, limit, offset, now)[i],
{
    let stored = store.list(ListOrder::NewestFirst, clamped_limit(limit), clamped_offset(offset));
    let start = if clamped_offset(offset) < store.rows.len() {
        clamped_offset(offset) as int
    } else {
        store.rows.len() as int
    };
    assert(stored[i] == store.rows[start + i]);
    lemma_find_at(store, start + i);
}

/// A listing is ordered: of two capsules on a page, the one that stands
/// first was created later, or at the same instant and stored later.
pub proof fn lemma_listing_is_newest_first(
    store: StoreModel,
    limit: int,
    offset: int,
    now: int,
    i: int,
    j: int,
)
    requires
        store.wf(),
        0 <= i < j < list_outcome(store, limit, offset, now).len(),
    ensures
        newer(
            list_outcome(store, limit, offset, now)[i],
            list_outcome(store, limit, offset, now)[j],
        ),
        list_outcome(store, limit, offset, now)[i].created_at >= list_outcome(
            store,
            limit,
            offset,
            now,
        )[j].created_at,
        list_outcome(store, limit, offset, now).len() <= clamped_limit(limit),
{
    let stored = store.list(ListOrder::NewestFirst, clamped_limit(limit), clamped_offset(offset));
    let start = if clamped_offset(offset) < store.rows.len() {
        clamped_offset(offset) as int
    } else {
        store.rows.len() as int
    };
    assert(stored[i] == store.rows[start + i]);
    assert(stored[j] == store.rows[start + j]);
    assert(newer(store.rows[start + i], store.rows[start + j]));
}

/// A read by a public identifier that no stored capsule has fails with
/// `NotFound`, and so does every read on a store that holds nothing.
pub proof fn lemma_unknown_identifier_is_not_found(store: StoreModel, public_id: Seq<char>, now: int)
    ensures
        !store.contains_id(public_id) ==> get_outcome(store, public_id, now) == Err::<
            CapsuleModel,
            ServiceError,
        >(ServiceError::NotFound),
        store.contains_id(public_id) ==> get_outcome(store, public_id, now) is Ok,
        get_outcome(StoreModel::empty(), public_id, now) == Err::<CapsuleModel, ServiceError>(
            ServiceError::NotFound,
        ),
{
}

/// A public identifier that no creation ever offered is never found:
/// starting from nothing, whatever creations are made, a read by such an
/// identifier fails with `NotFound`.
pub proof fn lemma_never_created_is_not_found(
    creations: Seq<Creation>,
    public_id: Seq<char>,
    now: int,
)
    requires
        forall|k: int|
            0 <= k < creations.len() ==> (#[trigger] creations[k]).first_id != public_id
                && creations[k].second_id != public_id,
    ensures
        after_all(StoreModel::empty(), creations).wf(),
        !after_all(StoreModel::empty(), creations).contains_id(public_id),
        get_outcome(after_all(StoreModel::empty(), creations), public_id, now) == Err::<
            CapsuleModel,
            ServiceError,
        >(ServiceError::NotFound),
    decreases creations.len(),
{
    if creations.len() > 0 {
        let before = after_all(StoreModel::empty(), creations.drop_last());
        let last = creations.last();
        lemma_never_created_is_not_found(creations.drop_last(), public_id, now);
        lemma_create_keeps_store(
            before,
            last.title,
            last.content,
            last.unlock_at,
            last.now,
            last.first_id,
            last.second_id,
        );
        if last.outcome(before) is Ok {
            let created = last.outcome(before)->Ok_0;
            lemma_insert(
                before,
                created.public_id,
                last.title,
                last.content,
                instant_of(last.unlock_at)->0,
                last.now,
            );
            assert(last.after(before).find(public_id) == before.find(public_id));
        }
    }
}

} // verus!
