//! A capsule, its mathematical model, and the rule that decides when its
//! content may be read.
use vstd::prelude::*;

verus! {

/// The largest number of characters a title may hold.
pub const MAX_TITLE_CHARS: usize = 200;

/// The largest number of characters a capsule's content may hold.
pub const MAX_CONTENT_CHARS: usize = 10000;

/// What a capsule is, as plain mathematical values. Instants count
/// microseconds from 1970-01-01T00:00:00Z.
pub struct CapsuleModel {
    pub internal_id: nat,
    pub public_id: Seq<char>,
    pub title: Seq<char>,
    pub content: Seq<char>,
    pub unlock_at: int,
    pub created_at: int,
}

/// What stands in place of the content of a capsule that is still locked:
/// the empty text, which no stored capsule has as its content.
pub open spec fn locked_marker() -> Seq<char> {
    Seq::<char>::empty()
}

impl CapsuleModel {
    /// What every stored capsule satisfies: a title and a content that are
    /// neither empty nor too long, and an unlock instant strictly after the
    /// instant of creation.
    pub open spec fn is_valid(self) -> bool {
        &&& 0 < self.title.len() <= MAX_TITLE_CHARS
        &&& 0 < self.content.len() <= MAX_CONTENT_CHARS
        &&& self.created_at < self.unlock_at
    }

    /// A capsule is locked at every instant before `unlock_at`, and unlocked
    /// from `unlock_at` on.
    pub open spec fn locked_at(self, now: int) -> bool {
        now < self.unlock_at
    }

    /// The capsule as a reader sees it at `now`: unchanged once unlocked,
    /// and with the marker in place of its content while locked.
    pub open spec fn seen_at(self, now: int) -> CapsuleModel {
        if self.locked_at(now) {
            CapsuleModel { content: locked_marker(), ..self }
        } else {
            self
        }
    }

    /// Two capsules that differ at most in their content.
    pub open spec fn same_but_content(self, other: CapsuleModel) -> bool {
        &&& self.internal_id == other.internal_id
        &&& self.public_id == other.public_id
        &&& self.title == other.title
        &&& self.unlock_at == other.unlock_at
        &&& self.created_at == other.created_at
    }
}

/// One time capsule. `unlock_at` and `created_at` count microseconds from
/// 1970-01-01T00:00:00Z.
#[derive(Debug, PartialEq, Eq)]
pub struct Capsule {
    /// The store's own sequential key, never shown to a client.
    pub internal_id: u64,
    /// The opaque identifier by which clients address the capsule.
    pub public_id: String,
    pub title: String,
    pub content: String,
    /// The instant from which the content may be read.
    pub unlock_at: i64,
    /// The instant at which the capsule was stored.
    pub created_at: i64,
}

impl View for Capsule {
    type V = CapsuleModel;

    open spec fn view(&self) -> CapsuleModel {
        CapsuleModel {
            internal_id: self.internal_id as nat,
            public_id: self.public_id@,
            title: self.title@,
            content: self.content@,
            unlock_at: self.unlock_at as int,
            created_at: self.created_at as int,
        }
    }
}

impl Clone for Capsule {
    fn clone(&self) -> (r: Self)
        ensures
            r@ == self@,
    {
        Capsule {
            internal_id: self.internal_id,
            public_id: self.public_id.clone(),
            title: self.title.clone(),
            content: self.content.clone(),
            unlock_at: self.unlock_at,
            created_at: self.created_at,
        }
    }
}

impl Capsule {
    /// Whether the capsule's content is still withheld at `now`.
    pub fn is_locked_at(&self, now: i64) -> (r: bool)
        ensures
            r == self@.locked_at(now as int),
    {
        now < self.unlock_at
    }

    /// Applies the time lock: hands the capsule back as a reader may see it
    /// at `now`.
    pub fn seen_at(self, now: i64) -> (r: Capsule)
        ensures
            r@ == self@.seen_at(now as int),
    {
        if now < self.unlock_at {
            Capsule {
                internal_id: self.internal_id,
                public_id: self.public_id,
                title: self.title,
                content: String::new(),
                unlock_at: self.unlock_at,
                created_at: self.created_at,
            }
        } else {
            self
        }
    }
}

/// Applies the time lock to every capsule of a sequence, keeping the order.
pub open spec fn all_seen_at(capsules: Seq<CapsuleModel>, now: int) -> Seq<CapsuleModel> {
    Seq::new(capsules.len(), |i: int| capsules[i].seen_at(now))
}

/// The models of the capsules of a vector, in order.
pub open spec fn models(capsules: Seq<Capsule>) -> Seq<CapsuleModel> {
    Seq::new(capsules.len(), |i: int| capsules[i]@)
}

/// Applies the time lock to every capsule of `capsules`, keeping the order.
pub fn apply_time_lock(capsules: Vec<Capsule>, now: i64) -> (r: Vec<Capsule>)
    ensures
        models(r@) == all_seen_at(models(capsules@), now as int),
        r.len() == capsules.len(),
{
    let mut out: Vec<Capsule> = Vec::new();
    let mut i: usize = 0;
    while i < capsules.len()
        invariant
            0 <= i <= capsules.len(),
            out.len() == i,
            forall|k: int| 0 <= k < i ==> (#[trigger] out[k])@ == capsules[k]@.seen_at(now as int),
        decreases capsules.len() - i,
    {
        let seen = capsules[i].clone().seen_at(now);
        out.push(seen);
        i = i + 1;
    }
    assert(models(out@) =~= all_seen_at(models(capsules@), now as int));
    out
}

/// A locked capsule shows the marker and an unlocked one its own content;
/// nothing else ever differs from what is stored. A valid capsule's content
/// is never the marker, so the marker tells the two states apart.
pub proof fn lemma_time_lock(capsule: CapsuleModel, now: int)
    ensures
        capsule.seen_at(now).same_but_content(capsule),
        capsule.locked_at(now) ==> capsule.seen_at(now).content == locked_marker(),
        !capsule.locked_at(now) ==> capsule.seen_at(now) == capsule,
        capsule.is_valid() ==> (capsule.seen_at(now).content == locked_marker()
            <==> capsule.locked_at(now)),
{
}

/// A capsule never locks again: once unlocked at some instant, it is
/// unlocked at every later one.
pub proof fn lemma_unlock_is_final(capsule: CapsuleModel, earlier: int, later: int)
    requires
        earlier <= later,
        !capsule.locked_at(earlier),
    ensures
        !capsule.locked_at(later),
        capsule.seen_at(later) == capsule,
{
}

} // verus!
