//! Which owners a node trusts.

use vstd::prelude::*;

use crate::text::same_text;

verus! {

/// How the trust store is applied.
#[derive(Debug, Clone, Copy, PartialEq, Eq, Structural)]
pub enum TrustPolicy {
    /// Every owner that is not revoked is accepted.
    Off,
    /// Only listed owners are accepted.
    Allowlist,
}

/// An owner whose advertisements are accepted.
#[derive(Debug)]
pub struct TrustedOwner {
    pub owner_id: String,
    pub label: Option<String>,
}

/// An owner whose advertisements are rejected.
#[derive(Debug)]
pub struct RevokedOwner {
    pub owner_id: String,
    pub reason: Option<String>,
}

/// The owners that a node has opinions on.
#[derive(Debug)]
pub struct TrustStore {
    pub policy: TrustPolicy,
    pub trusted_owners: Vec<TrustedOwner>,
    pub revoked_owners: Vec<RevokedOwner>,
}

impl Default for TrustStore {
    fn default() -> (store: TrustStore)
        ensures
            store.policy == TrustPolicy::Off,
            store.trusted_owners@.len() == 0,
            store.revoked_owners@.len() == 0,
    {
        TrustStore {
            policy: TrustPolicy::Off,
            trusted_owners: Vec::new(),
            revoked_owners: Vec::new(),
        }
    }
}

impl TrustStore {
    /// The owner stands on the list of revoked owners.
    pub open spec fn revokes(&self, owner_id: Seq<char>) -> bool {
        exists|i: int|
            0 <= i < self.revoked_owners@.len() && #[trigger] self.revoked_owners@[i].owner_id@
                == owner_id
    }

    /// The owner stands on the list of trusted owners.
    pub open spec fn trusts(&self, owner_id: Seq<char>) -> bool {
        exists|i: int|
            0 <= i < self.trusted_owners@.len() && #[trigger] self.trusted_owners@[i].owner_id@
                == owner_id
    }

    /// Whether the owner is revoked.
    pub fn is_revoked(&self, owner_id: &str) -> (r: bool)
        ensures
            r == self.revokes(owner_id@),
    {
        let mut i: usize = 0;
        while i < self.revoked_owners.len()
            invariant
                i <= self.revoked_owners.len(),
                forall|j: int| 0 <= j < i ==> self.revoked_owners@[j].owner_id@ != owner_id@,
            decreases self.revoked_owners.len() - i,
        {
            if same_text(self.revoked_owners[i].owner_id.as_str(), owner_id) {
                return true;
            }
            i = i + 1;
        }
        false
    }

    /// Whether the owner is trusted.
    pub fn is_trusted(&self, owner_id: &str) -> (r: bool)
        ensures
            r == self.trusts(owner_id@),
    {
        let mut i: usize = 0;
        while i < self.trusted_owners.len()
            invariant
                i <= self.trusted_owners.len(),
                forall|j: int| 0 <= j < i ==> self.trusted_owners@[j].owner_id@ != owner_id@,
            decreases self.trusted_owners.len() - i,
        {
            if same_text(self.trusted_owners[i].owner_id.as_str(), owner_id) {
                return true;
            }
            i = i + 1;
        }
        false
    }
}

/// An owner is trusted exactly if some entry of the list names it, wherever that
/// entry stands, and revoked exactly if some entry of the other list does.
pub proof fn law_every_listed_owner_counts(store: TrustStore, owner_id: Seq<char>)
    ensures
        forall|i: int|
            0 <= i < store.trusted_owners@.len() ==> store.trusts(
                (#[trigger] store.trusted_owners@[i]).owner_id@,
            ),
        forall|i: int|
            0 <= i < store.revoked_owners@.len() ==> store.revokes(
                (#[trigger] store.revoked_owners@[i]).owner_id@,
            ),
        (forall|i: int|
            0 <= i < store.trusted_owners@.len() ==> (
            #[trigger] store.trusted_owners@[i]).owner_id@ != owner_id) ==> !store.trusts(owner_id),
        (forall|i: int|
            0 <= i < store.revoked_owners@.len() ==> (
            #[trigger] store.revoked_owners@[i]).owner_id@ != owner_id) ==> !store.revokes(
            owner_id,
        ),
{
    assert forall|i: int| 0 <= i < store.trusted_owners@.len() implies store.trusts(
        (#[trigger] store.trusted_owners@[i]).owner_id@,
    ) by {}
    assert forall|i: int| 0 <= i < store.revoked_owners@.len() implies store.revokes(
        (#[trigger] store.revoked_owners@[i]).owner_id@,
    ) by {}
}

/// One more entry makes its owner count and leaves the opinion on all others as it
/// was; the two lists do not touch each other.
pub proof fn law_one_more_entry(
    before: TrustStore,
    after: TrustStore,
    trusted: TrustedOwner,
    owner_id: Seq<char>,
)
    requires
        after.trusted_owners@ == before.trusted_owners@.push(trusted),
        after.revoked_owners@ == before.revoked_owners@,
    ensures
        after.trusts(trusted.owner_id@),
        owner_id != trusted.owner_id@ ==> after.trusts(owner_id) == before.trusts(owner_id),
        after.revokes(owner_id) == before.revokes(owner_id),
{
    let n = before.trusted_owners@.len() as int;
    assert(after.trusted_owners@[n] == trusted);
    if before.trusts(owner_id) {
        let i = choose|i: int|
            0 <= i < before.trusted_owners@.len() && #[trigger] before.trusted_owners@[i].owner_id@
                == owner_id;
        assert(after.trusted_owners@[i].owner_id@ == owner_id);
    }
    if after.trusts(owner_id) && owner_id != trusted.owner_id@ {
        let i = choose|i: int|
            0 <= i < after.trusted_owners@.len() && #[trigger] after.trusted_owners@[i].owner_id@
                == owner_id;
        assert(before.trusted_owners@[i].owner_id@ == owner_id);
    }
    if before.revokes(owner_id) {
        let i = choose|i: int|
            0 <= i < before.revoked_owners@.len() && #[trigger] before.revoked_owners@[i].owner_id@
                == owner_id;
        assert(after.revoked_owners@[i].owner_id@ == owner_id);
    }
    if after.revokes(owner_id) {
        let i = choose|i: int|
            0 <= i < after.revoked_owners@.len() && #[trigger] after.revoked_owners@[i].owner_id@
                == owner_id;
        assert(before.revoked_owners@[i].owner_id@ == owner_id);
    }
}

/// The order of the entries does not matter.
pub proof fn law_list_order_does_not_matter(a: TrustStore, b: TrustStore, owner_id: Seq<char>)
    requires
        a.trusted_owners@.to_multiset() == b.trusted_owners@.to_multiset(),
        a.revoked_owners@.to_multiset() == b.revoked_owners@.to_multiset(),
    ensures
        a.trusts(owner_id) == b.trusts(owner_id),
        a.revokes(owner_id) == b.revokes(owner_id),
{
    lemma_same_entries(a, b, owner_id);
    lemma_same_entries(b, a, owner_id);
}

proof fn lemma_same_entries(a: TrustStore, b: TrustStore, owner_id: Seq<char>)
    requires
        a.trusted_owners@.to_multiset() == b.trusted_owners@.to_multiset(),
        a.revoked_owners@.to_multiset() == b.revoked_owners@.to_multiset(),
    ensures
        a.trusts(owner_id) ==> b.trusts(owner_id),
        a.revokes(owner_id) ==> b.revokes(owner_id),
{
    broadcast use vstd::seq_lib::group_to_multiset_ensures;

    if a.trusts(owner_id) {
        let i = choose|i: int|
            0 <= i < a.trusted_owners@.len() && #[trigger] a.trusted_owners@[i].owner_id@
                == owner_id;
        let e = a.trusted_owners@[i];
        assert(a.trusted_owners@.contains(e));
        assert(b.trusted_owners@.to_multiset().count(e) > 0);
        let j = choose|j: int| 0 <= j < b.trusted_owners@.len() && b.trusted_owners@[j] == e;
        assert(b.trusted_owners@[j].owner_id@ == owner_id);
    }
    if a.revokes(owner_id) {
        let i = choose|i: int|
            0 <= i < a.revoked_owners@.len() && #[trigger] a.revoked_owners@[i].owner_id@
                == owner_id;
        let e = a.revoked_owners@[i];
        assert(a.revoked_owners@.contains(e));
        assert(b.revoked_owners@.to_multiset().count(e) > 0);
        let j = choose|j: int| 0 <= j < b.revoked_owners@.len() && b.revoked_owners@[j] == e;
        assert(b.revoked_owners@[j].owner_id@ == owner_id);
    }
}

} // verus!
