//! The asset ledger: a catalog of assets, and for each token the assets
//! that wait for its owner's consent (pending) and those that the owner
//! took (accepted), the latter in the owner's order of display.
use crate::book::{list_in, lemma_index_of_unique, lemma_push_unique, lemma_remove_unique, StatusBook};
use crate::types::{check_owner, AccountId, AssetId, BaseId, EquippableGroupId, PartId, RmrkError, TokenId, TokenKey};
use vstd::prelude::*;

verus! {

/// An entry of the catalog: one renderable variant that tokens may carry.
#[derive(Debug)]
pub struct Asset {
    pub asset_id: AssetId,
    pub equippable_group_id: EquippableGroupId,
    pub base_id: BaseId,
    pub asset_uri: String,
    pub part_ids: Vec<PartId>,
}

/// The first index of `x` in `items`, if `x` occurs.
fn position_of(items: &Vec<AssetId>, x: AssetId) -> (r: Option<usize>)
    ensures
        match r {
            Some(i) => {
                &&& i < items@.len()
                &&& items@[i as int] == x
                &&& forall|j: int| 0 <= j < i ==> items@[j] != x
            },
            None => !items@.contains(x),
        },
{
    let mut i: usize = 0;
    while i < items.len()
        invariant
            0 <= i <= items@.len(),
            forall|j: int| 0 <= j < i ==> items@[j] != x,
        decreases items@.len() - i,
    {
        if items[i] == x {
            return Some(i);
        }
        i = i + 1;
    }
    None
}

/// What an operation of the token owner on one asset of a list returns: the
/// asset must be in the list (where the token has one), the token must exist
/// and the caller must own it.
pub open spec fn owner_step_outcome(
    has_list: bool,
    list: Seq<AssetId>,
    asset_id: AssetId,
    caller: AccountId,
    owner: Option<AccountId>,
) -> Result<(), RmrkError> {
    if has_list && !list.contains(asset_id) {
        Err(RmrkError::AssetIdNotFound)
    } else if owner is None {
        Err(RmrkError::TokenNotExists)
    } else if owner != Some(caller) {
        Err(RmrkError::NotAuthorised)
    } else if !has_list {
        Err(RmrkError::InvalidAssetId)
    } else {
        Ok(())
    }
}

/// Check an operation of the token owner on `asset_id` in the list of
/// `token` in `book`; on success, the index of the asset in that list.
fn check_owner_step(
    book: &StatusBook<AssetId>,
    token: &TokenId,
    asset_id: AssetId,
    caller: &AccountId,
    owner: Option<AccountId>,
) -> (r: Result<usize, RmrkError>)
    requires
        book.wf(),
    ensures
        (match r {
            Ok(_) => Ok(()),
            Err(e) => Err(e),
        }) == owner_step_outcome(
            book.lists().contains_key(token@),
            book.list_of(token@),
            asset_id,
            *caller,
            owner,
        ),
        r matches Ok(i) ==> i < book.list_of(token@).len() && book.list_of(token@)[i as int] == asset_id,
{
    let found = match book.get(token) {
        Some(items) => match position_of(items, asset_id) {
            Some(i) => Some(i),
            None => {
                return Err(RmrkError::AssetIdNotFound);
            },
        },
        None => None,
    };
    check_owner(caller, owner)?;
    match found {
        Some(i) => Ok(i),
        None => Err(RmrkError::InvalidAssetId),
    }
}

/// What `set_priority` returns: the token must exist, the caller must own
/// it, and the new order must list each accepted asset exactly once.
pub open spec fn priority_outcome(
    accepted: Seq<AssetId>,
    priorities: Seq<AssetId>,
    caller: AccountId,
    owner: Option<AccountId>,
) -> Result<(), RmrkError> {
    if owner is None {
        Err(RmrkError::TokenNotExists)
    } else if owner != Some(caller) {
        Err(RmrkError::NotAuthorised)
    } else if priorities.len() != accepted.len() {
        Err(RmrkError::BadPriorityLength)
    } else if exists|x: AssetId| #[trigger] priorities.contains(x) && !accepted.contains(x) {
        Err(RmrkError::AssetIdNotFound)
    } else if !priorities.no_duplicates() {
        Err(RmrkError::BadPriorityLength)
    } else {
        Ok(())
    }
}

/// Whether some item of `p` is missing from `a`.
fn has_missing(p: &Vec<AssetId>, a: &Vec<AssetId>) -> (r: bool)
    ensures
        r == exists|x: AssetId| #[trigger] p@.contains(x) && !a@.contains(x),
{
    let mut i: usize = 0;
    while i < p.len()
        invariant
            0 <= i <= p@.len(),
            forall|j: int| 0 <= j < i ==> a@.contains(#[trigger] p@[j]),
        decreases p@.len() - i,
    {
        if position_of(a, p[i]).is_none() {
            assert(p@.contains(p@[i as int]));
            return true;
        }
        i = i + 1;
    }
    assert forall|x: AssetId| #[trigger] p@.contains(x) implies a@.contains(x) by {
        let j = choose|j: int| 0 <= j < p@.len() && p@[j] == x;
        assert(a@.contains(p@[j]));
    }
    false
}

/// Whether some item occurs twice in `p`.
fn has_repeat(p: &Vec<AssetId>) -> (r: bool)
    ensures
        r == !p@.no_duplicates(),
{
    let mut i: usize = 0;
    while i < p.len()
        invariant
            0 <= i <= p@.len(),
            forall|m: int, l: int| 0 <= l < m < i ==> p@[l] != p@[m],
        decreases p@.len() - i,
    {
        match position_of(p, p[i]) {
            Some(j) => {
                if j != i {
                    assert(p@[j as int] == p@[i as int]);
                    return true;
                }
            },
            None => {
                assert(p@.contains(p@[i as int]));
            },
        }
        i = i + 1;
    }
    assert forall|m: int, l: int| 0 <= m < p@.len() && 0 <= l < p@.len() && m != l implies p@[m] != p@[l] by {
        if l < m {
        } else {
        }
    }
    false
}

/// The catalog of assets and the assets of each token.
pub struct Data {
    catalog: Vec<Asset>,
    accepted: StatusBook<AssetId>,
    pending: StatusBook<AssetId>,
}

impl Data {
    /// The catalog, in order of registration.
    pub closed spec fn assets(&self) -> Seq<Asset> {
        self.catalog@
    }

    /// Whether the catalog holds an asset with id `id`.
    pub open spec fn has_asset(&self, id: AssetId) -> bool {
        exists|i: int| 0 <= i < self.assets().len() && #[trigger] self.assets()[i].asset_id == id
    }

    /// The list of accepted assets of each token that has one, in order of
    /// priority.
    pub closed spec fn accepted_lists(&self) -> Map<TokenKey, Seq<AssetId>> {
        self.accepted.lists()
    }

    /// The list of pending assets of each token that has one.
    pub closed spec fn pending_lists(&self) -> Map<TokenKey, Seq<AssetId>> {
        self.pending.lists()
    }

    /// The accepted assets of token `k`, in order of priority.
    pub open spec fn accepted_of(&self, k: TokenKey) -> Seq<AssetId> {
        list_in(self.accepted_lists(), k)
    }

    /// The pending assets of token `k`.
    pub open spec fn pending_of(&self, k: TokenKey) -> Seq<AssetId> {
        list_in(self.pending_lists(), k)
    }

    /// Whether token `k` has a list of accepted assets (possibly empty).
    pub open spec fn has_accepted_list(&self, k: TokenKey) -> bool {
        self.accepted_lists().contains_key(k)
    }

    /// Whether token `k` has a list of pending assets (possibly empty).
    pub open spec fn has_pending_list(&self, k: TokenKey) -> bool {
        self.pending_lists().contains_key(k)
    }

    /// Catalog ids are unique; no list repeats an asset, and no asset is
    /// both pending and accepted on one token.
    pub closed spec fn wf(&self) -> bool {
        &&& self.accepted.wf()
        &&& self.pending.wf()
        &&& self.catalog@.len() <= u32::MAX
        &&& forall|i: int, j: int|
            0 <= i < self.catalog@.len() && 0 <= j < self.catalog@.len() && #[trigger] self.catalog@[i].asset_id
                == #[trigger] self.catalog@[j].asset_id ==> i == j
        &&& forall|k: TokenKey| #[trigger] self.accepted.list_of(k).no_duplicates()
        &&& forall|k: TokenKey| #[trigger] self.pending.list_of(k).no_duplicates()
        &&& forall|k: TokenKey, a: AssetId|
            !(#[trigger] self.accepted.list_of(k).contains(a) && #[trigger] self.pending.list_of(k).contains(a))
    }

    /// An empty catalog, and no token with an asset.
    pub fn new() -> (r: Data)
        ensures
            r.wf(),
            r.assets().len() == 0,
            r.accepted_lists() == Map::<TokenKey, Seq<AssetId>>::empty(),
            r.pending_lists() == Map::<TokenKey, Seq<AssetId>>::empty(),
    {
        Data { catalog: Vec::new(), accepted: StatusBook::new(), pending: StatusBook::new() }
    }

    fn find_asset(&self, asset_id: AssetId) -> (r: Option<usize>)
        ensures
            match r {
                Some(i) => i < self.assets().len() && self.assets()[i as int].asset_id == asset_id,
                None => !self.has_asset(asset_id),
            },
    {
        let mut i: usize = 0;
        while i < self.catalog.len()
            invariant
                0 <= i <= self.catalog@.len(),
                forall|j: int| 0 <= j < i ==> self.catalog@[j].asset_id != asset_id,
            decreases self.catalog@.len() - i,
        {
            if self.catalog[i].asset_id == asset_id {
                return Some(i);
            }
            i = i + 1;
        }
        None
    }

    /// What `add_asset_entry` returns: only the collection owner may
    /// register, and only an id that the catalog lacks.
    pub open spec fn asset_entry_outcome(&self, caller: AccountId, collection_owner: AccountId, asset_id: AssetId) -> Result<
        (),
        RmrkError,
    > {
        if caller != collection_owner {
            Err(RmrkError::CallerIsNotOwner)
        } else if self.has_asset(asset_id) {
            Err(RmrkError::AssetIdAlreadyExists)
        } else {
            Ok(())
        }
    }

    /// Registering an asset adds exactly one entry to the catalog, and a
    /// second registration of the same id is refused as a duplicate.
    pub proof fn lemma_catalog_entry_added(
        before: Data,
        after: Data,
        caller: AccountId,
        collection_owner: AccountId,
        asset: Asset,
    )
        requires
            after.assets() == before.assets().push(asset),
        ensures
            after.assets().len() == before.assets().len() + 1,
            caller == collection_owner ==> after.asset_entry_outcome(caller, collection_owner, asset.asset_id)
                == Err::<(), RmrkError>(RmrkError::AssetIdAlreadyExists),
    {
        assert(after.assets()[before.assets().len() as int].asset_id == asset.asset_id);
    }

    /// No asset is both pending and accepted on one token, and neither list
    /// repeats an asset.
    pub proof fn lemma_assets_exclusive(&self, k: TokenKey, a: AssetId)
        requires
            self.wf(),
        ensures
            !(self.accepted_of(k).contains(a) && self.pending_of(k).contains(a)),
            self.accepted_of(k).no_duplicates(),
            self.pending_of(k).no_duplicates(),
    {
        assert(!(self.accepted.list_of(k).contains(a) && self.pending.list_of(k).contains(a)));
        assert(self.accepted.list_of(k).no_duplicates());
        assert(self.pending.list_of(k).no_duplicates());
    }

    /// A successful `set_priority` keeps the accepted assets of the token,
    /// each once, and puts them in the order given.
    pub proof fn lemma_priority_reorders(
        before: Data,
        after: Data,
        caller: AccountId,
        k: TokenKey,
        owner: Option<AccountId>,
        priorities: Seq<AssetId>,
    )
        requires
            before.wf(),
            priority_outcome(before.accepted_of(k), priorities, caller, owner) is Ok,
            after.accepted_lists() == before.accepted_lists().insert(k, priorities),
        ensures
            after.accepted_of(k) == priorities,
            after.accepted_of(k).len() == before.accepted_of(k).len(),
            forall|x: AssetId| after.accepted_of(k).contains(x) <==> before.accepted_of(k).contains(x),
    {
        let a = before.accepted_of(k);
        before.lemma_assets_exclusive(k, 0);
        a.unique_seq_to_set();
        priorities.unique_seq_to_set();
        assert(priorities.to_set().subset_of(a.to_set()));
        vstd::set_lib::lemma_subset_equality(priorities.to_set(), a.to_set());
        assert forall|x: AssetId| priorities.contains(x) <==> a.contains(x) by {
            assert(priorities.to_set().contains(x) == a.to_set().contains(x));
        }
    }

    /// Register an asset in the catalog. Only the collection owner may.
    pub fn add_asset_entry(
        &mut self,
        caller: &AccountId,
        collection_owner: &AccountId,
        asset_id: AssetId,
        equippable_group_id: EquippableGroupId,
        base_id: BaseId,
        asset_uri: String,
        part_ids: Vec<PartId>,
    ) -> (r: Result<(), RmrkError>)
        requires
            old(self).wf(),
            old(self).assets().len() < u32::MAX,
        ensures
            final(self).wf(),
            r == old(self).asset_entry_outcome(*caller, *collection_owner, asset_id),
            r is Err ==> *final(self) == *old(self),
            r is Ok ==> final(self).assets() == old(self).assets().push(
                (Asset { asset_id, equippable_group_id, base_id, asset_uri, part_ids }),
            ),
            final(self).accepted_lists() == old(self).accepted_lists(),
            final(self).pending_lists() == old(self).pending_lists(),
    {
        if *caller != *collection_owner {
            return Err(RmrkError::CallerIsNotOwner);
        }
        if self.find_asset(asset_id).is_some() {
            return Err(RmrkError::AssetIdAlreadyExists);
        }
        self.catalog.push(Asset { asset_id, equippable_group_id, base_id, asset_uri, part_ids });
        Ok(())
    }

    /// The number of assets in the catalog.
    pub fn total_assets(&self) -> (r: u32)
        requires
            self.wf(),
        ensures
            r == self.assets().len(),
    {
        self.catalog.len() as u32
    }

    /// The uri of the catalog's asset `asset_id`, if there is one.
    pub fn get_asset_uri(&self, asset_id: AssetId) -> (r: Option<String>)
        ensures
            match r {
                Some(u) => exists|i: int|
                    0 <= i < self.assets().len() && #[trigger] self.assets()[i].asset_id == asset_id
                        && self.assets()[i].asset_uri@ == u@,
                None => !self.has_asset(asset_id),
            },
    {
        match self.find_asset(asset_id) {
            Some(i) => {
                let u = self.catalog[i].asset_uri.clone();
                assert(self.assets()[i as int].asset_uri@ == u@);
                Some(u)
            },
            None => None,
        }
    }

    /// Attach catalog asset `asset_id` to `token`: accepted at once where
    /// the caller owns the token, pending otherwise. `owner` is the token's
    /// owner as the ownership registry reports it. `_replaces` names an asset
    /// that the new one is meant to replace; it is not acted upon.
    pub fn add_asset_to_token(
        &mut self,
        caller: &AccountId,
        token: TokenId,
        owner: Option<AccountId>,
        asset_id: AssetId,
        _replaces: Option<AssetId>,
    ) -> (r: Result<(), RmrkError>)
        requires
            old(self).wf(),
        ensures
            final(self).wf(),
            r == (if !old(self).has_asset(asset_id) {
                Err(RmrkError::AssetIdNotFound)
            } else if owner is None {
                Err(RmrkError::TokenNotExists)
            } else if old(self).accepted_of(token@).contains(asset_id) {
                Err(RmrkError::AlreadyAddedAsset)
            } else if old(self).pending_of(token@).contains(asset_id) {
                Err(RmrkError::AddingPendingAsset)
            } else {
                Ok(())
            }),
            r is Err ==> *final(self) == *old(self),
            final(self).assets() == old(self).assets(),
            r is Ok && owner == Some(*caller) ==> {
                &&& final(self).accepted_lists() == old(self).accepted_lists().insert(
                    token@,
                    old(self).accepted_of(token@).push(asset_id),
                )
                &&& final(self).pending_lists() == old(self).pending_lists()
            },
            r is Ok && owner != Some(*caller) ==> {
                &&& final(self).pending_lists() == old(self).pending_lists().insert(
                    token@,
                    old(self).pending_of(token@).push(asset_id),
                )
                &&& final(self).accepted_lists() == old(self).accepted_lists()
            },
    {
        if self.find_asset(asset_id).is_none() {
            return Err(RmrkError::AssetIdNotFound);
        }
        let token_owner = match owner {
            Some(o) => o,
            None => {
                return Err(RmrkError::TokenNotExists);
            },
        };
        if let Some(items) = self.accepted.get(&token) {
            if position_of(items, asset_id).is_some() {
                return Err(RmrkError::AlreadyAddedAsset);
            }
        }
        if let Some(items) = self.pending.get(&token) {
            if position_of(items, asset_id).is_some() {
                return Err(RmrkError::AddingPendingAsset);
            }
        }
        let ghost k = token@;
        if token_owner == *caller {
            self.accepted.push_item(token, asset_id);
        } else {
            self.pending.push_item(token, asset_id);
        }
        assert forall|k2: TokenKey| #[trigger] self.accepted.list_of(k2).no_duplicates() by {
            assert(old(self).accepted.list_of(k2).no_duplicates());
            assert(old(self).pending.list_of(k2).no_duplicates());
        }
        assert forall|k2: TokenKey| #[trigger] self.pending.list_of(k2).no_duplicates() by {
            assert(old(self).accepted.list_of(k2).no_duplicates());
            assert(old(self).pending.list_of(k2).no_duplicates());
        }
        assert forall|k2: TokenKey, a: AssetId|
            !(#[trigger] self.accepted.list_of(k2).contains(a) && #[trigger] self.pending.list_of(
                k2,
            ).contains(a)) by {
            assert(!(old(self).accepted.list_of(k2).contains(a) && old(self).pending.list_of(k2).contains(a)));
            if k2 == k {
                if self.accepted.list_of(k2).contains(a) {
                    let j = choose|j: int| 0 <= j < self.accepted.list_of(k2).len() && self.accepted.list_of(k2)[j] == a;
                    if j < old(self).accepted.list_of(k2).len() {
                        assert(old(self).accepted.list_of(k2)[j] == a);
                    }
                }
                if self.pending.list_of(k2).contains(a) {
                    let j = choose|j: int| 0 <= j < self.pending.list_of(k2).len() && self.pending.list_of(k2)[j] == a;
                    if j < old(self).pending.list_of(k2).len() {
                        assert(old(self).pending.list_of(k2)[j] == a);
                    }
                }
            }
        }
        Ok(())
    }

    /// The token owner takes pending asset `asset_id` of `token`: it moves
    /// to the end of the accepted list.
    pub fn accept_asset(
        &mut self,
        caller: &AccountId,
        token: TokenId,
        owner: Option<AccountId>,
        asset_id: AssetId,
    ) -> (r: Result<(), RmrkError>)
        requires
            old(self).wf(),
        ensures
            final(self).wf(),
            r == owner_step_outcome(
                old(self).has_pending_list(token@),
                old(self).pending_of(token@),
                asset_id,
                *caller,
                owner,
            ),
            r is Err ==> *final(self) == *old(self),
            final(self).assets() == old(self).assets(),
            r is Ok ==> {
                &&& final(self).pending_lists() == old(self).pending_lists().insert(
                    token@,
                    old(self).pending_of(token@).remove(old(self).pending_of(token@).index_of(asset_id)),
                )
                &&& final(self).accepted_lists() == old(self).accepted_lists().insert(
                    token@,
                    old(self).accepted_of(token@).push(asset_id),
                )
            },
    {
        let i = check_owner_step(&self.pending, &token, asset_id, caller, owner)?;
        let ghost k = token@;
        let ghost p = self.pending.list_of(k);
        let ghost a = self.accepted.list_of(k);
        proof {
            assert(p.no_duplicates());
            assert(a.no_duplicates());
            lemma_index_of_unique(p, i as int);
            lemma_remove_unique(p, i as int);
            assert(p.contains(asset_id));
            assert(!a.contains(asset_id));
            lemma_push_unique(a, asset_id);
        }
        self.pending.remove_at(&token, i);
        self.accepted.push_item(token, asset_id);
        proof {
            self.lemma_wf_after_change(old(self), k);
        }
        Ok(())
    }

    /// The token owner turns down pending asset `asset_id` of `token`.
    pub fn reject_asset(
        &mut self,
        caller: &AccountId,
        token: TokenId,
        owner: Option<AccountId>,
        asset_id: AssetId,
    ) -> (r: Result<(), RmrkError>)
        requires
            old(self).wf(),
        ensures
            final(self).wf(),
            r == owner_step_outcome(
                old(self).has_pending_list(token@),
                old(self).pending_of(token@),
                asset_id,
                *caller,
                owner,
            ),
            r is Err ==> *final(self) == *old(self),
            final(self).assets() == old(self).assets(),
            r is Ok ==> {
                &&& final(self).pending_lists() == old(self).pending_lists().insert(
                    token@,
                    old(self).pending_of(token@).remove(old(self).pending_of(token@).index_of(asset_id)),
                )
                &&& final(self).accepted_lists() == old(self).accepted_lists()
            },
    {
        let i = check_owner_step(&self.pending, &token, asset_id, caller, owner)?;
        let ghost k = token@;
        let ghost p = self.pending.list_of(k);
        proof {
            assert(p.no_duplicates());
            lemma_index_of_unique(p, i as int);
            lemma_remove_unique(p, i as int);
        }
        self.pending.remove_at(&token, i);
        proof {
            self.lemma_wf_after_change(old(self), k);
        }
        Ok(())
    }

    /// The token owner takes accepted asset `asset_id` off `token`.
    pub fn remove_asset(
        &mut self,
        caller: &AccountId,
        token: TokenId,
        owner: Option<AccountId>,
        asset_id: AssetId,
    ) -> (r: Result<(), RmrkError>)
        requires
            old(self).wf(),
        ensures
            final(self).wf(),
            r == owner_step_outcome(
                old(self).has_accepted_list(token@),
                old(self).accepted_of(token@),
                asset_id,
                *caller,
                owner,
            ),
            r is Err ==> *final(self) == *old(self),
            final(self).assets() == old(self).assets(),
            r is Ok ==> {
                &&& final(self).accepted_lists() == old(self).accepted_lists().insert(
                    token@,
                    old(self).accepted_of(token@).remove(old(self).accepted_of(token@).index_of(asset_id)),
                )
                &&& final(self).pending_lists() == old(self).pending_lists()
            },
    {
        let i = check_owner_step(&self.accepted, &token, asset_id, caller, owner)?;
        let ghost k = token@;
        let ghost a = self.accepted.list_of(k);
        proof {
            assert(a.no_duplicates());
            lemma_index_of_unique(a, i as int);
            lemma_remove_unique(a, i as int);
        }
        self.accepted.remove_at(&token, i);
        proof {
            self.lemma_wf_after_change(old(self), k);
        }
        Ok(())
    }

    /// Where only the lists of token `k` changed, and they are without
    /// repeats and share no asset, the ledger is well formed.
    proof fn lemma_wf_after_change(&self, before: &Data, k: TokenKey)
        requires
            before.wf(),
            self.accepted.wf(),
            self.pending.wf(),
            self.catalog@ == before.catalog@,
            forall|k2: TokenKey| k2 != k ==> #[trigger] self.accepted.list_of(k2) == before.accepted.list_of(k2),
            forall|k2: TokenKey| k2 != k ==> #[trigger] self.pending.list_of(k2) == before.pending.list_of(k2),
            self.accepted.list_of(k).no_duplicates(),
            self.pending.list_of(k).no_duplicates(),
            forall|a: AssetId| !(self.accepted.list_of(k).contains(a) && self.pending.list_of(k).contains(a)),
        ensures
            self.wf(),
    {
        assert forall|k2: TokenKey| #[trigger] self.accepted.list_of(k2).no_duplicates() by {
            if k2 != k {
                assert(before.accepted.list_of(k2).no_duplicates());
            }
        }
        assert forall|k2: TokenKey| #[trigger] self.pending.list_of(k2).no_duplicates() by {
            if k2 != k {
                assert(before.pending.list_of(k2).no_duplicates());
            }
        }
        assert forall|k2: TokenKey, a: AssetId|
            !(#[trigger] self.accepted.list_of(k2).contains(a) && #[trigger] self.pending.list_of(
                k2,
            ).contains(a)) by {
            if k2 != k {
                assert(!(before.accepted.list_of(k2).contains(a) && before.pending.list_of(k2).contains(a)));
            }
        }
    }

    /// The token owner puts the accepted assets of `token` in a new order of
    /// display. The new order must list each accepted asset exactly once.
    pub fn set_priority(
        &mut self,
        caller: &AccountId,
        token: TokenId,
        owner: Option<AccountId>,
        priorities: Vec<AssetId>,
    ) -> (r: Result<(), RmrkError>)
        requires
            old(self).wf(),
        ensures
            final(self).wf(),
            r == priority_outcome(old(self).accepted_of(token@), priorities@, *caller, owner),
            r is Err ==> *final(self) == *old(self),
            final(self).assets() == old(self).assets(),
            final(self).pending_lists() == old(self).pending_lists(),
            r is Ok ==> final(self).accepted_lists() == old(self).accepted_lists().insert(token@, priorities@),
    {
        check_owner(caller, owner)?;
        let empty: Vec<AssetId> = Vec::new();
        let accepted = match self.accepted.get(&token) {
            Some(items) => items,
            None => &empty,
        };
        if accepted.len() != priorities.len() {
            return Err(RmrkError::BadPriorityLength);
        }
        if has_missing(&priorities, accepted) {
            return Err(RmrkError::AssetIdNotFound);
        }
        if has_repeat(&priorities) {
            return Err(RmrkError::BadPriorityLength);
        }
        let ghost k = token@;
        let ghost a = self.accepted.list_of(k);
        let ghost p = priorities@;
        proof {
            assert(a == accepted@);
            assert forall|x: AssetId| !(p.contains(x) && self.pending.list_of(k).contains(x)) by {
                if p.contains(x) {
                    assert(a.contains(x));
                    assert(!(a.contains(x) && self.pending.list_of(k).contains(x)));
                }
            }
            assert(self.pending.list_of(k).no_duplicates());
        }
        self.accepted.put(token, priorities);
        proof {
            self.lemma_wf_after_change(old(self), k);
        }
        Ok(())
    }

    /// The numbers of accepted and of pending assets of `token`.
    pub fn total_token_assets(&self, token: &TokenId, owner: Option<AccountId>) -> (r: Result<
        (u64, u64),
        RmrkError,
    >)
        requires
            self.wf(),
        ensures
            r == (if owner is None {
                Err(RmrkError::TokenNotExists)
            } else {
                Ok((self.accepted_of(token@).len() as u64, self.pending_of(token@).len() as u64))
            }),
    {
        if owner.is_none() {
            return Err(RmrkError::TokenNotExists);
        }
        let accepted: u64 = match self.accepted.get(token) {
            Some(items) => items.len() as u64,
            None => 0,
        };
        let pending: u64 = match self.pending.get(token) {
            Some(items) => items.len() as u64,
            None => 0,
        };
        Ok((accepted, pending))
    }

    /// The accepted assets of `token` in order of priority, or `None` where
    /// the token never had a list of accepted assets.
    pub fn get_accepted_token_assets(&self, token: &TokenId, owner: Option<AccountId>) -> (r: Result<
        Option<Vec<AssetId>>,
        RmrkError,
    >)
        requires
            self.wf(),
        ensures
            match r {
                Err(e) => owner is None && e == RmrkError::TokenNotExists,
                Ok(None) => owner is Some && !self.has_accepted_list(token@),
                Ok(Some(v)) => owner is Some && self.has_accepted_list(token@) && v@ == self.accepted_of(token@),
            },
    {
        if owner.is_none() {
            return Err(RmrkError::TokenNotExists);
        }
        match self.accepted.get(token) {
            Some(items) => {
                let v = items.clone();
                assert(v@ =~= items@);
                Ok(Some(v))
            },
            None => Ok(None),
        }
    }
}

} // verus!
