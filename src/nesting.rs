//! The nesting engine: tokens of this collection own tokens of any
//! collection as children, each child pending until the parent's owner
//! accepts it.
use crate::book::{lemma_index_of_unique, lemma_push_unique, lemma_remove_unique, list_in, StatusBook};
use crate::types::{check_owner, AccountId, ChildKey, ChildRef, RmrkError, TokenId, TokenKey};
use vstd::prelude::*;

verus! {

/// The keys of the children in `s`, in the same order.
pub open spec fn keys(s: Seq<ChildRef>) -> Seq<ChildKey> {
    s.map_values(|c: ChildRef| c@)
}

proof fn lemma_keys_push(s: Seq<ChildRef>, c: ChildRef)
    ensures
        keys(s.push(c)) == keys(s).push(c@),
{
    assert(keys(s.push(c)) =~= keys(s).push(c@));
}

proof fn lemma_keys_remove(s: Seq<ChildRef>, i: int)
    requires
        0 <= i < s.len(),
    ensures
        keys(s.remove(i)) == keys(s).remove(i),
{
    assert(keys(s.remove(i)) =~= keys(s).remove(i));
}

/// The first index of child `c` in `items`, if it occurs.
fn position_of_child(items: &Vec<ChildRef>, c: &ChildRef) -> (r: Option<usize>)
    ensures
        match r {
            Some(i) => i < items@.len() && keys(items@)[i as int] == c@,
            None => !keys(items@).contains(c@),
        },
{
    let mut i: usize = 0;
    while i < items.len()
        invariant
            0 <= i <= items@.len(),
            forall|j: int| 0 <= j < i ==> keys(items@)[j] != c@,
        decreases items@.len() - i,
    {
        if items[i].same(c) {
            return Some(i);
        }
        i = i + 1;
    }
    None
}

/// Whether the list of `parent` in `book` holds child `c`.
fn holds_child(book: &StatusBook<ChildRef>, parent: &TokenId, c: &ChildRef) -> (r: bool)
    requires
        book.wf(),
    ensures
        r == keys(book.list_of(parent@)).contains(c@),
{
    match book.get(parent) {
        Some(items) => position_of_child(items, c).is_some(),
        None => false,
    }
}

/// What looking up child `c` in a list of `parent` returns: the parent must
/// have such a list, and the child must be in it.
pub open spec fn locate_outcome(has_list: bool, list: Seq<ChildKey>, c: ChildKey) -> Result<(), RmrkError> {
    if !has_list {
        Err(RmrkError::InvalidParentId)
    } else if !list.contains(c) {
        Err(RmrkError::ChildNotFound)
    } else {
        Ok(())
    }
}

/// The index of child `c` in the list of `parent` in `book`.
fn locate_child(book: &StatusBook<ChildRef>, parent: &TokenId, c: &ChildRef) -> (r: Result<usize, RmrkError>)
    requires
        book.wf(),
    ensures
        (match r {
            Ok(_) => Ok(()),
            Err(e) => Err(e),
        }) == locate_outcome(book.lists().contains_key(parent@), keys(book.list_of(parent@)), c@),
        r matches Ok(i) ==> i < book.list_of(parent@).len() && book.list_of(parent@)[i as int]@ == c@,
{
    match book.get(parent) {
        Some(items) => match position_of_child(items, c) {
            Some(i) => Ok(i),
            None => Err(RmrkError::ChildNotFound),
        },
        None => Err(RmrkError::InvalidParentId),
    }
}

/// `s` without the child whose key is `c`, where `s` holds it once.
pub open spec fn without(s: Seq<ChildRef>, c: ChildKey) -> Seq<ChildRef> {
    s.remove(keys(s).index_of(c))
}

/// `after` is `before` with child `c` appended to the accepted children of
/// `parent` (where `accepted`) or to its pending children (where not).
pub open spec fn child_added(before: Data, after: Data, parent: TokenKey, c: ChildRef, accepted: bool) -> bool {
    if accepted {
        &&& after.accepted_lists() == before.accepted_lists().insert(parent, before.accepted_of(parent).push(c))
        &&& after.pending_lists() == before.pending_lists()
    } else {
        &&& after.pending_lists() == before.pending_lists().insert(parent, before.pending_of(parent).push(c))
        &&& after.accepted_lists() == before.accepted_lists()
    }
}

/// `after` is `before` with child `c` moved from the pending children of
/// `parent` to the end of its accepted children.
pub open spec fn child_accepted(before: Data, after: Data, parent: TokenKey, c: ChildRef) -> bool {
    &&& after.pending_lists() == before.pending_lists().insert(parent, without(before.pending_of(parent), c@))
    &&& after.accepted_lists() == before.accepted_lists().insert(parent, before.accepted_of(parent).push(c))
}

/// `after` is `before` with child `c` taken out of the pending children of
/// `parent`.
pub open spec fn child_rejected(before: Data, after: Data, parent: TokenKey, c: ChildKey) -> bool {
    &&& after.pending_lists() == before.pending_lists().insert(parent, without(before.pending_of(parent), c))
    &&& after.accepted_lists() == before.accepted_lists()
}

/// `after` is `before` with child `c` taken out of the accepted children of
/// `parent`.
pub open spec fn child_removed(before: Data, after: Data, parent: TokenKey, c: ChildKey) -> bool {
    &&& after.accepted_lists() == before.accepted_lists().insert(parent, without(before.accepted_of(parent), c))
    &&& after.pending_lists() == before.pending_lists()
}

/// What the checks of `add_child` return: the parent must exist and the
/// child must be neither accepted nor pending under it.
pub open spec fn add_child_check(
    state: Data,
    parent: TokenKey,
    parent_owner: Option<AccountId>,
    c: ChildKey,
) -> Result<(), RmrkError> {
    if parent_owner is None {
        Err(RmrkError::TokenNotExists)
    } else if keys(state.accepted_of(parent)).contains(c) {
        Err(RmrkError::AlreadyAddedChild)
    } else if keys(state.pending_of(parent)).contains(c) {
        Err(RmrkError::AddingPendingChild)
    } else {
        Ok(())
    }
}

/// What `accept_child` and `reject_child` return: the parent must exist,
/// the caller must own it, and the child must be pending under it.
pub open spec fn pending_step_outcome(
    state: Data,
    caller: AccountId,
    parent: TokenKey,
    parent_owner: Option<AccountId>,
    c: ChildKey,
) -> Result<(), RmrkError> {
    if parent_owner is None {
        Err(RmrkError::TokenNotExists)
    } else if parent_owner != Some(caller) {
        Err(RmrkError::NotAuthorised)
    } else if keys(state.accepted_of(parent)).contains(c) {
        Err(RmrkError::AlreadyAddedChild)
    } else {
        locate_outcome(state.pending_lists().contains_key(parent), keys(state.pending_of(parent)), c)
    }
}

/// What the checks of `remove_child` return: the parent must exist, the
/// caller must own it, and the child must be accepted under it.
pub open spec fn remove_child_check(
    state: Data,
    caller: AccountId,
    parent: TokenKey,
    parent_owner: Option<AccountId>,
    c: ChildKey,
) -> Result<(), RmrkError> {
    if parent_owner is None {
        Err(RmrkError::TokenNotExists)
    } else if parent_owner != Some(caller) {
        Err(RmrkError::NotAuthorised)
    } else {
        locate_outcome(state.accepted_lists().contains_key(parent), keys(state.accepted_of(parent)), c)
    }
}

/// The outcome of checks that passed, followed by the outcome of moving
/// the child between collections.
pub open spec fn then_custody(checks: Result<(), RmrkError>, custody: Result<(), RmrkError>) -> Result<(), RmrkError> {
    match checks {
        Err(e) => Err(e),
        Ok(()) => custody,
    }
}

/// What `transfer_child` returns: both parents must exist, the caller must
/// own the current one, the child must be accepted under it, and a new
/// parent other than the current one must hold no such child yet.
pub open spec fn transfer_child_outcome(
    state: Data,
    caller: AccountId,
    current: TokenKey,
    current_owner: Option<AccountId>,
    new_parent: TokenKey,
    new_owner: Option<AccountId>,
    c: ChildKey,
) -> Result<(), RmrkError> {
    if current_owner is None || new_owner is None {
        Err(RmrkError::TokenNotExists)
    } else if current_owner != Some(caller) {
        Err(RmrkError::NotAuthorised)
    } else if locate_outcome(
        state.accepted_lists().contains_key(current),
        keys(state.accepted_of(current)),
        c,
    ) is Err {
        locate_outcome(state.accepted_lists().contains_key(current), keys(state.accepted_of(current)), c)
    } else if new_parent != current && keys(state.accepted_of(new_parent)).contains(c) {
        Err(RmrkError::AlreadyAddedChild)
    } else if new_parent != current && keys(state.pending_of(new_parent)).contains(c) {
        Err(RmrkError::AddingPendingChild)
    } else {
        Ok(())
    }
}

/// `after` is `before` with child `c` moved from the accepted children of
/// `current` to the end of the accepted children of `new_parent` (where
/// `accepted`) or of its pending children (where not).
pub open spec fn child_transferred(
    before: Data,
    after: Data,
    current: TokenKey,
    new_parent: TokenKey,
    c: ChildRef,
    accepted: bool,
) -> bool {
    let mid = before.accepted_lists().insert(current, without(before.accepted_of(current), c@));
    if accepted {
        &&& after.accepted_lists() == mid.insert(new_parent, list_in(mid, new_parent).push(c))
        &&& after.pending_lists() == before.pending_lists()
    } else {
        &&& after.accepted_lists() == mid
        &&& after.pending_lists() == before.pending_lists().insert(
            new_parent,
            before.pending_of(new_parent).push(c),
        )
    }
}

/// The children of each token of this collection.
pub struct Data {
    accepted: StatusBook<ChildRef>,
    pending: StatusBook<ChildRef>,
}

impl Data {
    /// The accepted children of each token that has a list of them.
    pub closed spec fn accepted_lists(&self) -> Map<TokenKey, Seq<ChildRef>> {
        self.accepted.lists()
    }

    /// The pending children of each token that has a list of them.
    pub closed spec fn pending_lists(&self) -> Map<TokenKey, Seq<ChildRef>> {
        self.pending.lists()
    }

    /// The accepted children of token `k`.
    pub open spec fn accepted_of(&self, k: TokenKey) -> Seq<ChildRef> {
        list_in(self.accepted_lists(), k)
    }

    /// The pending children of token `k`.
    pub open spec fn pending_of(&self, k: TokenKey) -> Seq<ChildRef> {
        list_in(self.pending_lists(), k)
    }

    /// No list repeats a child, and no child is both pending and accepted
    /// under one parent.
    pub closed spec fn wf(&self) -> bool {
        &&& self.accepted.wf()
        &&& self.pending.wf()
        &&& forall|k: TokenKey| #[trigger] keys(self.accepted.list_of(k)).no_duplicates()
        &&& forall|k: TokenKey| #[trigger] keys(self.pending.list_of(k)).no_duplicates()
        &&& forall|k: TokenKey, c: ChildKey|
            !(#[trigger] keys(self.accepted.list_of(k)).contains(c) && #[trigger] keys(
                self.pending.list_of(k),
            ).contains(c))
    }

    /// No child is both pending and accepted under one parent, and neither
    /// list of a parent repeats a child.
    pub proof fn lemma_children_exclusive(&self, k: TokenKey, c: ChildKey)
        requires
            self.wf(),
        ensures
            !(keys(self.accepted_of(k)).contains(c) && keys(self.pending_of(k)).contains(c)),
            keys(self.accepted_of(k)).no_duplicates(),
            keys(self.pending_of(k)).no_duplicates(),
    {
        assert(!(keys(self.accepted.list_of(k)).contains(c) && keys(self.pending.list_of(k)).contains(c)));
        assert(keys(self.accepted.list_of(k)).no_duplicates());
        assert(keys(self.pending.list_of(k)).no_duplicates());
    }

    /// Adding a child that a parent lacks, then taking it out again, gives
    /// back the parent's list.
    proof fn lemma_push_without(s: Seq<ChildRef>, c: ChildRef)
        requires
            keys(s).no_duplicates(),
            !keys(s).contains(c@),
        ensures
            without(s.push(c), c@) == s,
    {
        lemma_keys_push(s, c);
        lemma_push_unique(keys(s), c@);
        assert(keys(s.push(c))[s.len() as int] == c@);
        lemma_index_of_unique(keys(s.push(c)), s.len() as int);
        assert(s.push(c).remove(s.len() as int) =~= s);
    }

    /// A child added under a parent by someone other than its owner, then
    /// accepted, then removed, leaves every token with the children it had
    /// before.
    pub proof fn lemma_add_accept_remove(
        s0: Data,
        s1: Data,
        s2: Data,
        s3: Data,
        parent: TokenKey,
        child: ChildRef,
    )
        requires
            s0.wf(),
            !keys(s0.accepted_of(parent)).contains(child@),
            !keys(s0.pending_of(parent)).contains(child@),
            child_added(s0, s1, parent, child, false),
            child_accepted(s1, s2, parent, child),
            child_removed(s2, s3, parent, child@),
        ensures
            forall|k: TokenKey| #[trigger] s3.accepted_of(k) == s0.accepted_of(k) && s3.pending_of(k) == s0.pending_of(k),
    {
        s0.lemma_children_exclusive(parent, child@);
        Self::lemma_push_without(s0.pending_of(parent), child);
        Self::lemma_push_without(s0.accepted_of(parent), child);
    }

    /// No token with a child.
    pub fn new() -> (r: Data)
        ensures
            r.wf(),
            r.accepted_lists() == Map::<TokenKey, Seq<ChildRef>>::empty(),
            r.pending_lists() == Map::<TokenKey, Seq<ChildRef>>::empty(),
    {
        let r = Data { accepted: StatusBook::new(), pending: StatusBook::new() };
        assert forall|k: TokenKey| #[trigger] keys(r.accepted.list_of(k)).no_duplicates() by {
            assert(keys(r.accepted.list_of(k)) =~= Seq::<ChildKey>::empty());
        }
        assert forall|k: TokenKey| #[trigger] keys(r.pending.list_of(k)).no_duplicates() by {
            assert(keys(r.pending.list_of(k)) =~= Seq::<ChildKey>::empty());
        }
        assert forall|k: TokenKey, c: ChildKey|
            !(#[trigger] keys(r.accepted.list_of(k)).contains(c) && #[trigger] keys(
                r.pending.list_of(k),
            ).contains(c)) by {
            assert(keys(r.accepted.list_of(k)) =~= Seq::<ChildKey>::empty());
        }
        r
    }

    /// Where only the lists of token `k` changed, and they are without
    /// repeats and share no child, the engine is well formed.
    proof fn lemma_wf_after_change(&self, before: &Data, k: TokenKey)
        requires
            before.wf(),
            self.accepted.wf(),
            self.pending.wf(),
            forall|k2: TokenKey| k2 != k ==> #[trigger] self.accepted.list_of(k2) == before.accepted.list_of(k2),
            forall|k2: TokenKey| k2 != k ==> #[trigger] self.pending.list_of(k2) == before.pending.list_of(k2),
            keys(self.accepted.list_of(k)).no_duplicates(),
            keys(self.pending.list_of(k)).no_duplicates(),
            forall|c: ChildKey|
                !(keys(self.accepted.list_of(k)).contains(c) && keys(self.pending.list_of(k)).contains(c)),
        ensures
            self.wf(),
    {
        assert forall|k2: TokenKey| #[trigger] keys(self.accepted.list_of(k2)).no_duplicates() by {
            if k2 != k {
                assert(keys(before.accepted.list_of(k2)).no_duplicates());
            }
        }
        assert forall|k2: TokenKey| #[trigger] keys(self.pending.list_of(k2)).no_duplicates() by {
            if k2 != k {
                assert(keys(before.pending.list_of(k2)).no_duplicates());
            }
        }
        assert forall|k2: TokenKey, c: ChildKey|
            !(#[trigger] keys(self.accepted.list_of(k2)).contains(c) && #[trigger] keys(
                self.pending.list_of(k2),
            ).contains(c)) by {
            if k2 != k {
                assert(!(keys(before.accepted.list_of(k2)).contains(c) && keys(before.pending.list_of(k2)).contains(
                    c,
                )));
            }
        }
    }

    /// The checks that `add_child` makes before the child's collection is
    /// asked to hand the child to this collection.
    pub fn check_add_child(&self, parent: &TokenId, parent_owner: Option<AccountId>, child: &ChildRef) -> (r: Result<
        (),
        RmrkError,
    >)
        requires
            self.wf(),
        ensures
            r == add_child_check(*self, parent@, parent_owner, child@),
    {
        if parent_owner.is_none() {
            return Err(RmrkError::TokenNotExists);
        }
        if holds_child(&self.accepted, parent, child) {
            return Err(RmrkError::AlreadyAddedChild);
        }
        if holds_child(&self.pending, parent, child) {
            return Err(RmrkError::AddingPendingChild);
        }
        Ok(())
    }

    /// Nest `child` under `parent`. `parent_owner` is the parent's owner as
    /// the ownership registry reports it; `custody` is what the child's
    /// collection answered when asked to hand the child to this collection,
    /// which only the child's owner may have it do. The child is accepted at
    /// once where the caller owns the parent, and pending otherwise. The
    /// checks are made again here, so that calls made while the child's
    /// collection was at work cannot leave the lists inconsistent.
    pub fn add_child(
        &mut self,
        caller: &AccountId,
        parent: TokenId,
        parent_owner: Option<AccountId>,
        child: ChildRef,
        custody: Result<(), RmrkError>,
    ) -> (r: Result<(), RmrkError>)
        requires
            old(self).wf(),
        ensures
            final(self).wf(),
            r == then_custody(add_child_check(*old(self), parent@, parent_owner, child@), custody),
            r is Err ==> *final(self) == *old(self),
            r is Ok ==> child_added(*old(self), *final(self), parent@, child, parent_owner == Some(*caller)),
    {
        self.check_add_child(&parent, parent_owner, &child)?;
        custody?;
        let ghost k = parent@;
        let ghost a = self.accepted.list_of(k);
        let ghost p = self.pending.list_of(k);
        proof {
            assert(keys(a).no_duplicates());
            assert(keys(p).no_duplicates());
            lemma_keys_push(a, child);
            lemma_keys_push(p, child);
            lemma_push_unique(keys(a), child@);
            lemma_push_unique(keys(p), child@);
            assert forall|c: ChildKey| !(keys(a).contains(c) && keys(p).contains(c)) by {
                assert(!(keys(self.accepted.list_of(k)).contains(c) && keys(self.pending.list_of(k)).contains(c)));
            }
        }
        if parent_owner == Some(*caller) {
            self.accepted.push_item(parent, child);
        } else {
            self.pending.push_item(parent, child);
        }
        proof {
            self.lemma_wf_after_change(old(self), k);
        }
        Ok(())
    }

    /// The owner of `parent` takes pending child `child`.
    pub fn accept_child(
        &mut self,
        caller: &AccountId,
        parent: TokenId,
        parent_owner: Option<AccountId>,
        child: ChildRef,
    ) -> (r: Result<(), RmrkError>)
        requires
            old(self).wf(),
        ensures
            final(self).wf(),
            r == pending_step_outcome(*old(self), *caller, parent@, parent_owner, child@),
            r is Err ==> *final(self) == *old(self),
            r is Ok ==> child_accepted(*old(self), *final(self), parent@, child),
    {
        check_owner(caller, parent_owner)?;
        if holds_child(&self.accepted, &parent, &child) {
            return Err(RmrkError::AlreadyAddedChild);
        }
        let i = locate_child(&self.pending, &parent, &child)?;
        let ghost k = parent@;
        let ghost a = self.accepted.list_of(k);
        let ghost p = self.pending.list_of(k);
        proof {
            assert(keys(a).no_duplicates());
            assert(keys(p).no_duplicates());
            assert(keys(p)[i as int] == child@);
            lemma_index_of_unique(keys(p), i as int);
            lemma_keys_remove(p, i as int);
            lemma_remove_unique(keys(p), i as int);
            lemma_keys_push(a, child);
            lemma_push_unique(keys(a), child@);
        }
        self.pending.remove_at(&parent, i);
        self.accepted.push_item(parent, child);
        proof {
            assert forall|c: ChildKey|
                !(keys(self.accepted.list_of(k)).contains(c) && keys(self.pending.list_of(k)).contains(c)) by {
                assert(!(keys(a).contains(c) && keys(p).contains(c)));
            }
            self.lemma_wf_after_change(old(self), k);
        }
        Ok(())
    }

    /// The owner of `parent` turns down pending child `child`. The child
    /// stays in the custody of this collection.
    pub fn reject_child(
        &mut self,
        caller: &AccountId,
        parent: TokenId,
        parent_owner: Option<AccountId>,
        child: &ChildRef,
    ) -> (r: Result<(), RmrkError>)
        requires
            old(self).wf(),
        ensures
            final(self).wf(),
            r == pending_step_outcome(*old(self), *caller, parent@, parent_owner, child@),
            r is Err ==> *final(self) == *old(self),
            r is Ok ==> child_rejected(*old(self), *final(self), parent@, child@),
    {
        check_owner(caller, parent_owner)?;
        if holds_child(&self.accepted, &parent, child) {
            return Err(RmrkError::AlreadyAddedChild);
        }
        let i = locate_child(&self.pending, &parent, child)?;
        let ghost k = parent@;
        let ghost p = self.pending.list_of(k);
        proof {
            assert(keys(p).no_duplicates());
            assert(keys(p)[i as int] == child@);
            lemma_index_of_unique(keys(p), i as int);
            lemma_keys_remove(p, i as int);
            lemma_remove_unique(keys(p), i as int);
        }
        self.pending.remove_at(&parent, i);
        proof {
            assert forall|c: ChildKey|
                !(keys(self.accepted.list_of(k)).contains(c) && keys(self.pending.list_of(k)).contains(c)) by {
                assert(!(keys(self.accepted.list_of(k)).contains(c) && keys(p).contains(c)));
            }
            self.lemma_wf_after_change(old(self), k);
        }
        Ok(())
    }

    /// The checks that `remove_child` makes before the child's collection is
    /// asked to hand the child back; on success, the account that receives
    /// it: the owner of the parent.
    pub fn check_remove_child(
        &self,
        caller: &AccountId,
        parent: &TokenId,
        parent_owner: Option<AccountId>,
        child: &ChildRef,
    ) -> (r: Result<AccountId, RmrkError>)
        requires
            self.wf(),
        ensures
            (match r {
                Ok(_) => Ok(()),
                Err(e) => Err(e),
            }) == remove_child_check(*self, *caller, parent@, parent_owner, child@),
            r matches Ok(to) ==> parent_owner == Some(to),
    {
        check_owner(caller, parent_owner)?;
        locate_child(&self.accepted, parent, child)?;
        Ok(parent_owner.unwrap())
    }

    /// The owner of `parent` takes accepted child `child` out of it.
    /// `custody` is what the child's collection answered when asked to hand
    /// the child to the parent's owner.
    pub fn remove_child(
        &mut self,
        caller: &AccountId,
        parent: TokenId,
        parent_owner: Option<AccountId>,
        child: &ChildRef,
        custody: Result<(), RmrkError>,
    ) -> (r: Result<(), RmrkError>)
        requires
            old(self).wf(),
        ensures
            final(self).wf(),
            r == then_custody(remove_child_check(*old(self), *caller, parent@, parent_owner, child@), custody),
            r is Err ==> *final(self) == *old(self),
            r is Ok ==> child_removed(*old(self), *final(self), parent@, child@),
    {
        check_owner(caller, parent_owner)?;
        let i = locate_child(&self.accepted, &parent, child)?;
        custody?;
        let ghost k = parent@;
        let ghost a = self.accepted.list_of(k);
        proof {
            assert(keys(a).no_duplicates());
            assert(keys(a)[i as int] == child@);
            lemma_index_of_unique(keys(a), i as int);
            lemma_keys_remove(a, i as int);
            lemma_remove_unique(keys(a), i as int);
        }
        self.accepted.remove_at(&parent, i);
        proof {
            assert forall|c: ChildKey|
                !(keys(self.accepted.list_of(k)).contains(c) && keys(self.pending.list_of(k)).contains(c)) by {
                assert(!(keys(a).contains(c) && keys(self.pending.list_of(k)).contains(c)));
            }
            self.lemma_wf_after_change(old(self), k);
        }
        Ok(())
    }

    /// Move accepted child `child` from `current` to `new_parent`, both
    /// tokens of this collection. The caller must own `current`. The child
    /// is accepted at once where both parents have the same owner, and
    /// pending otherwise. The child stays in the custody of this collection.
    pub fn transfer_child(
        &mut self,
        caller: &AccountId,
        current: &TokenId,
        current_owner: Option<AccountId>,
        new_parent: TokenId,
        new_owner: Option<AccountId>,
        child: ChildRef,
    ) -> (r: Result<(), RmrkError>)
        requires
            old(self).wf(),
        ensures
            final(self).wf(),
            r == transfer_child_outcome(
                *old(self),
                *caller,
                current@,
                current_owner,
                new_parent@,
                new_owner,
                child@,
            ),
            r is Err ==> *final(self) == *old(self),
            r is Ok ==> child_transferred(
                *old(self),
                *final(self),
                current@,
                new_parent@,
                child,
                current_owner == new_owner,
            ),
    {
        if current_owner.is_none() || new_owner.is_none() {
            return Err(RmrkError::TokenNotExists);
        }
        check_owner(caller, current_owner)?;
        let i = locate_child(&self.accepted, current, &child)?;
        let same_parent = current.same(&new_parent);
        if !same_parent {
            if holds_child(&self.accepted, &new_parent, &child) {
                return Err(RmrkError::AlreadyAddedChild);
            }
            if holds_child(&self.pending, &new_parent, &child) {
                return Err(RmrkError::AddingPendingChild);
            }
        }
        let ghost k = current@;
        let ghost n = new_parent@;
        let ghost a = self.accepted.list_of(k);
        proof {
            assert(keys(a).no_duplicates());
            assert(keys(a)[i as int] == child@);
            lemma_index_of_unique(keys(a), i as int);
            lemma_keys_remove(a, i as int);
            lemma_remove_unique(keys(a), i as int);
        }
        self.accepted.remove_at(current, i);
        proof {
            assert forall|c: ChildKey|
                !(keys(self.accepted.list_of(k)).contains(c) && keys(self.pending.list_of(k)).contains(c)) by {
                assert(!(keys(a).contains(c) && keys(self.pending.list_of(k)).contains(c)));
            }
            self.lemma_wf_after_change(old(self), k);
        }
        let ghost mid = *self;
        let ghost ma = self.accepted.list_of(n);
        let ghost mp = self.pending.list_of(n);
        proof {
            assert(keys(ma).no_duplicates());
            assert(keys(mp).no_duplicates());
            assert(!keys(ma).contains(child@));
            assert(!keys(mp).contains(child@)) by {
                if n == k {
                    assert(keys(a).contains(child@));
                    assert(!(keys(a).contains(child@) && keys(old(self).pending.list_of(k)).contains(child@)));
                }
            }
            lemma_keys_push(ma, child);
            lemma_keys_push(mp, child);
            lemma_push_unique(keys(ma), child@);
            lemma_push_unique(keys(mp), child@);
            assert forall|c: ChildKey| !(keys(ma).contains(c) && keys(mp).contains(c)) by {
                assert(!(keys(self.accepted.list_of(n)).contains(c) && keys(self.pending.list_of(n)).contains(c)));
            }
        }
        if current_owner == new_owner {
            self.accepted.push_item(new_parent, child);
        } else {
            self.pending.push_item(new_parent, child);
        }
        proof {
            self.lemma_wf_after_change(&mid, n);
        }
        Ok(())
    }

    /// The numbers of accepted and of pending children of `parent`.
    pub fn children_balance(&self, parent: &TokenId, parent_owner: Option<AccountId>) -> (r: Result<
        (u64, u64),
        RmrkError,
    >)
        requires
            self.wf(),
        ensures
            r == (if parent_owner is None {
                Err(RmrkError::TokenNotExists)
            } else {
                Ok((self.accepted_of(parent@).len() as u64, self.pending_of(parent@).len() as u64))
            }),
    {
        if parent_owner.is_none() {
            return Err(RmrkError::TokenNotExists);
        }
        let accepted: u64 = match self.accepted.get(parent) {
            Some(items) => items.len() as u64,
            None => 0,
        };
        let pending: u64 = match self.pending.get(parent) {
            Some(items) => items.len() as u64,
            None => 0,
        };
        Ok((accepted, pending))
    }
}

} // verus!
