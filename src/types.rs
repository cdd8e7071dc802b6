//! Identifiers shared by the ledgers, and the error type of the library.
use vstd::prelude::*;

verus! {

/// Account of a user or of a contract (a collection), as 32 raw bytes.
#[derive(Clone, Copy, Debug)]
pub struct AccountId(pub [u8; 32]);

impl PartialEq for AccountId {
    fn eq(&self, o: &AccountId) -> (r: bool) {
        let mut i: usize = 0;
        while i < 32
            invariant
                0 <= i <= 32,
                forall|j: int| 0 <= j < i ==> self.0@[j] == o.0@[j],
            decreases 32 - i,
        {
            if self.0[i] != o.0[i] {
                return false;
            }
            i = i + 1;
        }
        assert(self.0 =~= o.0);
        true
    }
}

impl vstd::std_specs::cmp::PartialEqSpecImpl for AccountId {
    open spec fn obeys_eq_spec() -> bool {
        true
    }

    open spec fn eq_spec(&self, o: &AccountId) -> bool {
        *self == *o
    }
}

impl Eq for AccountId {}

/// Identifier of a token inside one collection, in any of the forms that a
/// collection may use.
#[derive(Clone, Debug)]
pub enum TokenId {
    U8(u8),
    U16(u16),
    U32(u32),
    U64(u64),
    U128(u128),
    Bytes(Vec<u8>),
}

/// Mathematical value of a token identifier.
pub enum TokenKey {
    U8(u8),
    U16(u16),
    U32(u32),
    U64(u64),
    U128(u128),
    Bytes(Seq<u8>),
}

impl View for TokenId {
    type V = TokenKey;

    open spec fn view(&self) -> TokenKey {
        match self {
            TokenId::U8(n) => TokenKey::U8(*n),
            TokenId::U16(n) => TokenKey::U16(*n),
            TokenId::U32(n) => TokenKey::U32(*n),
            TokenId::U64(n) => TokenKey::U64(*n),
            TokenId::U128(n) => TokenKey::U128(*n),
            TokenId::Bytes(b) => TokenKey::Bytes(b@),
        }
    }
}

fn same_bytes(a: &Vec<u8>, b: &Vec<u8>) -> (r: bool)
    ensures
        r == (a@ == b@),
{
    if a.len() != b.len() {
        return false;
    }
    let mut i: usize = 0;
    while i < a.len()
        invariant
            a.len() == b.len(),
            0 <= i <= a.len(),
            forall|j: int| 0 <= j < i ==> a@[j] == b@[j],
        decreases a.len() - i,
    {
        if a[i] != b[i] {
            return false;
        }
        i = i + 1;
    }
    assert(a@ =~= b@);
    true
}

impl TokenId {
    /// Whether two identifiers denote the same token.
    pub fn same(&self, o: &TokenId) -> (r: bool)
        ensures
            r == (self@ == o@),
    {
        match (self, o) {
            (TokenId::U8(a), TokenId::U8(b)) => *a == *b,
            (TokenId::U16(a), TokenId::U16(b)) => *a == *b,
            (TokenId::U32(a), TokenId::U32(b)) => *a == *b,
            (TokenId::U64(a), TokenId::U64(b)) => *a == *b,
            (TokenId::U128(a), TokenId::U128(b)) => *a == *b,
            (TokenId::Bytes(a), TokenId::Bytes(b)) => same_bytes(a, b),
            _ => false,
        }
    }

    /// A copy of this identifier.
    pub fn duplicate(&self) -> (r: TokenId)
        ensures
            r@ == self@,
    {
        match self {
            TokenId::U8(n) => TokenId::U8(*n),
            TokenId::U16(n) => TokenId::U16(*n),
            TokenId::U32(n) => TokenId::U32(*n),
            TokenId::U64(n) => TokenId::U64(*n),
            TokenId::U128(n) => TokenId::U128(*n),
            TokenId::Bytes(b) => {
                let c = b.clone();
                assert(c@ =~= b@);
                TokenId::Bytes(c)
            },
        }
    }
}

impl PartialEq for TokenId {
    fn eq(&self, o: &TokenId) -> (r: bool) {
        self.same(o)
    }
}

impl vstd::std_specs::cmp::PartialEqSpecImpl for TokenId {
    open spec fn obeys_eq_spec() -> bool {
        false
    }

    open spec fn eq_spec(&self, o: &TokenId) -> bool {
        self@ == o@
    }
}

/// A token of some collection, named by that collection's account and the
/// token's identifier there.
#[derive(Clone, Debug)]
pub struct ChildRef {
    pub collection: AccountId,
    pub token: TokenId,
}

/// Mathematical value of a child reference.
pub struct ChildKey {
    pub collection: AccountId,
    pub token: TokenKey,
}

impl View for ChildRef {
    type V = ChildKey;

    open spec fn view(&self) -> ChildKey {
        ChildKey { collection: self.collection, token: self.token@ }
    }
}

impl ChildRef {
    /// Whether two references denote the same token.
    pub fn same(&self, o: &ChildRef) -> (r: bool)
        ensures
            r == (self@ == o@),
    {
        self.collection == o.collection && self.token.same(&o.token)
    }

    /// A copy of this reference.
    pub fn duplicate(&self) -> (r: ChildRef)
        ensures
            r@ == self@,
    {
        ChildRef { collection: self.collection, token: self.token.duplicate() }
    }
}

impl PartialEq for ChildRef {
    fn eq(&self, o: &ChildRef) -> (r: bool) {
        self.same(o)
    }
}

impl vstd::std_specs::cmp::PartialEqSpecImpl for ChildRef {
    open spec fn obeys_eq_spec() -> bool {
        false
    }

    open spec fn eq_spec(&self, o: &ChildRef) -> bool {
        self@ == o@
    }
}

pub type CollectionId = AccountId;

pub type AssetId = u32;

pub type PartId = u32;

pub type BaseId = u32;

pub type EquippableGroupId = u32;

/// Why an operation was refused. Every refused operation leaves the ledgers
/// as they were.
#[derive(Clone, Copy, Debug, PartialEq, Eq, Structural)]
pub enum RmrkError {
    /// The token is not known to the ownership registry.
    TokenNotExists,
    /// The caller is not the owner of the collection.
    CallerIsNotOwner,
    /// The caller is not the owner of the token concerned.
    NotAuthorised,
    /// The child is already accepted by the parent.
    AlreadyAddedChild,
    /// The child is already pending on the parent.
    AddingPendingChild,
    /// The parent has no list of children of the status concerned.
    InvalidParentId,
    /// The child is not in the parent's list of the status concerned.
    ChildNotFound,
    /// The asset id is already in the catalog.
    AssetIdAlreadyExists,
    /// The asset id is not in the catalog, or not in the token's list of
    /// the status concerned.
    AssetIdNotFound,
    /// The asset is already accepted on the token.
    AlreadyAddedAsset,
    /// The asset is already pending on the token.
    AddingPendingAsset,
    /// The token has no list of assets of the status concerned.
    InvalidAssetId,
    /// The asset is not in the token's list of the status concerned.
    InvalidTokenId,
    /// A priority list that is not an ordering of the accepted assets.
    BadPriorityLength,
    /// A fixed part that carries equip data.
    BadConfig,
    /// The part is not a slot.
    PartIsNotSlot,
    /// No part has this id.
    UnknownPartId,
    /// The collection has no token id left to assign.
    CollectionIsFull,
    /// The value paid does not match the price of the tokens asked for.
    BadMintValue,
    /// A mint of no tokens.
    CannotMintZeroTokens,
    /// The collection of a child refused to move the child.
    ChildTransferFailed,
}

/// Whether `caller` is the owner that the registry reported.
pub(crate) fn check_owner(caller: &AccountId, owner: Option<AccountId>) -> (r: Result<(), RmrkError>)
    ensures
        r == (if owner is None {
            Err(RmrkError::TokenNotExists)
        } else if owner != Some(*caller) {
            Err(RmrkError::NotAuthorised)
        } else {
            Ok(())
        }),
{
    match owner {
        None => Err(RmrkError::TokenNotExists),
        Some(o) => {
            if o == *caller {
                Ok(())
            } else {
                Err(RmrkError::NotAuthorised)
            }
        },
    }
}

} // verus!
