//! Supply and price rules of minting: which token ids a mint may take and
//! what it must be paid. Writing the new tokens into the ownership registry
//! is left to the caller.
use crate::types::RmrkError;
use vstd::prelude::*;

verus! {

/// The minting state of a collection.
#[derive(Debug)]
pub struct MintingData {
    /// The id of the last token minted; ids start at 1.
    pub last_token_id: u64,
    /// The most tokens the collection may hold.
    pub max_supply: u64,
    /// What one token costs.
    pub price_per_mint: u128,
}

impl MintingData {
    /// A collection with no token minted yet.
    pub fn new(max_supply: u64, price_per_mint: u128) -> (r: MintingData)
        ensures
            r.last_token_id == 0,
            r.max_supply == max_supply,
            r.price_per_mint == price_per_mint,
    {
        MintingData { last_token_id: 0, max_supply, price_per_mint }
    }

    /// The most tokens the collection may hold.
    pub fn max_supply(&self) -> (r: u64)
        ensures
            r == self.max_supply,
    {
        self.max_supply
    }

    /// What one token costs.
    pub fn price(&self) -> (r: u128)
        ensures
            r == self.price_per_mint,
    {
        self.price_per_mint
    }

    /// Whether `transferred_value` pays exactly for `mint_amount` tokens; a
    /// price that does not fit in 128 bits is never paid.
    pub fn _check_value(&self, transferred_value: u128, mint_amount: u64) -> (r: Result<(), RmrkError>)
        ensures
            r == self._check_value_spec(transferred_value, mint_amount),
    {
        match (mint_amount as u128).checked_mul(self.price_per_mint) {
            Some(value) => {
                if transferred_value == value {
                    Ok(())
                } else {
                    Err(RmrkError::BadMintValue)
                }
            },
            None => Err(RmrkError::BadMintValue),
        }
    }

    /// Whether `mint_amount` more tokens fit in the supply.
    pub fn _check_amount(&self, mint_amount: u64) -> (r: Result<(), RmrkError>)
        ensures
            r == (if mint_amount == 0 {
                Err(RmrkError::CannotMintZeroTokens)
            } else if self.last_token_id + mint_amount <= self.max_supply {
                Ok(())
            } else {
                Err(RmrkError::CollectionIsFull)
            }),
    {
        if mint_amount == 0 {
            return Err(RmrkError::CannotMintZeroTokens);
        }
        match self.last_token_id.checked_add(mint_amount) {
            Some(amount) => {
                if amount <= self.max_supply {
                    Ok(())
                } else {
                    Err(RmrkError::CollectionIsFull)
                }
            },
            None => Err(RmrkError::CollectionIsFull),
        }
    }

    /// Take the next token id for a mint of one token paid with
    /// `transferred_value`, and return it.
    pub fn mint_next(&mut self, transferred_value: u128) -> (r: Result<u64, RmrkError>)
        ensures
            r == (if old(self)._check_value_spec(transferred_value, 1) is Err {
                Err(RmrkError::BadMintValue)
            } else if old(self).last_token_id == u64::MAX {
                Err(RmrkError::CollectionIsFull)
            } else {
                Ok((old(self).last_token_id + 1) as u64)
            }),
            r is Ok ==> final(self).last_token_id == old(self).last_token_id + 1,
            r is Err ==> final(self).last_token_id == old(self).last_token_id,
            final(self).max_supply == old(self).max_supply,
            final(self).price_per_mint == old(self).price_per_mint,
    {
        self._check_value(transferred_value, 1)?;
        let token_id = match self.last_token_id.checked_add(1) {
            Some(id) => id,
            None => {
                return Err(RmrkError::CollectionIsFull);
            },
        };
        self.last_token_id = token_id;
        Ok(token_id)
    }

    /// Take the ids for a mint of `mint_amount` tokens paid with
    /// `transferred_value`, and return the first and the last of them.
    pub fn mint(&mut self, transferred_value: u128, mint_amount: u64) -> (r: Result<(u64, u64), RmrkError>)
        ensures
            r == (if old(self)._check_value_spec(transferred_value, mint_amount) is Err {
                Err(RmrkError::BadMintValue)
            } else if mint_amount == 0 {
                Err(RmrkError::CannotMintZeroTokens)
            } else if old(self).last_token_id + mint_amount > old(self).max_supply {
                Err(RmrkError::CollectionIsFull)
            } else {
                Ok(((old(self).last_token_id + 1) as u64, (old(self).last_token_id + mint_amount) as u64))
            }),
            r is Ok ==> final(self).last_token_id == old(self).last_token_id + mint_amount,
            r is Err ==> final(self).last_token_id == old(self).last_token_id,
            final(self).max_supply == old(self).max_supply,
            final(self).price_per_mint == old(self).price_per_mint,
    {
        self._check_value(transferred_value, mint_amount)?;
        self._check_amount(mint_amount)?;
        let first = self.last_token_id + 1;
        let last = self.last_token_id + mint_amount;
        self.last_token_id = last;
        Ok((first, last))
    }

    /// What `_check_value` returns.
    pub open spec fn _check_value_spec(&self, transferred_value: u128, mint_amount: u64) -> Result<(), RmrkError> {
        if mint_amount * self.price_per_mint <= u128::MAX && transferred_value == mint_amount * self.price_per_mint {
            Ok(())
        } else {
            Err(RmrkError::BadMintValue)
        }
    }
}

} // verus!
