use crate::primitives::{empty_code_hash, is_zero_word, keccak_empty_bytes, same_hash};
use ethereum_types::{H256, U256};
use vstd::prelude::*;

verus! {

/// An Ethereum account.
pub struct Account {
    /// The number of transactions sent from this account (non-contract) or the number
    /// of contract creations made by this account.
    pub nonce: U256,
    /// The number of Wei owned by this account.
    pub balance: U256,
    /// Hash of the root node of a Merkle Patricia tree that encodes the storages contents
    /// of this account.
    pub storage_root: H256,
    /// Hash of the EVM code of this account.
    pub code_hash: H256,
}

impl Account {
    /// Whether the account holds code: its code hash is not the hash of empty code.
    pub open spec fn spec_is_contract(&self) -> bool {
        self.code_hash.0@ != keccak_empty_bytes()
    }

    /// Whether the account is empty: zero nonce, zero balance and no code.
    pub open spec fn spec_is_empty(&self) -> bool {
        is_zero_word(self.nonce) && is_zero_word(self.balance) && self.code_hash.0@
            == keccak_empty_bytes()
    }

    /// Returns whether this account is a contract account.
    pub fn is_contract(&self) -> (r: bool)
        ensures
            r == self.spec_is_contract(),
    {
        let empty = empty_code_hash();
        !same_hash(&self.code_hash, &empty)
    }

    /// Returns whether this account is empty.
    pub fn is_empty(&self) -> (r: bool)
        ensures
            r == self.spec_is_empty(),
    {
        let empty = empty_code_hash();
        self.nonce.is_zero() && self.balance.is_zero() && same_hash(&self.code_hash, &empty)
    }
}

} // verus!
