use crate::transaction::Transaction;
use ethereum_types::{Address, Bloom, H256, U256, U64};
use vstd::prelude::*;

verus! {

/// An Ethereum block header.
pub struct BlockHeader {
    pub parent_hash: H256,
    pub ommers_hash: H256,
    pub beneficiary: Address,
    pub state_root: H256,
    pub transactions_root: H256,
    pub receipts_root: H256,
    pub logs_bloom: Bloom,
    pub difficulty: U256,
    pub number: U256,
    pub gas_limit: U256,
    pub gas_used: U256,
    pub timestamp: U256,
    pub extra_data: Option<[u8; 32]>,
    pub mix_hash: H256,
    pub nonce: U64,
}

/// An Ethereum block.
pub struct Block {
    pub header: BlockHeader,
    pub ommers: Vec<BlockHeader>,
    pub transactions: Vec<Transaction>,
}

} // verus!
