use crate::log::Log;
use ethereum_types::{Bloom, U256};
use vstd::prelude::*;

verus! {

/// An Ethereum transaction receipt.
pub struct Receipt {
    /// Status code of the transaction.
    pub status_code: U256,
    /// Cumulative gas used in the block containing the transaction receipt as of
    /// the completion of the execution of the transaction.
    pub cumulative_gas_used: U256,
    /// Set of logs created through the execution of the transaction.
    pub logs: Vec<Log>,
    /// Bloom filter composed from information in `logs`.
    pub logs_bloom: Bloom,
}

} // verus!
