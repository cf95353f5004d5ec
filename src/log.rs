use ethereum_types::{Address, H256};
use vstd::prelude::*;

verus! {

/// An Ethereum transaction log entry.
pub struct Log {
    /// Address of the logger.
    pub address: Address,
    /// Log topics.
    pub topics: Vec<H256>,
    /// Data.
    pub data: Vec<u8>,
}

} // verus!
