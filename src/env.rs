use crate::block::BlockHeader;
use ethereum_types::{Address, U256};
use vstd::prelude::*;

verus! {

/// EVM execution environment: the fixed context of one call frame.
pub struct ExecutionEnv {
    /// The account that owns the code that is executing.
    account: Address,
    /// The sender address of the transaction that originated this execution.
    origin: Address,
    /// The gas price in the transaction that originated this execution.
    gas_price: U256,
    /// The input data to this execution.
    data: Vec<u8>,
    /// The address of the account that caused the code to execute.
    sender: Address,
    /// The value (in Wei) passed to account as part of the same procedure as execution.
    value: U256,
    /// The machine code to be executed.
    machine_code: Vec<u8>,
    /// The block header of the present block.
    header: BlockHeader,
    /// The depth of the present message call or contract creation: the number of CALLs
    /// or CREATE(2)s being executed at present.
    depth: U256,
    /// The permission to make modifications to the state.
    write_access: bool,
}

impl ExecutionEnv {
    /// Creates an execution environment from its parts.
    pub fn new(
        account: Address,
        origin: Address,
        gas_price: U256,
        data: Vec<u8>,
        sender: Address,
        value: U256,
        machine_code: Vec<u8>,
        header: BlockHeader,
        depth: U256,
        write_access: bool,
    ) -> (env: Self)
        ensures
            env.spec_account() == account,
            env.spec_origin() == origin,
            env.spec_gas_price() == gas_price,
            env.spec_data() == data,
            env.spec_sender() == sender,
            env.spec_value() == value,
            env.spec_machine_code() == machine_code,
            env.spec_header() == header,
            env.spec_depth() == depth,
            env.spec_write_access() == write_access,
    {
        ExecutionEnv {
            account,
            origin,
            gas_price,
            data,
            sender,
            value,
            machine_code,
            header,
            depth,
            write_access,
        }
    }

    /// Spec view of the account that owns the code that is executing.
    pub closed spec fn spec_account(&self) -> Address {
        self.account
    }

    /// Spec view of the sender address of the transaction that originated this execution.
    pub closed spec fn spec_origin(&self) -> Address {
        self.origin
    }

    /// Spec view of the gas price in the transaction that originated this execution.
    pub closed spec fn spec_gas_price(&self) -> U256 {
        self.gas_price
    }

    /// Spec view of the input data to this execution.
    pub closed spec fn spec_data(&self) -> Vec<u8> {
        self.data
    }

    /// Spec view of the address of the account that caused the code to execute.
    pub closed spec fn spec_sender(&self) -> Address {
        self.sender
    }

    /// Spec view of the value (in Wei) passed to account as part of the same procedure as execution.
    pub closed spec fn spec_value(&self) -> U256 {
        self.value
    }

    /// Spec view of the machine code to be executed.
    pub closed spec fn spec_machine_code(&self) -> Vec<u8> {
        self.machine_code
    }

    /// Spec view of the block header of the present block.
    pub closed spec fn spec_header(&self) -> BlockHeader {
        self.header
    }

    /// Spec view of the depth of the present message call or contract creation: the number of CALLs
    pub closed spec fn spec_depth(&self) -> U256 {
        self.depth
    }

    /// Spec view of the permission to make modifications to the state.
    pub closed spec fn spec_write_access(&self) -> bool {
        self.write_access
    }

    /// Returns the account that owns the code that is executing.
    pub fn account(&self) -> (r: &Address)
        ensures
            r == self.spec_account(),
    {
        &self.account
    }

    /// Returns the sender address of the transaction that originated this execution.
    pub fn origin(&self) -> (r: &Address)
        ensures
            r == self.spec_origin(),
    {
        &self.origin
    }

    /// Returns the gas price in the transaction that originated this execution.
    pub fn gas_price(&self) -> (r: &U256)
        ensures
            r == self.spec_gas_price(),
    {
        &self.gas_price
    }

    /// Returns the input data to this execution.
    pub fn data(&self) -> (r: &Vec<u8>)
        ensures
            r == self.spec_data(),
    {
        &self.data
    }

    /// Returns the address of the account that caused the code to execute.
    pub fn sender(&self) -> (r: &Address)
        ensures
            r == self.spec_sender(),
    {
        &self.sender
    }

    /// Returns the value (in Wei) passed to account as part of the same procedure as execution.
    pub fn value(&self) -> (r: &U256)
        ensures
            r == self.spec_value(),
    {
        &self.value
    }

    /// Returns the machine code to be executed.
    pub fn machine_code(&self) -> (r: &Vec<u8>)
        ensures
            r == self.spec_machine_code(),
    {
        &self.machine_code
    }

    /// Returns the block header of the present block.
    pub fn header(&self) -> (r: &BlockHeader)
        ensures
            r == self.spec_header(),
    {
        &self.header
    }

    /// Returns the depth of the present message call or contract creation: the number of CALLs
    /// or CREATE(2)s being executed at present.
    pub fn depth(&self) -> (r: &U256)
        ensures
            r == self.spec_depth(),
    {
        &self.depth
    }

    /// Returns the permission to make modifications to the state.
    pub fn write_access(&self) -> (r: bool)
        ensures
            r == self.spec_write_access(),
    {
        self.write_access
    }
}

} // verus!
