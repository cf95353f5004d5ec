use ethereum_types::{Address, U256};
use vstd::prelude::*;

verus! {

/// An Ethereum transaction.
pub struct Transaction {
    nonce: U256,
    gas_price: U256,
    gas_limit: U256,
    to: Option<Address>,
    value: U256,
    v: U256,
    r: U256,
    s: U256,
    init: Option<Vec<u8>>,
    data: Option<Vec<u8>>,
}

impl Transaction {
    /// Creates a transaction from its fields.
    pub fn new(
        nonce: U256,
        gas_price: U256,
        gas_limit: U256,
        to: Option<Address>,
        value: U256,
        v: U256,
        r: U256,
        s: U256,
        init: Option<Vec<u8>>,
        data: Option<Vec<u8>>,
    ) -> (tx: Self)
        ensures
            tx.spec_nonce() == nonce,
            tx.spec_gas_price() == gas_price,
            tx.spec_gas_limit() == gas_limit,
            tx.spec_to() == to,
            tx.spec_value() == value,
            tx.spec_v() == v,
            tx.spec_r() == r,
            tx.spec_s() == s,
            tx.spec_init() == init,
            tx.spec_data() == data,
    {
        Transaction { nonce, gas_price, gas_limit, to, value, v, r, s, init, data }
    }

    /// The nonce of the sender.
    pub closed spec fn spec_nonce(&self) -> U256 {
        self.nonce
    }

    /// Price of a unit of gas, in Wei.
    pub closed spec fn spec_gas_price(&self) -> U256 {
        self.gas_price
    }

    /// Most gas that the transaction may use.
    pub closed spec fn spec_gas_limit(&self) -> U256 {
        self.gas_limit
    }

    /// Recipient; none for a contract creation.
    pub closed spec fn spec_to(&self) -> Option<Address> {
        self.to
    }

    /// Wei transferred.
    pub closed spec fn spec_value(&self) -> U256 {
        self.value
    }

    /// Signature recovery value.
    pub closed spec fn spec_v(&self) -> U256 {
        self.v
    }

    /// Signature value r.
    pub closed spec fn spec_r(&self) -> U256 {
        self.r
    }

    /// Signature value s.
    pub closed spec fn spec_s(&self) -> U256 {
        self.s
    }

    /// Initialisation code of a contract creation.
    pub closed spec fn spec_init(&self) -> Option<Vec<u8>> {
        self.init
    }

    /// Input data of a message call.
    pub closed spec fn spec_data(&self) -> Option<Vec<u8>> {
        self.data
    }

    /// Returns: the nonce of the sender.
    pub fn nonce(&self) -> (r: U256)
        ensures
            r == self.spec_nonce(),
    {
        self.nonce
    }

    /// Returns: price of a unit of gas, in Wei.
    pub fn gas_price(&self) -> (r: U256)
        ensures
            r == self.spec_gas_price(),
    {
        self.gas_price
    }

    /// Returns: most gas that the transaction may use.
    pub fn gas_limit(&self) -> (r: U256)
        ensures
            r == self.spec_gas_limit(),
    {
        self.gas_limit
    }

    /// Returns: recipient; none for a contract creation.
    pub fn to(&self) -> (r: &Option<Address>)
        ensures
            r == self.spec_to(),
    {
        &self.to
    }

    /// Returns: wei transferred.
    pub fn value(&self) -> (r: U256)
        ensures
            r == self.spec_value(),
    {
        self.value
    }

    /// Returns: signature recovery value.
    pub fn v(&self) -> (r: U256)
        ensures
            r == self.spec_v(),
    {
        self.v
    }

    /// Returns: signature value r.
    pub fn r(&self) -> (r: U256)
        ensures
            r == self.spec_r(),
    {
        self.r
    }

    /// Returns: signature value s.
    pub fn s(&self) -> (r: U256)
        ensures
            r == self.spec_s(),
    {
        self.s
    }

    /// Returns: initialisation code of a contract creation.
    pub fn init(&self) -> (r: &Option<Vec<u8>>)
        ensures
            r == self.spec_init(),
    {
        &self.init
    }

    /// Returns: input data of a message call.
    pub fn data(&self) -> (r: &Option<Vec<u8>>)
        ensures
            r == self.spec_data(),
    {
        &self.data
    }
}

} // verus!
