use crate::memory::Memory;
use crate::stack::Stack;
use vstd::prelude::*;

verus! {

/// EVM machine state: what one call frame changes as it runs.
pub struct MachineState {
    /// Gas available.
    pub gas_available: u64,
    /// Program counter: an index into the code.
    pub program_counter: usize,
    /// Memory contents.
    pub memory: Memory,
    /// Stack contents.
    pub stack: Stack,
}

impl MachineState {
    /// Stack and memory keep their invariants.
    pub open spec fn wf(&self) -> bool {
        self.stack.wf() && self.memory.wf()
    }

    /// Returns a new machine state with no gas.
    pub fn new() -> (r: Self)
        ensures
            r.wf(),
            r.gas_available == 0,
            r.program_counter == 0,
            r.memory@ == Seq::<u8>::empty(),
            r.stack@ == Seq::<ethereum_types::U256>::empty(),
    {
        Self::with_gas(0)
    }

    /// Returns a new machine state at the start of the code with `gas` available.
    pub fn with_gas(gas: u64) -> (r: Self)
        ensures
            r.wf(),
            r.gas_available == gas,
            r.program_counter == 0,
            r.memory@ == Seq::<u8>::empty(),
            r.stack@ == Seq::<ethereum_types::U256>::empty(),
    {
        MachineState {
            gas_available: gas,
            program_counter: 0,
            memory: Memory::new(),
            stack: Stack::new(),
        }
    }

    /// Returns available gas.
    pub fn gas_available(&self) -> (r: u64)
        ensures
            r == self.gas_available,
    {
        self.gas_available
    }

    /// Returns program counter.
    pub fn program_counter(&self) -> (r: usize)
        ensures
            r == self.program_counter,
    {
        self.program_counter
    }

    /// Returns memory.
    pub fn memory(&self) -> (r: &Memory)
        ensures
            r == self.memory,
    {
        &self.memory
    }

    /// Returns the active number of words in memory.
    pub fn words_in_memory(&self) -> (r: usize)
        requires
            self.wf(),
        ensures
            r == self.memory.words(),
    {
        self.memory.active_words()
    }

    /// Returns stack.
    pub fn stack(&self) -> (r: &Stack)
        ensures
            r == self.stack,
    {
        &self.stack
    }
}

} // verus!
