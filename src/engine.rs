use crate::env::ExecutionEnv;
use crate::instruction::{is_assigned, stack_alpha, stack_delta, Instruction};
use crate::machine::MachineState;
use crate::memory::{grown, grown_words, within_limit, MEMORY_LIMIT};
use crate::primitives::{is_zero_word, keccak, keccak_of, word_value};
use crate::stack::MAX_LEN;
use crate::storage::{slot_value, Storage};
use crate::substate::{inserted, log_model, AccruedSubstate, LogModel, SubstateModel};
use crate::word;
use crate::word::{
    be_bytes, be_value, bit_len, div, div_value, eq, gt, iszero, lt, mod_value, rem, sdiv, sdiv_value, signed,
    shl_value, shr_value, smod_value, word_from_bytes, word_from_u64, word_to_bytes, word_to_index,
    word_with, wrap,
};
use crate::log::Log;
use ethereum_types::{H256, U256};
use vstd::arithmetic::power::pow;
use vstd::prelude::*;

verus! {

/// Why a frame halted exceptionally.
#[derive(Debug, PartialEq, Eq, Structural, Clone, Copy)]
pub enum Halt {
    StackUnderflow,
    StackOverflow,
    OutOfGas,
    InvalidInstruction,
    InvalidJump,
    WriteProtection,
    MemoryLimit,
    /// An instruction that needs collaborators this engine does not have: other accounts
    /// and their balances and code, block hashes, the chain id, the return data of nested
    /// calls, and a nested frame for a call or create below the depth limit.
    Unsupported,
}

/// What one step leaves the frame in.
#[derive(Debug, PartialEq, Eq)]
pub enum Outcome {
    Running,
    Success(Vec<u8>),
    Revert(Vec<u8>),
    Exception(Halt),
}

/// Number of immediate bytes after opcode `op`.
pub open spec fn push_len(op: u8) -> nat {
    if 0x60 <= op <= 0x7f {
        (op - 0x5f) as nat
    } else {
        0
    }
}

/// The `n` immediate bytes after position `pc`, zero past the end of the code.
pub open spec fn immediate(code: Seq<u8>, pc: int, n: nat) -> Seq<u8> {
    Seq::new(n, |i: int| if pc + 1 + i < code.len() { code[pc + 1 + i] } else { 0u8 })
}

/// Whether walking the code instruction by instruction from `pos` lands on `target` and
/// finds a JUMPDEST there.
pub open spec fn jumpdest_from(code: Seq<u8>, pos: nat, target: nat) -> bool
    decreases target - pos,
{
    if pos >= target {
        pos == target && target < code.len() && code[target as int] == 0x5b
    } else if pos >= code.len() {
        false
    } else if pos + 1 + push_len(code[pos as int]) > target {
        false
    } else {
        jumpdest_from(code, pos + 1 + push_len(code[pos as int]), target)
    }
}

/// Whether `target` is a valid jump destination: a JUMPDEST opcode, not push data.
pub open spec fn is_jumpdest(code: Seq<u8>, target: nat) -> bool {
    jumpdest_from(code, 0, target)
}

/// Gas of memory of `w` words: 3 per word plus a quadratic term.
pub open spec fn mem_cost(w: nat) -> nat {
    3 * w + w * w / 512
}

/// Static gas of the arithmetic and comparison instructions.
pub open spec fn binary_gas(op: u8) -> nat {
    if op == 0x01 || op == 0x03 || (0x10 <= op <= 0x13) || (0x1a <= op <= 0x1d) {
        3
    } else {
        5
    }
}

/// Whether `op` is an arithmetic or comparison instruction on two words with a value result.
pub open spec fn is_binary(op: u8) -> bool {
    op == 0x01 || op == 0x02 || op == 0x03 || op == 0x04 || op == 0x05 || op == 0x06 || op
        == 0x07 || op == 0x0b || op == 0x10 || op == 0x11 || op == 0x12 || op == 0x13 || op == 0x1a || op == 0x1b
        || op == 0x1c || op == 0x1d
}

/// Result value of a binary instruction `op` on top `a` and second `b`.
pub open spec fn binary_value(op: u8, a: nat, b: nat) -> nat {
    if op == 0x01 {
        wrap(a + b as int)
    } else if op == 0x02 {
        wrap(a * b as int)
    } else if op == 0x03 {
        wrap(a - b)
    } else if op == 0x04 {
        div_value(a, b)
    } else if op == 0x05 {
        sdiv_value(a, b)
    } else if op == 0x06 {
        mod_value(a, b)
    } else if op == 0x07 {
        smod_value(a, b)
    } else if op == 0x0b {
        word::signextend_value(a, b)
    } else if op == 0x10 {
        if a < b {
            1
        } else {
            0
        }
    } else if op == 0x11 {
        if a > b {
            1
        } else {
            0
        }
    } else if op == 0x12 {
        if signed(a) < signed(b) {
            1
        } else {
            0
        }
    } else if op == 0x1a {
        word::byte_value(a, b)
    } else if op == 0x1b {
        shl_value(a, b)
    } else if op == 0x1c {
        shr_value(a, b)
    } else if op == 0x1d {
        word::sar_value(a, b)
    } else {
        if signed(a) > signed(b) {
            1
        } else {
            0
        }
    }
}

/// The opcode at the program counter.
pub open spec fn current_op(env: &ExecutionEnv, m: &MachineState) -> u8 {
    env.spec_machine_code()@[m.program_counter as int]
}

/// A frame's machine state as plain values.
pub struct Frame {
    pub gas: nat,
    pub pc: nat,
    pub stack: Seq<U256>,
    pub memory: Seq<u8>,
}

/// What a step reads and changes: the frame, the substate and the storage writes.
pub struct World {
    pub frame: Frame,
    pub sub: SubstateModel,
    pub storage: Seq<(U256, U256)>,
}

/// A step's outcome as plain values.
pub enum StepEnd {
    Running,
    Success(Seq<u8>),
    Revert(Seq<u8>),
    Exception(Halt),
}

/// The plain values of a machine state.
pub open spec fn frame_of(m: &MachineState) -> Frame {
    Frame {
        gas: m.gas_available as nat,
        pc: m.program_counter as nat,
        stack: m.stack@,
        memory: m.memory@,
    }
}

/// The plain values of machine state, substate and storage.
pub open spec fn world_of(m: &MachineState, sub: &AccruedSubstate, st: &Storage) -> World {
    World { frame: frame_of(m), sub: sub.model(), storage: st@ }
}

/// The plain values of an outcome.
pub open spec fn end_of(r: &Outcome) -> StepEnd {
    match r {
        Outcome::Running => StepEnd::Running,
        Outcome::Success(d) => StepEnd::Success(d@),
        Outcome::Revert(d) => StepEnd::Revert(d@),
        Outcome::Exception(h) => StepEnd::Exception(*h),
    }
}

/// An exceptional halt: all gas is forfeit, nothing else changes.
pub open spec fn halt(h: Halt, f: Frame) -> (StepEnd, Frame) {
    (StepEnd::Exception(h), Frame { gas: 0, ..f })
}

/// A running step that took `cost` gas and left `stack` and `memory`, moving to `pc`.
pub open spec fn ran(f: Frame, cost: nat, pc: nat, stack: Seq<U256>, memory: Seq<u8>) -> (
    StepEnd,
    Frame,
) {
    (StepEnd::Running, Frame { gas: (f.gas - cost) as nat, pc, stack, memory })
}

/// The value of the stack item `i` places below the top.
pub open spec fn item(f: Frame, i: int) -> nat {
    word_value(f.stack[f.stack.len() - 1 - i])
}

/// The value of four limbs, least significant first.
pub open spec fn limbs_value(a: u64, b: u64, c: u64, d: u64) -> nat {
    a as nat + b as nat * vstd::arithmetic::power2::pow2(64) + c as nat
        * vstd::arithmetic::power2::pow2(128) + d as nat * vstd::arithmetic::power2::pow2(192)
}

/// Result value of EQ, ISZERO, AND, OR, XOR and NOT on top `a` and second `b`.
pub open spec fn logic_value(op: u8, a: U256, b: U256) -> nat {
    if op == 0x14 {
        if a == b {
            1
        } else {
            0
        }
    } else if op == 0x15 {
        if is_zero_word(a) {
            1
        } else {
            0
        }
    } else if op == 0x16 {
        limbs_value(a.0[0] & b.0[0], a.0[1] & b.0[1], a.0[2] & b.0[2], a.0[3] & b.0[3])
    } else if op == 0x17 {
        limbs_value(a.0[0] | b.0[0], a.0[1] | b.0[1], a.0[2] | b.0[2], a.0[3] | b.0[3])
    } else if op == 0x18 {
        limbs_value(a.0[0] ^ b.0[0], a.0[1] ^ b.0[1], a.0[2] ^ b.0[2], a.0[3] ^ b.0[3])
    } else {
        (crate::primitives::word_modulus() - 1 - word_value(a)) as nat
    }
}

/// Whether a memory range given by offset and size words stays within `MEMORY_LIMIT`.
pub open spec fn range_ok(offset: nat, size: nat) -> bool {
    size == 0 || offset + size <= MEMORY_LIMIT
}

/// Gas of growing memory `mem` for `len` bytes at `offset`.
pub open spec fn growth_gas(mem: Seq<u8>, offset: nat, len: nat) -> nat {
    if len == 0 {
        0
    } else {
        (mem_cost(grown_words(mem.len() / 32, offset as int, len as int)) - mem_cost(
            mem.len() / 32,
        )) as nat
    }
}

/// Memory `mem` grown for `len` bytes at `offset`; unchanged for no bytes.
pub open spec fn grown_for(mem: Seq<u8>, offset: nat, len: nat) -> Seq<u8> {
    if len == 0 {
        mem
    } else {
        grown(mem, offset as int, len as int)
    }
}

/// The effect of a PUSH.
pub open spec fn push_effect(code: Seq<u8>, f: Frame, op: u8) -> (StepEnd, Frame) {
    if f.gas < 3 {
        halt(Halt::OutOfGas, f)
    } else {
        ran(
            f,
            3,
            if f.pc + 1 + push_len(op) <= usize::MAX {
                f.pc + 1 + push_len(op)
            } else {
                code.len()
            },
            f.stack.push(word_with(be_value(immediate(code, f.pc as int, push_len(op))))),
            f.memory,
        )
    }
}

/// The effect of an arithmetic, comparison or shift instruction on two words.
pub open spec fn binary_effect(f: Frame, op: u8) -> (StepEnd, Frame) {
    if f.gas < binary_gas(op) {
        halt(Halt::OutOfGas, f)
    } else {
        ran(
            f,
            binary_gas(op),
            f.pc + 1,
            f.stack.drop_last().drop_last().push(word_with(binary_value(op, item(f, 0), item(f, 1)))),
            f.memory,
        )
    }
}

/// The effect of EQ, ISZERO, AND, OR, XOR and NOT.
pub open spec fn logic_effect(f: Frame, op: u8) -> (StepEnd, Frame) {
    let s = f.stack;
    if f.gas < 3 {
        halt(Halt::OutOfGas, f)
    } else if op == 0x15 || op == 0x19 {
        ran(f, 3, f.pc + 1, s.drop_last().push(word_with(logic_value(op, s.last(), s.last()))), f.memory)
    } else {
        ran(
            f,
            3,
            f.pc + 1,
            s.drop_last().drop_last().push(word_with(logic_value(op, s.last(), s[s.len() - 2]))),
            f.memory,
        )
    }
}

/// The effect of a context instruction.
pub open spec fn context_effect(env: &ExecutionEnv, f: Frame, op: u8) -> (StepEnd, Frame) {
    if f.gas < 2 {
        halt(Halt::OutOfGas, f)
    } else {
        ran(f, 2, f.pc + 1, f.stack.push(word_with(context_value(op, env, f))), f.memory)
    }
}

/// The effect of CALLDATALOAD.
pub open spec fn calldataload_effect(env: &ExecutionEnv, f: Frame) -> (StepEnd, Frame) {
    if f.gas < 3 {
        halt(Halt::OutOfGas, f)
    } else {
        ran(
            f,
            3,
            f.pc + 1,
            f.stack.drop_last().push(word_with(be_value(data_word(env.spec_data()@, item(f, 0))))),
            f.memory,
        )
    }
}

/// Gas of POP, JUMPDEST, DUP and SWAP.
pub open spec fn shuffle_gas(op: u8) -> nat {
    if op == 0x50 {
        2
    } else if op == 0x5b {
        1
    } else {
        3
    }
}

/// The effect of POP, JUMPDEST, DUP and SWAP.
pub open spec fn shuffle_effect(f: Frame, op: u8) -> (StepEnd, Frame) {
    let s = f.stack;
    if f.gas < shuffle_gas(op) {
        halt(Halt::OutOfGas, f)
    } else {
        ran(
            f,
            shuffle_gas(op),
            f.pc + 1,
            if op == 0x50 {
                s.drop_last()
            } else if op == 0x5b {
                s
            } else if op <= 0x8f {
                s.push(s[s.len() - (op - 0x7f)])
            } else {
                crate::stack::swapped(s, op - 0x8f)
            },
            f.memory,
        )
    }
}

/// The effect of MLOAD, MSTORE and MSTORE8.
pub open spec fn memory_effect(f: Frame, op: u8) -> (StepEnd, Frame) {
    let len: nat = if op == 0x53 {
        1
    } else {
        32
    };
    let off = item(f, 0);
    let g = grown(f.memory, off as int, len as int);
    let cost = 3 + growth_gas(f.memory, off, len);
    if off + len > MEMORY_LIMIT {
        halt(Halt::MemoryLimit, f)
    } else if f.gas < cost {
        halt(Halt::OutOfGas, f)
    } else if op == 0x51 {
        ran(
            f,
            cost,
            f.pc + 1,
            f.stack.drop_last().push(word_with(be_value(g.subrange(off as int, off + 32int)))),
            g,
        )
    } else if op == 0x52 {
        ran(
            f,
            cost,
            f.pc + 1,
            f.stack.drop_last().drop_last(),
            crate::memory::written(g, off as int, be_bytes(item(f, 1), 32)),
        )
    } else {
        ran(
            f,
            cost,
            f.pc + 1,
            f.stack.drop_last().drop_last(),
            g.update(off as int, (item(f, 1) % 256) as u8),
        )
    }
}

/// The effect of JUMP and JUMPI.
pub open spec fn jump_effect(env: &ExecutionEnv, f: Frame, op: u8) -> (StepEnd, Frame) {
    let cost: nat = if op == 0x56 {
        8
    } else {
        10
    };
    let rest = if op == 0x56 {
        f.stack.drop_last()
    } else {
        f.stack.drop_last().drop_last()
    };
    if f.gas < cost {
        halt(Halt::OutOfGas, f)
    } else if op == 0x57 && is_zero_word(f.stack[f.stack.len() - 2]) {
        ran(f, cost, f.pc + 1, rest, f.memory)
    } else if is_jumpdest(env.spec_machine_code()@, item(f, 0)) {
        ran(f, cost, item(f, 0), rest, f.memory)
    } else {
        halt(Halt::InvalidJump, f)
    }
}

/// The effect of RETURN and REVERT.
pub open spec fn return_effect(f: Frame, op: u8) -> (StepEnd, Frame) {
    let off = item(f, 0);
    let len = item(f, 1);
    let end = |d: Seq<u8>|
        if op == 0xf3 {
            StepEnd::Success(d)
        } else {
            StepEnd::Revert(d)
        };
    if len == 0 {
        (end(Seq::empty()), f)
    } else if !range_ok(off, len) {
        halt(Halt::MemoryLimit, f)
    } else if f.gas < growth_gas(f.memory, off, len) {
        halt(Halt::OutOfGas, f)
    } else {
        let g = grown(f.memory, off as int, len as int);
        (
            end(output(g, off, len)),
            Frame { gas: (f.gas - growth_gas(f.memory, off, len)) as nat, memory: g, ..f },
        )
    }
}

/// The effect of KECCAK256.
pub open spec fn keccak_effect(f: Frame) -> (StepEnd, Frame) {
    let size = item(f, 1);
    let off: nat = if size == 0 {
        0
    } else {
        item(f, 0)
    };
    let cost = 30 + 6 * ((size + 31) / 32) + growth_gas(f.memory, off, size);
    let g = grown_for(f.memory, off, size);
    if !range_ok(item(f, 0), size) {
        halt(Halt::MemoryLimit, f)
    } else if f.gas < cost {
        halt(Halt::OutOfGas, f)
    } else {
        ran(
            f,
            cost,
            f.pc + 1,
            f.stack.drop_last().drop_last().push(word_with(be_value(keccak_of(output(g, off, size))))),
            g,
        )
    }
}

/// The effect of EXP.
pub open spec fn exp_effect(f: Frame) -> (StepEnd, Frame) {
    let cost = exp_gas(item(f, 1));
    if f.gas < cost {
        halt(Halt::OutOfGas, f)
    } else {
        ran(
            f,
            cost,
            f.pc + 1,
            f.stack.drop_last().drop_last().push(word_with(wrap(pow(item(f, 0) as int, item(f, 1))))),
            f.memory,
        )
    }
}

/// The effect of ADDMOD and MULMOD.
pub open spec fn modular_effect(f: Frame, op: u8) -> (StepEnd, Frame) {
    let v = if op == 0x08 {
        word::addmod_value(item(f, 0), item(f, 1), item(f, 2))
    } else {
        word::mulmod_value(item(f, 0), item(f, 1), item(f, 2))
    };
    if f.gas < 8 {
        halt(Halt::OutOfGas, f)
    } else {
        ran(f, 8, f.pc + 1, f.stack.subrange(0, f.stack.len() - 3).push(word_with(v)), f.memory)
    }
}

/// The effect of CALLDATACOPY and CODECOPY.
pub open spec fn copy_effect(env: &ExecutionEnv, f: Frame, op: u8) -> (StepEnd, Frame) {
    let size = item(f, 2);
    let dest: nat = if size == 0 {
        0
    } else {
        item(f, 0)
    };
    let src = if op == 0x37 {
        env.spec_data()@
    } else {
        env.spec_machine_code()@
    };
    let cost = 3 + 3 * ((size + 31) / 32) + growth_gas(f.memory, dest, size);
    if !range_ok(item(f, 0), size) {
        halt(Halt::MemoryLimit, f)
    } else if f.gas < cost {
        halt(Halt::OutOfGas, f)
    } else {
        ran(
            f,
            cost,
            f.pc + 1,
            f.stack.subrange(0, f.stack.len() - 3),
            if size == 0 {
                f.memory
            } else {
                crate::memory::written(
                    grown(f.memory, dest as int, size as int),
                    dest as int,
                    padded(src, item(f, 1), size),
                )
            },
        )
    }
}

/// The effect of LOG0..LOG4.
pub open spec fn log_effect(env: &ExecutionEnv, f: Frame, sub: SubstateModel, op: u8) -> (
    StepEnd,
    Frame,
    SubstateModel,
) {
    let n = (op - 0xa0) as nat;
    let size = item(f, 1);
    let off: nat = if size == 0 {
        0
    } else {
        item(f, 0)
    };
    let cost = 375 + 375 * n + 8 * size + growth_gas(f.memory, off, size);
    let g = grown_for(f.memory, off, size);
    if !env.spec_write_access() {
        (StepEnd::Exception(Halt::WriteProtection), Frame { gas: 0, ..f }, sub)
    } else if !range_ok(item(f, 0), size) {
        (StepEnd::Exception(Halt::MemoryLimit), Frame { gas: 0, ..f }, sub)
    } else if f.gas < cost {
        (StepEnd::Exception(Halt::OutOfGas), Frame { gas: 0, ..f }, sub)
    } else {
        let lg = LogModel {
            address: env.spec_account(),
            topics: Seq::new(n, |j: int| item(f, 2 + j)),
            data: output(g, off, size),
        };
        (
            StepEnd::Running,
            Frame {
                gas: (f.gas - cost) as nat,
                pc: f.pc + 1,
                stack: f.stack.subrange(0, f.stack.len() - n - 2),
                memory: g,
            },
            SubstateModel { logs: sub.logs.push(lg), ..sub },
        )
    }
}

/// The effect of SLOAD and SSTORE; either warms the slot.
pub open spec fn storage_effect(
    env: &ExecutionEnv,
    f: Frame,
    sub: SubstateModel,
    st: Seq<(U256, U256)>,
    op: u8,
) -> (StepEnd, Frame, SubstateModel, Seq<(U256, U256)>) {
    let s = f.stack;
    let key = s.last();
    let slot = (env.spec_account(), key);
    let warm = sub.accessed_storage.contains(slot);
    let warmed = SubstateModel { accessed_storage: inserted(sub.accessed_storage, slot), ..sub };
    if op == 0x55 && !env.spec_write_access() {
        (StepEnd::Exception(Halt::WriteProtection), Frame { gas: 0, ..f }, sub, st)
    } else if op == 0x54 {
        let cost: nat = if warm {
            100
        } else {
            2100
        };
        if f.gas < cost {
            (StepEnd::Exception(Halt::OutOfGas), Frame { gas: 0, ..f }, sub, st)
        } else {
            (
                StepEnd::Running,
                Frame {
                    gas: (f.gas - cost) as nat,
                    pc: f.pc + 1,
                    stack: s.drop_last().push(slot_value(st, key)),
                    ..f
                },
                warmed,
                st,
            )
        }
    } else {
        let value = s[s.len() - 2];
        let cost = sstore_gas(warm, slot_value(st, key), value);
        if f.gas <= 2300 || f.gas < cost {
            (StepEnd::Exception(Halt::OutOfGas), Frame { gas: 0, ..f }, sub, st)
        } else {
            (
                StepEnd::Running,
                Frame {
                    gas: (f.gas - cost) as nat,
                    pc: f.pc + 1,
                    stack: s.drop_last().drop_last(),
                    ..f
                },
                if !is_zero_word(slot_value(st, key)) && is_zero_word(value) {
                    SubstateModel {
                        refund: word_with(wrap(word_value(warmed.refund) + SSTORE_CLEAR_REFUND)),
                        ..warmed
                    }
                } else {
                    warmed
                },
                st.push((key, value)),
            )
        }
    }
}

/// Deepest call nesting; a call or create made at this depth fails at once.
pub const MAX_CALL_DEPTH: usize = 1024;

/// Whether `op` makes a nested call or creates a contract: CREATE, CALL, CALLCODE,
/// DELEGATECALL, CREATE2 or STATICCALL.
pub open spec fn is_call(op: u8) -> bool {
    op == 0xf0 || op == 0xf1 || op == 0xf2 || op == 0xf4 || op == 0xf5 || op == 0xfa
}

/// Gas that a call or create takes before any nested frame: the warm account access of a
/// call, the creation fee of a create.
pub open spec fn call_gas(op: u8) -> nat {
    if op == 0xf0 || op == 0xf5 {
        32000
    } else {
        100
    }
}

/// The effect of a call or create. Creating, or calling with value, is not allowed without
/// write access. At the depth limit the call fails at once: its operands are taken, a zero
/// status word is pushed and the frame goes on. Below the limit a nested frame would run,
/// which this engine does not do.
pub open spec fn call_effect(env: &ExecutionEnv, f: Frame, op: u8) -> (StepEnd, Frame) {
    if !env.spec_write_access() && (op == 0xf0 || op == 0xf5 || (op == 0xf1 && item(f, 2) != 0)) {
        halt(Halt::WriteProtection, f)
    } else if word_value(env.spec_depth()) < MAX_CALL_DEPTH {
        halt(Halt::Unsupported, f)
    } else if f.gas < call_gas(op) {
        halt(Halt::OutOfGas, f)
    } else {
        ran(
            f,
            call_gas(op),
            f.pc + 1,
            f.stack.subrange(0, f.stack.len() - stack_delta(op)).push(word_with(0)),
            f.memory,
        )
    }
}

/// `w` with the frame that a frame-only effect left.
pub open spec fn with_frame(w: World, e: (StepEnd, Frame)) -> (StepEnd, World) {
    (e.0, World { frame: e.1, ..w })
}

/// What one step does: the outcome and the world it leaves.
pub open spec fn next(env: &ExecutionEnv, w: World) -> (StepEnd, World) {
    let f = w.frame;
    let code = env.spec_machine_code()@;
    if f.pc >= code.len() {
        (StepEnd::Success(Seq::empty()), w)
    } else {
        let op = code[f.pc as int];
        if !(is_assigned(op) && op != 0xfe) {
            with_frame(w, halt(Halt::InvalidInstruction, f))
        } else if f.stack.len() < stack_delta(op) {
            with_frame(w, halt(Halt::StackUnderflow, f))
        } else if f.stack.len() - stack_delta(op) + stack_alpha(op) > MAX_LEN {
            with_frame(w, halt(Halt::StackOverflow, f))
        } else if 0x60 <= op <= 0x7f {
            with_frame(w, push_effect(code, f, op))
        } else if 0x80 <= op <= 0x9f || op == 0x50 || op == 0x5b {
            with_frame(w, shuffle_effect(f, op))
        } else if (0x01 <= op <= 0x07) || op == 0x0b || (0x10 <= op <= 0x13) || (0x1a <= op
            <= 0x1d) {
            with_frame(w, binary_effect(f, op))
        } else if 0x14 <= op <= 0x19 {
            with_frame(w, logic_effect(f, op))
        } else if is_context(op) {
            with_frame(w, context_effect(env, f, op))
        } else if op == 0x35 {
            with_frame(w, calldataload_effect(env, f))
        } else if op == 0x37 || op == 0x39 {
            with_frame(w, copy_effect(env, f, op))
        } else if 0x51 <= op <= 0x53 {
            with_frame(w, memory_effect(f, op))
        } else if op == 0x54 || op == 0x55 {
            let e = storage_effect(env, f, w.sub, w.storage, op);
            (e.0, World { frame: e.1, sub: e.2, storage: e.3 })
        } else if op == 0x56 || op == 0x57 {
            with_frame(w, jump_effect(env, f, op))
        } else if op == 0x08 || op == 0x09 {
            with_frame(w, modular_effect(f, op))
        } else if op == 0x0a {
            with_frame(w, exp_effect(f))
        } else if op == 0x20 {
            with_frame(w, keccak_effect(f))
        } else if 0xa0 <= op <= 0xa4 {
            let e = log_effect(env, f, w.sub, op);
            (e.0, World { frame: e.1, sub: e.2, ..w })
        } else if op == 0xf3 || op == 0xfd {
            with_frame(w, return_effect(f, op))
        } else if op == 0x00 {
            (StepEnd::Success(Seq::empty()), w)
        } else if is_call(op) {
            with_frame(w, call_effect(env, f, op))
        } else if op == 0xff {
            if !env.spec_write_access() {
                with_frame(w, halt(Halt::WriteProtection, f))
            } else if f.gas < 5000 {
                with_frame(w, halt(Halt::OutOfGas, f))
            } else {
                (
                    StepEnd::Success(Seq::empty()),
                    World {
                        frame: Frame {
                            gas: (f.gas - 5000) as nat,
                            stack: f.stack.drop_last(),
                            ..f
                        },
                        sub: SubstateModel {
                            self_destructs: inserted(w.sub.self_destructs, env.spec_account()),
                            touched: inserted(w.sub.touched, word::address_with(item(f, 0))),
                            ..w.sub
                        },
                        ..w
                    },
                )
            }
        } else {
            with_frame(w, halt(Halt::Unsupported, f))
        }
    }
}

/// Up to `fuel` steps from `w`, until the frame halts.
pub open spec fn run(env: &ExecutionEnv, w: World, fuel: nat) -> (StepEnd, World)
    decreases fuel,
{
    if fuel == 0 {
        (StepEnd::Running, w)
    } else {
        let (e, w2) = next(env, w);
        if e is Running {
            run(env, w2, (fuel - 1) as nat)
        } else {
            (e, w2)
        }
    }
}

/// What running a fresh frame with `gas` does: every running step takes gas, so `gas + 1`
/// steps always reach a halt.
pub open spec fn frame_run(
    env: &ExecutionEnv,
    gas: nat,
    sub: SubstateModel,
    st: Seq<(U256, U256)>,
) -> (StepEnd, World) {
    run(env, start(gas, sub, st), gas + 1)
}

/// The substate `w` left by a frame that did not succeed: its self-destructs and logs go
/// back to those of `before`; touched and accessed sets keep what they gained.
pub open spec fn reverted(w: SubstateModel, before: SubstateModel) -> SubstateModel {
    SubstateModel { self_destructs: before.self_destructs, logs: before.logs, ..w }
}

/// A fresh frame with `gas`, at the start of the code with empty stack and memory.
pub open spec fn start(gas: nat, sub: SubstateModel, st: Seq<(U256, U256)>) -> World {
    World {
        frame: Frame { gas, pc: 0, stack: Seq::empty(), memory: Seq::empty() },
        sub,
        storage: st,
    }
}

/// A word is zero exactly when its value is.
proof fn lemma_zero_size(w: U256)
    ensures
        is_zero_word(w) <==> word_value(w) == 0,
{
    if is_zero_word(w) {
        word::lemma_zero_word(w);
    } else {
        word::lemma_nonzero_word(w);
    }
}

/// Ends the frame exceptionally: all gas is forfeit.
fn fail(m: &mut MachineState, h: Halt) -> (r: Outcome)
    ensures
        r == Outcome::Exception(h),
        final(m).gas_available == 0,
        final(m).program_counter == old(m).program_counter,
        final(m).stack == old(m).stack,
        final(m).memory == old(m).memory,
{
    m.gas_available = 0;
    Outcome::Exception(h)
}

/// Gas of growing memory from `words` to `new_words` words.
fn expansion_cost(words: usize, new_words: usize) -> (r: u64)
    requires
        words <= new_words <= MEMORY_LIMIT / 32,
    ensures
        r == mem_cost(new_words as nat) - mem_cost(words as nat),
        r <= 0x4000_0000,
{
    assert(words * words <= new_words * new_words) by (nonlinear_arith)
        requires
            words <= new_words,
    ;
    assert(new_words * new_words <= 0x8_0000 * 0x8_0000) by (nonlinear_arith)
        requires
            new_words <= 0x8_0000,
    ;
    let a: u64 = 3 * (words as u64) + (words as u64) * (words as u64) / 512;
    let b: u64 = 3 * (new_words as u64) + (new_words as u64) * (new_words as u64) / 512;
    assert(words as nat * words as nat / 512 <= new_words as nat * new_words as nat / 512) by {
        vstd::arithmetic::div_mod::lemma_div_is_ordered(
            (words * words) as int,
            (new_words * new_words) as int,
            512,
        );
    }
    assert(new_words as nat * new_words as nat / 512 <= 0x8_0000 * 0x8_0000 / 512) by {
        vstd::arithmetic::div_mod::lemma_div_is_ordered(
            (new_words * new_words) as int,
            0x8_0000int * 0x8_0000int,
            512,
        );
    }
    b - a
}

/// Words after an access of `len` bytes at `offset`, with its gas.
fn access_cost(m: &MachineState, offset: usize, len: usize) -> (r: u64)
    requires
        m.wf(),
        within_limit(offset as int, len as int),
    ensures
        r == mem_cost(grown_words(m.memory.words(), offset as int, len as int)) - mem_cost(
            m.memory.words(),
        ),
        r <= 0x4000_0000,
{
    let words = m.memory.active_words();
    if len == 0 {
        return expansion_cost(words, words);
    }
    let needed: usize = (offset + len + 31) / 32;
    if needed <= words {
        expansion_cost(words, words)
    } else {
        expansion_cost(words, needed)
    }
}

/// Whether the frame has `cost` gas; takes it if so.
fn charge(m: &mut MachineState, cost: u64) -> (ok: bool)
    ensures
        ok == (cost <= old(m).gas_available),
        ok ==> final(m).gas_available == old(m).gas_available - cost,
        !ok ==> final(m).gas_available == old(m).gas_available,
        final(m).program_counter == old(m).program_counter,
        final(m).stack == old(m).stack,
        final(m).memory == old(m).memory,
{
    if cost > m.gas_available {
        return false;
    }
    m.gas_available = m.gas_available - cost;
    true
}

/// Whether `target` is a valid jump destination of `code`.
pub fn valid_jump(code: &Vec<u8>, target: usize) -> (r: bool)
    ensures
        r == is_jumpdest(code@, target as nat),
{
    let mut pos: usize = 0;
    while pos < target
        invariant
            pos <= target,
            jumpdest_from(code@, pos as nat, target as nat) == is_jumpdest(code@, target as nat),
        decreases target - pos,
    {
        if pos >= code.len() {
            return false;
        }
        let op = code[pos];
        let n: usize = if 0x60 <= op && op <= 0x7f {
            (op - 0x5f) as usize
        } else {
            0
        };
        if n >= target - pos {
            return false;
        }
        pos = pos + 1 + n;
    }
    target < code.len() && code[target] == 0x5b
}

/// PUSH1..PUSH32: pushes the immediate bytes, zero past the end of the code, as a
/// big-endian word, and moves past them.
fn exec_push(env: &ExecutionEnv, m: &mut MachineState) -> (r: Outcome)
    requires
        old(m).wf(),
        old(m).program_counter < env.spec_machine_code()@.len(),
        0x60 <= current_op(env, old(m)) <= 0x7f,
        old(m).stack@.len() < MAX_LEN,
    ensures
        (end_of(&r), frame_of(final(m))) == push_effect(
            env.spec_machine_code()@,
            frame_of(old(m)),
            current_op(env, old(m)),
        ),
        final(m).wf(),
        disciplined(&r, old(m), final(m)),
{
    let code = env.machine_code();
    let pc = m.program_counter;
    let n: usize = (code[pc] - 0x5f) as usize;
    if !charge(m, 3) {
        return fail(m, Halt::OutOfGas);
    }
    let len: usize = code.len();
    let avail: usize = len - pc - 1;
    let mut bytes: Vec<u8> = Vec::new();
    let mut i: usize = 0;
    while i < n
        invariant
            i <= n <= 32,
            pc < code@.len(),
            len == code@.len(),
            avail == code@.len() - pc - 1,
            bytes@ == immediate(code@, pc as int, n as nat).subrange(0, i as int),
        decreases n - i,
    {
        let b: u8 = if i < avail {
            code[pc + 1 + i]
        } else {
            0
        };
        bytes.push(b);
        i = i + 1;
        assert(bytes@ =~= immediate(code@, pc as int, n as nat).subrange(0, i as int));
    }
    assert(bytes@ =~= immediate(code@, pc as int, n as nat));
    let w = word_from_bytes(bytes.as_slice());
    proof {
        word::lemma_word_with(w);
    }
    let pushed = m.stack.push(w);
    m.program_counter = if n <= usize::MAX - pc - 1 {
        pc + 1 + n
    } else {
        code.len()
    };
    Outcome::Running
}

/// The arithmetic and comparison instructions on the two top words.
fn exec_binary(op: u8, m: &mut MachineState) -> (r: Outcome)
    requires
        old(m).wf(),
        is_binary(op),
        old(m).stack@.len() >= 2,
        old(m).program_counter < usize::MAX,
    ensures
        (end_of(&r), frame_of(final(m))) == binary_effect(frame_of(old(m)), op),
        final(m).wf(),
        old(m).gas_available < binary_gas(op) ==> r == Outcome::Exception(Halt::OutOfGas)
            && final(m).gas_available == 0 && final(m).stack@ == old(m).stack@
            && final(m).memory@ == old(m).memory@ && final(m).program_counter
                == old(m).program_counter,
        old(m).gas_available >= binary_gas(op) ==> r == Outcome::Running && final(m).gas_available
            == old(m).gas_available - binary_gas(op) && final(m).memory@ == old(m).memory@
            && final(m).stack@.drop_last() == old(m).stack@.drop_last().drop_last()
                && final(m).stack@.len() == old(m).stack@.len() - 1
                && word_value(final(m).stack@.last())
            == binary_value(
            op,
            word_value(old(m).stack@.last()),
            word_value(old(m).stack@.drop_last().last()),
        ) && final(m).program_counter == old(m).program_counter + 1,
{
    let cost: u64 = if op == 0x01 || op == 0x03 || (0x10 <= op && op <= 0x13) || (0x1a <= op && op
        <= 0x1d) {
        3
    } else {
        5
    };
    if !charge(m, cost) {
        return fail(m, Halt::OutOfGas);
    }
    let a = match m.stack.pop() {
        Ok(a) => a,
        Err(_) => return fail(m, Halt::StackUnderflow),
    };
    let b = match m.stack.pop() {
        Ok(b) => b,
        Err(_) => return fail(m, Halt::StackUnderflow),
    };
    let v = if op == 0x01 {
        word::add(a, b)
    } else if op == 0x02 {
        word::mul(a, b)
    } else if op == 0x03 {
        word::sub(a, b)
    } else if op == 0x04 {
        div(a, b)
    } else if op == 0x05 {
        sdiv(a, b)
    } else if op == 0x06 {
        rem(a, b)
    } else if op == 0x07 {
        word::smod(a, b)
    } else if op == 0x0b {
        word::signextend(&a, b)
    } else if op == 0x10 {
        lt(&a, &b)
    } else if op == 0x11 {
        gt(&a, &b)
    } else if op == 0x12 {
        word::slt(&a, &b)
    } else if op == 0x1a {
        word::byte(&a, b)
    } else if op == 0x1b {
        word::shl(&a, b)
    } else if op == 0x1c {
        word::shr(&a, b)
    } else if op == 0x1d {
        word::sar(&a, b)
    } else {
        word::sgt(&a, &b)
    };
    proof {
        word::lemma_word_with(v);
    }
    let pushed = m.stack.push(v);
    m.program_counter = m.program_counter + 1;
    Outcome::Running
}

/// Exceptional halts forfeit all gas and leave stack, memory and program counter as they
/// were; running steps cost gas.
pub open spec fn disciplined(r: &Outcome, m0: &MachineState, m1: &MachineState) -> bool {
    &&& m1.gas_available <= m0.gas_available
    &&& r is Exception ==> m1.gas_available == 0 && m1.stack@ == m0.stack@ && m1.memory@
        == m0.memory@ && m1.program_counter == m0.program_counter
    &&& r is Running ==> m1.gas_available < m0.gas_available
}

/// Whether `op` pushes one word read from the frame's context.
pub open spec fn is_context(op: u8) -> bool {
    op == 0x30 || op == 0x32 || op == 0x33 || op == 0x34 || op == 0x36 || op == 0x38 || op == 0x3a
        || op == 0x3d || (0x41 <= op <= 0x45) || op == 0x58 || op == 0x59 || op == 0x5a
}

/// The value that context instruction `op` pushes, with `m` the state before it; GAS
/// pushes what is left after its own two gas.
pub open spec fn context_value(op: u8, env: &ExecutionEnv, m: Frame) -> nat {
    if op == 0x30 {
        be_value(env.spec_account().0@)
    } else if op == 0x32 {
        be_value(env.spec_origin().0@)
    } else if op == 0x33 {
        be_value(env.spec_sender().0@)
    } else if op == 0x34 {
        word_value(env.spec_value())
    } else if op == 0x36 {
        env.spec_data()@.len()
    } else if op == 0x38 {
        env.spec_machine_code()@.len()
    } else if op == 0x3a {
        word_value(env.spec_gas_price())
    } else if op == 0x3d {
        0
    } else if op == 0x41 {
        be_value(env.spec_header().beneficiary.0@)
    } else if op == 0x42 {
        word_value(env.spec_header().timestamp)
    } else if op == 0x43 {
        word_value(env.spec_header().number)
    } else if op == 0x44 {
        word_value(env.spec_header().difficulty)
    } else if op == 0x45 {
        word_value(env.spec_header().gas_limit)
    } else if op == 0x58 {
        m.pc
    } else if op == 0x59 {
        m.memory.len() / 32 * 32
    } else {
        (m.gas - 2) as nat
    }
}

/// ADDRESS, ORIGIN, CALLER, CALLVALUE, CALLDATASIZE, CODESIZE, GASPRICE, RETURNDATASIZE,
/// COINBASE, TIMESTAMP, NUMBER, DIFFICULTY, GASLIMIT, PC, MSIZE and GAS: two gas, one word
/// pushed. The engine makes no nested calls, so there is never return data to size.
fn exec_context(op: u8, env: &ExecutionEnv, m: &mut MachineState) -> (r: Outcome)
    requires
        old(m).wf(),
        is_context(op),
        old(m).stack@.len() < MAX_LEN,
        old(m).program_counter < usize::MAX,
    ensures
        final(m).wf(),
        disciplined(&r, old(m), final(m)),
        (end_of(&r), frame_of(final(m))) == context_effect(env, frame_of(old(m)), op),
{
    if !charge(m, 2) {
        return fail(m, Halt::OutOfGas);
    }
    let header = env.header();
    let v = if op == 0x30 {
        word::word_from_address(env.account())
    } else if op == 0x32 {
        word::word_from_address(env.origin())
    } else if op == 0x33 {
        word::word_from_address(env.sender())
    } else if op == 0x34 {
        *env.value()
    } else if op == 0x36 {
        word_from_u64(env.data().len() as u64)
    } else if op == 0x38 {
        word_from_u64(env.machine_code().len() as u64)
    } else if op == 0x3a {
        *env.gas_price()
    } else if op == 0x3d {
        word_from_u64(0)
    } else if op == 0x41 {
        word::word_from_address(&header.beneficiary)
    } else if op == 0x42 {
        header.timestamp
    } else if op == 0x43 {
        header.number
    } else if op == 0x44 {
        header.difficulty
    } else if op == 0x45 {
        header.gas_limit
    } else if op == 0x58 {
        word_from_u64(m.program_counter as u64)
    } else if op == 0x59 {
        word_from_u64((m.memory.active_words() as u64) * 32)
    } else {
        word_from_u64(m.gas_available)
    };
    proof {
        word::lemma_word_with(v);
    }
    let pushed = m.stack.push(v);
    m.program_counter = m.program_counter + 1;
    Outcome::Running
}

/// The 32 bytes of `data` at `offset`, zero past its end.
pub open spec fn data_word(data: Seq<u8>, offset: nat) -> Seq<u8> {
    Seq::new(32, |i: int| if offset + i < data.len() { data[offset + i] } else { 0u8 })
}

/// CALLDATALOAD: three gas; replaces the top word, an offset, with the 32 bytes of input
/// data there, zero past its end.
fn exec_calldataload(env: &ExecutionEnv, m: &mut MachineState) -> (r: Outcome)
    requires
        old(m).wf(),
        old(m).stack@.len() >= 1,
        old(m).program_counter < usize::MAX,
    ensures
        (end_of(&r), frame_of(final(m))) == calldataload_effect(env, frame_of(old(m))),
        final(m).wf(),
        disciplined(&r, old(m), final(m)),
        r is Running || r == Outcome::Exception(Halt::OutOfGas),
        old(m).gas_available >= 3 <==> r is Running,
        r is Running ==> final(m).stack@.drop_last() == old(m).stack@.drop_last()
            && final(m).stack@.len() == old(m).stack@.len() && word_value(final(m).stack@.last())
            == be_value(
            data_word(env.spec_data()@, word_value(old(m).stack@.last())),
        ) && final(m).program_counter == old(m).program_counter + 1 && final(m).memory@
            == old(m).memory@,
{
    if !charge(m, 3) {
        return fail(m, Halt::OutOfGas);
    }
    let top = match m.stack.pop() {
        Ok(t) => t,
        Err(_) => return fail(m, Halt::StackUnderflow),
    };
    let data = env.data();
    let len: usize = data.len();
    let mut bytes: Vec<u8> = Vec::new();
    match word_to_index(&top, len) {
        Some(off) => {
            let avail: usize = len - off;
            let mut i: usize = 0;
            while i < 32
                invariant
                    i <= 32,
                    off < len,
                    len == data@.len(),
                    avail == len - off,
                    off == word_value(top),
                    bytes@ == data_word(data@, off as nat).subrange(0, i as int),
                decreases 32 - i,
            {
                let b: u8 = if i < avail {
                    data[off + i]
                } else {
                    0
                };
                bytes.push(b);
                i = i + 1;
                assert(bytes@ =~= data_word(data@, off as nat).subrange(0, i as int));
            }
        },
        None => {
            let mut i: usize = 0;
            while i < 32
                invariant
                    i <= 32,
                    word_value(top) >= data@.len(),
                    bytes@ == data_word(data@, word_value(top)).subrange(0, i as int),
                decreases 32 - i,
            {
                bytes.push(0);
                i = i + 1;
                assert(bytes@ =~= data_word(data@, word_value(top)).subrange(0, i as int));
            }
        },
    }
    assert(bytes@ =~= data_word(data@, word_value(top)));
    let w = word_from_bytes(bytes.as_slice());
    proof {
        word::lemma_word_with(w);
    }
    let pushed = m.stack.push(w);
    m.program_counter = m.program_counter + 1;
    Outcome::Running
}

/// EQ, AND, OR and XOR on the two top words, and ISZERO and NOT on the top word, at three
/// gas each.
fn exec_logic(op: u8, m: &mut MachineState) -> (r: Outcome)
    requires
        old(m).wf(),
        op == 0x14 || op == 0x15 || op == 0x16 || op == 0x17 || op == 0x18 || op == 0x19,
        old(m).stack@.len() >= 2 || ((op == 0x15 || op == 0x19) && old(m).stack@.len() >= 1),
        old(m).program_counter < usize::MAX,
    ensures
        (end_of(&r), frame_of(final(m))) == logic_effect(frame_of(old(m)), op),
        final(m).wf(),
        disciplined(&r, old(m), final(m)),
        r is Running || r == Outcome::Exception(Halt::OutOfGas),
        r is Running ==> final(m).program_counter == old(m).program_counter + 1 && final(m).memory@
            == old(m).memory@,
        r is Running && (op == 0x15 || op == 0x19) ==> final(m).stack@.drop_last()
            == old(m).stack@.drop_last() && final(m).stack@.len() == old(m).stack@.len(),
        r is Running && !(op == 0x15 || op == 0x19) ==> final(m).stack@.drop_last()
            == old(m).stack@.drop_last().drop_last() && final(m).stack@.len()
            == old(m).stack@.len() - 1,
{
    if !charge(m, 3) {
        return fail(m, Halt::OutOfGas);
    }
    let a = match m.stack.pop() {
        Ok(a) => a,
        Err(_) => return fail(m, Halt::StackUnderflow),
    };
    let v = if op == 0x15 {
        iszero(&a)
    } else if op == 0x19 {
        word::not(a)
    } else {
        let b = match m.stack.pop() {
            Ok(b) => b,
            Err(_) => return fail(m, Halt::StackUnderflow),
        };
        if op == 0x14 {
            eq(&a, &b)
        } else if op == 0x16 {
            word::and(a, b)
        } else if op == 0x17 {
            word::or(a, b)
        } else {
            word::xor(a, b)
        }
    };
    proof {
        word::lemma_word_with(v);
        if op == 0x19 {
            word::lemma_word_not(a, v);
        }
        if op == 0x16 || op == 0x17 || op == 0x18 {
            assert(v.0[0] == v.0[0] && v.0[1] == v.0[1] && v.0[2] == v.0[2] && v.0[3] == v.0[3]);
        }
    }
    let pushed = m.stack.push(v);
    m.program_counter = m.program_counter + 1;
    Outcome::Running
}

/// POP, JUMPDEST, DUP1..DUP16 and SWAP1..SWAP16.
fn exec_shuffle(op: u8, m: &mut MachineState) -> (r: Outcome)
    requires
        old(m).wf(),
        op == 0x50 || op == 0x5b || 0x80 <= op <= 0x9f,
        op == 0x50 ==> old(m).stack@.len() >= 1,
        0x80 <= op <= 0x8f ==> old(m).stack@.len() >= op - 0x7f && old(m).stack@.len() < MAX_LEN,
        0x90 <= op <= 0x9f ==> old(m).stack@.len() >= op - 0x8e,
        old(m).program_counter < usize::MAX,
    ensures
        (end_of(&r), frame_of(final(m))) == shuffle_effect(frame_of(old(m)), op),
        final(m).wf(),
        disciplined(&r, old(m), final(m)),
        r is Running || r == Outcome::Exception(Halt::OutOfGas),
        r is Running ==> final(m).program_counter == old(m).program_counter + 1 && final(m).memory@
            == old(m).memory@,
        r is Running && op == 0x50 ==> final(m).stack@ == old(m).stack@.drop_last(),
        r is Running && op == 0x5b ==> final(m).stack@ == old(m).stack@,
        r is Running && 0x80 <= op <= 0x8f ==> final(m).stack@ == old(m).stack@.push(
            old(m).stack@[old(m).stack@.len() - (op - 0x7f)],
        ),
        r is Running && 0x90 <= op <= 0x9f ==> final(m).stack@ == crate::stack::swapped(
            old(m).stack@,
            op - 0x8f,
        ),
{
    let cost: u64 = if op == 0x50 {
        2
    } else if op == 0x5b {
        1
    } else {
        3
    };
    if !charge(m, cost) {
        return fail(m, Halt::OutOfGas);
    }
    if op == 0x50 {
        let popped = m.stack.pop();
    } else if 0x80 <= op && op <= 0x8f {
        let depth: usize = (op - 0x80) as usize;
        let w = match m.stack.get(depth) {
            Some(w) => *w,
            None => return fail(m, Halt::StackUnderflow),
        };
        let pushed = m.stack.push(w);
    } else if 0x90 <= op && op <= 0x9f {
        let depth: usize = (op - 0x8f) as usize;
        let swapped = m.stack.swap_top(depth);
    }
    m.program_counter = m.program_counter + 1;
    Outcome::Running
}

/// MLOAD, MSTORE and MSTORE8: three gas plus memory growth.
fn exec_memory(op: u8, m: &mut MachineState) -> (r: Outcome)
    requires
        old(m).wf(),
        op == 0x51 || op == 0x52 || op == 0x53,
        old(m).stack@.len() >= 2 || (op == 0x51 && old(m).stack@.len() >= 1),
        old(m).program_counter < usize::MAX,
    ensures
        (end_of(&r), frame_of(final(m))) == memory_effect(frame_of(old(m)), op),
        final(m).wf(),
        disciplined(&r, old(m), final(m)),
        r is Running || r == Outcome::Exception(Halt::OutOfGas) || r == Outcome::Exception(
            Halt::MemoryLimit,
        ),
        r is Running ==> final(m).program_counter == old(m).program_counter + 1,
        r is Running && op == 0x51 ==> final(m).stack@.drop_last() == old(m).stack@.drop_last()
            && final(m).stack@.len() == old(m).stack@.len(),
        r is Running && op == 0x52 ==> final(m).stack@ == old(m).stack@.drop_last().drop_last()
            && final(m).memory@ == crate::memory::written(
            grown(old(m).memory@, word_value(old(m).stack@.last()) as int, 32),
            word_value(old(m).stack@.last()) as int,
            final(m).memory@.subrange(
                word_value(old(m).stack@.last()) as int,
                word_value(old(m).stack@.last()) + 32int,
            ),
        ) && be_value(
            final(m).memory@.subrange(
                word_value(old(m).stack@.last()) as int,
                word_value(old(m).stack@.last()) + 32int,
            ),
        ) == word_value(old(m).stack@.drop_last().last()),
        r is Running && op == 0x53 ==> final(m).stack@ == old(m).stack@.drop_last().drop_last(),
{
    let len: usize = if op == 0x53 {
        1
    } else {
        32
    };
    let off = match m.stack.get(0) {
        Some(w) => match word_to_index(w, MEMORY_LIMIT - len + 1) {
            Some(o) => o,
            None => return fail(m, Halt::MemoryLimit),
        },
        None => return fail(m, Halt::StackUnderflow),
    };
    let cost: u64 = 3 + access_cost(m, off, len);
    if !charge(m, cost) {
        return fail(m, Halt::OutOfGas);
    }
    let a = match m.stack.pop() {
        Ok(a) => a,
        Err(_) => return fail(m, Halt::StackUnderflow),
    };
    if op == 0x51 {
        let bytes = match m.memory.load(off, 32) {
            Ok((b, _)) => b,
            Err(_) => return fail(m, Halt::MemoryLimit),
        };
        let w = word_from_bytes(bytes.as_slice());
        proof {
            word::lemma_word_with(w);
        }
        let pushed = m.stack.push(w);
    } else {
        let v = match m.stack.pop() {
            Ok(v) => v,
            Err(_) => return fail(m, Halt::StackUnderflow),
        };
        if op == 0x52 {
            let bytes = word_to_bytes(&v);
            let grew = m.memory.store(off, bytes.as_slice());
            assert(m.memory@.subrange(off as int, off + 32) =~= bytes@);
            proof {
                word::lemma_be_bytes(bytes@);
            }
        } else {
            let low: u64 = v.0[0];
            let byte: u8 = #[verifier::truncate] (low as u8);
            proof {
                word::lemma_low_byte(v);
                assert(byte == low % 256) by (bit_vector)
                    requires
                        byte == #[verifier::truncate] (low as u8),
                ;
            }
            let grew = m.memory.store_byte(off, byte);
        }
    }
    m.program_counter = m.program_counter + 1;
    Outcome::Running
}

/// Refund for clearing a nonzero storage slot.
pub const SSTORE_CLEAR_REFUND: u64 = 4800;

/// Gas of SSTORE: 2100 more for a cold slot; 100 when the value stays, 20000 when a zero
/// slot becomes nonzero, 2900 for any other change. Clearing a nonzero slot earns
/// `SSTORE_CLEAR_REFUND`. The value a slot had at the start of the transaction, which
/// refines both, is left to the surrounding layers.
pub open spec fn sstore_gas(warm: bool, current: U256, new: U256) -> nat {
    (if warm {
        0nat
    } else {
        2100nat
    }) + if current == new {
        100nat
    } else if is_zero_word(current) {
        20000nat
    } else {
        2900nat
    }
}

/// SLOAD and SSTORE on the storage of the executing account.
fn exec_storage(
    op: u8,
    env: &ExecutionEnv,
    m: &mut MachineState,
    sub: &mut AccruedSubstate,
    storage: &mut Storage,
) -> (r: Outcome)
    requires
        old(m).wf(),
        old(sub).wf(),
        op == 0x54 || op == 0x55,
        old(m).stack@.len() >= 2 || (op == 0x54 && old(m).stack@.len() >= 1),
        old(m).program_counter < usize::MAX,
    ensures
        final(sub).spec_accessed_accounts() == old(sub).spec_accessed_accounts(),
        final(sub).spec_touched_accounts() == old(sub).spec_touched_accounts(),
        final(sub).spec_accessed_storage() == old(sub).spec_accessed_storage() || final(sub).spec_accessed_storage() == old(sub).spec_accessed_storage().push(
            (env.spec_account(), old(m).stack@.last()),
        ),
        (end_of(&r), frame_of(final(m)), final(sub).model(), final(storage)@) == storage_effect(
            env,
            frame_of(old(m)),
            old(sub).model(),
            old(storage)@,
            op,
        ),
        final(m).wf(),
        final(sub).wf(),
        disciplined(&r, old(m), final(m)),
        r is Exception ==> *final(sub) == *old(sub) && final(storage)@ == old(storage)@,
        r is Running || r == Outcome::Exception(Halt::OutOfGas) || r == Outcome::Exception(
            Halt::WriteProtection,
        ),
        final(sub).spec_self_destruct_accounts() == old(sub).spec_self_destruct_accounts(),
        final(sub).spec_log_series() == old(sub).spec_log_series(),
        op == 0x55 && !env.spec_write_access() ==> r == Outcome::Exception(Halt::WriteProtection),
        r is Running ==> final(m).program_counter == old(m).program_counter + 1 && final(m).memory@
            == old(m).memory@,
        r is Running && op == 0x54 ==> final(m).gas_available == old(m).gas_available - if old(sub).spec_accessed_storage().contains((env.spec_account(), old(m).stack@.last())) {
            100nat
        } else {
            2100nat
        },
        r is Running && op == 0x55 ==> final(m).gas_available == old(m).gas_available - sstore_gas(
            old(sub).spec_accessed_storage().contains((env.spec_account(), old(m).stack@.last())),
            slot_value(old(storage)@, old(m).stack@.last()),
            old(m).stack@.drop_last().last(),
        ),
        r is Running && op == 0x54 ==> final(m).stack@ == old(m).stack@.drop_last().push(
            slot_value(old(storage)@, old(m).stack@.last()),
        ) && final(storage)@ == old(storage)@,
        r is Running && op == 0x55 ==> final(m).stack@ == old(m).stack@.drop_last().drop_last()
            && final(storage)@ == old(storage)@.push(
            (old(m).stack@.last(), old(m).stack@.drop_last().last()),
        ),
{
    if op == 0x55 && !env.write_access() {
        return fail(m, Halt::WriteProtection);
    }
    let key = match m.stack.get(0) {
        Some(k) => *k,
        None => return fail(m, Halt::StackUnderflow),
    };
    let account = *env.account();
    let warm = sub.storage_warm(&account, &key);
    if op == 0x54 {
        let cost: u64 = if warm {
            100
        } else {
            2100
        };
        if !charge(m, cost) {
            return fail(m, Halt::OutOfGas);
        }
        let popped = m.stack.pop();
        let v = storage.get(&key);
        let pushed = m.stack.push(v);
    } else {
        let value = match m.stack.get(1) {
            Some(v) => *v,
            None => return fail(m, Halt::StackUnderflow),
        };
        if m.gas_available <= 2300 {
            return fail(m, Halt::OutOfGas);
        }
        let current = storage.get(&key);
        let base: u64 = if crate::primitives::same_word(&current, &value) {
            100
        } else if current.is_zero() {
            20000
        } else {
            2900
        };
        let cost: u64 = if warm {
            base
        } else {
            base + 2100
        };
        if !charge(m, cost) {
            return fail(m, Halt::OutOfGas);
        }
        let popped = m.stack.pop();
        let popped = m.stack.pop();
        storage.set(key, value);
        if !current.is_zero() && value.is_zero() {
            sub.add_refund(SSTORE_CLEAR_REFUND);
            proof {
                word::lemma_word_with(sub.spec_refund_balance());
            }
        }
    }
    let was_warm = sub.access_storage(account, key);
    m.program_counter = m.program_counter + 1;
    Outcome::Running
}

/// JUMP and JUMPI: JUMP moves to the top word, which must be a JUMPDEST; JUMPI does so
/// when the second word is nonzero and otherwise goes on.
fn exec_jump(op: u8, env: &ExecutionEnv, m: &mut MachineState) -> (r: Outcome)
    requires
        old(m).wf(),
        op == 0x56 || op == 0x57,
        old(m).stack@.len() >= 2 || (op == 0x56 && old(m).stack@.len() >= 1),
        old(m).program_counter < usize::MAX,
    ensures
        (end_of(&r), frame_of(final(m))) == jump_effect(env, frame_of(old(m)), op),
        final(m).wf(),
        disciplined(&r, old(m), final(m)),
        r is Running || r == Outcome::Exception(Halt::OutOfGas) || r == Outcome::Exception(
            Halt::InvalidJump,
        ),
        r is Running ==> final(m).memory@ == old(m).memory@,
        op == 0x56 && old(m).gas_available >= 8 ==> (is_jumpdest(
            env.spec_machine_code()@,
            word_value(old(m).stack@.last()),
        ) ==> r == Outcome::Running && final(m).program_counter == word_value(old(m).stack@.last())
            && final(m).stack@ == old(m).stack@.drop_last()) && (!is_jumpdest(
            env.spec_machine_code()@,
            word_value(old(m).stack@.last()),
        ) ==> r == Outcome::Exception(Halt::InvalidJump)),
        op == 0x57 && old(m).gas_available >= 10 && is_zero_word(old(m).stack@.drop_last().last())
            ==> r == Outcome::Running && final(m).program_counter == old(m).program_counter + 1
            && final(m).stack@ == old(m).stack@.drop_last().drop_last(),
        op == 0x57 && old(m).gas_available >= 10 && !is_zero_word(
            old(m).stack@.drop_last().last(),
        ) ==> (is_jumpdest(env.spec_machine_code()@, word_value(old(m).stack@.last())) ==> r
            == Outcome::Running && final(m).program_counter == word_value(old(m).stack@.last())
            && final(m).stack@ == old(m).stack@.drop_last().drop_last()) && (!is_jumpdest(
            env.spec_machine_code()@,
            word_value(old(m).stack@.last()),
        ) ==> r == Outcome::Exception(Halt::InvalidJump)),
{
    let cost: u64 = if op == 0x56 {
        8
    } else {
        10
    };
    if !charge(m, cost) {
        return fail(m, Halt::OutOfGas);
    }
    let dest = match m.stack.get(0) {
        Some(d) => *d,
        None => return fail(m, Halt::StackUnderflow),
    };
    if op == 0x57 {
        let cond = match m.stack.get(1) {
            Some(c) => *c,
            None => return fail(m, Halt::StackUnderflow),
        };
        if cond.is_zero() {
            let popped = m.stack.pop();
            let popped = m.stack.pop();
            m.program_counter = m.program_counter + 1;
            return Outcome::Running;
        }
    }
    let code = env.machine_code();
    let target = match word_to_index(&dest, code.len()) {
        Some(t) => t,
        None => {
            proof {
                assert(!jumpdest_from(code@, 0, word_value(dest))) by {
                    lemma_jumpdest_in_code(code@, 0, word_value(dest));
                }
            }
            return fail(m, Halt::InvalidJump);
        },
    };
    if !valid_jump(code, target) {
        return fail(m, Halt::InvalidJump);
    }
    let popped = m.stack.pop();
    if op == 0x57 {
        let popped = m.stack.pop();
    }
    m.program_counter = target;
    Outcome::Running
}

/// A valid jump destination lies inside the code.
proof fn lemma_jumpdest_in_code(code: Seq<u8>, pos: nat, target: nat)
    ensures
        jumpdest_from(code, pos, target) ==> target < code.len(),
    decreases target - pos,
{
    if pos < target && pos < code.len() && pos + 1 + push_len(code[pos as int]) <= target {
        lemma_jumpdest_in_code(code, pos + 1 + push_len(code[pos as int]), target);
    }
}

/// The `len` bytes of memory `mem` at `offset`; none when `len` is zero.
pub open spec fn output(mem: Seq<u8>, offset: nat, len: nat) -> Seq<u8> {
    if len == 0 {
        Seq::empty()
    } else {
        mem.subrange(offset as int, (offset + len) as int)
    }
}

/// RETURN and REVERT: the frame ends with the memory range that the two top words give,
/// growing memory to cover it.
fn exec_return(op: u8, m: &mut MachineState) -> (r: Outcome)
    requires
        old(m).wf(),
        op == 0xf3 || op == 0xfd,
        old(m).stack@.len() >= 2,
    ensures
        (end_of(&r), frame_of(final(m))) == return_effect(frame_of(old(m)), op),
        final(m).wf(),
        disciplined(&r, old(m), final(m)),
        r is Success || r is Revert || r == Outcome::Exception(Halt::OutOfGas) || r
            == Outcome::Exception(Halt::MemoryLimit),
        op == 0xf3 ==> !(r is Revert),
        op == 0xfd ==> !(r is Success),
        r matches Outcome::Success(d) ==> d@ == output(
            final(m).memory@,
            word_value(old(m).stack@.last()),
            word_value(old(m).stack@.drop_last().last()),
        ),
        r matches Outcome::Revert(d) ==> d@ == output(
            final(m).memory@,
            word_value(old(m).stack@.last()),
            word_value(old(m).stack@.drop_last().last()),
        ),
{
    let offset = match m.stack.get(0) {
        Some(o) => *o,
        None => return fail(m, Halt::StackUnderflow),
    };
    let size = match m.stack.get(1) {
        Some(s) => *s,
        None => return fail(m, Halt::StackUnderflow),
    };
    proof {
        lemma_zero_size(size);
    }
    let data = if size.is_zero() {
        Vec::new()
    } else {
        let len = match word_to_index(&size, MEMORY_LIMIT + 1) {
            Some(l) => l,
            None => return fail(m, Halt::MemoryLimit),
        };
        let off = match word_to_index(&offset, MEMORY_LIMIT + 1) {
            Some(o) => o,
            None => return fail(m, Halt::MemoryLimit),
        };
        if len > MEMORY_LIMIT - off {
            return fail(m, Halt::MemoryLimit);
        }
        let cost = access_cost(m, off, len);
        if !charge(m, cost) {
            return fail(m, Halt::OutOfGas);
        }
        match m.memory.load(off, len) {
            Ok((d, _)) => d,
            Err(_) => return fail(m, Halt::MemoryLimit),
        }
    };
    if op == 0xf3 {
        Outcome::Success(data)
    } else {
        Outcome::Revert(data)
    }
}

/// Runs one instruction of the frame: exactly what `next` says of the frame, substate and
/// storage. Exceptional halts forfeit all gas and leave stack, memory, program counter,
/// storage and substate as they were; every step that leaves the frame running costs gas.
#[verifier::spinoff_prover]
#[verifier::rlimit(50)]
pub fn step(
    env: &ExecutionEnv,
    m: &mut MachineState,
    sub: &mut AccruedSubstate,
    storage: &mut Storage,
) -> (r: Outcome)
    requires
        old(m).wf(),
        old(sub).wf(),
    ensures
        final(m).wf(),
        final(sub).wf(),
        (end_of(&r), world_of(final(m), final(sub), final(storage))) == next(
            env,
            world_of(old(m), old(sub), old(storage)),
        ),
        disciplined(&r, old(m), final(m)),
        r is Exception ==> *final(sub) == *old(sub) && final(storage)@ == old(storage)@,
        final(sub).spec_accessed_accounts() == old(sub).spec_accessed_accounts(),
        final(sub).spec_touched_accounts().len() >= old(sub).spec_touched_accounts().len(),
        final(sub).spec_touched_accounts().subrange(0, old(sub).spec_touched_accounts().len() as int)
            == old(sub).spec_touched_accounts(),
        final(sub).spec_accessed_storage().len() >= old(sub).spec_accessed_storage().len(),
        final(sub).spec_accessed_storage().subrange(0, old(sub).spec_accessed_storage().len() as int)
            == old(sub).spec_accessed_storage(),
        final(storage)@ == old(storage)@ || (final(storage)@.len() == old(storage)@.len() + 1
            && final(storage)@.drop_last() == old(storage)@),
        final(sub).spec_log_series() == old(sub).spec_log_series() || (
        final(sub).spec_log_series().len() == old(sub).spec_log_series().len() + 1 && final(sub).spec_log_series().drop_last() == old(sub).spec_log_series()),
        final(sub).spec_self_destruct_accounts() == old(sub).spec_self_destruct_accounts() || (
        final(sub).spec_self_destruct_accounts().len() == old(sub).spec_self_destruct_accounts().len()
            + 1 && final(sub).spec_self_destruct_accounts().drop_last() == old(sub).spec_self_destruct_accounts()),
{
    let code = env.machine_code();
    let pc = m.program_counter;
    if pc >= code.len() {
        return Outcome::Success(Vec::new());
    }
    let op = code[pc];
    let ins = Instruction::from(op);
    if ins == Instruction::Invalid {
        return fail(m, Halt::InvalidInstruction);
    }
    let (delta, alpha) = ins.delta_alpha();
    let len = m.stack.len();
    if len < delta as usize {
        return fail(m, Halt::StackUnderflow);
    }
    if len - delta as usize + alpha as usize > MAX_LEN {
        return fail(m, Halt::StackOverflow);
    }
    if 0x60 <= op && op <= 0x7f {
        exec_push(env, m)
    } else if 0x80 <= op && op <= 0x9f {
        exec_shuffle(op, m)
    } else if (0x01 <= op && op <= 0x07) || op == 0x0b || (0x10 <= op && op <= 0x13) || (0x1a <= op
        && op <= 0x1d) {
        exec_binary(op, m)
    } else if 0x14 <= op && op <= 0x19 {
        exec_logic(op, m)
    } else if op == 0x30 || op == 0x32 || op == 0x33 || op == 0x34 || op == 0x36 || op == 0x38
        || op == 0x3a || op == 0x3d || (0x41 <= op && op <= 0x45) || op == 0x58 || op == 0x59
        || op == 0x5a {
        exec_context(op, env, m)
    } else if op == 0x35 {
        exec_calldataload(env, m)
    } else if op == 0x37 || op == 0x39 {
        exec_copy(op, env, m)
    } else if op == 0x50 || op == 0x5b {
        exec_shuffle(op, m)
    } else if op == 0x51 || op == 0x52 || op == 0x53 {
        exec_memory(op, m)
    } else if op == 0x54 || op == 0x55 {
        exec_storage(op, env, m, sub, storage)
    } else if op == 0x56 || op == 0x57 {
        exec_jump(op, env, m)
    } else if op == 0x08 || op == 0x09 {
        exec_modular(op, m)
    } else if op == 0x0a {
        exec_exp(m)
    } else if op == 0x20 {
        exec_keccak(m)
    } else if 0xa0 <= op && op <= 0xa4 {
        exec_log(op, env, m, sub)
    } else if op == 0xf3 || op == 0xfd {
        exec_return(op, m)
    } else if op == 0x00 {
        Outcome::Success(Vec::new())
    } else if op == 0xf0 || op == 0xf1 || op == 0xf2 || op == 0xf4 || op == 0xf5 || op == 0xfa {
        exec_call(op, env, m)
    } else if op == 0xff {
        if !env.write_access() {
            return fail(m, Halt::WriteProtection);
        }
        if !charge(m, 5000) {
            return fail(m, Halt::OutOfGas);
        }
        let beneficiary = match m.stack.pop() {
            Ok(b) => b,
            Err(_) => return fail(m, Halt::StackUnderflow),
        };
        sub.add_self_destruct(*env.account());
        sub.touch_account(word::word_to_address(&beneficiary));
        Outcome::Success(Vec::new())
    } else {
        fail(m, Halt::Unsupported)
    }
}

/// How a frame ended.
#[derive(Debug, PartialEq, Eq, Structural, Clone, Copy)]
pub enum Status {
    Success,
    Revert,
    Exception(Halt),
}

/// What a frame reports to its caller.
pub struct ExecutionResult {
    pub status: Status,
    pub gas_left: u64,
    pub return_data: Vec<u8>,
}

/// Runs the code of `env` with `gas` until the frame halts: the outcome that `frame_run`
/// gives, which repeats `next` from a fresh frame. A frame that reverts or halts
/// exceptionally leaves storage, self-destructs and logs as it found them; the touched and
/// accessed sets keep what the frame added, so warmth survives a revert.
pub fn execute(
    env: &ExecutionEnv,
    gas: u64,
    sub: &mut AccruedSubstate,
    storage: &mut Storage,
) -> (r: ExecutionResult)
    requires
        old(sub).wf(),
    ensures
        final(sub).wf(),
        r.gas_left <= gas,
        r.status is Exception ==> r.gas_left == 0 && r.return_data@.len() == 0,
        r.status !is Success ==> final(storage)@ == old(storage)@
            && final(sub).spec_self_destruct_accounts() == old(sub).spec_self_destruct_accounts()
            && final(sub).spec_log_series() == old(sub).spec_log_series(),
        r.status is Success ==> final(storage)@.len() >= old(storage)@.len()
            && final(storage)@.subrange(0, old(storage)@.len() as int) == old(storage)@,
        final(sub).spec_accessed_accounts() == old(sub).spec_accessed_accounts(),
        final(sub).spec_touched_accounts().len() >= old(sub).spec_touched_accounts().len(),
        final(sub).spec_touched_accounts().subrange(0, old(sub).spec_touched_accounts().len() as int)
            == old(sub).spec_touched_accounts(),
        final(sub).spec_accessed_storage().len() >= old(sub).spec_accessed_storage().len(),
        final(sub).spec_accessed_storage().subrange(0, old(sub).spec_accessed_storage().len() as int)
            == old(sub).spec_accessed_storage(),
        r.status is Success ==> final(sub).spec_log_series().len() >= old(sub).spec_log_series().len()
            && final(sub).spec_log_series().subrange(0, old(sub).spec_log_series().len() as int)
            == old(sub).spec_log_series() && final(sub).spec_self_destruct_accounts().len() >= old(sub).spec_self_destruct_accounts().len() && final(sub).spec_self_destruct_accounts().subrange(
            0,
            old(sub).spec_self_destruct_accounts().len() as int,
        ) == old(sub).spec_self_destruct_accounts(),
        !(frame_run(env, gas as nat, old(sub).model(), old(storage)@).0 is Running),
        frame_run(env, gas as nat, old(sub).model(), old(storage)@).0 matches StepEnd::Success(d)
            ==> r.status == Status::Success && r.return_data@ == d && r.gas_left == frame_run(
            env,
            gas as nat,
            old(sub).model(),
            old(storage)@,
        ).1.frame.gas && final(sub).model() == frame_run(
            env,
            gas as nat,
            old(sub).model(),
            old(storage)@,
        ).1.sub && final(storage)@ == frame_run(env, gas as nat, old(sub).model(), old(storage)@).1.storage,
        frame_run(env, gas as nat, old(sub).model(), old(storage)@).0 matches StepEnd::Revert(d)
            ==> r.status == Status::Revert && r.return_data@ == d && r.gas_left == frame_run(
            env,
            gas as nat,
            old(sub).model(),
            old(storage)@,
        ).1.frame.gas && final(sub).model() == reverted(
            frame_run(env, gas as nat, old(sub).model(), old(storage)@).1.sub,
            old(sub).model(),
        ) && final(storage)@ == old(storage)@,
        frame_run(env, gas as nat, old(sub).model(), old(storage)@).0 matches StepEnd::Exception(h)
            ==> r.status == Status::Exception(h) && r.return_data@.len() == 0 && r.gas_left == 0
            && final(sub).model() == reverted(
            frame_run(env, gas as nat, old(sub).model(), old(storage)@).1.sub,
            old(sub).model(),
        ) && final(storage)@ == old(storage)@,
{
    let sub_cp = sub.checkpoint();
    let storage_cp = storage.checkpoint();
    let ghost sub0 = *sub;
    let ghost storage0 = storage@;
    let mut m = MachineState::with_gas(gas);
    let ghost outcome0 = frame_run(env, gas as nat, sub0.model(), storage0);
    let ghost mut k: nat = gas as nat + 1;
    proof {
        assert(world_of(&m, sub, storage) == start(gas as nat, sub0.model(), storage0));
    }
    loop
        invariant
            k > m.gas_available,
            run(env, world_of(&m, sub, storage), k) == outcome0,
            outcome0 == frame_run(env, gas as nat, old(sub).model(), old(storage)@),
            m.wf(),
            sub.wf(),
            m.gas_available <= gas,
            storage0 == old(storage)@,
            sub0 == *old(sub),
            storage0.len() == storage_cp,
            storage@.len() >= storage0.len(),
            storage@.subrange(0, storage0.len() as int) == storage0,
            sub_cp.self_destructs == sub0.spec_self_destruct_accounts().len(),
            sub_cp.logs == sub0.spec_log_series().len(),
            sub.spec_self_destruct_accounts().len() >= sub0.spec_self_destruct_accounts().len(),
            sub.spec_self_destruct_accounts().subrange(
                0,
                sub0.spec_self_destruct_accounts().len() as int,
            ) == sub0.spec_self_destruct_accounts(),
            sub.spec_log_series().len() >= sub0.spec_log_series().len(),
            sub.spec_log_series().subrange(0, sub0.spec_log_series().len() as int)
                == sub0.spec_log_series(),
            sub.spec_accessed_accounts() == sub0.spec_accessed_accounts(),
            sub.spec_touched_accounts().len() >= sub0.spec_touched_accounts().len(),
            sub.spec_touched_accounts().subrange(0, sub0.spec_touched_accounts().len() as int)
                == sub0.spec_touched_accounts(),
            sub.spec_accessed_storage().len() >= sub0.spec_accessed_storage().len(),
            sub.spec_accessed_storage().subrange(0, sub0.spec_accessed_storage().len() as int)
                == sub0.spec_accessed_storage(),
        decreases m.gas_available,
    {
        let ghost st_before = storage@;
        let ghost sd_before = sub.spec_self_destruct_accounts();
        let ghost logs_before = sub.spec_log_series();
        let ghost w_before = world_of(&m, sub, storage);
        let ghost acc_before = sub.spec_accessed_storage();
        let ghost touched_before = sub.spec_touched_accounts();
        let outcome = step(env, &mut m, sub, storage);
        proof {
            if outcome is Running {
                k = (k - 1) as nat;
            }
            assert(sub.spec_accessed_storage().subrange(0, sub0.spec_accessed_storage().len() as int)
                =~= acc_before.subrange(0, sub0.spec_accessed_storage().len() as int));
            assert(sub.spec_touched_accounts().subrange(0, sub0.spec_touched_accounts().len() as int)
                =~= touched_before.subrange(0, sub0.spec_touched_accounts().len() as int));
            if storage@.len() > st_before.len() {
                assert(storage@.drop_last() == st_before);
                assert(storage@.subrange(0, storage0.len() as int) =~= st_before.subrange(
                    0,
                    storage0.len() as int,
                ));
            }
            if sub.spec_log_series().len() > logs_before.len() {
                assert(sub.spec_log_series().subrange(0, sub0.spec_log_series().len() as int)
                    =~= logs_before.subrange(0, sub0.spec_log_series().len() as int));
            }
            if sub.spec_self_destruct_accounts().len() > sd_before.len() {
                assert(sub.spec_self_destruct_accounts().subrange(
                    0,
                    sub0.spec_self_destruct_accounts().len() as int,
                ) =~= sd_before.subrange(0, sub0.spec_self_destruct_accounts().len() as int));
            }
        }
        match outcome {
            Outcome::Running => {},
            Outcome::Success(data) => {
                return ExecutionResult {
                    status: Status::Success,
                    gas_left: m.gas_available,
                    return_data: data,
                };
            },
            Outcome::Revert(data) => {
                sub.revert_to(sub_cp);
                storage.revert_to(storage_cp);
                proof {
                    assert(sub.spec_self_destruct_accounts() =~= sub0.spec_self_destruct_accounts());
                    assert(sub.spec_log_series() =~= sub0.spec_log_series());
                    assert(storage@ =~= storage0);
                    assert(sub.model().logs =~= sub0.model().logs);
                }
                return ExecutionResult {
                    status: Status::Revert,
                    gas_left: m.gas_available,
                    return_data: data,
                };
            },
            Outcome::Exception(h) => {
                sub.revert_to(sub_cp);
                storage.revert_to(storage_cp);
                proof {
                    assert(sub.spec_self_destruct_accounts() =~= sub0.spec_self_destruct_accounts());
                    assert(sub.spec_log_series() =~= sub0.spec_log_series());
                    assert(storage@ =~= storage0);
                    assert(sub.model().logs =~= sub0.model().logs);
                }
                return ExecutionResult {
                    status: Status::Exception(h),
                    gas_left: 0,
                    return_data: Vec::new(),
                };
            },
        }
    }
}

/// LOG0..LOG4: appends a log of the executing account with the memory range that the two
/// top words give and the next words as topics; 375 gas, 375 per topic, 8 per byte and
/// memory growth. Not allowed without write access.
fn exec_log(op: u8, env: &ExecutionEnv, m: &mut MachineState, sub: &mut AccruedSubstate) -> (r:
    Outcome)
    requires
        old(m).wf(),
        old(sub).wf(),
        0xa0 <= op <= 0xa4,
        old(m).stack@.len() >= op - 0x9e,
        old(m).program_counter < usize::MAX,
    ensures
        final(sub).spec_accessed_accounts() == old(sub).spec_accessed_accounts(),
        final(sub).spec_touched_accounts() == old(sub).spec_touched_accounts(),
        final(sub).spec_accessed_storage() == old(sub).spec_accessed_storage(),
        (end_of(&r), frame_of(final(m)), final(sub).model()) == log_effect(
            env,
            frame_of(old(m)),
            old(sub).model(),
            op,
        ),
        final(m).wf(),
        final(sub).wf(),
        disciplined(&r, old(m), final(m)),
        r is Exception ==> *final(sub) == *old(sub),
        r is Running || r == Outcome::Exception(Halt::OutOfGas) || r == Outcome::Exception(
            Halt::MemoryLimit,
        ) || r == Outcome::Exception(Halt::WriteProtection),
        !env.spec_write_access() ==> r == Outcome::Exception(Halt::WriteProtection),
        final(sub).spec_self_destruct_accounts() == old(sub).spec_self_destruct_accounts(),
        r is Running ==> {
            let s = old(m).stack@;
            let n = (op - 0xa0) as int;
            let lg = final(sub).spec_log_series().last();
            &&& final(m).stack@ == s.subrange(0, s.len() - n - 2)
            &&& final(m).program_counter == old(m).program_counter + 1
            &&& final(sub).spec_log_series().drop_last() == old(sub).spec_log_series()
            &&& final(sub).spec_log_series().len() == old(sub).spec_log_series().len() + 1
            &&& lg.address == env.spec_account()
            &&& lg.topics@.len() == n
            &&& forall|j: int|
                0 <= j < n ==> be_value(#[trigger] lg.topics@[j].0@) == word_value(
                    s[s.len() - 3 - j],
                )
            &&& lg.data@ == output(
                final(m).memory@,
                word_value(s.last()),
                word_value(s.drop_last().last()),
            )
        },
{
    if !env.write_access() {
        return fail(m, Halt::WriteProtection);
    }
    let n: usize = (op - 0xa0) as usize;
    let offset = match m.stack.get(0) {
        Some(o) => *o,
        None => return fail(m, Halt::StackUnderflow),
    };
    let size = match m.stack.get(1) {
        Some(s) => *s,
        None => return fail(m, Halt::StackUnderflow),
    };
    proof {
        lemma_zero_size(size);
    }
    let mut off: usize = 0;
    let mut len: usize = 0;
    if !size.is_zero() {
        len = match word_to_index(&size, MEMORY_LIMIT + 1) {
            Some(l) => l,
            None => return fail(m, Halt::MemoryLimit),
        };
        off = match word_to_index(&offset, MEMORY_LIMIT + 1) {
            Some(o) => o,
            None => return fail(m, Halt::MemoryLimit),
        };
        if len > MEMORY_LIMIT - off {
            return fail(m, Halt::MemoryLimit);
        }
    }
    proof {
        if is_zero_word(size) {
            word::lemma_zero_word(size);
        }
    }
    let mem_cost: u64 = if len == 0 {
        0
    } else {
        access_cost(m, off, len)
    };
    let cost: u64 = 375 + 375 * (n as u64) + 8 * (len as u64) + mem_cost;
    if !charge(m, cost) {
        return fail(m, Halt::OutOfGas);
    }
    let ghost s = m.stack@;
    let ghost total: int = s.len() as int;
    let ghost pc0 = m.program_counter;
    let ghost gas1 = m.gas_available;
    let ghost mem1 = m.memory@;
    let popped = m.stack.pop();
    let popped = m.stack.pop();
    assert(m.stack@ =~= s.subrange(0, total - 2));
    let mut topics: Vec<H256> = Vec::new();
    let mut i: usize = 0;
    while i < n
        invariant
            m.wf(),
            m.program_counter == pc0,
            m.gas_available == gas1,
            m.memory@ == mem1,
            pc0 < usize::MAX,
            i <= n <= 4,
            total >= n + 2,
            s.len() == total,
            m.stack@ == s.subrange(0, total - 2 - i),
            topics@.len() == i,
            forall|j: int|
                0 <= j < i ==> be_value(#[trigger] topics@[j].0@) == word_value(s[total - 3 - j]),
        decreases n - i,
    {
        let ghost prev = m.stack@;
        let t = match m.stack.pop() {
            Ok(t) => t,
            Err(_) => U256([0, 0, 0, 0]),
        };
        assert(t == s[total - 3 - i]);
        topics.push(word::word_to_hash(&t));
        i = i + 1;
        assert(prev.drop_last() =~= s.subrange(0, total - 2 - i));
    }
    let data = if len == 0 {
        Vec::new()
    } else {
        match m.memory.load(off, len) {
            Ok((d, _)) => d,
            Err(_) => Vec::new(),
        }
    };
    let log = Log { address: *env.account(), topics, data };
    proof {
        let f0 = frame_of(old(m));
        assert(log_model(log).topics =~= Seq::new(n as nat, |j: int| item(f0, 2 + j)));
    }
    sub.append_log(log);
    proof {
        assert(sub.model().logs =~= old(sub).model().logs.push(log_model(log)));
    }
    m.program_counter = m.program_counter + 1;
    Outcome::Running
}

/// KECCAK256: replaces the two top words, a memory range, with the Keccak-256 digest of
/// its bytes; 30 gas, 6 per word hashed and memory growth.
fn exec_keccak(m: &mut MachineState) -> (r: Outcome)
    requires
        old(m).wf(),
        old(m).stack@.len() >= 2,
        old(m).program_counter < usize::MAX,
    ensures
        (end_of(&r), frame_of(final(m))) == keccak_effect(frame_of(old(m))),
        final(m).wf(),
        disciplined(&r, old(m), final(m)),
        r is Running || r == Outcome::Exception(Halt::OutOfGas) || r == Outcome::Exception(
            Halt::MemoryLimit,
        ),
        r is Running ==> {
            let s = old(m).stack@;
            &&& final(m).stack@.drop_last() == s.drop_last().drop_last()
            &&& final(m).stack@.len() == s.len() - 1
            &&& word_value(final(m).stack@.last()) == be_value(
                keccak_of(
                    output(final(m).memory@, word_value(s.last()), word_value(s.drop_last().last())),
                ),
            )
            &&& final(m).program_counter == old(m).program_counter + 1
        },
{
    let offset = match m.stack.get(0) {
        Some(o) => *o,
        None => return fail(m, Halt::StackUnderflow),
    };
    let size = match m.stack.get(1) {
        Some(s) => *s,
        None => return fail(m, Halt::StackUnderflow),
    };
    proof {
        lemma_zero_size(size);
    }
    let mut off: usize = 0;
    let mut len: usize = 0;
    if !size.is_zero() {
        len = match word_to_index(&size, MEMORY_LIMIT + 1) {
            Some(l) => l,
            None => return fail(m, Halt::MemoryLimit),
        };
        off = match word_to_index(&offset, MEMORY_LIMIT + 1) {
            Some(o) => o,
            None => return fail(m, Halt::MemoryLimit),
        };
        if len > MEMORY_LIMIT - off {
            return fail(m, Halt::MemoryLimit);
        }
    }
    proof {
        if is_zero_word(size) {
            word::lemma_zero_word(size);
        }
    }
    let mem_cost: u64 = if len == 0 {
        0
    } else {
        access_cost(m, off, len)
    };
    let cost: u64 = 30 + 6 * ((len as u64 + 31) / 32) + mem_cost;
    if !charge(m, cost) {
        return fail(m, Halt::OutOfGas);
    }
    let data = if len == 0 {
        Vec::new()
    } else {
        match m.memory.load(off, len) {
            Ok((d, _)) => d,
            Err(_) => Vec::new(),
        }
    };
    let digest = keccak(data.as_slice());
    let popped = m.stack.pop();
    let popped = m.stack.pop();
    let hashed = word::word_from_hash(&digest);
    proof {
        word::lemma_word_with(hashed);
    }
    let pushed = m.stack.push(hashed);
    m.program_counter = m.program_counter + 1;
    Outcome::Running
}

/// Gas of EXP with exponent `e`: 10, and 50 for each byte of the exponent.
pub open spec fn exp_gas(e: nat) -> nat {
    10 + 50 * ((bit_len(e) + 7) / 8)
}

/// EXP: the top word raised to the second, modulo 2^256.
fn exec_exp(m: &mut MachineState) -> (r: Outcome)
    requires
        old(m).wf(),
        old(m).stack@.len() >= 2,
        old(m).program_counter < usize::MAX,
    ensures
        (end_of(&r), frame_of(final(m))) == exp_effect(frame_of(old(m))),
        final(m).wf(),
        disciplined(&r, old(m), final(m)),
        r is Running || r == Outcome::Exception(Halt::OutOfGas),
        r is Running ==> {
            let s = old(m).stack@;
            &&& final(m).gas_available == old(m).gas_available - exp_gas(
                word_value(s.drop_last().last()),
            )
            &&& final(m).stack@.drop_last() == s.drop_last().drop_last()
            &&& final(m).stack@.len() == s.len() - 1
            &&& word_value(final(m).stack@.last()) == wrap(
                pow(word_value(s.last()) as int, word_value(s.drop_last().last())),
            )
            &&& final(m).program_counter == old(m).program_counter + 1
            &&& final(m).memory@ == old(m).memory@
        },
{
    let e = match m.stack.get(1) {
        Some(e) => *e,
        None => return fail(m, Halt::StackUnderflow),
    };
    let bits: u64 = word::bit_length(&e) as u64;
    let cost: u64 = 10 + 50 * ((bits + 7) / 8);
    if !charge(m, cost) {
        return fail(m, Halt::OutOfGas);
    }
    let a = match m.stack.pop() {
        Ok(a) => a,
        Err(_) => return fail(m, Halt::StackUnderflow),
    };
    let popped = m.stack.pop();
    let powered = word::exp(a, e);
    proof {
        word::lemma_word_with(powered);
    }
    let pushed = m.stack.push(powered);
    m.program_counter = m.program_counter + 1;
    Outcome::Running
}

/// The `n` bytes of `src` from `offset` on, zero past its end.
pub open spec fn padded(src: Seq<u8>, offset: nat, n: nat) -> Seq<u8> {
    Seq::new(n, |i: int| if offset + i < src.len() { src[offset + i] } else { 0u8 })
}

/// The `n` bytes of `src` from `offset` on, zero past its end.
fn copy_padded(src: &Vec<u8>, offset: &U256, n: usize) -> (r: Vec<u8>)
    ensures
        r@ == padded(src@, word_value(*offset), n as nat),
{
    let len: usize = src.len();
    let mut out: Vec<u8> = Vec::new();
    let (start, avail): (usize, usize) = match word_to_index(offset, len) {
        Some(o) => (o, len - o),
        None => (0, 0),
    };
    let mut i: usize = 0;
    while i < n
        invariant
            i <= n,
            len == src@.len(),
            avail == 0 || (start < len && avail == len - start && start == word_value(*offset)),
            avail == 0 ==> word_value(*offset) >= len,
            out@ == padded(src@, word_value(*offset), n as nat).subrange(0, i as int),
        decreases n - i,
    {
        let b: u8 = if i < avail {
            src[start + i]
        } else {
            0
        };
        out.push(b);
        i = i + 1;
        assert(out@ =~= padded(src@, word_value(*offset), n as nat).subrange(0, i as int));
    }
    assert(out@ =~= padded(src@, word_value(*offset), n as nat));
    out
}

/// CALLDATACOPY and CODECOPY: copies input data or code, zero past its end, into memory;
/// the three top words give the memory offset, the source offset and the length. Three
/// gas, three per word copied and memory growth.
fn exec_copy(op: u8, env: &ExecutionEnv, m: &mut MachineState) -> (r: Outcome)
    requires
        old(m).wf(),
        op == 0x37 || op == 0x39,
        old(m).stack@.len() >= 3,
        old(m).program_counter < usize::MAX,
    ensures
        (end_of(&r), frame_of(final(m))) == copy_effect(env, frame_of(old(m)), op),
        final(m).wf(),
        disciplined(&r, old(m), final(m)),
        r is Running || r == Outcome::Exception(Halt::OutOfGas) || r == Outcome::Exception(
            Halt::MemoryLimit,
        ),
        r is Running ==> {
            let s = old(m).stack@;
            let dest = word_value(s.last());
            let from = word_value(s[s.len() - 2]);
            let n = word_value(s[s.len() - 3]);
            let src = if op == 0x37 {
                env.spec_data()@
            } else {
                env.spec_machine_code()@
            };
            &&& final(m).stack@ == s.subrange(0, s.len() - 3)
            &&& final(m).program_counter == old(m).program_counter + 1
            &&& n == 0 ==> final(m).memory@ == old(m).memory@
            &&& n > 0 ==> final(m).memory@ == crate::memory::written(
                grown(old(m).memory@, dest as int, n as int),
                dest as int,
                padded(src, from, n),
            )
        },
{
    let dest = match m.stack.get(0) {
        Some(d) => *d,
        None => return fail(m, Halt::StackUnderflow),
    };
    let from = match m.stack.get(1) {
        Some(f) => *f,
        None => return fail(m, Halt::StackUnderflow),
    };
    let size = match m.stack.get(2) {
        Some(s) => *s,
        None => return fail(m, Halt::StackUnderflow),
    };
    proof {
        lemma_zero_size(size);
    }
    let mut off: usize = 0;
    let mut len: usize = 0;
    if !size.is_zero() {
        len = match word_to_index(&size, MEMORY_LIMIT + 1) {
            Some(l) => l,
            None => return fail(m, Halt::MemoryLimit),
        };
        off = match word_to_index(&dest, MEMORY_LIMIT + 1) {
            Some(o) => o,
            None => return fail(m, Halt::MemoryLimit),
        };
        if len > MEMORY_LIMIT - off {
            return fail(m, Halt::MemoryLimit);
        }
    }
    proof {
        if is_zero_word(size) {
            word::lemma_zero_word(size);
        }
    }
    let mem_cost: u64 = if len == 0 {
        0
    } else {
        access_cost(m, off, len)
    };
    let cost: u64 = 3 + 3 * ((len as u64 + 31) / 32) + mem_cost;
    if !charge(m, cost) {
        return fail(m, Halt::OutOfGas);
    }
    let src = if op == 0x37 {
        env.data()
    } else {
        env.machine_code()
    };
    let bytes = copy_padded(src, &from, len);
    let ghost s = m.stack@;
    let popped = m.stack.pop();
    let popped = m.stack.pop();
    let popped = m.stack.pop();
    assert(m.stack@ =~= s.subrange(0, s.len() - 3));
    if len > 0 {
        let grew = m.memory.store(off, bytes.as_slice());
    }
    m.program_counter = m.program_counter + 1;
    Outcome::Running
}

/// ADDMOD and MULMOD: the two top words added or multiplied modulo the third, without
/// wrapping; eight gas.
fn exec_modular(op: u8, m: &mut MachineState) -> (r: Outcome)
    requires
        old(m).wf(),
        op == 0x08 || op == 0x09,
        old(m).stack@.len() >= 3,
        old(m).program_counter < usize::MAX,
    ensures
        (end_of(&r), frame_of(final(m))) == modular_effect(frame_of(old(m)), op),
        final(m).wf(),
        disciplined(&r, old(m), final(m)),
        r is Running || r == Outcome::Exception(Halt::OutOfGas),
        r is Running ==> {
            let s = old(m).stack@;
            &&& final(m).stack@.drop_last() == s.subrange(0, s.len() - 3)
            &&& final(m).stack@.len() == s.len() - 2
            &&& op == 0x08 ==> word_value(final(m).stack@.last()) == word::addmod_value(
                word_value(s.last()),
                word_value(s[s.len() - 2]),
                word_value(s[s.len() - 3]),
            )
            &&& op == 0x09 ==> word_value(final(m).stack@.last()) == word::mulmod_value(
                word_value(s.last()),
                word_value(s[s.len() - 2]),
                word_value(s[s.len() - 3]),
            )
            &&& final(m).program_counter == old(m).program_counter + 1
            &&& final(m).memory@ == old(m).memory@
        },
{
    if !charge(m, 8) {
        return fail(m, Halt::OutOfGas);
    }
    let ghost s = m.stack@;
    let a = match m.stack.pop() {
        Ok(a) => a,
        Err(_) => return fail(m, Halt::StackUnderflow),
    };
    let b = match m.stack.pop() {
        Ok(b) => b,
        Err(_) => return fail(m, Halt::StackUnderflow),
    };
    let n = match m.stack.pop() {
        Ok(n) => n,
        Err(_) => return fail(m, Halt::StackUnderflow),
    };
    assert(m.stack@ =~= s.subrange(0, s.len() - 3));
    let v = if op == 0x08 {
        word::addmod(a, b, n)
    } else {
        word::mulmod(a, b, n)
    };
    proof {
        word::lemma_word_with(v);
    }
    let pushed = m.stack.push(v);
    m.program_counter = m.program_counter + 1;
    Outcome::Running
}

/// A step that leaves the frame running takes gas and leaves the stack with `delta` items
/// taken and `alpha` items put, by the instruction table.
pub proof fn lemma_running_step(env: &ExecutionEnv, w: World)
    requires
        next(env, w).0 is Running,
    ensures
        w.frame.pc < env.spec_machine_code()@.len(),
        next(env, w).1.frame.gas < w.frame.gas,
        next(env, w).1.frame.stack.len() == w.frame.stack.len() - stack_delta(
            env.spec_machine_code()@[w.frame.pc as int],
        ) + stack_alpha(env.spec_machine_code()@[w.frame.pc as int]),
{
}

/// SSTORE in a frame without write access halts exceptionally whatever gas is left, and
/// leaves storage as it was.
pub proof fn lemma_static_sstore(env: &ExecutionEnv, w: World)
    requires
        !env.spec_write_access(),
        w.frame.pc < env.spec_machine_code()@.len(),
        env.spec_machine_code()@[w.frame.pc as int] == 0x55,
        2 <= w.frame.stack.len() <= MAX_LEN,
    ensures
        next(env, w).0 == StepEnd::Exception(Halt::WriteProtection),
        next(env, w).1.storage == w.storage,
        next(env, w).1.frame.gas == 0,
{
}

/// JUMP with eight gas lands exactly on a JUMPDEST target, and halts exceptionally on any
/// other target.
pub proof fn lemma_jump(env: &ExecutionEnv, w: World)
    requires
        w.frame.pc < env.spec_machine_code()@.len(),
        env.spec_machine_code()@[w.frame.pc as int] == 0x56,
        1 <= w.frame.stack.len() <= MAX_LEN,
        w.frame.gas >= 8,
    ensures
        is_jumpdest(env.spec_machine_code()@, word_value(w.frame.stack.last())) ==> next(env, w).0
            is Running && next(env, w).1.frame.pc == word_value(w.frame.stack.last()),
        !is_jumpdest(env.spec_machine_code()@, word_value(w.frame.stack.last())) ==> next(
            env,
            w,
        ).0 == StepEnd::Exception(Halt::InvalidJump),
{
}

/// PUSH with three gas and room on the stack runs, pushing the immediate bytes read as zero
/// past the end of the code.
pub proof fn lemma_push(env: &ExecutionEnv, w: World)
    requires
        w.frame.pc < env.spec_machine_code()@.len(),
        0x60 <= env.spec_machine_code()@[w.frame.pc as int] <= 0x7f,
        w.frame.stack.len() < MAX_LEN,
        w.frame.gas >= 3,
    ensures
        next(env, w).0 is Running,
        next(env, w).1.frame.stack == w.frame.stack.push(
            word_with(
                be_value(
                    immediate(
                        env.spec_machine_code()@,
                        w.frame.pc as int,
                        push_len(env.spec_machine_code()@[w.frame.pc as int]),
                    ),
                ),
            ),
        ),
{
}

/// CREATE, CALL, CALLCODE, DELEGATECALL, CREATE2 and STATICCALL, as `call_effect` says.
fn exec_call(op: u8, env: &ExecutionEnv, m: &mut MachineState) -> (r: Outcome)
    requires
        old(m).wf(),
        is_call(op),
        old(m).stack@.len() >= stack_delta(op),
        old(m).program_counter < usize::MAX,
    ensures
        final(m).wf(),
        disciplined(&r, old(m), final(m)),
        (end_of(&r), frame_of(final(m))) == call_effect(env, frame_of(old(m)), op),
{
    let delta: usize = if op == 0xf1 || op == 0xf2 {
        7
    } else if op == 0xf4 || op == 0xfa {
        6
    } else if op == 0xf5 {
        4
    } else {
        3
    };
    assert(delta == stack_delta(op));
    if !env.write_access() {
        if op == 0xf0 || op == 0xf5 {
            return fail(m, Halt::WriteProtection);
        }
        if op == 0xf1 {
            let value = match m.stack.get(2) {
                Some(v) => *v,
                None => return fail(m, Halt::StackUnderflow),
            };
            proof {
                lemma_zero_size(value);
            }
            if !value.is_zero() {
                return fail(m, Halt::WriteProtection);
            }
        }
    }
    if word_to_index(env.depth(), MAX_CALL_DEPTH).is_some() {
        return fail(m, Halt::Unsupported);
    }
    let cost: u64 = if op == 0xf0 || op == 0xf5 {
        32000
    } else {
        100
    };
    if !charge(m, cost) {
        return fail(m, Halt::OutOfGas);
    }
    let ghost s = m.stack@;
    let ghost pc0 = m.program_counter;
    let ghost gas1 = m.gas_available;
    let mut i: usize = 0;
    while i < delta
        invariant
            m.wf(),
            i <= delta <= 7,
            delta <= s.len(),
            m.stack@ == s.subrange(0, s.len() - i),
            m.program_counter == pc0,
            m.gas_available == gas1,
            m.memory@ == old(m).memory@,
            pc0 < usize::MAX,
        decreases delta - i,
    {
        let popped = m.stack.pop();
        i = i + 1;
        assert(m.stack@ =~= s.subrange(0, s.len() - i));
    }
    let zero = word_from_u64(0);
    proof {
        word::lemma_word_with(zero);
    }
    let pushed = m.stack.push(zero);
    m.program_counter = m.program_counter + 1;
    Outcome::Running
}

/// A call or create at the depth limit, with its operands and gas, fails softly: the frame
/// keeps running with its operands replaced by a zero status word.
pub proof fn lemma_call_at_depth_limit(env: &ExecutionEnv, w: World)
    requires
        w.frame.pc < env.spec_machine_code()@.len(),
        is_call(env.spec_machine_code()@[w.frame.pc as int]),
        env.spec_write_access() || env.spec_machine_code()@[w.frame.pc as int] == 0xf2
            || env.spec_machine_code()@[w.frame.pc as int] == 0xf4
            || env.spec_machine_code()@[w.frame.pc as int] == 0xfa,
        word_value(env.spec_depth()) >= MAX_CALL_DEPTH,
        stack_delta(env.spec_machine_code()@[w.frame.pc as int]) <= w.frame.stack.len() <= MAX_LEN,
        w.frame.gas >= call_gas(env.spec_machine_code()@[w.frame.pc as int]),
    ensures
        next(env, w).0 is Running,
        next(env, w).1.frame.pc == w.frame.pc + 1,
        next(env, w).1.frame.stack.len() == w.frame.stack.len() - stack_delta(
            env.spec_machine_code()@[w.frame.pc as int],
        ) + 1,
        word_value(next(env, w).1.frame.stack.last()) == 0,
        next(env, w).1.sub == w.sub,
        next(env, w).1.storage == w.storage,
{
    assert(exists|v: U256| word_value(v) == 0) by {
        let zero = U256([0, 0, 0, 0]);
        word::lemma_zero_word(zero);
    }
}

/// DIV by a zero divisor, with its gas and operands, runs on and leaves zero.
pub proof fn lemma_div_by_zero_step(env: &ExecutionEnv, w: World)
    requires
        w.frame.pc < env.spec_machine_code()@.len(),
        env.spec_machine_code()@[w.frame.pc as int] == 0x04,
        2 <= w.frame.stack.len() <= MAX_LEN,
        w.frame.gas >= 5,
        item(w.frame, 1) == 0,
    ensures
        next(env, w).0 is Running,
        next(env, w).1.frame.stack.len() == w.frame.stack.len() - 1,
        word_value(next(env, w).1.frame.stack.last()) == 0,
{
    word::lemma_zero_divisor(item(w.frame, 0));
    assert(exists|u: U256| word_value(u) == 0) by {
        word::lemma_zero_word(U256([0, 0, 0, 0]));
    }
}

/// A read-only frame running PUSH1 1, PUSH1 0, SSTORE halts exceptionally with whatever
/// gas it starts: all gas is forfeit, no data is returned and storage is left alone.
pub proof fn lemma_static_sstore_frame(
    env: &ExecutionEnv,
    gas: nat,
    sub: SubstateModel,
    st: Seq<(U256, U256)>,
)
    requires
        !env.spec_write_access(),
        env.spec_machine_code()@ == seq![0x60u8, 0x01, 0x60, 0x00, 0x55],
    ensures
        frame_run(env, gas, sub, st).0 is Exception,
        frame_run(env, gas, sub, st).1.frame.gas == 0,
        frame_run(env, gas, sub, st).1.storage == st,
{
    reveal_with_fuel(run, 4);
    let w0 = start(gas, sub, st);
    let (e1, w1) = next(env, w0);
    if gas >= 3 {
        let (e2, w2) = next(env, w1);
        if gas >= 6 {
            let (e3, w3) = next(env, w2);
            assert(e3 == StepEnd::Exception(Halt::WriteProtection));
        }
    }
}

} // verus!