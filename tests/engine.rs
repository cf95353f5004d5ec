use ethereum_types::{Address, Bloom, H256, U256, U64};
use evm_core::block::BlockHeader;
use evm_core::engine::{execute, step, valid_jump, Halt, Outcome, Status};
use evm_core::env::ExecutionEnv;
use evm_core::machine::MachineState;
use evm_core::storage::Storage;
use evm_core::substate::AccruedSubstate;

fn header() -> BlockHeader {
    BlockHeader {
        parent_hash: H256::zero(),
        ommers_hash: H256::zero(),
        beneficiary: Address::zero(),
        state_root: H256::zero(),
        transactions_root: H256::zero(),
        receipts_root: H256::zero(),
        logs_bloom: Bloom::zero(),
        difficulty: U256::zero(),
        number: U256::zero(),
        gas_limit: U256::zero(),
        gas_used: U256::zero(),
        timestamp: U256::zero(),
        extra_data: None,
        mix_hash: H256::zero(),
        nonce: U64::zero(),
    }
}

fn env_with(code: Vec<u8>, write_access: bool) -> ExecutionEnv {
    env_at_depth(code, write_access, U256::zero())
}

fn env_at_depth(code: Vec<u8>, write_access: bool, depth: U256) -> ExecutionEnv {
    ExecutionEnv::new(
        Address::from_low_u64_be(0xaa),
        Address::from_low_u64_be(0xbb),
        U256::one(),
        vec![1, 2, 3],
        Address::from_low_u64_be(0xcc),
        U256::from(9u64),
        code,
        header(),
        depth,
        write_access,
    )
}

#[test]
fn add_and_return_five() {
    let code = vec![
        0x60, 0x02, 0x60, 0x03, 0x01, 0x60, 0x00, 0x52, 0x60, 0x20, 0x60, 0x00, 0xf3,
    ];
    let env = env_with(code, true);
    let mut sub = AccruedSubstate::empty();
    let mut storage = Storage::new();
    let r = execute(&env, 100_000, &mut sub, &mut storage);
    assert_eq!(r.status, Status::Success);
    assert_eq!(r.return_data.len(), 32);
    assert_eq!(U256::from_big_endian(&r.return_data), U256::from(5u64));
    // 3 + 3 + 3 + (3 + 3) + 3 + 3 + 0: five pushes, ADD, MSTORE with one word of memory.
    assert_eq!(r.gas_left, 100_000 - 24);
}

#[test]
fn sstore_in_static_frame_halts() {
    let code = vec![0x60, 0x01, 0x60, 0x00, 0x55];
    let env = env_with(code, false);
    let mut sub = AccruedSubstate::empty();
    let mut storage = Storage::new();
    let r = execute(&env, 1_000_000, &mut sub, &mut storage);
    assert_eq!(r.status, Status::Exception(Halt::WriteProtection));
    assert_eq!(r.gas_left, 0);
    assert_eq!(storage.checkpoint(), 0);
    assert_eq!(storage.get(&U256::zero()), U256::zero());
}

#[test]
fn sstore_with_write_access_stores() {
    let code = vec![0x60, 0x07, 0x60, 0x01, 0x55, 0x60, 0x01, 0x54, 0x60, 0x00, 0x52, 0x60, 0x20, 0x60, 0x00, 0xf3];
    let env = env_with(code, true);
    let mut sub = AccruedSubstate::empty();
    let mut storage = Storage::new();
    let r = execute(&env, 1_000_000, &mut sub, &mut storage);
    assert_eq!(r.status, Status::Success);
    assert_eq!(storage.get(&U256::one()), U256::from(7u64));
    assert_eq!(U256::from_big_endian(&r.return_data), U256::from(7u64));
    assert_eq!(sub.accessed_storage().len(), 1);
}

#[test]
fn revert_discards_storage_writes() {
    let code = vec![0x60, 0x01, 0x60, 0x00, 0x55, 0x60, 0x00, 0x60, 0x00, 0xfd];
    let env = env_with(code, true);
    let mut sub = AccruedSubstate::empty();
    let mut storage = Storage::new();
    let r = execute(&env, 1_000_000, &mut sub, &mut storage);
    assert_eq!(r.status, Status::Revert);
    assert!(r.return_data.is_empty());
    assert!(r.gas_left > 0);
    assert_eq!(storage.checkpoint(), 0);
    // The slot stays warm after the revert.
    assert_eq!(sub.accessed_storage().len(), 1);
}

#[test]
fn self_destruct_then_revert_is_forgotten() {
    let mut sub = AccruedSubstate::empty();
    let a = Address::from_low_u64_be(0x42);
    let cp = sub.checkpoint();
    sub.add_self_destruct(a);
    assert_eq!(sub.self_destruct_accounts().len(), 1);
    sub.revert_to(cp);
    assert!(sub.self_destruct_accounts().is_empty());
}

#[test]
fn self_destruct_frame_records_account() {
    let env = env_with(vec![0x60, 0x00, 0xff], true);
    let mut sub = AccruedSubstate::empty();
    let mut storage = Storage::new();
    let r = execute(&env, 100_000, &mut sub, &mut storage);
    assert_eq!(r.status, Status::Success);
    assert_eq!(sub.self_destruct_accounts(), &vec![Address::from_low_u64_be(0xaa)]);
    // A second self-destruct of the same account leaves the set as it is.
    sub.add_self_destruct(Address::from_low_u64_be(0xaa));
    assert_eq!(sub.self_destruct_accounts().len(), 1);
}

#[test]
fn push_past_end_of_code_reads_zero() {
    let env = env_with(vec![0x60], true);
    let mut m = MachineState::with_gas(10);
    let mut sub = AccruedSubstate::empty();
    let mut storage = Storage::new();
    let r = step(&env, &mut m, &mut sub, &mut storage);
    assert_eq!(r, Outcome::Running);
    assert_eq!(m.stack().get(0), Some(&U256::zero()));
    assert_eq!(m.program_counter(), 2);
    assert_eq!(m.gas_available(), 7);
    // Past the end of the code the frame stops.
    match step(&env, &mut m, &mut sub, &mut storage) {
        Outcome::Success(d) => assert!(d.is_empty()),
        other => panic!("expected success, got {:?}", other),
    }
}

#[test]
fn push2_pads_missing_byte_with_zero() {
    let env = env_with(vec![0x61, 0xab], true);
    let mut m = MachineState::with_gas(10);
    let mut sub = AccruedSubstate::empty();
    let mut storage = Storage::new();
    assert_eq!(step(&env, &mut m, &mut sub, &mut storage), Outcome::Running);
    assert_eq!(m.stack().get(0), Some(&U256::from(0xab00u64)));
    assert_eq!(m.program_counter(), 3);
}

#[test]
fn jump_to_jumpdest_sets_counter() {
    let env = env_with(vec![0x60, 0x04, 0x56, 0x00, 0x5b], true);
    let mut m = MachineState::with_gas(100);
    let mut sub = AccruedSubstate::empty();
    let mut storage = Storage::new();
    assert_eq!(step(&env, &mut m, &mut sub, &mut storage), Outcome::Running);
    assert_eq!(step(&env, &mut m, &mut sub, &mut storage), Outcome::Running);
    assert_eq!(m.program_counter(), 4);
    assert!(m.stack().is_empty());
    assert_eq!(m.gas_available(), 100 - 3 - 8);
}

#[test]
fn jump_to_non_jumpdest_halts() {
    let env = env_with(vec![0x60, 0x03, 0x56, 0x00], true);
    let mut sub = AccruedSubstate::empty();
    let mut storage = Storage::new();
    let r = execute(&env, 100, &mut sub, &mut storage);
    assert_eq!(r.status, Status::Exception(Halt::InvalidJump));
    assert_eq!(r.gas_left, 0);
}

#[test]
fn jump_into_push_data_halts() {
    let code = vec![0x60, 0x5b, 0x60, 0x01, 0x56];
    assert!(!valid_jump(&code, 1));
    assert!(!valid_jump(&code, 9));
    assert!(valid_jump(&vec![0x5b], 0));
    let env = env_with(code, true);
    let mut sub = AccruedSubstate::empty();
    let mut storage = Storage::new();
    let r = execute(&env, 100, &mut sub, &mut storage);
    assert_eq!(r.status, Status::Exception(Halt::InvalidJump));
}

#[test]
fn jumpi_falls_through_on_zero() {
    let env = env_with(vec![0x60, 0x00, 0x60, 0x09, 0x57, 0x60, 0x01, 0x00], true);
    let mut sub = AccruedSubstate::empty();
    let mut storage = Storage::new();
    let r = execute(&env, 100, &mut sub, &mut storage);
    assert_eq!(r.status, Status::Success);
    assert_eq!(r.gas_left, 100 - 3 - 3 - 10 - 3);
}

#[test]
fn underflow_and_invalid_instructions_halt() {
    let mut sub = AccruedSubstate::empty();
    let mut storage = Storage::new();
    let r = execute(&env_with(vec![0x01], true), 100, &mut sub, &mut storage);
    assert_eq!(r.status, Status::Exception(Halt::StackUnderflow));
    let r = execute(&env_with(vec![0xfe], true), 100, &mut sub, &mut storage);
    assert_eq!(r.status, Status::Exception(Halt::InvalidInstruction));
    let r = execute(&env_with(vec![0x0c], true), 100, &mut sub, &mut storage);
    assert_eq!(r.status, Status::Exception(Halt::InvalidInstruction));
    let r = execute(&env_with(vec![0x60, 0x01], true), 2, &mut sub, &mut storage);
    assert_eq!(r.status, Status::Exception(Halt::OutOfGas));
}

#[test]
fn empty_code_succeeds_without_gas() {
    let mut sub = AccruedSubstate::empty();
    let mut storage = Storage::new();
    let r = execute(&env_with(vec![], true), 50, &mut sub, &mut storage);
    assert_eq!(r.status, Status::Success);
    assert_eq!(r.gas_left, 50);
}

#[test]
fn dup_swap_and_context_values() {
    // PUSH1 1, PUSH1 2, DUP2, SWAP2, CALLVALUE, CALLDATASIZE, CODESIZE, PC
    let env = env_with(vec![0x60, 0x01, 0x60, 0x02, 0x81, 0x91, 0x34, 0x36, 0x38, 0x58], true);
    let mut m = MachineState::with_gas(1000);
    let mut sub = AccruedSubstate::empty();
    let mut storage = Storage::new();
    for _ in 0..8 {
        assert_eq!(step(&env, &mut m, &mut sub, &mut storage), Outcome::Running);
    }
    assert_eq!(m.stack().get(0), Some(&U256::from(9u64)));
    assert_eq!(m.stack().get(1), Some(&U256::from(10u64)));
    assert_eq!(m.stack().get(2), Some(&U256::from(3u64)));
    assert_eq!(m.stack().get(3), Some(&U256::from(9u64)));
    assert_eq!(m.stack().get(4), Some(&U256::one()));
    assert_eq!(m.stack().get(5), Some(&U256::from(2u64)));
    assert_eq!(m.stack().get(6), Some(&U256::one()));
}

#[test]
fn mstore8_and_mload_round_trip() {
    // PUSH1 0xff, PUSH1 31, MSTORE8, PUSH1 0, MLOAD, MSIZE
    let env = env_with(vec![0x60, 0xff, 0x60, 0x1f, 0x53, 0x60, 0x00, 0x51, 0x59], true);
    let mut m = MachineState::with_gas(1000);
    let mut sub = AccruedSubstate::empty();
    let mut storage = Storage::new();
    for _ in 0..6 {
        assert_eq!(step(&env, &mut m, &mut sub, &mut storage), Outcome::Running);
    }
    assert_eq!(m.stack().get(0), Some(&U256::from(32u64)));
    assert_eq!(m.stack().get(1), Some(&U256::from(0xffu64)));
    assert_eq!(m.words_in_memory(), 1);
}

#[test]
fn logic_instructions() {
    // PUSH1 6, PUSH1 3, AND, ISZERO, NOT
    let env = env_with(vec![0x60, 0x06, 0x60, 0x03, 0x16, 0x15, 0x19], true);
    let mut m = MachineState::with_gas(1000);
    let mut sub = AccruedSubstate::empty();
    let mut storage = Storage::new();
    for _ in 0..4 {
        assert_eq!(step(&env, &mut m, &mut sub, &mut storage), Outcome::Running);
    }
    assert_eq!(m.stack().get(0), Some(&U256::zero()));
    assert_eq!(step(&env, &mut m, &mut sub, &mut storage), Outcome::Running);
    assert_eq!(m.stack().get(0), Some(&U256::MAX));
}

fn run(code: Vec<u8>, gas: u64) -> (evm_core::engine::ExecutionResult, AccruedSubstate) {
    let env = env_with(code, true);
    let mut sub = AccruedSubstate::empty();
    let mut storage = Storage::new();
    let r = execute(&env, gas, &mut sub, &mut storage);
    (r, sub)
}

fn returned_word(code: Vec<u8>) -> U256 {
    let mut code = code;
    // MSTORE the top at 0, RETURN 32 bytes.
    code.extend_from_slice(&[0x60, 0x00, 0x52, 0x60, 0x20, 0x60, 0x00, 0xf3]);
    let (r, _) = run(code, 1_000_000);
    assert_eq!(r.status, Status::Success);
    U256::from_big_endian(&r.return_data)
}

#[test]
fn keccak_of_empty_range() {
    let w = returned_word(vec![0x60, 0x00, 0x60, 0x00, 0x20]);
    assert_eq!(H256::from_slice(&w.to_big_endian()), keccak_hash::KECCAK_EMPTY);
}

#[test]
fn keccak_of_memory_bytes() {
    // MSTORE8 0x61 at 0, KECCAK256 of one byte at 0.
    let w = returned_word(vec![0x60, 0x61, 0x60, 0x00, 0x53, 0x60, 0x01, 0x60, 0x00, 0x20]);
    assert_eq!(H256::from_slice(&w.to_big_endian()), keccak_hash::keccak(b"a"));
}

#[test]
fn exp_shift_and_signed_in_frame() {
    assert_eq!(returned_word(vec![0x60, 0x03, 0x60, 0x02, 0x0a]), U256::from(8u64));
    assert_eq!(returned_word(vec![0x60, 0x01, 0x60, 0x08, 0x1b]), U256::from(256u64));
    assert_eq!(returned_word(vec![0x61, 0x01, 0x00, 0x60, 0x08, 0x1c]), U256::one());
    // SLT: -1 < 1 with -1 = NOT 0 on top.
    assert_eq!(returned_word(vec![0x60, 0x01, 0x60, 0x00, 0x19, 0x12]), U256::one());
    // SMOD: -8 mod 3 = -2.
    let minus_two = U256::MAX - U256::one();
    assert_eq!(
        returned_word(vec![0x60, 0x03, 0x60, 0x08, 0x60, 0x00, 0x03, 0x07]),
        minus_two
    );
}

#[test]
fn exp_gas_counts_exponent_bytes() {
    // PUSH2 0x0100 (exponent), PUSH1 2 (base), EXP, STOP.
    let (r, _) = run(vec![0x61, 0x01, 0x00, 0x60, 0x02, 0x0a, 0x00], 1000);
    assert_eq!(r.status, Status::Success);
    assert_eq!(r.gas_left, 1000 - 3 - 3 - (10 + 50 * 2));
}

#[test]
fn log_records_topics_and_data() {
    // MSTORE8 0xab at 0; LOG1 with topic 7 over one byte at 0.
    let code = vec![0x60, 0xab, 0x60, 0x00, 0x53, 0x60, 0x07, 0x60, 0x01, 0x60, 0x00, 0xa1, 0x00];
    let (r, sub) = run(code, 10_000);
    assert_eq!(r.status, Status::Success);
    assert_eq!(sub.log_series().len(), 1);
    let log = &sub.log_series()[0];
    assert_eq!(log.address, Address::from_low_u64_be(0xaa));
    assert_eq!(log.topics, vec![H256::from_low_u64_be(7)]);
    assert_eq!(log.data, vec![0xab]);
    assert_eq!(r.gas_left, 10_000 - 3 - 3 - 6 - 3 - 3 - 3 - (375 + 375 + 8));
}

#[test]
fn log_in_static_frame_halts() {
    let env = env_with(vec![0x60, 0x00, 0x60, 0x00, 0xa0], false);
    let mut sub = AccruedSubstate::empty();
    let mut storage = Storage::new();
    let r = execute(&env, 10_000, &mut sub, &mut storage);
    assert_eq!(r.status, Status::Exception(Halt::WriteProtection));
    assert!(sub.log_series().is_empty());
}

#[test]
fn reverted_frame_drops_its_logs() {
    let code = vec![0x60, 0x00, 0x60, 0x00, 0xa0, 0x60, 0x00, 0x60, 0x00, 0xfd];
    let (r, sub) = run(code, 10_000);
    assert_eq!(r.status, Status::Revert);
    assert!(sub.log_series().is_empty());
}

#[test]
fn context_instructions_read_environment() {
    assert_eq!(returned_word(vec![0x30]), U256::from(0xaau64));
    assert_eq!(returned_word(vec![0x32]), U256::from(0xbbu64));
    assert_eq!(returned_word(vec![0x33]), U256::from(0xccu64));
    assert_eq!(returned_word(vec![0x3a]), U256::one());
    assert_eq!(returned_word(vec![0x43]), U256::zero());
    // CALLDATALOAD at 1: bytes 2, 3 then zeros.
    let mut expected = [0u8; 32];
    expected[0] = 2;
    expected[1] = 3;
    assert_eq!(returned_word(vec![0x60, 0x01, 0x35]), U256::from_big_endian(&expected));
    assert_eq!(returned_word(vec![0x60, 0x09, 0x35]), U256::zero());
    // GAS after PUSH-free GAS itself: 1_000_000 - 2.
    assert_eq!(returned_word(vec![0x5a]), U256::from(999_998u64));
}

#[test]
fn unsupported_instruction_halts() {
    let (r, _) = run(vec![0xf1], 100);
    assert_eq!(r.status, Status::Exception(Halt::StackUnderflow));
    let (r, _) = run(vec![0x60, 0x00, 0x60, 0x00, 0x60, 0x00, 0xf0], 100_000);
    assert_eq!(r.status, Status::Exception(Halt::Unsupported));
    let (r, _) = run(vec![0x46], 100);
    assert_eq!(r.status, Status::Exception(Halt::Unsupported));
}

#[test]
fn addmod_does_not_wrap() {
    // ADDMOD(MAX, 2, 10): (2^256 - 1 + 2) mod 10 = (2^256 + 1) mod 10 = 7.
    let mut code = vec![0x60, 0x0a, 0x60, 0x02, 0x7f];
    code.extend_from_slice(&[0xff; 32]);
    code.push(0x08);
    assert_eq!(returned_word(code), U256::from(7u64));
    assert_eq!(evm_core::word::addmod(U256::from(5u64), U256::from(6u64), U256::zero()), U256::zero());
    assert_eq!(evm_core::word::addmod(U256::from(5u64), U256::from(6u64), U256::from(4u64)), U256::from(3u64));
}

#[test]
fn copies_pad_with_zero() {
    // CALLDATACOPY 4 bytes of input from 1 to memory 0; input is [1, 2, 3].
    let w = returned_word(vec![0x60, 0x04, 0x60, 0x01, 0x60, 0x00, 0x37, 0x60, 0x00, 0x51]);
    let mut expected = [0u8; 32];
    expected[0] = 2;
    expected[1] = 3;
    assert_eq!(w, U256::from_big_endian(&expected));
    // CODECOPY 2 bytes of code from 0 to memory 0.
    let w = returned_word(vec![0x60, 0x02, 0x60, 0x00, 0x60, 0x00, 0x39, 0x60, 0x00, 0x51]);
    let mut expected = [0u8; 32];
    expected[0] = 0x60;
    expected[1] = 0x02;
    assert_eq!(w, U256::from_big_endian(&expected));
    assert_eq!(returned_word(vec![0x3d]), U256::zero());
}

#[test]
fn copy_gas_counts_words() {
    // CALLDATACOPY 33 bytes to 0: 3 + 3 * 2 words + memory of 2 words (6).
    let (r, _) = run(vec![0x60, 0x21, 0x60, 0x00, 0x60, 0x00, 0x37, 0x00], 1000);
    assert_eq!(r.status, Status::Success);
    assert_eq!(r.gas_left, 1000 - 9 - (3 + 6 + 6));
}

#[test]
fn mulmod_in_frame() {
    // MULMOD(3, 5, 4) = 15 mod 4 = 3.
    assert_eq!(returned_word(vec![0x60, 0x04, 0x60, 0x05, 0x60, 0x03, 0x09]), U256::from(3u64));
}

#[test]
fn call_at_depth_limit_pushes_zero_and_runs_on() {
    // Seven operands, CALL, then ISZERO and return the top word.
    let mut code = vec![0x60, 0x01];
    for _ in 0..7 {
        code.extend_from_slice(&[0x60, 0x00]);
    }
    code.extend_from_slice(&[0xf1, 0x15, 0x60, 0x00, 0x52, 0x60, 0x20, 0x60, 0x00, 0xf3]);
    let env = env_at_depth(code.clone(), true, U256::from(1024u64));
    let mut sub = AccruedSubstate::empty();
    let mut storage = Storage::new();
    let r = execute(&env, 100_000, &mut sub, &mut storage);
    assert_eq!(r.status, Status::Success);
    assert_eq!(U256::from_big_endian(&r.return_data), U256::one());
    // The first word pushed is still under the status word.
    let mut m = MachineState::with_gas(100_000);
    for _ in 0..9 {
        assert_eq!(step(&env, &mut m, &mut sub, &mut storage), Outcome::Running);
    }
    assert_eq!(m.stack().len(), 2);
    assert_eq!(m.stack().get(0), Some(&U256::zero()));
    assert_eq!(m.stack().get(1), Some(&U256::one()));
    assert_eq!(m.gas_available(), 100_000 - 8 * 3 - 100);
    // Below the limit the engine runs no nested frame.
    let below = env_at_depth(code, true, U256::from(3u64));
    let r = execute(&below, 100_000, &mut sub, &mut storage);
    assert_eq!(r.status, Status::Exception(Halt::Unsupported));
}

#[test]
fn create_at_depth_limit_and_static_rules() {
    let code = vec![0x60, 0x00, 0x60, 0x00, 0x60, 0x00, 0xf0, 0x00];
    let (r, _) = {
        let env = env_at_depth(code.clone(), true, U256::from(2000u64));
        let mut sub = AccruedSubstate::empty();
        let mut storage = Storage::new();
        (execute(&env, 100_000, &mut sub, &mut storage), sub)
    };
    assert_eq!(r.status, Status::Success);
    assert_eq!(r.gas_left, 100_000 - 9 - 32000);
    let env = env_at_depth(code, false, U256::from(2000u64));
    let mut sub = AccruedSubstate::empty();
    let mut storage = Storage::new();
    let r = execute(&env, 100_000, &mut sub, &mut storage);
    assert_eq!(r.status, Status::Exception(Halt::WriteProtection));
    // STATICCALL is allowed in a read-only frame.
    let mut code = Vec::new();
    for _ in 0..6 {
        code.extend_from_slice(&[0x60, 0x00]);
    }
    code.extend_from_slice(&[0xfa, 0x00]);
    let env = env_at_depth(code, false, U256::from(1024u64));
    let r = execute(&env, 100_000, &mut sub, &mut storage);
    assert_eq!(r.status, Status::Success);
    assert_eq!(r.gas_left, 100_000 - 18 - 100);
}

#[test]
fn clearing_a_slot_earns_a_refund() {
    // SSTORE 5 into slot 1, then SSTORE 0 into slot 1.
    let code = vec![0x60, 0x05, 0x60, 0x01, 0x55, 0x60, 0x00, 0x60, 0x01, 0x55, 0x00];
    let (r, sub) = run(code, 100_000);
    assert_eq!(r.status, Status::Success);
    assert_eq!(sub.refund_balance(), U256::from(4800u64));
    // 4 pushes; a cold zero slot set nonzero: 2100 + 20000; then warm and changed: 2900.
    assert_eq!(r.gas_left, 100_000 - 12 - 22100 - 2900);
}

#[test]
fn self_destruct_touches_beneficiary() {
    let env = env_with(vec![0x60, 0x42, 0xff], true);
    let mut sub = AccruedSubstate::empty();
    let mut storage = Storage::new();
    let r = execute(&env, 100_000, &mut sub, &mut storage);
    assert_eq!(r.status, Status::Success);
    assert_eq!(sub.touched_accounts(), &vec![Address::from_low_u64_be(0x42)]);
}
