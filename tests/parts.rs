use ethereum_types::{Address, H256, U256};
use evm_core::account::Account;
use evm_core::instruction::Instruction;
use evm_core::memory::{Memory, MemoryError, MEMORY_LIMIT};
use evm_core::substate::AccruedSubstate;
use evm_core::transaction::Transaction;
use evm_core::word;

fn min_signed() -> U256 {
    U256::one() << 255
}

#[test]
fn add_wraps_at_max_word() {
    assert_eq!(word::add(U256::MAX, U256::one()), U256::zero());
    assert_eq!(word::add(U256::from(2u64), U256::from(3u64)), U256::from(5u64));
}

#[test]
fn sub_and_mul_wrap() {
    assert_eq!(word::sub(U256::zero(), U256::one()), U256::MAX);
    assert_eq!(word::mul(U256::MAX, U256::from(2u64)), U256::MAX - U256::one());
}

#[test]
fn division_by_zero_is_zero() {
    for x in [U256::zero(), U256::one(), U256::MAX, min_signed()] {
        assert_eq!(word::div(x, U256::zero()), U256::zero());
        assert_eq!(word::rem(x, U256::zero()), U256::zero());
        assert_eq!(word::sdiv(x, U256::zero()), U256::zero());
    }
    assert_eq!(word::div(U256::from(7u64), U256::from(2u64)), U256::from(3u64));
    assert_eq!(word::rem(U256::from(7u64), U256::from(2u64)), U256::one());
}

#[test]
fn sdiv_min_by_minus_one_is_min() {
    assert_eq!(word::sdiv(min_signed(), U256::MAX), min_signed());
}

#[test]
fn sdiv_truncates_toward_zero() {
    let minus_seven = word::sub(U256::zero(), U256::from(7u64));
    let minus_three = word::sub(U256::zero(), U256::from(3u64));
    assert_eq!(word::sdiv(minus_seven, U256::from(2u64)), minus_three);
    assert_eq!(word::sdiv(minus_seven, word::sub(U256::zero(), U256::from(2u64))), U256::from(3u64));
    assert!(word::is_negative(&minus_seven));
    assert!(!word::is_negative(&U256::from(7u64)));
}

#[test]
fn comparisons_give_one_or_zero() {
    let (a, b) = (U256::from(1u64), U256::from(2u64));
    assert_eq!(word::lt(&a, &b), U256::one());
    assert_eq!(word::gt(&a, &b), U256::zero());
    assert_eq!(word::eq(&a, &a), U256::one());
    assert_eq!(word::iszero(&U256::zero()), U256::one());
    assert_eq!(word::not(U256::zero()), U256::MAX);
    assert_eq!(word::xor(a, b), U256::from(3u64));
    assert_eq!(word::or(a, b), U256::from(3u64));
    assert_eq!(word::and(a, b), U256::zero());
}

#[test]
fn big_endian_conversions() {
    let bytes = word::word_to_bytes(&U256::from(0x0102u64));
    assert_eq!(bytes.len(), 32);
    assert_eq!(bytes[30], 1);
    assert_eq!(bytes[31], 2);
    assert_eq!(word::word_from_bytes(&[1, 2]), U256::from(0x0102u64));
    assert_eq!(word::word_from_u64(77), U256::from(77u64));
}

#[test]
fn empty_load_does_not_grow_memory() {
    let mut m = Memory::new();
    let (bytes, grew) = m.load(0, 0).unwrap();
    assert!(bytes.is_empty());
    assert_eq!(grew, 0);
    assert_eq!(m.active_words(), 0);
    assert_eq!(m.load(1_000_000_000, 0).map(|(b, g)| (b.len(), g)), Ok((0, 0)));
}

#[test]
fn store_at_64_makes_three_words() {
    let mut m = Memory::new();
    assert_eq!(m.store(64, &[0xab; 32]), Ok(3));
    assert_eq!(m.active_words(), 3);
    let (bytes, grew) = m.load(0, 96).unwrap();
    assert_eq!(grew, 0);
    assert!(bytes[..64].iter().all(|b| *b == 0));
    assert!(bytes[64..].iter().all(|b| *b == 0xab));
}

#[test]
fn memory_growth_counts_words() {
    let mut m = Memory::new();
    assert_eq!(m.expand(0, 1), Ok(1));
    assert_eq!(m.expand(31, 2), Ok(1));
    assert_eq!(m.store_byte(100, 7), Ok(2));
    assert_eq!(m.active_words(), 4);
    assert_eq!(m.load(100, 1).unwrap().0, vec![7]);
    assert_eq!(m.store(0, &[]), Ok(0));
}

#[test]
fn memory_limit_is_enforced() {
    let mut m = Memory::new();
    assert_eq!(m.expand(MEMORY_LIMIT, 1), Err(MemoryError::TooLarge));
    assert_eq!(m.store_byte(MEMORY_LIMIT, 1), Err(MemoryError::TooLarge));
    assert_eq!(m.active_words(), 0);
    assert_eq!(m.expand(MEMORY_LIMIT - 32, 32), Ok(MEMORY_LIMIT / 32));
}

#[test]
fn instruction_table() {
    assert_eq!(Instruction::from(0x01), Instruction::Add);
    assert_eq!(Instruction::from(0x11), Instruction::Gt);
    assert_eq!(Instruction::from(0x12), Instruction::SLt);
    assert_eq!(Instruction::from(0x0c), Instruction::Invalid);
    assert_eq!(Instruction::from(0xfe), Instruction::Invalid);
    assert_eq!(Instruction::from(0x7f), Instruction::Push32);
    assert_eq!(Instruction::from(0x01).delta_alpha(), (2, 1));
    assert_eq!(Instruction::from(0x82).delta_alpha(), (3, 4));
    assert_eq!(Instruction::from(0x9f).delta_alpha(), (17, 17));
    assert_eq!(Instruction::from(0xa4).delta_alpha(), (6, 0));
    assert_eq!(Instruction::from(0xf1).delta_alpha(), (7, 1));
    assert_eq!(Instruction::from(0x60).immediate_len(), 1);
    assert_eq!(Instruction::from(0x7f).immediate_len(), 32);
    assert_eq!(Instruction::from(0x01).immediate_len(), 0);
}

#[test]
fn account_predicates() {
    let empty = Account {
        nonce: U256::zero(),
        balance: U256::zero(),
        storage_root: H256::zero(),
        code_hash: keccak_hash::KECCAK_EMPTY,
    };
    assert!(empty.is_empty());
    assert!(!empty.is_contract());
    let contract = Account {
        nonce: U256::one(),
        balance: U256::zero(),
        storage_root: H256::zero(),
        code_hash: H256::repeat_byte(1),
    };
    assert!(!contract.is_empty());
    assert!(contract.is_contract());
    let funded = Account {
        nonce: U256::zero(),
        balance: U256::from(5u64),
        storage_root: H256::zero(),
        code_hash: keccak_hash::KECCAK_EMPTY,
    };
    assert!(!funded.is_empty());
}

#[test]
fn transaction_fields() {
    let tx = Transaction::new(
        U256::one(),
        U256::from(2u64),
        U256::from(3u64),
        Some(Address::from_low_u64_be(4)),
        U256::from(5u64),
        U256::from(6u64),
        U256::from(7u64),
        U256::from(8u64),
        None,
        Some(vec![9]),
    );
    assert_eq!(tx.nonce(), U256::one());
    assert_eq!(tx.gas_price(), U256::from(2u64));
    assert_eq!(tx.gas_limit(), U256::from(3u64));
    assert_eq!(tx.to(), &Some(Address::from_low_u64_be(4)));
    assert_eq!(tx.value(), U256::from(5u64));
    assert_eq!(tx.v(), U256::from(6u64));
    assert_eq!(tx.r(), U256::from(7u64));
    assert_eq!(tx.s(), U256::from(8u64));
    assert_eq!(tx.init(), &None);
    assert_eq!(tx.data(), &Some(vec![9]));
}

#[test]
fn substate_sets_and_warmth() {
    let mut sub = AccruedSubstate::empty();
    let a = Address::from_low_u64_be(1);
    let b = Address::from_low_u64_be(2);
    assert!(!sub.access_account(a));
    assert!(sub.access_account(a));
    assert!(!sub.access_account(b));
    assert_eq!(sub.accessed_accounts(), &vec![a, b]);
    sub.touch_account(a);
    sub.touch_account(a);
    assert_eq!(sub.touched_accounts().len(), 1);
    assert!(!sub.access_storage(a, U256::one()));
    assert!(sub.storage_warm(&a, &U256::one()));
    assert!(!sub.storage_warm(&b, &U256::one()));
    assert!(sub.access_storage(a, U256::one()));
    assert_eq!(sub.accessed_storage().len(), 1);
    assert_eq!(sub.refund_balance(), U256::zero());
    assert!(sub.log_series().is_empty());
}

#[test]
fn signed_comparisons_and_remainder() {
    let minus_one = U256::MAX;
    let one = U256::one();
    assert_eq!(word::slt(&minus_one, &one), U256::one());
    assert_eq!(word::sgt(&minus_one, &one), U256::zero());
    assert_eq!(word::sgt(&one, &minus_one), U256::one());
    let minus_seven = word::sub(U256::zero(), U256::from(7u64));
    assert_eq!(word::smod(minus_seven, U256::from(3u64)), minus_one);
    assert_eq!(word::smod(U256::from(7u64), word::sub(U256::zero(), U256::from(3u64))), one);
    assert_eq!(word::smod(minus_seven, U256::zero()), U256::zero());
}

#[test]
fn shifts_and_powers() {
    assert_eq!(word::shl(&U256::from(4u64), U256::one()), U256::from(16u64));
    assert_eq!(word::shl(&U256::from(255u64), U256::from(2u64)), U256::zero());
    assert_eq!(word::shl(&U256::from(256u64), U256::one()), U256::zero());
    assert_eq!(word::shr(&U256::from(4u64), U256::from(16u64)), U256::one());
    assert_eq!(word::shr(&U256::MAX, U256::MAX), U256::zero());
    assert_eq!(word::exp(U256::from(2u64), U256::from(10u64)), U256::from(1024u64));
    assert_eq!(word::exp(U256::from(2u64), U256::from(256u64)), U256::zero());
    assert_eq!(word::exp(U256::zero(), U256::zero()), U256::one());
    assert_eq!(word::bit_length(&U256::zero()), 0);
    assert_eq!(word::bit_length(&U256::from(255u64)), 8);
    assert_eq!(word::bit_length(&U256::MAX), 256);
}

#[test]
fn hashes_and_addresses_as_words() {
    let h = H256::repeat_byte(1);
    assert_eq!(word::word_to_hash(&word::word_from_hash(&h)), h);
    assert_eq!(word::word_from_address(&Address::from_low_u64_be(0x1234)), U256::from(0x1234u64));
    assert_eq!(word::word_to_index(&U256::from(5u64), 6), Some(5));
    assert_eq!(word::word_to_index(&U256::from(6u64), 6), None);
    assert_eq!(word::word_to_index(&U256::MAX, usize::MAX), None);
}

#[test]
fn byte_sar_and_signextend() {
    let x = U256::from(0x1234u64);
    assert_eq!(word::byte(&U256::from(31u64), x), U256::from(0x34u64));
    assert_eq!(word::byte(&U256::from(30u64), x), U256::from(0x12u64));
    assert_eq!(word::byte(&U256::from(32u64), x), U256::zero());
    assert_eq!(word::byte(&U256::zero(), U256::MAX), U256::from(0xffu64));
    let minus_sixteen = word::sub(U256::zero(), U256::from(16u64));
    let minus_four = word::sub(U256::zero(), U256::from(4u64));
    assert_eq!(word::sar(&U256::from(2u64), minus_sixteen), minus_four);
    assert_eq!(word::sar(&U256::from(300u64), minus_sixteen), U256::MAX);
    assert_eq!(word::sar(&U256::from(300u64), U256::from(16u64)), U256::zero());
    assert_eq!(word::sar(&U256::from(2u64), U256::from(16u64)), U256::from(4u64));
    let minus_seventeen = word::sub(U256::zero(), U256::from(17u64));
    assert_eq!(word::sar(&U256::from(2u64), minus_seventeen), word::sub(U256::zero(), U256::from(5u64)));
    assert_eq!(word::signextend(&U256::zero(), U256::from(0xffu64)), U256::MAX);
    assert_eq!(word::signextend(&U256::zero(), U256::from(0x7fu64)), U256::from(0x7fu64));
    assert_eq!(word::signextend(&U256::one(), U256::from(0x12_8000u64)), U256::MAX - U256::from(0x7fffu64));
    assert_eq!(word::signextend(&U256::from(31u64), U256::from(0xffu64)), U256::from(0xffu64));
}

#[test]
fn mulmod_does_not_wrap() {
    // (2^256 - 1)^2 mod 12 = 9, since 2^256 - 1 is 3 mod 12.
    assert_eq!(word::mulmod(U256::MAX, U256::MAX, U256::from(12u64)), U256::from(9u64));
    assert_eq!(word::mulmod(U256::from(5u64), U256::from(6u64), U256::from(7u64)), U256::from(2u64));
    assert_eq!(word::mulmod(U256::from(5u64), U256::from(6u64), U256::zero()), U256::zero());
}
