use ethereum_types::U256;
use evm_core::stack::{Stack, StackError, MAX_LEN};

#[test]
fn test_push() {
    let mut stack = Stack::new();
    assert_eq!(stack.get(0), None);

    let _ = stack.push(U256::MAX);
    assert_eq!(stack.get(0), Some(&U256::MAX));
}

#[test]
fn test_push_overflow() {
    let mut stack = Stack::new();

    for _ in 0..MAX_LEN {
        assert_eq!(stack.push(U256::MAX), Ok(()));
    }

    assert_eq!(stack.push(U256::MAX), Err(StackError::Overflow));
}

#[test]
fn test_pop() {
    let mut stack = Stack::new();

    let _ = stack.push(U256::MAX);
    assert_eq!(stack.pop(), Ok(U256::MAX));
}

#[test]
fn test_pop_underflow() {
    let mut stack = Stack::new();

    assert_eq!(stack.pop(), Err(StackError::Underflow));
}

#[test]
fn test_get() {
    let mut stack = Stack::new();

    assert_eq!(stack.get(0), None);

    let _ = stack.push(U256::MAX);
    assert_eq!(stack.get(0), Some(&U256::MAX));
}

#[test]
fn test_swap_top() {
    let mut stack = Stack::new();

    // bottom [U256::MAX, U256::one(), U256::zero()] top
    let _ = stack.push(U256::MAX);
    let _ = stack.push(U256::one());
    let _ = stack.push(U256::zero());

    // bottom [U256::zero(), U256::one(), U256::MAX] top
    assert_eq!(stack.swap_top(2), Ok(()));
    assert_eq!(stack.get(0), Some(&U256::MAX));

    // bottom [U256::MAX, U256::one(), U256::zero()] top
    assert_eq!(stack.swap_top(2), Ok(()));
    assert_eq!(stack.get(0), Some(&U256::zero()));

    // bottom [U256::MAX, U256::zero(), U256::one()] top
    assert_eq!(stack.swap_top(1), Ok(()));
    assert_eq!(stack.get(0), Some(&U256::one()));
    assert_eq!(stack.get(1), Some(&U256::zero()));
    assert_eq!(stack.get(2), Some(&U256::MAX));
}

#[test]
fn test_swap_top_underflow_empty() {
    let mut stack = Stack::new();

    assert_eq!(stack.swap_top(0), Err(StackError::Underflow));
}

#[test]
fn test_swap_top_underflow_too_deep() {
    let mut stack = Stack::new();

    let _ = stack.push(U256::MAX);
    let _ = stack.push(U256::zero());

    assert_eq!(stack.swap_top(stack.len()), Err(StackError::Underflow));
}

#[test]
fn test_len() {
    let mut stack = Stack::new();
    assert_eq!(stack.len(), 0);

    for i in 0..MAX_LEN {
        let _ = stack.push(U256::MAX);
        assert_eq!(stack.len(), i + 1);
    }

    for i in 0..MAX_LEN {
        let _ = stack.pop();
        assert_eq!(stack.len(), MAX_LEN - 1 - i)
    }
}

#[test]
fn test_is_empty() {
    let mut stack = Stack::new();
    assert!(stack.is_empty());

    let _ = stack.push(U256::MAX);
    assert!(!stack.is_empty());

    let _ = stack.pop();
    assert!(stack.is_empty());
}

#[test]
fn pops_return_pushes_in_reverse() {
    let mut stack = Stack::new();
    for i in 0..MAX_LEN as u64 {
        assert_eq!(stack.push(U256::from(i)), Ok(()));
    }
    assert_eq!(stack.push(U256::from(7u64)), Err(StackError::Overflow));
    assert_eq!(stack.len(), MAX_LEN);
    assert_eq!(stack.get(0), Some(&U256::from(MAX_LEN as u64 - 1)));
    for i in (0..MAX_LEN as u64).rev() {
        assert_eq!(stack.pop(), Ok(U256::from(i)));
    }
    assert!(stack.is_empty());
}

#[test]
fn pop_on_empty_leaves_stack_empty() {
    let mut stack = Stack::new();
    assert_eq!(stack.pop(), Err(StackError::Underflow));
    assert_eq!(stack.len(), 0);
    assert_eq!(stack.push(U256::one()), Ok(()));
    assert_eq!(stack.pop(), Ok(U256::one()));
}

#[test]
fn swap_twice_restores_order() {
    let mut stack = Stack::new();
    for i in 0..5u64 {
        let _ = stack.push(U256::from(i));
    }
    for d in 0..5usize {
        assert_eq!(stack.swap_top(d), Ok(()));
        assert_eq!(stack.swap_top(d), Ok(()));
        for k in 0..5usize {
            assert_eq!(stack.get(k), Some(&U256::from(4 - k as u64)));
        }
    }
    assert_eq!(stack.swap_top(0), Ok(()));
    assert_eq!(stack.get(0), Some(&U256::from(4u64)));
}
