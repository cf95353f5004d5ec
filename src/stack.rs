use ethereum_types::U256;
use vstd::prelude::*;

verus! {

/// Maximum number of items that can be held by a `Stack`.
pub const MAX_LEN: usize = 1024;

/// An error that may occur when performing operations on a `Stack`.
#[derive(Debug, PartialEq, Eq, Structural, Clone, Copy)]
pub enum StackError {
    Underflow,
    Overflow,
}

/// EVM stack: a bounded sequence of words, top last.
pub struct Stack {
    items: Vec<U256>,
}

/// `s` with its top item exchanged for the item `pos` places below it.
pub open spec fn swapped(s: Seq<U256>, pos: int) -> Seq<U256> {
    let top = s.len() - 1;
    s.update(top, s[top - pos]).update(top - pos, s[top])
}

/// The items that `n` pops take off `s`, in the order they come off.
pub open spec fn popped(s: Seq<U256>, n: nat) -> Seq<U256>
    decreases n,
{
    if n == 0 || s.len() == 0 {
        Seq::empty()
    } else {
        seq![s.last()] + popped(s.drop_last(), (n - 1) as nat)
    }
}

/// `xs` back to front.
pub open spec fn reversed(xs: Seq<U256>) -> Seq<U256>
    decreases xs.len(),
{
    if xs.len() == 0 {
        Seq::empty()
    } else {
        seq![xs.last()] + reversed(xs.drop_last())
    }
}

impl View for Stack {
    type V = Seq<U256>;

    closed spec fn view(&self) -> Seq<U256> {
        self.items@
    }
}

impl Stack {
    /// The stack never holds more than `MAX_LEN` items.
    pub open spec fn wf(&self) -> bool {
        self@.len() <= MAX_LEN
    }

    /// Creates an empty `Stack`.
    pub fn new() -> (r: Self)
        ensures
            r.wf(),
            r@ == Seq::<U256>::empty(),
    {
        Stack { items: Vec::new() }
    }

    /// Returns a reference to the item at position `pos` from the top of the stack.
    pub fn get(&self, pos: usize) -> (r: Option<&U256>)
        requires
            self.wf(),
        ensures
            pos < self@.len() ==> r == Some(&self@[self@.len() - 1 - pos]),
            pos >= self@.len() ==> r.is_none(),
    {
        if pos >= self.len() {
            return None;
        }
        Some(&self.items[self.len() - 1 - pos])
    }

    /// Attempts to pop the top item from the stack.
    pub fn pop(&mut self) -> (r: Result<U256, StackError>)
        requires
            old(self).wf(),
        ensures
            final(self).wf(),
            old(self)@.len() == 0 ==> r == Err::<U256, StackError>(StackError::Underflow)
                && final(self)@ == old(self)@,
            old(self)@.len() > 0 ==> r == Ok::<U256, StackError>(old(self)@.last())
                && final(self)@ == old(self)@.drop_last(),
    {
        match self.items.pop() {
            Some(item) => Ok(item),
            None => Err(StackError::Underflow),
        }
    }

    /// Attempts to push an item onto the stack.
    pub fn push(&mut self, item: U256) -> (r: Result<(), StackError>)
        requires
            old(self).wf(),
        ensures
            final(self).wf(),
            old(self)@.len() == MAX_LEN ==> r == Err::<(), StackError>(StackError::Overflow)
                && final(self)@ == old(self)@,
            old(self)@.len() < MAX_LEN ==> r == Ok::<(), StackError>(())
                && final(self)@ == old(self)@.push(item),
    {
        if self.len() == MAX_LEN {
            return Err(StackError::Overflow);
        }
        self.items.push(item);
        Ok(())
    }

    /// Attempts to swap the top (position zero) item in the stack with the position `pos` item.
    /// Position zero swaps the top with itself and leaves the stack as it was.
    pub fn swap_top(&mut self, pos: usize) -> (r: Result<(), StackError>)
        requires
            old(self).wf(),
        ensures
            final(self).wf(),
            pos >= old(self)@.len() ==> r == Err::<(), StackError>(StackError::Underflow)
                && final(self)@ == old(self)@,
            pos < old(self)@.len() ==> r == Ok::<(), StackError>(())
                && final(self)@ == swapped(old(self)@, pos as int),
    {
        if self.is_empty() || pos >= self.len() {
            return Err(StackError::Underflow);
        }
        let top: usize = self.len() - 1;
        let below: usize = top - pos;
        let top_item = self.items[top];
        let below_item = self.items[below];
        self.items.set(top, below_item);
        self.items.set(below, top_item);
        Ok(())
    }

    /// Returns the number of items in the stack.
    pub fn len(&self) -> (r: usize)
        ensures
            r == self@.len(),
    {
        self.items.len()
    }

    /// Returns whether the stack is empty.
    pub fn is_empty(&self) -> (r: bool)
        ensures
            r == (self@.len() == 0),
    {
        self.len() == 0
    }
}

/// Pushing any items that fit and then popping as many returns them in reverse order,
/// and leaves the stack as it was before the pushes.
pub proof fn lemma_push_pop_reverse(s: Seq<U256>, xs: Seq<U256>)
    requires
        s.len() + xs.len() <= MAX_LEN,
    ensures
        popped(s + xs, xs.len()) == reversed(xs),
        (s + xs).subrange(0, s.len() as int) == s,
    decreases xs.len(),
{
    if xs.len() > 0 {
        let ys = xs.drop_last();
        assert((s + xs).drop_last() =~= s + ys);
        assert((s + xs).last() == xs.last());
        lemma_push_pop_reverse(s, ys);
    }
    assert((s + xs).subrange(0, s.len() as int) =~= s);
}

/// After items `xs` are pushed onto a stack holding `s`, pop number `k` (counting from
/// zero) finds the stack cut back by `k` items and returns `xs[xs.len() - 1 - k]`; after
/// all of them the stack holds `s` again.
pub proof fn lemma_kth_pop(s: Seq<U256>, xs: Seq<U256>, k: nat)
    requires
        s.len() + xs.len() <= MAX_LEN,
        k < xs.len(),
    ensures
        (s + xs).subrange(0, (s + xs).len() - k).len() > 0,
        (s + xs).subrange(0, (s + xs).len() - k).last() == xs[xs.len() - 1 - k],
        (s + xs).subrange(0, (s + xs).len() - k).drop_last() == (s + xs).subrange(
            0,
            (s + xs).len() - k - 1,
        ),
        (s + xs).subrange(0, s.len() as int) == s,
{
    assert((s + xs).subrange(0, (s + xs).len() - k).drop_last() =~= (s + xs).subrange(
        0,
        (s + xs).len() - k - 1,
    ));
    assert((s + xs).subrange(0, s.len() as int) =~= s);
}

/// Swapping the top with the same position twice restores the stack.
pub proof fn lemma_swap_top_twice(s: Seq<U256>, pos: int)
    requires
        0 <= pos < s.len(),
    ensures
        swapped(swapped(s, pos), pos) == s,
{
    assert(swapped(swapped(s, pos), pos) =~= s);
}

} // verus!
