use crate::primitives::same_word;
use ethereum_types::U256;
use vstd::prelude::*;

verus! {

/// The value that `key` holds after the writes `w`, in order: the last write to it, or
/// zero when there is none.
pub open spec fn slot_value(w: Seq<(U256, U256)>, key: U256) -> U256
    decreases w.len(),
{
    if w.len() == 0 {
        U256([0, 0, 0, 0])
    } else if w.last().0 == key {
        w.last().1
    } else {
        slot_value(w.drop_last(), key)
    }
}

/// Storage of the executing account, as the writes made to it in order; a slot never
/// written holds zero.
pub struct Storage {
    writes: Vec<(U256, U256)>,
}

impl View for Storage {
    type V = Seq<(U256, U256)>;

    closed spec fn view(&self) -> Seq<(U256, U256)> {
        self.writes@
    }
}

impl Storage {
    /// Storage in which every slot holds zero.
    pub fn new() -> (r: Self)
        ensures
            r@ == Seq::<(U256, U256)>::empty(),
    {
        Storage { writes: Vec::new() }
    }

    /// The value of slot `key`.
    pub fn get(&self, key: &U256) -> (r: U256)
        ensures
            r == slot_value(self@, *key),
    {
        let mut i: usize = self.writes.len();
        assert(self@.subrange(0, i as int) =~= self@);
        while i > 0
            invariant
                i <= self@.len(),
                slot_value(self@.subrange(0, i as int), *key) == slot_value(self@, *key),
            decreases i,
        {
            let (k, v) = self.writes[i - 1];
            assert(self@.subrange(0, i as int).drop_last() =~= self@.subrange(0, i - 1));
            if same_word(&k, key) {
                return v;
            }
            i = i - 1;
        }
        U256([0, 0, 0, 0])
    }

    /// Number of writes made so far; `revert_to` with it undoes every later write.
    pub fn checkpoint(&self) -> (r: usize)
        ensures
            r == self@.len(),
    {
        self.writes.len()
    }

    /// Undoes the writes made after checkpoint `cp`.
    pub fn revert_to(&mut self, cp: usize)
        ensures
            cp <= old(self)@.len() ==> final(self)@ == old(self)@.subrange(0, cp as int),
            cp > old(self)@.len() ==> final(self)@ == old(self)@,
    {
        self.writes.truncate(cp);
    }

    /// Sets slot `key` to `value`.
    pub fn set(&mut self, key: U256, value: U256)
        ensures
            final(self)@ == old(self)@.push((key, value)),
            forall|k: U256|
                slot_value(final(self)@, k) == if k == key {
                    value
                } else {
                    slot_value(old(self)@, k)
                },
    {
        self.writes.push((key, value));
        assert(self@.drop_last() =~= old(self)@);
    }
}

} // verus!
