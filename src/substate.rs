use crate::log::Log;
use crate::primitives::{same_address, same_word};
use ethereum_types::{Address, H256, U256};
use vstd::prelude::*;

verus! {

/// Accrued transaction substate.
///
/// Information acted upon immediately following a transaction. The account and storage
/// sets hold each member once, in the order of first insertion.
pub struct AccruedSubstate {
    /// Self-destruct set. A set of accounts that will be discarded following the
    /// completion of the associated transaction.
    self_destruct_accounts: Vec<Address>,
    /// Log series.
    log_series: Vec<Log>,
    /// Touched account set.
    ///
    /// Empty accounts in this set are deleted at the end of the transaction.
    touched_accounts: Vec<Address>,
    /// Refund balance.
    refund_balance: U256,
    /// Accessed account set.
    accessed_accounts: Vec<Address>,
    /// Accessed storage set.
    accessed_storage: Vec<(Address, U256)>,
}

/// A log entry as plain values: its topics as the numbers they hold.
pub struct LogModel {
    pub address: Address,
    pub topics: Seq<nat>,
    pub data: Seq<u8>,
}

/// The plain values of a log entry.
pub open spec fn log_model(l: Log) -> LogModel {
    LogModel {
        address: l.address,
        topics: l.topics@.map_values(|h: H256| crate::word::be_value(h.0@)),
        data: l.data@,
    }
}

/// The substate as plain values.
pub struct SubstateModel {
    pub self_destructs: Seq<Address>,
    pub logs: Seq<LogModel>,
    pub touched: Seq<Address>,
    pub refund: U256,
    pub accessed_accounts: Seq<Address>,
    pub accessed_storage: Seq<(Address, U256)>,
}

/// `s` with `x` added at the end unless it already holds it.
pub open spec fn inserted<A>(s: Seq<A>, x: A) -> Seq<A> {
    if s.contains(x) {
        s
    } else {
        s.push(x)
    }
}

/// How far the self-destruct set and the log series had grown at some point; reverting
/// to it discards what a frame added after it.
#[derive(Debug, PartialEq, Eq, Structural, Clone, Copy)]
pub struct Checkpoint {
    pub self_destructs: usize,
    pub logs: usize,
}

/// Whether `a` occurs in `v`.
fn contains_address(v: &Vec<Address>, a: &Address) -> (r: bool)
    ensures
        r == v@.contains(*a),
{
    let mut i: usize = 0;
    while i < v.len()
        invariant
            i <= v@.len(),
            forall|j: int| 0 <= j < i ==> v@[j] != *a,
        decreases v@.len() - i,
    {
        if same_address(&v[i], a) {
            return true;
        }
        i = i + 1;
    }
    false
}

/// `v` with `a` added at the end unless it already holds it.
fn insert_address(v: &mut Vec<Address>, a: Address)
    requires
        old(v)@.no_duplicates(),
    ensures
        final(v)@.no_duplicates(),
        old(v)@.contains(a) ==> final(v)@ == old(v)@,
        !old(v)@.contains(a) ==> final(v)@ == old(v)@.push(a),
{
    if !contains_address(v, &a) {
        v.push(a);
        proof {
            assert forall|i: int, j: int|
                0 <= i < final(v)@.len() && 0 <= j < final(v)@.len() && i != j implies final(v)@[i]
                != final(v)@[j] by {
                if i < old(v)@.len() && j < old(v)@.len() {
                } else if i == old(v)@.len() {
                    assert(old(v)@[j] == final(v)@[j]);
                } else {
                    assert(old(v)@[i] == final(v)@[i]);
                }
            }
        }
    }
}

impl AccruedSubstate {
    /// The self-destruct set, in the order of insertion.
    pub closed spec fn spec_self_destruct_accounts(&self) -> Seq<Address> {
        self.self_destruct_accounts@
    }

    /// The log series.
    pub closed spec fn spec_log_series(&self) -> Seq<Log> {
        self.log_series@
    }

    /// The touched account set, in the order of insertion.
    pub closed spec fn spec_touched_accounts(&self) -> Seq<Address> {
        self.touched_accounts@
    }

    /// The refund balance.
    pub closed spec fn spec_refund_balance(&self) -> U256 {
        self.refund_balance
    }

    /// The accessed account set, in the order of insertion.
    pub closed spec fn spec_accessed_accounts(&self) -> Seq<Address> {
        self.accessed_accounts@
    }

    /// The accessed storage set, in the order of insertion.
    pub closed spec fn spec_accessed_storage(&self) -> Seq<(Address, U256)> {
        self.accessed_storage@
    }

    /// The substate as plain values.
    pub open spec fn model(&self) -> SubstateModel {
        SubstateModel {
            self_destructs: self.spec_self_destruct_accounts(),
            logs: self.spec_log_series().map_values(|l: Log| log_model(l)),
            touched: self.spec_touched_accounts(),
            refund: self.spec_refund_balance(),
            accessed_accounts: self.spec_accessed_accounts(),
            accessed_storage: self.spec_accessed_storage(),
        }
    }

    /// Each set holds each member once.
    pub open spec fn wf(&self) -> bool {
        self.spec_self_destruct_accounts().no_duplicates()
            && self.spec_touched_accounts().no_duplicates()
            && self.spec_accessed_accounts().no_duplicates()
            && self.spec_accessed_storage().no_duplicates()
    }

    /// Returns an empty accrued transaction substate.
    pub fn empty() -> (r: Self)
        ensures
            r.wf(),
            r.spec_self_destruct_accounts() == Seq::<Address>::empty(),
            r.spec_log_series() == Seq::<Log>::empty(),
            r.spec_touched_accounts() == Seq::<Address>::empty(),
            r.spec_refund_balance() == U256([0, 0, 0, 0]),
            r.spec_accessed_accounts() == Seq::<Address>::empty(),
            r.spec_accessed_storage() == Seq::<(Address, U256)>::empty(),
    {
        AccruedSubstate {
            self_destruct_accounts: Vec::new(),
            log_series: Vec::new(),
            touched_accounts: Vec::new(),
            refund_balance: U256([0, 0, 0, 0]),
            accessed_accounts: Vec::new(),
            accessed_storage: Vec::new(),
        }
    }

    /// Returns the self-destruct set.
    pub fn self_destruct_accounts(&self) -> (r: &Vec<Address>)
        ensures
            r@ == self.spec_self_destruct_accounts(),
    {
        &self.self_destruct_accounts
    }

    /// Returns the log series.
    pub fn log_series(&self) -> (r: &Vec<Log>)
        ensures
            r@ == self.spec_log_series(),
    {
        &self.log_series
    }

    /// Returns the touched account set.
    pub fn touched_accounts(&self) -> (r: &Vec<Address>)
        ensures
            r@ == self.spec_touched_accounts(),
    {
        &self.touched_accounts
    }

    /// Returns the refund balance.
    pub fn refund_balance(&self) -> (r: U256)
        ensures
            r == self.spec_refund_balance(),
    {
        self.refund_balance
    }

    /// Returns the accessed account set.
    pub fn accessed_accounts(&self) -> (r: &Vec<Address>)
        ensures
            r@ == self.spec_accessed_accounts(),
    {
        &self.accessed_accounts
    }

    /// Returns the accessed storage set.
    pub fn accessed_storage(&self) -> (r: &Vec<(Address, U256)>)
        ensures
            r@ == self.spec_accessed_storage(),
    {
        &self.accessed_storage
    }
    /// Adds `a` to the self-destruct set; an address already there is left as it is.
    pub fn add_self_destruct(&mut self, a: Address)
        requires
            old(self).wf(),
        ensures
            final(self).wf(),
            final(self).spec_self_destruct_accounts().to_set()
                == old(self).spec_self_destruct_accounts().to_set().insert(a),
            old(self).spec_self_destruct_accounts().contains(a)
                ==> final(self).spec_self_destruct_accounts()
                    == old(self).spec_self_destruct_accounts(),
            !old(self).spec_self_destruct_accounts().contains(a)
                ==> final(self).spec_self_destruct_accounts()
                    == old(self).spec_self_destruct_accounts().push(a),
            final(self).spec_log_series() == old(self).spec_log_series(),
            final(self).spec_touched_accounts() == old(self).spec_touched_accounts(),
            final(self).spec_refund_balance() == old(self).spec_refund_balance(),
            final(self).spec_accessed_accounts() == old(self).spec_accessed_accounts(),
            final(self).spec_accessed_storage() == old(self).spec_accessed_storage(),
    {
        insert_address(&mut self.self_destruct_accounts, a);
        proof {
            lemma_push_to_set(old(self).self_destruct_accounts@, a);
        }
    }

    /// Adds `a` to the touched account set; an address already there is left as it is.
    pub fn touch_account(&mut self, a: Address)
        requires
            old(self).wf(),
        ensures
            final(self).wf(),
            final(self).spec_touched_accounts().to_set()
                == old(self).spec_touched_accounts().to_set().insert(a),
            old(self).spec_touched_accounts().contains(a) ==> final(self).spec_touched_accounts()
                == old(self).spec_touched_accounts(),
            !old(self).spec_touched_accounts().contains(a) ==> final(self).spec_touched_accounts()
                == old(self).spec_touched_accounts().push(a),
            final(self).spec_self_destruct_accounts() == old(self).spec_self_destruct_accounts(),
            final(self).spec_log_series() == old(self).spec_log_series(),
            final(self).spec_refund_balance() == old(self).spec_refund_balance(),
            final(self).spec_accessed_accounts() == old(self).spec_accessed_accounts(),
            final(self).spec_accessed_storage() == old(self).spec_accessed_storage(),
    {
        insert_address(&mut self.touched_accounts, a);
        proof {
            lemma_push_to_set(old(self).touched_accounts@, a);
        }
    }

    /// Marks account `a` as accessed; returns whether it was already (warm).
    pub fn access_account(&mut self, a: Address) -> (warm: bool)
        requires
            old(self).wf(),
        ensures
            final(self).wf(),
            warm == old(self).spec_accessed_accounts().contains(a),
            final(self).spec_accessed_accounts().to_set()
                == old(self).spec_accessed_accounts().to_set().insert(a),
            warm ==> final(self).spec_accessed_accounts() == old(self).spec_accessed_accounts(),
            !warm ==> final(self).spec_accessed_accounts()
                == old(self).spec_accessed_accounts().push(a),
            final(self).spec_self_destruct_accounts() == old(self).spec_self_destruct_accounts(),
            final(self).spec_log_series() == old(self).spec_log_series(),
            final(self).spec_touched_accounts() == old(self).spec_touched_accounts(),
            final(self).spec_refund_balance() == old(self).spec_refund_balance(),
            final(self).spec_accessed_storage() == old(self).spec_accessed_storage(),
    {
        let warm = contains_address(&self.accessed_accounts, &a);
        insert_address(&mut self.accessed_accounts, a);
        proof {
            lemma_push_to_set(old(self).accessed_accounts@, a);
        }
        warm
    }

    /// Marks storage slot `key` of account `a` as accessed; returns whether it was already
    /// (warm).
    pub fn access_storage(&mut self, a: Address, key: U256) -> (warm: bool)
        requires
            old(self).wf(),
        ensures
            final(self).wf(),
            warm == old(self).spec_accessed_storage().contains((a, key)),
            warm ==> final(self).spec_accessed_storage() == old(self).spec_accessed_storage(),
            !warm ==> final(self).spec_accessed_storage()
                == old(self).spec_accessed_storage().push((a, key)),
            final(self).spec_self_destruct_accounts() == old(self).spec_self_destruct_accounts(),
            final(self).spec_log_series() == old(self).spec_log_series(),
            final(self).spec_touched_accounts() == old(self).spec_touched_accounts(),
            final(self).spec_refund_balance() == old(self).spec_refund_balance(),
            final(self).spec_accessed_accounts() == old(self).spec_accessed_accounts(),
    {
        let mut i: usize = 0;
        while i < self.accessed_storage.len()
            invariant
                self.wf(),
                i <= self.accessed_storage@.len(),
                forall|j: int| 0 <= j < i ==> self.accessed_storage@[j] != (a, key),
            decreases self.accessed_storage@.len() - i,
        {
            let (b, k) = &self.accessed_storage[i];
            if same_address(b, &a) && same_word(k, &key) {
                return true;
            }
            i = i + 1;
        }
        let ghost before = self.accessed_storage@;
        self.accessed_storage.push((a, key));
        proof {
            assert forall|i: int, j: int|
                0 <= i < self.accessed_storage@.len() && 0 <= j < self.accessed_storage@.len()
                    && i != j implies self.accessed_storage@[i] != self.accessed_storage@[j] by {
                if i < before.len() && j < before.len() {
                } else if i == before.len() {
                    assert(before[j] == self.accessed_storage@[j]);
                } else {
                    assert(before[i] == self.accessed_storage@[i]);
                }
            }
        }
        false
    }

    /// Whether storage slot `key` of account `a` has been accessed (is warm).
    pub fn storage_warm(&self, a: &Address, key: &U256) -> (warm: bool)
        ensures
            warm == self.spec_accessed_storage().contains((*a, *key)),
    {
        let mut i: usize = 0;
        while i < self.accessed_storage.len()
            invariant
                i <= self.accessed_storage@.len(),
                forall|j: int| 0 <= j < i ==> self.accessed_storage@[j] != (*a, *key),
            decreases self.accessed_storage@.len() - i,
        {
            let (b, k) = &self.accessed_storage[i];
            if same_address(b, a) && same_word(k, key) {
                assert(self.accessed_storage@[i as int] == (*a, *key));
                return true;
            }
            i = i + 1;
        }
        false
    }

    /// Adds `amount` to the refund balance, modulo 2^256.
    pub fn add_refund(&mut self, amount: u64)
        requires
            old(self).wf(),
        ensures
            final(self).wf(),
            crate::primitives::word_value(final(self).spec_refund_balance()) == crate::word::wrap(
                crate::primitives::word_value(old(self).spec_refund_balance()) + amount,
            ),
            final(self).spec_self_destruct_accounts() == old(self).spec_self_destruct_accounts(),
            final(self).spec_log_series() == old(self).spec_log_series(),
            final(self).spec_touched_accounts() == old(self).spec_touched_accounts(),
            final(self).spec_accessed_accounts() == old(self).spec_accessed_accounts(),
            final(self).spec_accessed_storage() == old(self).spec_accessed_storage(),
    {
        self.refund_balance = crate::word::add(self.refund_balance, crate::word::word_from_u64(amount));
    }

    /// Appends `log` to the log series.
    pub fn append_log(&mut self, log: Log)
        requires
            old(self).wf(),
        ensures
            final(self).wf(),
            final(self).spec_log_series() == old(self).spec_log_series().push(log),
            final(self).spec_self_destruct_accounts() == old(self).spec_self_destruct_accounts(),
            final(self).spec_touched_accounts() == old(self).spec_touched_accounts(),
            final(self).spec_refund_balance() == old(self).spec_refund_balance(),
            final(self).spec_accessed_accounts() == old(self).spec_accessed_accounts(),
            final(self).spec_accessed_storage() == old(self).spec_accessed_storage(),
    {
        self.log_series.push(log);
    }

    /// Records how far the self-destruct set and the log series have grown.
    pub fn checkpoint(&self) -> (r: Checkpoint)
        ensures
            r.self_destructs == self.spec_self_destruct_accounts().len(),
            r.logs == self.spec_log_series().len(),
    {
        Checkpoint { self_destructs: self.self_destruct_accounts.len(), logs: self.log_series.len() }
    }

    /// Discards the self-destructs and logs added since `cp` was taken, as a reverted frame
    /// requires. Touched and accessed sets keep what they gained, and so does the refund
    /// balance.
    pub fn revert_to(&mut self, cp: Checkpoint)
        requires
            old(self).wf(),
        ensures
            final(self).wf(),
            cp.self_destructs <= old(self).spec_self_destruct_accounts().len()
                ==> final(self).spec_self_destruct_accounts()
                    == old(self).spec_self_destruct_accounts().subrange(0, cp.self_destructs as int),
            cp.self_destructs > old(self).spec_self_destruct_accounts().len()
                ==> final(self).spec_self_destruct_accounts()
                    == old(self).spec_self_destruct_accounts(),
            cp.logs <= old(self).spec_log_series().len() ==> final(self).spec_log_series()
                == old(self).spec_log_series().subrange(0, cp.logs as int),
            cp.logs > old(self).spec_log_series().len() ==> final(self).spec_log_series()
                == old(self).spec_log_series(),
            final(self).spec_touched_accounts() == old(self).spec_touched_accounts(),
            final(self).spec_refund_balance() == old(self).spec_refund_balance(),
            final(self).spec_accessed_accounts() == old(self).spec_accessed_accounts(),
            final(self).spec_accessed_storage() == old(self).spec_accessed_storage(),
    {
        self.self_destruct_accounts.truncate(cp.self_destructs);
        self.log_series.truncate(cp.logs);
        proof {
            let s = old(self).self_destruct_accounts@;
            assert forall|i: int, j: int|
                0 <= i < self.self_destruct_accounts@.len() && 0 <= j
                    < self.self_destruct_accounts@.len()
                        && i != j implies self.self_destruct_accounts@[i]
                != self.self_destruct_accounts@[j] by {
                assert(self.self_destruct_accounts@[i] == s[i]);
                assert(self.self_destruct_accounts@[j] == s[j]);
            }
        }
    }
}

/// Adding an element at the end adds it to the set of elements.
proof fn lemma_push_to_set(s: Seq<Address>, a: Address)
    ensures
        s.push(a).to_set() == s.to_set().insert(a),
        s.contains(a) ==> s.to_set().insert(a) == s.to_set(),
{
    assert(s.push(a).to_set() =~= s.to_set().insert(a)) by {
        assert forall|x: Address| s.push(a).to_set().contains(x) <==> s.to_set().insert(a).contains(x) by {
            if s.push(a).contains(x) && x != a {
                let i = choose|i: int| 0 <= i < s.push(a).len() && s.push(a)[i] == x;
                assert(s[i] == x);
            }
            if s.contains(x) {
                let i = choose|i: int| 0 <= i < s.len() && s[i] == x;
                assert(s.push(a)[i] == x);
            }
            if x == a {
                assert(s.push(a)[s.len() as int] == a);
            }
        }
    }
    if s.contains(a) {
        assert(s.to_set().insert(a) =~= s.to_set());
    }
}

/// Reverting to a checkpoint forgets every self-destruct recorded after it. `cp` was taken
/// on `before`; `after` is a later state whose self-destruct set extends that of `before`, as
/// every step and frame keeps it; `reverted` is what `revert_to(cp)` makes of `after`. Then
/// `reverted` holds the self-destructs of `before` and no account that `before` lacked.
pub proof fn lemma_revert_forgets_self_destructs(
    before: AccruedSubstate,
    cp: Checkpoint,
    after: AccruedSubstate,
    reverted: AccruedSubstate,
    a: Address,
)
    requires
        cp.self_destructs == before.spec_self_destruct_accounts().len(),
        after.spec_self_destruct_accounts().len() >= before.spec_self_destruct_accounts().len(),
        after.spec_self_destruct_accounts().subrange(0, cp.self_destructs as int)
            == before.spec_self_destruct_accounts(),
        reverted.spec_self_destruct_accounts() == after.spec_self_destruct_accounts().subrange(
            0,
            cp.self_destructs as int,
        ),
        !before.spec_self_destruct_accounts().contains(a),
    ensures
        reverted.spec_self_destruct_accounts() == before.spec_self_destruct_accounts(),
        !reverted.spec_self_destruct_accounts().contains(a),
{
}

} // verus!
