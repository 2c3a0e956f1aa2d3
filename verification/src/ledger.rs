//! The reservation ledger: free and reserved balances per account, with
//! reserve / unreserve / transfer operations. The registry bonds a fixed
//! deposit against an owner's balance through this ledger and the purchase
//! price moves through it. The ledger maintains one record per account and a
//! cached total of all balances, so no balance movement can overflow.

use vstd::prelude::*;

use crate::types::{AccountId, Balance};

verus! {

/// One account's balances: the freely spendable part and the part bonded to
/// the kitties the account owns.
#[derive(Clone, Copy, PartialEq, Eq, Structural, Debug)]
pub struct BalanceRecord {
    pub account: AccountId,
    pub free: Balance,
    pub reserved: Balance,
}

/// The sum of all balances, free and reserved, in a sequence of records.
pub open spec fn records_sum(s: Seq<BalanceRecord>) -> int
    decreases s.len(),
{
    if s.len() == 0 {
        0
    } else {
        records_sum(s.drop_last()) + s.last().free + s.last().reserved
    }
}

/// Whether no two records name the same account.
pub open spec fn accounts_unique(s: Seq<BalanceRecord>) -> bool {
    forall|i: int, j: int|
        0 <= i < j < s.len() ==> s[i].account != s[j].account
}

/// Whether the sequence holds a record for `a`.
pub open spec fn seq_has_account(s: Seq<BalanceRecord>, a: AccountId) -> bool {
    exists|i: int| 0 <= i < s.len() && #[trigger] s[i].account == a
}

/// The index of the record for `a` (meaningful only when one exists).
pub open spec fn account_index(s: Seq<BalanceRecord>, a: AccountId) -> int {
    choose|i: int| 0 <= i < s.len() && #[trigger] s[i].account == a
}

/// The free balance of `a`: zero for an account without a record.
pub open spec fn seq_free_of(s: Seq<BalanceRecord>, a: AccountId) -> Balance {
    if seq_has_account(s, a) {
        s[account_index(s, a)].free
    } else {
        0
    }
}

/// The reserved balance of `a`: zero for an account without a record.
pub open spec fn seq_reserved_of(s: Seq<BalanceRecord>, a: AccountId) -> Balance {
    if seq_has_account(s, a) {
        s[account_index(s, a)].reserved
    } else {
        0
    }
}

pub proof fn lemma_sum_nonneg(s: Seq<BalanceRecord>)
    ensures
        records_sum(s) >= 0,
    decreases s.len(),
{
    if s.len() > 0 {
        lemma_sum_nonneg(s.drop_last());
    }
}

pub proof fn lemma_sum_update(s: Seq<BalanceRecord>, i: int, r: BalanceRecord)
    requires
        0 <= i < s.len(),
    ensures
        records_sum(s.update(i, r)) == records_sum(s) - s[i].free - s[i].reserved + r.free
            + r.reserved,
    decreases s.len(),
{
    let t = s.update(i, r);
    if i == s.len() - 1 {
        assert(t.drop_last() =~= s.drop_last());
    } else {
        assert(t.drop_last() =~= s.drop_last().update(i, r));
        lemma_sum_update(s.drop_last(), i, r);
    }
}

pub proof fn lemma_sum_push(s: Seq<BalanceRecord>, r: BalanceRecord)
    ensures
        records_sum(s.push(r)) == records_sum(s) + r.free + r.reserved,
{
    assert(s.push(r).drop_last() =~= s);
}

/// One record's balances never exceed the sum of all records'.
pub proof fn lemma_elem_le_sum(s: Seq<BalanceRecord>, i: int)
    requires
        0 <= i < s.len(),
    ensures
        s[i].free + s[i].reserved <= records_sum(s),
    decreases s.len(),
{
    if i == s.len() - 1 {
        lemma_sum_nonneg(s.drop_last());
    } else {
        lemma_elem_le_sum(s.drop_last(), i);
    }
}

/// Two distinct records' balances together never exceed the sum of all.
pub proof fn lemma_pair_le_sum(s: Seq<BalanceRecord>, i: int, j: int)
    requires
        0 <= i < s.len(),
        0 <= j < s.len(),
        i != j,
    ensures
        s[i].free + s[i].reserved + s[j].free + s[j].reserved <= records_sum(s),
    decreases s.len(),
{
    let lo = if i < j { i } else { j };
    let hi = if i < j { j } else { i };
    if hi == s.len() - 1 {
        lemma_elem_le_sum(s.drop_last(), lo);
    } else {
        lemma_pair_le_sum(s.drop_last(), lo, hi);
    }
}

/// A record whose index is known is the record the lookups read.
pub proof fn lemma_index_is_lookup(s: Seq<BalanceRecord>, i: int)
    requires
        accounts_unique(s),
        0 <= i < s.len(),
    ensures
        seq_has_account(s, s[i].account),
        account_index(s, s[i].account) == i,
        seq_free_of(s, s[i].account) == s[i].free,
        seq_reserved_of(s, s[i].account) == s[i].reserved,
{
    let a = s[i].account;
    assert(seq_has_account(s, a));
    let k = account_index(s, a);
    assert(0 <= k < s.len() && s[k].account == a);
    if k != i {
        assert(false);
    }
}

/// Overwriting one record with another of the same account changes that
/// account's balances alone.
pub proof fn lemma_lookup_update(s: Seq<BalanceRecord>, i: int, r: BalanceRecord)
    requires
        accounts_unique(s),
        0 <= i < s.len(),
        r.account == s[i].account,
    ensures
        accounts_unique(s.update(i, r)),
        seq_free_of(s.update(i, r), r.account) == r.free,
        seq_reserved_of(s.update(i, r), r.account) == r.reserved,
        forall|b: AccountId|
            b != r.account ==> #[trigger] seq_free_of(s.update(i, r), b) == seq_free_of(s, b),
        forall|b: AccountId|
            b != r.account ==> #[trigger] seq_reserved_of(s.update(i, r), b) == seq_reserved_of(
                s,
                b,
            ),
{
    let t = s.update(i, r);
    assert(forall|k: int| 0 <= k < s.len() ==> #[trigger] t[k].account == s[k].account);
    lemma_index_is_lookup(t, i);
    assert forall|b: AccountId| b != r.account implies #[trigger] seq_free_of(t, b) == seq_free_of(
        s,
        b,
    ) by {
        lemma_other_lookup_same(s, t, i, b);
    }
    assert forall|b: AccountId| b != r.account implies #[trigger] seq_reserved_of(t, b)
        == seq_reserved_of(s, b) by {
        lemma_other_lookup_same(s, t, i, b);
    }
}

/// When two equally long record sequences agree on every account name and on
/// every record but the one at `i`, every account but the one at `i` reads
/// the same balances from both.
proof fn lemma_other_lookup_same(s: Seq<BalanceRecord>, t: Seq<BalanceRecord>, i: int, b: AccountId)
    requires
        accounts_unique(s),
        accounts_unique(t),
        s.len() == t.len(),
        0 <= i < s.len(),
        forall|k: int| 0 <= k < s.len() ==> #[trigger] t[k].account == s[k].account,
        forall|k: int| 0 <= k < s.len() && k != i ==> #[trigger] t[k] == s[k],
        b != s[i].account,
    ensures
        seq_free_of(t, b) == seq_free_of(s, b),
        seq_reserved_of(t, b) == seq_reserved_of(s, b),
{
    if seq_has_account(s, b) {
        let k = account_index(s, b);
        assert(0 <= k < s.len() && s[k].account == b);
        assert(k != i);
        lemma_index_is_lookup(t, k);
        lemma_index_is_lookup(s, k);
    } else {
        if seq_has_account(t, b) {
            let k = account_index(t, b);
            assert(0 <= k < t.len() && t[k].account == b);
            assert(s[k].account == b);
        }
    }
}

/// Appending a record for a fresh account changes that account's balances
/// alone.
pub proof fn lemma_lookup_push(s: Seq<BalanceRecord>, r: BalanceRecord)
    requires
        accounts_unique(s),
        !seq_has_account(s, r.account),
    ensures
        accounts_unique(s.push(r)),
        seq_free_of(s.push(r), r.account) == r.free,
        seq_reserved_of(s.push(r), r.account) == r.reserved,
        forall|b: AccountId|
            b != r.account ==> #[trigger] seq_free_of(s.push(r), b) == seq_free_of(s, b),
        forall|b: AccountId|
            b != r.account ==> #[trigger] seq_reserved_of(s.push(r), b) == seq_reserved_of(s, b),
{
    let t = s.push(r);
    assert(forall|k: int| 0 <= k < s.len() ==> #[trigger] t[k].account == s[k].account);
    assert forall|i: int, j: int| 0 <= i < j < t.len() implies t[i].account != t[j].account by {
        if j == s.len() {
            assert(t[i].account == s[i].account);
            if s[i].account == r.account {
                assert(seq_has_account(s, r.account));
            }
        }
    }
    lemma_index_is_lookup(t, s.len() as int);
    assert forall|b: AccountId| b != r.account implies #[trigger] seq_free_of(t, b) == seq_free_of(
        s,
        b,
    ) by {
        lemma_pushed_lookup_same(s, t, r, b);
    }
    assert forall|b: AccountId| b != r.account implies #[trigger] seq_reserved_of(t, b)
        == seq_reserved_of(s, b) by {
        lemma_pushed_lookup_same(s, t, r, b);
    }
}

/// Every account other than the appended one reads the same balances before
/// and after the append.
proof fn lemma_pushed_lookup_same(
    s: Seq<BalanceRecord>,
    t: Seq<BalanceRecord>,
    r: BalanceRecord,
    b: AccountId,
)
    requires
        accounts_unique(s),
        accounts_unique(t),
        t == s.push(r),
        b != r.account,
    ensures
        seq_free_of(t, b) == seq_free_of(s, b),
        seq_reserved_of(t, b) == seq_reserved_of(s, b),
{
    if seq_has_account(s, b) {
        let k = account_index(s, b);
        assert(0 <= k < s.len() && s[k].account == b);
        assert(t[k].account == b);
        lemma_index_is_lookup(t, k);
        lemma_index_is_lookup(s, k);
    } else {
        if seq_has_account(t, b) {
            let k = account_index(t, b);
            assert(0 <= k < t.len() && t[k].account == b);
            assert(k != s.len());
            assert(s[k].account == b);
        }
    }
}

/// The reservation ledger: balances per account and their cached total.
pub struct Ledger {
    pub accounts: Vec<BalanceRecord>,
    /// The sum of all free and reserved balances; kept in step so that no
    /// balance movement between accounts can overflow.
    pub total: Balance,
}

impl Ledger {
    /// Well-formedness: one record per account, and the cached total is the
    /// true sum of all balances.
    pub open spec fn wf(self) -> bool {
        &&& accounts_unique(self.accounts@)
        &&& records_sum(self.accounts@) == self.total
    }

    pub open spec fn has_account(self, a: AccountId) -> bool {
        seq_has_account(self.accounts@, a)
    }

    /// The freely spendable balance of `a`.
    pub open spec fn free_of(self, a: AccountId) -> Balance {
        seq_free_of(self.accounts@, a)
    }

    /// The balance of `a` bonded to the kitties it owns.
    pub open spec fn reserved_of(self, a: AccountId) -> Balance {
        seq_reserved_of(self.accounts@, a)
    }

    /// A fresh ledger: no accounts, every balance zero.
    pub fn new() -> (l: Ledger)
        ensures
            l.wf(),
            l.total == 0,
            forall|a: AccountId| #[trigger] l.free_of(a) == 0,
            forall|a: AccountId| #[trigger] l.reserved_of(a) == 0,
    {
        Ledger { accounts: Vec::new(), total: 0 }
    }

    /// The index of the record for `a`, if one exists.
    fn find_account(&self, a: AccountId) -> (r: Option<usize>)
        ensures
            match r {
                Some(i) => i < self.accounts@.len() && self.accounts@[i as int].account == a,
                None => !self.has_account(a),
            },
    {
        let mut i: usize = 0;
        while i < self.accounts.len()
            invariant
                i <= self.accounts@.len(),
                forall|k: int| 0 <= k < i ==> #[trigger] self.accounts@[k].account != a,
            decreases self.accounts@.len() - i,
        {
            if self.accounts[i].account == a {
                return Some(i);
            }
            i = i + 1;
        }
        None
    }

    /// The free balance of `a`.
    pub fn free_balance(&self, a: AccountId) -> (r: Balance)
        requires
            self.wf(),
        ensures
            r == self.free_of(a),
    {
        match self.find_account(a) {
            Some(i) => {
                proof {
                    lemma_index_is_lookup(self.accounts@, i as int);
                }
                self.accounts[i].free
            }
            None => 0,
        }
    }

    /// The reserved balance of `a`.
    pub fn reserved_balance(&self, a: AccountId) -> (r: Balance)
        requires
            self.wf(),
        ensures
            r == self.reserved_of(a),
    {
        match self.find_account(a) {
            Some(i) => {
                proof {
                    lemma_index_is_lookup(self.accounts@, i as int);
                }
                self.accounts[i].reserved
            }
            None => 0,
        }
    }

    /// Endows `a` with `amount` of free balance, as the genesis of the host
    /// ledger does. Fails only when the ledger's total would overflow.
    pub fn deposit(&mut self, a: AccountId, amount: Balance) -> (ok: bool)
        requires
            old(self).wf(),
        ensures
            final(self).wf(),
            ok == (old(self).total + amount <= u128::MAX),
            ok ==> final(self).total == old(self).total + amount,
            ok ==> final(self).free_of(a) == old(self).free_of(a) + amount,
            ok ==> final(self).reserved_of(a) == old(self).reserved_of(a),
            forall|b: AccountId|
                b != a ==> #[trigger] final(self).free_of(b) == old(self).free_of(b),
            forall|b: AccountId|
                b != a ==> #[trigger] final(self).reserved_of(b) == old(self).reserved_of(b),
            !ok ==> *final(self) == *old(self),
    {
        if amount > u128::MAX - self.total {
            return false;
        }
        match self.find_account(a) {
            Some(i) => {
                proof {
                    lemma_index_is_lookup(self.accounts@, i as int);
                    lemma_elem_le_sum(self.accounts@, i as int);
                    lemma_sum_update(
                        self.accounts@,
                        i as int,
                        BalanceRecord {
                            account: a,
                            free: (self.accounts@[i as int].free + amount) as Balance,
                            reserved: self.accounts@[i as int].reserved,
                        },
                    );
                    lemma_lookup_update(
                        self.accounts@,
                        i as int,
                        BalanceRecord {
                            account: a,
                            free: (self.accounts@[i as int].free + amount) as Balance,
                            reserved: self.accounts@[i as int].reserved,
                        },
                    );
                }
                let rec = &mut self.accounts[i];
                rec.free = rec.free + amount;
            }
            None => {
                proof {
                    lemma_sum_push(
                        self.accounts@,
                        BalanceRecord { account: a, free: amount, reserved: 0 },
                    );
                    lemma_lookup_push(
                        self.accounts@,
                        BalanceRecord { account: a, free: amount, reserved: 0 },
                    );
                }
                self.accounts.push(BalanceRecord { account: a, free: amount, reserved: 0 });
            }
        }
        self.total = self.total + amount;
        true
    }

    /// Bonds `amount` of `a`'s free balance, moving it to the reserved part.
    /// Fails, changing nothing, when the free balance does not cover it.
    pub fn reserve(&mut self, a: AccountId, amount: Balance) -> (ok: bool)
        requires
            old(self).wf(),
        ensures
            final(self).wf(),
            final(self).total == old(self).total,
            ok == (amount <= old(self).free_of(a)),
            ok ==> final(self).free_of(a) == old(self).free_of(a) - amount,
            ok ==> final(self).reserved_of(a) == old(self).reserved_of(a) + amount,
            forall|b: AccountId|
                b != a ==> #[trigger] final(self).free_of(b) == old(self).free_of(b),
            forall|b: AccountId|
                b != a ==> #[trigger] final(self).reserved_of(b) == old(self).reserved_of(b),
            !ok ==> *final(self) == *old(self),
    {
        match self.find_account(a) {
            Some(i) => {
                proof {
                    lemma_index_is_lookup(self.accounts@, i as int);
                }
                if amount > self.accounts[i].free {
                    return false;
                }
                proof {
                    lemma_elem_le_sum(self.accounts@, i as int);
                    let r = BalanceRecord {
                        account: a,
                        free: (self.accounts@[i as int].free - amount) as Balance,
                        reserved: (self.accounts@[i as int].reserved + amount) as Balance,
                    };
                    lemma_sum_update(self.accounts@, i as int, r);
                    lemma_lookup_update(self.accounts@, i as int, r);
                }
                let rec = &mut self.accounts[i];
                rec.free = rec.free - amount;
                rec.reserved = rec.reserved + amount;
                true
            }
            None => amount == 0,
        }
    }

    /// Releases up to `amount` of `a`'s reserved balance back to the free
    /// part: the smaller of `amount` and the outstanding reservation moves.
    /// Best-effort, as the host ledger's unreserve is: never fails.
    pub fn unreserve(&mut self, a: AccountId, amount: Balance)
        requires
            old(self).wf(),
        ensures
            final(self).wf(),
            final(self).total == old(self).total,
            final(self).reserved_of(a) == old(self).reserved_of(a) - (if amount
                <= old(self).reserved_of(a) {
                amount as int
            } else {
                old(self).reserved_of(a) as int
            }),
            final(self).free_of(a) == old(self).free_of(a) + (if amount <= old(
                self,
            ).reserved_of(a) {
                amount as int
            } else {
                old(self).reserved_of(a) as int
            }),
            forall|b: AccountId|
                b != a ==> #[trigger] final(self).free_of(b) == old(self).free_of(b),
            forall|b: AccountId|
                b != a ==> #[trigger] final(self).reserved_of(b) == old(self).reserved_of(b),
    {
        match self.find_account(a) {
            Some(i) => {
                proof {
                    lemma_index_is_lookup(self.accounts@, i as int);
                }
                let moved = if amount <= self.accounts[i].reserved {
                    amount
                } else {
                    self.accounts[i].reserved
                };
                proof {
                    lemma_elem_le_sum(self.accounts@, i as int);
                    let r = BalanceRecord {
                        account: a,
                        free: (self.accounts@[i as int].free + moved) as Balance,
                        reserved: (self.accounts@[i as int].reserved - moved) as Balance,
                    };
                    lemma_sum_update(self.accounts@, i as int, r);
                    lemma_lookup_update(self.accounts@, i as int, r);
                }
                let rec = &mut self.accounts[i];
                rec.free = rec.free + moved;
                rec.reserved = rec.reserved - moved;
            }
            None => {}
        }
    }

    /// Moves `amount` of free balance from `from` to `to`. Fails, changing
    /// nothing, when `from`'s free balance does not cover it. A transfer to
    /// oneself that the balance covers succeeds and changes nothing.
    pub fn transfer(&mut self, from: AccountId, to: AccountId, amount: Balance) -> (ok: bool)
        requires
            old(self).wf(),
        ensures
            final(self).wf(),
            final(self).total == old(self).total,
            ok == (amount <= old(self).free_of(from)),
            ok && from != to ==> final(self).free_of(from) == old(self).free_of(from) - amount,
            ok && from != to ==> final(self).free_of(to) == old(self).free_of(to) + amount,
            final(self).reserved_of(from) == old(self).reserved_of(from),
            final(self).reserved_of(to) == old(self).reserved_of(to),
            forall|b: AccountId|
                b != from && b != to ==> #[trigger] final(self).free_of(b) == old(self).free_of(b),
            forall|b: AccountId|
                b != from && b != to ==> #[trigger] final(self).reserved_of(b) == old(
                    self,
                ).reserved_of(b),
            ok && from == to ==> *final(self) == *old(self),
            !ok ==> *final(self) == *old(self),
    {
        let free_from = self.free_balance(from);
        if amount > free_from {
            return false;
        }
        if from == to {
            return true;
        }
        let i = match self.find_account(from) {
            Some(i) => i,
            None => {
                // `from` has no record, so its free balance is zero and only
                // a zero amount reaches this point: nothing moves.
                return true;
            }
        };
        let ghost debited = BalanceRecord {
            account: from,
            free: (self.accounts@[i as int].free - amount) as Balance,
            reserved: self.accounts@[i as int].reserved,
        };
        proof {
            lemma_index_is_lookup(self.accounts@, i as int);
            lemma_sum_update(self.accounts@, i as int, debited);
            lemma_lookup_update(self.accounts@, i as int, debited);
        }
        let rec = &mut self.accounts[i];
        rec.free = rec.free - amount;
        proof {
            assert(self.accounts@ == old(self).accounts@.update(i as int, debited));
            assert(seq_free_of(self.accounts@, to) == seq_free_of(old(self).accounts@, to));
            assert(seq_reserved_of(self.accounts@, to) == seq_reserved_of(
                old(self).accounts@,
                to,
            ));
        }
        match self.find_account(to) {
            Some(j) => {
                proof {
                    lemma_index_is_lookup(self.accounts@, j as int);
                    lemma_pair_le_sum(self.accounts@, i as int, j as int);
                    let r = BalanceRecord {
                        account: to,
                        free: (self.accounts@[j as int].free + amount) as Balance,
                        reserved: self.accounts@[j as int].reserved,
                    };
                    lemma_sum_update(self.accounts@, j as int, r);
                    lemma_lookup_update(self.accounts@, j as int, r);
                }
                let rec = &mut self.accounts[j];
                rec.free = rec.free + amount;
            }
            None => {
                proof {
                    let r = BalanceRecord { account: to, free: amount, reserved: 0 };
                    lemma_sum_nonneg(self.accounts@);
                    lemma_sum_push(self.accounts@, r);
                    lemma_lookup_push(self.accounts@, r);
                }
                self.accounts.push(BalanceRecord { account: to, free: amount, reserved: 0 });
            }
        }
        true
    }
}

} // verus!
