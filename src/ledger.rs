//! Account balances with reservations.
//!
//! Every account holds a free and a reserved amount. Funds move from free to
//! reserved (`reserve`), back (`unreserve`), out of existence (`slash_reserved`)
//! or to the free balance of another account (`repatriate_reserved`). An
//! account's total never exceeds `u128::MAX`, so no movement can overflow.
use std::collections::HashMap;
use vstd::prelude::*;

verus! {

broadcast use vstd::std_specs::hash::group_hash_axioms;

pub type AccountId = u64;

pub type Balance = u128;

pub type BlockNumber = u64;

/// The two parts of one account's balance.
#[derive(Clone, Copy, Debug, PartialEq, Eq, Structural)]
pub struct AccountBalance {
    pub free: u128,
    pub reserved: u128,
}

pub open spec fn min_nat(a: nat, b: nat) -> nat {
    if a <= b {
        a
    } else {
        b
    }
}

/// `percent` percent of `value`, truncating.
pub open spec fn pct_of(value: Balance, percent: u32) -> nat {
    value as nat * percent as nat / 100
}

/// `deposit · percent / 100`, truncating, computed without leaving the range
/// of a balance.
pub fn percent_of(deposit: Balance, percent: u32) -> (r: Balance)
    requires
        percent <= 100,
    ensures
        r == pct_of(deposit, percent),
        r <= deposit,
{
    let q = deposit / 100;
    let rem = deposit % 100;
    let p = percent as u128;
    assert(q * p <= q * 100) by (nonlinear_arith)
        requires
            p <= 100,
    ;
    assert(rem * p <= 100 * 100) by (nonlinear_arith)
        requires
            p <= 100,
            rem < 100,
    ;
    assert(q * p + rem * p / 100 == deposit as nat * p / 100) by (nonlinear_arith)
        requires
            deposit == q * 100 + rem,
            rem < 100,
    ;
    assert(deposit as nat * p / 100 <= deposit) by (nonlinear_arith)
        requires
            p <= 100,
    ;
    q * p + rem * p / 100
}

/// Why a reservation could not be taken.
#[derive(Clone, Copy, Debug, PartialEq, Eq, Structural)]
pub enum LedgerError {
    InsufficientBalance,
}

pub struct Ledger {
    accounts: HashMap<u64, AccountBalance>,
}

impl View for Ledger {
    type V = Map<u64, AccountBalance>;

    closed spec fn view(&self) -> Map<u64, AccountBalance> {
        self.accounts@
    }
}

impl Ledger {
    /// The balance of `a`; an account never seen holds nothing.
    pub open spec fn account(self, a: AccountId) -> AccountBalance {
        if self@.contains_key(a) {
            self@[a]
        } else {
            AccountBalance { free: 0, reserved: 0 }
        }
    }

    pub open spec fn free_of(self, a: AccountId) -> nat {
        self.account(a).free as nat
    }

    pub open spec fn reserved_of(self, a: AccountId) -> nat {
        self.account(a).reserved as nat
    }

    pub open spec fn total_of(self, a: AccountId) -> nat {
        self.free_of(a) + self.reserved_of(a)
    }

    /// No account's total exceeds the range of a balance.
    pub open spec fn wf(self) -> bool {
        forall|a: AccountId| #[trigger] self.total_of(a) <= u128::MAX
    }

    /// Every account other than those listed keeps its balance.
    pub open spec fn others_unchanged(self, other: Ledger, a: AccountId, b: AccountId) -> bool {
        forall|c: AccountId| c != a && c != b ==> #[trigger] other.account(c) == self.account(c)
    }

    pub fn new() -> (r: Ledger)
        ensures
            r.wf(),
            forall|a: AccountId| #[trigger] r.account(a) == (AccountBalance { free: 0, reserved: 0 }),
    {
        Ledger { accounts: HashMap::new() }
    }

    fn get(&self, a: AccountId) -> (r: AccountBalance)
        ensures
            r == self.account(a),
    {
        match self.accounts.get(&a) {
            Some(b) => *b,
            None => AccountBalance { free: 0, reserved: 0 },
        }
    }

    fn put(&mut self, a: AccountId, b: AccountBalance)
        requires
            old(self).wf(),
            b.free + b.reserved <= u128::MAX,
        ensures
            final(self).wf(),
            final(self).account(a) == b,
            forall|c: AccountId| c != a ==> #[trigger] final(self).account(c) == old(self).account(c),
    {
        self.accounts.insert(a, b);
        assert forall|c: AccountId| #[trigger] self.total_of(c) <= u128::MAX by {
            if c != a {
                assert(old(self).total_of(c) <= u128::MAX);
            }
        }
    }

    /// Sets the free balance of `a`, as an endowment at genesis does.
    pub fn set_free_balance(&mut self, a: AccountId, amount: Balance)
        requires
            old(self).wf(),
            amount as nat + old(self).reserved_of(a) <= u128::MAX,
        ensures
            final(self).wf(),
            final(self).free_of(a) == amount,
            final(self).reserved_of(a) == old(self).reserved_of(a),
            old(self).others_unchanged(*final(self), a, a),
    {
        let b = self.get(a);
        self.put(a, AccountBalance { free: amount, reserved: b.reserved });
        assert(self.total_of(a) <= u128::MAX);
    }

    pub fn free_balance(&self, a: AccountId) -> (r: Balance)
        ensures
            r == self.free_of(a),
    {
        self.get(a).free
    }

    pub fn reserved_balance(&self, a: AccountId) -> (r: Balance)
        ensures
            r == self.reserved_of(a),
    {
        self.get(a).reserved
    }

    /// Moves `n` from the free to the reserved balance of `a`; fails, changing
    /// nothing, when the free balance is short of `n`.
    pub fn reserve(&mut self, a: AccountId, n: Balance) -> (r: Result<(), LedgerError>)
        requires
            old(self).wf(),
        ensures
            final(self).wf(),
            r is Ok <==> old(self).free_of(a) >= n,
            r is Ok ==> final(self).free_of(a) == old(self).free_of(a) - n,
            r is Ok ==> final(self).reserved_of(a) == old(self).reserved_of(a) + n,
            r is Err ==> *final(self) == *old(self),
            old(self).others_unchanged(*final(self), a, a),
    {
        let b = self.get(a);
        if b.free < n {
            return Err(LedgerError::InsufficientBalance);
        }
        assert(self.total_of(a) <= u128::MAX);
        self.put(a, AccountBalance { free: b.free - n, reserved: b.reserved + n });
        Ok(())
    }

    /// Moves up to `n` from the reserved back to the free balance of `a`, and
    /// returns how much was moved: all of `n` unless less was reserved.
    pub fn unreserve(&mut self, a: AccountId, n: Balance) -> (moved: Balance)
        requires
            old(self).wf(),
        ensures
            final(self).wf(),
            moved == min_nat(n as nat, old(self).reserved_of(a)),
            final(self).free_of(a) == old(self).free_of(a) + moved,
            final(self).reserved_of(a) == old(self).reserved_of(a) - moved,
            old(self).others_unchanged(*final(self), a, a),
    {
        let b = self.get(a);
        let moved: u128 = if n <= b.reserved {
            n
        } else {
            b.reserved
        };
        assert(self.total_of(a) <= u128::MAX);
        self.put(a, AccountBalance { free: b.free + moved, reserved: b.reserved - moved });
        moved
    }

    /// Destroys up to `n` of the reserved balance of `a`. Returns what was
    /// destroyed and what of `n` could not be.
    pub fn slash_reserved(&mut self, a: AccountId, n: Balance) -> (r: (Balance, Balance))
        requires
            old(self).wf(),
        ensures
            final(self).wf(),
            r.0 == min_nat(n as nat, old(self).reserved_of(a)),
            r.0 + r.1 == n,
            final(self).free_of(a) == old(self).free_of(a),
            final(self).reserved_of(a) == old(self).reserved_of(a) - r.0,
            old(self).others_unchanged(*final(self), a, a),
    {
        let b = self.get(a);
        let slashed: u128 = if n <= b.reserved {
            n
        } else {
            b.reserved
        };
        assert(self.total_of(a) <= u128::MAX);
        self.put(a, AccountBalance { free: b.free, reserved: b.reserved - slashed });
        (slashed, n - slashed)
    }

    /// Moves up to `n` from the reserved balance of `from` to the free balance
    /// of `to`, and returns the part of `n` that was not moved. Less than `n`
    /// moves only when less is reserved, or when `to` cannot hold more.
    pub fn repatriate_reserved(&mut self, from: AccountId, to: AccountId, n: Balance) -> (remainder:
        Balance)
        requires
            old(self).wf(),
        ensures
            final(self).wf(),
            remainder <= n,
            from == to ==> remainder == n - min_nat(n as nat, old(self).reserved_of(from)),
            from != to ==> remainder == n - min_nat(
                min_nat(n as nat, old(self).reserved_of(from)),
                (u128::MAX - old(self).total_of(to)) as nat,
            ),
            from != to ==> final(self).reserved_of(from) == old(self).reserved_of(from) - (n
                - remainder),
            from != to ==> final(self).free_of(from) == old(self).free_of(from),
            from != to ==> final(self).free_of(to) == old(self).free_of(to) + (n - remainder),
            from != to ==> final(self).reserved_of(to) == old(self).reserved_of(to),
            from == to ==> final(self).free_of(to) == old(self).free_of(to) + (n - remainder),
            from == to ==> final(self).reserved_of(to) == old(self).reserved_of(to) - (n
                - remainder),
            old(self).others_unchanged(*final(self), from, to),
    {
        if from == to {
            let moved = self.unreserve(from, n);
            return n - moved;
        }
        let bf = self.get(from);
        let bt = self.get(to);
        assert(self.total_of(to) <= u128::MAX);
        let room: u128 = u128::MAX - bt.free - bt.reserved;
        let mut moved: u128 = if n <= bf.reserved {
            n
        } else {
            bf.reserved
        };
        if room < moved {
            moved = room;
        }
        assert(self.total_of(from) <= u128::MAX);
        self.put(from, AccountBalance { free: bf.free, reserved: bf.reserved - moved });
        self.put(to, AccountBalance { free: bt.free + moved, reserved: bt.reserved });
        n - moved
    }
}

} // verus!
