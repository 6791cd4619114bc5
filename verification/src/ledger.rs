//! Token accounts and the escrow transfers that settle proposal funds.
//!
//! A transfer debits the source account and credits the destination (creating
//! it if absent) by exactly the same amount, so total supply is conserved.

use vstd::prelude::*;
use vstd::pervasive::VecAdditionalExecFns;

verus! {

/// One token account: an address and its balance.
#[derive(Clone, Copy)]
pub struct Account {
    pub addr: u64,
    pub balance: u64,
}

/// The token ledger: every account's balance, in a stable order.
pub struct Ledger {
    pub accounts: Vec<Account>,
}

/// Sum of all balances.
pub open spec fn total_supply(s: Seq<Account>) -> int
    decreases s.len(),
{
    if s.len() == 0 {
        0
    } else {
        s[0].balance + total_supply(s.drop_first())
    }
}

/// Whether some account carries `addr`.
pub open spec fn has_account(s: Seq<Account>, addr: u64) -> bool {
    exists|i: int| 0 <= i < s.len() && s[i].addr == addr
}

/// Balance of `addr`: the balance of the first account carrying it, or zero
/// when no account does.
pub open spec fn spec_balance(s: Seq<Account>, addr: u64) -> int
    decreases s.len(),
{
    if s.len() == 0 {
        0
    } else if s[0].addr == addr {
        s[0].balance as int
    } else {
        spec_balance(s.drop_first(), addr)
    }
}

/// No two accounts share an address.
pub open spec fn unique_addrs(s: Seq<Account>) -> bool {
    forall|i: int, j: int| 0 <= i < j < s.len() ==> s[i].addr != s[j].addr
}

/// Removes `amt` from the first account carrying `addr`; no account, no
/// change (meaningful only under `spec_balance(s, addr) >= amt`).
pub open spec fn spec_debit(s: Seq<Account>, addr: u64, amt: u64) -> Seq<Account>
    decreases s.len(),
{
    if s.len() == 0 {
        s
    } else if s[0].addr == addr {
        seq![Account { addr, balance: (s[0].balance - amt) as u64 }] + s.drop_first()
    } else {
        seq![s[0]] + spec_debit(s.drop_first(), addr, amt)
    }
}

/// Adds `amt` to the first account carrying `addr`, appending a fresh
/// account when none does.
pub open spec fn spec_credit(s: Seq<Account>, addr: u64, amt: u64) -> Seq<Account>
    decreases s.len(),
{
    if s.len() == 0 {
        seq![Account { addr, balance: amt }]
    } else if s[0].addr == addr {
        seq![Account { addr, balance: (s[0].balance + amt) as u64 }] + s.drop_first()
    } else {
        seq![s[0]] + spec_credit(s.drop_first(), addr, amt)
    }
}

/// Moving `amt` from `from` to `to`: a debit followed by a credit.
pub open spec fn spec_transfer(s: Seq<Account>, from: u64, to: u64, amt: u64) -> Seq<Account> {
    spec_credit(spec_debit(s, from, amt), to, amt)
}

pub proof fn lemma_total_supply_nonneg(s: Seq<Account>)
    ensures
        total_supply(s) >= 0,
    decreases s.len(),
{
    if s.len() > 0 {
        lemma_total_supply_nonneg(s.drop_first());
    }
}

/// Every balance is bounded by the total supply.
pub proof fn lemma_balance_bounds(s: Seq<Account>)
    ensures
        forall|a: u64| 0 <= #[trigger] spec_balance(s, a) <= total_supply(s),
    decreases s.len(),
{
    if s.len() > 0 {
        lemma_balance_bounds(s.drop_first());
        lemma_total_supply_nonneg(s.drop_first());
        assert forall|a: u64| 0 <= #[trigger] spec_balance(s, a) <= total_supply(s) by {
            if s[0].addr != a {
                assert(spec_balance(s, a) == spec_balance(s.drop_first(), a));
            }
        }
    }
}

/// Balance of `addr` is the balance of its first match; zero when absent.
pub proof fn lemma_balance_char(s: Seq<Account>, addr: u64)
    ensures
        (forall|j: int| 0 <= j < s.len() ==> s[j].addr != addr) ==> spec_balance(s, addr) == 0,
        forall|i: int|
            0 <= i < s.len() && s[i].addr == addr && (forall|j: int| 0 <= j < i ==> s[j].addr != addr)
                ==> spec_balance(s, addr) == s[i].balance,
    decreases s.len(),
{
    if s.len() > 0 {
        lemma_balance_char(s.drop_first(), addr);
        assert forall|i: int|
            0 <= i < s.len() && s[i].addr == addr && (forall|j: int| 0 <= j < i ==> s[j].addr != addr)
                implies spec_balance(s, addr) == s[i].balance by {
            if i > 0 {
                assert(s.drop_first()[i - 1] == s[i]);
                assert(forall|j: int| 0 <= j < i - 1 ==> s.drop_first()[j] == s[j + 1]);
            }
        }
    }
}

/// What a debit does to supply, balances, and the account layout.
pub proof fn lemma_debit(s: Seq<Account>, addr: u64, amt: u64)
    requires
        spec_balance(s, addr) >= amt,
    ensures
        spec_debit(s, addr, amt).len() == s.len(),
        forall|i: int| 0 <= i < s.len() ==> #[trigger] spec_debit(s, addr, amt)[i].addr == s[i].addr,
        total_supply(spec_debit(s, addr, amt)) == total_supply(s) - amt,
        spec_balance(spec_debit(s, addr, amt), addr) == spec_balance(s, addr) - amt,
        forall|a: u64| a != addr ==> #[trigger] spec_balance(spec_debit(s, addr, amt), a) == spec_balance(s, a),
        forall|a: u64| #[trigger] has_account(spec_debit(s, addr, amt), a) <==> has_account(s, a),
        unique_addrs(s) ==> unique_addrs(spec_debit(s, addr, amt)),
    decreases s.len(),
{
    if s.len() == 0 {
    } else if s[0].addr == addr {
        let d = spec_debit(s, addr, amt);
        assert(d =~= seq![Account { addr, balance: (s[0].balance - amt) as u64 }] + s.drop_first());
        assert(d.drop_first() =~= s.drop_first());
        assert forall|a: u64| a != addr implies #[trigger] spec_balance(d, a) == spec_balance(s, a) by {
            assert(spec_balance(d, a) == spec_balance(d.drop_first(), a));
            assert(spec_balance(s, a) == spec_balance(s.drop_first(), a));
        }
        assert forall|a: u64| #[trigger] has_account(d, a) implies has_account(s, a) by {
            let i = choose|i: int| 0 <= i < d.len() && d[i].addr == a;
            assert(s[i].addr == a);
        }
        assert forall|a: u64| #[trigger] has_account(s, a) implies has_account(d, a) by {
            let i = choose|i: int| 0 <= i < s.len() && s[i].addr == a;
            assert(d[i].addr == a);
        }
    } else {
        lemma_debit(s.drop_first(), addr, amt);
        let d = spec_debit(s, addr, amt);
        let dt = spec_debit(s.drop_first(), addr, amt);
        assert(d == seq![s[0]] + dt);
        assert(d.drop_first() =~= dt);
        assert(d[0] == s[0]);
        assert(total_supply(d) == d[0].balance + total_supply(dt));
        assert forall|a: u64| a != addr implies #[trigger] spec_balance(d, a) == spec_balance(s, a) by {
            if s[0].addr != a {
                assert(spec_balance(d, a) == spec_balance(dt, a));
                assert(spec_balance(s, a) == spec_balance(s.drop_first(), a));
                assert(spec_balance(dt, a) == spec_balance(s.drop_first(), a));
            }
        }
        assert(spec_balance(d, addr) == spec_balance(dt, addr));
        assert forall|i: int| 0 <= i < s.len() implies #[trigger] d[i].addr == s[i].addr by {
            if i > 0 {
                assert(dt[i - 1].addr == s.drop_first()[i - 1].addr);
            }
        }
        assert forall|a: u64| #[trigger] has_account(d, a) implies has_account(s, a) by {
            let i = choose|i: int| 0 <= i < d.len() && d[i].addr == a;
            assert(s[i].addr == a);
        }
        assert forall|a: u64| #[trigger] has_account(s, a) implies has_account(d, a) by {
            let i = choose|i: int| 0 <= i < s.len() && s[i].addr == a;
            assert(d[i].addr == a);
        }
    }
}

/// What a credit does to supply, balances, and the account layout.
pub proof fn lemma_credit(s: Seq<Account>, addr: u64, amt: u64)
    requires
        spec_balance(s, addr) + amt <= u64::MAX,
    ensures
        total_supply(spec_credit(s, addr, amt)) == total_supply(s) + amt,
        spec_balance(spec_credit(s, addr, amt), addr) == spec_balance(s, addr) + amt,
        forall|a: u64| a != addr ==> #[trigger] spec_balance(spec_credit(s, addr, amt), a) == spec_balance(s, a),
        forall|a: u64| #[trigger] has_account(spec_credit(s, addr, amt), a) <==> (has_account(s, a) || a == addr),
        unique_addrs(s) ==> unique_addrs(spec_credit(s, addr, amt)),
    decreases s.len(),
{
    let c = spec_credit(s, addr, amt);
    if s.len() == 0 {
        assert(c =~= seq![Account { addr, balance: amt }]);
        assert(c[0].addr == addr);
        assert(c.drop_first() =~= Seq::<Account>::empty());
        assert(total_supply(c) == c[0].balance + total_supply(c.drop_first()));
        assert(total_supply(c.drop_first()) == 0);
        assert forall|a: u64| a != addr implies #[trigger] spec_balance(c, a) == spec_balance(s, a) by {
            assert(spec_balance(c, a) == spec_balance(c.drop_first(), a));
        }
    } else if s[0].addr == addr {
        assert(c == seq![Account { addr, balance: (s[0].balance + amt) as u64 }] + s.drop_first());
        assert(c.drop_first() =~= s.drop_first());
        assert(c[0].addr == addr);
        assert(total_supply(c) == c[0].balance + total_supply(s.drop_first()));
        assert(total_supply(s) == s[0].balance + total_supply(s.drop_first()));
        assert forall|a: u64| a != addr implies #[trigger] spec_balance(c, a) == spec_balance(s, a) by {
            assert(spec_balance(c, a) == spec_balance(c.drop_first(), a));
            assert(spec_balance(s, a) == spec_balance(s.drop_first(), a));
        }
        assert forall|a: u64| #[trigger] has_account(c, a) implies (has_account(s, a) || a == addr) by {
            let i = choose|i: int| 0 <= i < c.len() && c[i].addr == a;
            if i > 0 {
                assert(s[i].addr == a);
            }
        }
        assert forall|a: u64| has_account(s, a) implies #[trigger] has_account(c, a) by {
            let i = choose|i: int| 0 <= i < s.len() && s[i].addr == a;
            assert(c[i].addr == a);
        }
        assert forall|i: int| 0 <= i < c.len() implies #[trigger] c[i].addr == s[i].addr by {
        }
    } else {
        lemma_credit(s.drop_first(), addr, amt);
        let ct = spec_credit(s.drop_first(), addr, amt);
        assert(c == seq![s[0]] + ct);
        assert(c.drop_first() =~= ct);
        assert(c[0] == s[0]);
        assert(total_supply(c) == c[0].balance + total_supply(ct));
        assert(total_supply(s) == s[0].balance + total_supply(s.drop_first()));
        assert forall|a: u64| a != addr implies #[trigger] spec_balance(c, a) == spec_balance(s, a) by {
            if s[0].addr != a {
                assert(spec_balance(c, a) == spec_balance(ct, a));
                assert(spec_balance(s, a) == spec_balance(s.drop_first(), a));
                assert(spec_balance(ct, a) == spec_balance(s.drop_first(), a));
            }
        }
        assert(spec_balance(c, addr) == spec_balance(ct, addr));
        assert forall|a: u64| #[trigger] has_account(c, a) implies (has_account(s, a) || a == addr) by {
            let i = choose|i: int| 0 <= i < c.len() && c[i].addr == a;
            if i == 0 {
                assert(s[0].addr == a);
            } else {
                assert(has_account(ct, a));
                if a != addr {
                    let j = choose|j: int| 0 <= j < s.drop_first().len() && s.drop_first()[j].addr == a;
                    assert(s[j + 1].addr == a);
                }
            }
        }
        assert forall|a: u64| (has_account(s, a) || a == addr) implies #[trigger] has_account(c, a) by {
            if has_account(s, a) {
                let i = choose|i: int| 0 <= i < s.len() && s[i].addr == a;
                if i == 0 {
                    assert(c[0].addr == a);
                } else {
                    assert(s.drop_first()[i - 1].addr == a);
                    assert(has_account(s.drop_first(), a));
                    assert(has_account(ct, a));
                    let j = choose|j: int| 0 <= j < ct.len() && ct[j].addr == a;
                    assert(c[j + 1].addr == a);
                }
            } else {
                assert(has_account(ct, a));
                let j = choose|j: int| 0 <= j < ct.len() && ct[j].addr == a;
                assert(c[j + 1].addr == a);
            }
        }
        if unique_addrs(s) {
            assert(unique_addrs(s.drop_first())) by {
                assert(forall|i: int| 0 <= i < s.drop_first().len() ==> s.drop_first()[i] == s[i + 1]);
            }
            assert forall|i: int, j: int| 0 <= i < j < c.len() implies c[i].addr != c[j].addr by {
                if i == 0 {
                    assert(c[j].addr == ct[j - 1].addr);
                    assert(has_account(ct, ct[j - 1].addr));
                    if ct[j - 1].addr == s[0].addr {
                        assert(has_account(s.drop_first(), s[0].addr) || s[0].addr == addr);
                        if has_account(s.drop_first(), s[0].addr) {
                            let k = choose|k: int|
                                0 <= k < s.drop_first().len() && s.drop_first()[k].addr == s[0].addr;
                            assert(s[k + 1].addr == s[0].addr);
                        }
                    }
                } else {
                    assert(ct[i - 1].addr != ct[j - 1].addr);
                }
            }
        }
    }
}

/// A debit is the identity when no account matches, and a single-index
/// update when the first match sits at `i`.
pub proof fn lemma_debit_shape(s: Seq<Account>, addr: u64, amt: u64)
    ensures
        (forall|j: int| 0 <= j < s.len() ==> s[j].addr != addr) ==> spec_debit(s, addr, amt) == s,
        forall|i: int|
            0 <= i < s.len() && s[i].addr == addr && (forall|j: int| 0 <= j < i ==> s[j].addr != addr)
                ==> spec_debit(s, addr, amt)
                    == s.update(i, Account { addr, balance: (s[i].balance - amt) as u64 }),
    decreases s.len(),
{
    if s.len() == 0 {
    } else {
        lemma_debit_shape(s.drop_first(), addr, amt);
        let d = spec_debit(s, addr, amt);
        if s[0].addr == addr {
            assert(d =~= s.update(0, Account { addr, balance: (s[0].balance - amt) as u64 }));
        } else {
            if forall|j: int| 0 <= j < s.len() ==> s[j].addr != addr {
                assert(forall|j: int| 0 <= j < s.drop_first().len() ==> s.drop_first()[j].addr != addr);
                assert(d =~= s);
            }
            assert forall|i: int|
                0 <= i < s.len() && s[i].addr == addr && (forall|j: int| 0 <= j < i ==> s[j].addr != addr)
                    implies spec_debit(s, addr, amt)
                        == s.update(i, Account { addr, balance: (s[i].balance - amt) as u64 }) by {
                assert(i > 0);
                assert(s.drop_first()[i - 1] == s[i]);
                assert(forall|j: int| 0 <= j < i - 1 ==> s.drop_first()[j] == s[j + 1]);
                assert(spec_debit(s.drop_first(), addr, amt)
                    == s.drop_first().update(i - 1, Account { addr, balance: (s[i].balance - amt) as u64 }));
                assert(d =~= s.update(i, Account { addr, balance: (s[i].balance - amt) as u64 }));
            }
        }
    }
}

/// A credit is an append when no account matches, and a single-index update
/// when the first match sits at `i`.
pub proof fn lemma_credit_shape(s: Seq<Account>, addr: u64, amt: u64)
    ensures
        (forall|j: int| 0 <= j < s.len() ==> s[j].addr != addr) ==> spec_credit(s, addr, amt)
            == s.push(Account { addr, balance: amt }),
        forall|i: int|
            0 <= i < s.len() && s[i].addr == addr && (forall|j: int| 0 <= j < i ==> s[j].addr != addr)
                ==> spec_credit(s, addr, amt)
                    == s.update(i, Account { addr, balance: (s[i].balance + amt) as u64 }),
    decreases s.len(),
{
    if s.len() == 0 {
        assert(spec_credit(s, addr, amt) =~= s.push(Account { addr, balance: amt }));
    } else {
        lemma_credit_shape(s.drop_first(), addr, amt);
        let c = spec_credit(s, addr, amt);
        if s[0].addr == addr {
            assert(c =~= s.update(0, Account { addr, balance: (s[0].balance + amt) as u64 }));
        } else {
            if forall|j: int| 0 <= j < s.len() ==> s[j].addr != addr {
                assert(forall|j: int| 0 <= j < s.drop_first().len() ==> s.drop_first()[j].addr != addr);
                assert(c =~= s.push(Account { addr, balance: amt }));
            }
            assert forall|i: int|
                0 <= i < s.len() && s[i].addr == addr && (forall|j: int| 0 <= j < i ==> s[j].addr != addr)
                    implies spec_credit(s, addr, amt)
                        == s.update(i, Account { addr, balance: (s[i].balance + amt) as u64 }) by {
                assert(i > 0);
                assert(s.drop_first()[i - 1] == s[i]);
                assert(forall|j: int| 0 <= j < i - 1 ==> s.drop_first()[j] == s[j + 1]);
                assert(spec_credit(s.drop_first(), addr, amt)
                    == s.drop_first().update(i - 1, Account { addr, balance: (s[i].balance + amt) as u64 }));
                assert(c =~= s.update(i, Account { addr, balance: (s[i].balance + amt) as u64 }));
            }
        }
    }
}

/// A transfer conserves total supply and moves exactly `amt`: the source
/// loses it, the destination gains it, and every other balance stands.
pub proof fn lemma_transfer(s: Seq<Account>, from: u64, to: u64, amt: u64)
    requires
        spec_balance(s, from) >= amt,
        total_supply(s) <= u64::MAX,
    ensures
        total_supply(spec_transfer(s, from, to, amt)) == total_supply(s),
        spec_balance(spec_transfer(s, from, to, amt), from) == if from == to {
            spec_balance(s, from)
        } else {
            spec_balance(s, from) - amt
        },
        spec_balance(spec_transfer(s, from, to, amt), to) == if from == to {
            spec_balance(s, to)
        } else {
            spec_balance(s, to) + amt
        },
        forall|a: u64| a != from && a != to
            ==> #[trigger] spec_balance(spec_transfer(s, from, to, amt), a) == spec_balance(s, a),
        unique_addrs(s) ==> unique_addrs(spec_transfer(s, from, to, amt)),
{
    lemma_debit(s, from, amt);
    let d = spec_debit(s, from, amt);
    lemma_balance_bounds(d);
    lemma_credit(d, to, amt);
}

/// First index carrying `addr`, if any.
pub fn find_index(accounts: &Vec<Account>, addr: u64) -> (r: Option<usize>)
    ensures
        match r {
            Some(i) => i < accounts@.len() && accounts@[i as int].addr == addr && (forall|j: int|
                0 <= j < i ==> accounts@[j].addr != addr),
            None => forall|j: int| 0 <= j < accounts@.len() ==> accounts@[j].addr != addr,
        },
{
    let mut i: usize = 0;
    while i < accounts.len()
        invariant
            0 <= i <= accounts@.len(),
            forall|j: int| 0 <= j < i ==> accounts@[j].addr != addr,
        decreases accounts@.len() - i,
    {
        if accounts[i].addr == addr {
            return Some(i);
        }
        i += 1;
    }
    None
}

impl Ledger {
    /// Well-formed: addresses are unique and the supply fits the balance type.
    pub open spec fn wf(&self) -> bool {
        &&& unique_addrs(self.accounts@)
        &&& total_supply(self.accounts@) <= u64::MAX
    }

    /// Current balance of `addr`, zero when the account is absent.
    pub fn balance(&self, addr: u64) -> (r: u64)
        ensures
            r == spec_balance(self.accounts@, addr),
    {
        proof {
            lemma_balance_char(self.accounts@, addr);
        }
        match find_index(&self.accounts, addr) {
            Some(i) => self.accounts[i].balance,
            None => 0,
        }
    }

    /// Moves `amount` from `from` to `to`, conserving total supply. The
    /// caller owes a source balance that covers the amount; settlement
    /// establishes it from the escrowed proposal funds.
    pub fn transfer(&mut self, from: u64, to: u64, amount: u64)
        requires
            old(self).wf(),
            spec_balance(old(self).accounts@, from) >= amount,
        ensures
            final(self).accounts@ == spec_transfer(old(self).accounts@, from, to, amount),
            final(self).wf(),
            total_supply(final(self).accounts@) == total_supply(old(self).accounts@),
    {
        let ghost s0 = self.accounts@;
        proof {
            lemma_balance_char(s0, from);
            lemma_debit_shape(s0, from, amount);
            lemma_debit(s0, from, amount);
        }
        match find_index(&self.accounts, from) {
            Some(i) => {
                let bal = self.accounts[i].balance;
                self.accounts.set(i, Account { addr: from, balance: bal - amount });
            },
            None => {},
        }
        let ghost d = spec_debit(s0, from, amount);
        assert(self.accounts@ == d);
        proof {
            lemma_balance_bounds(d);
            lemma_balance_char(d, to);
            lemma_credit_shape(d, to, amount);
            lemma_credit(d, to, amount);
        }
        match find_index(&self.accounts, to) {
            Some(j) => {
                let bal = self.accounts[j].balance;
                self.accounts.set(j, Account { addr: to, balance: bal + amount });
            },
            None => {
                self.accounts.push(Account { addr: to, balance: amount });
            },
        }
        assert(self.accounts@ == spec_credit(d, to, amount));
    }
}

} // verus!
