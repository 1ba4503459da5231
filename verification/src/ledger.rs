//! A toy account ledger: accounts keyed by public key, and diffs (creation,
//! coinbase, delegation, transfer) applied to them in order.

use vstd::prelude::*;
use crate::account::{Account, AccountUpdate};

verus! {

/// One ledger change.
#[derive(Debug, Clone, PartialEq, Eq)]
pub enum Diff {
    Creation(String),
    Coinbase(String, u64),
    Delegation(String, String),
    Transfer(String, String, u64),
}

/// A batch of changes keyed by the `(from, to)` key pair; inserting twice
/// under one key keeps the later diff.
#[derive(Debug, Clone, PartialEq, Eq)]
pub struct LedgerDiff {
    pub entries: Vec<((String, String), Diff)>,
}

/// Why a diff cannot be applied.
#[derive(Debug, Clone, PartialEq)]
pub enum Error {
    InvalidCreation(String),
    InvalidAbsentFromLedger(String),
    InvalidTransfer,
    DelegateAbsentFromLedger(String),
    InsufficientFunds(String, u64, u64),
    TransferAbsentFromLedger(String),
    InvalidUpdate,
}

/// Why a single-account update could not be assembled.
#[derive(Debug, Clone)]
pub struct UpdateError {
    pub from: Option<String>,
    pub to: String,
    pub coinbase: bool,
    pub amount: Option<u64>,
    pub delegate: Option<String>,
}

/// The ledger: its recorded total and the accounts in insertion order.
#[derive(Debug, Clone, PartialEq)]
pub struct Ledger {
    pub total: u64,
    pub accounts: Vec<(String, Account)>,
}

/// Some account is stored under key `k`.
pub open spec fn has_key(m: Seq<(String, Account)>, k: Seq<char>) -> bool {
    exists|i: int| 0 <= i < m.len() && (#[trigger] m[i]).0@ == k
}

/// The index of the account stored under key `k`.
pub open spec fn key_at(m: Seq<(String, Account)>, k: Seq<char>) -> int {
    choose|i: int| 0 <= i < m.len() && (#[trigger] m[i]).0@ == k
}

/// No two accounts share a key.
pub open spec fn distinct_keys(m: Seq<(String, Account)>) -> bool {
    forall|i: int, j: int|
        #![trigger m[i], m[j]]
        0 <= i < j < m.len() ==> m[i].0@ != m[j].0@
}

/// Store `a` under key `k`: replace the account under an existing key, else
/// append.
pub open spec fn upsert(m: Seq<(String, Account)>, k: String, a: Account) -> Seq<
    (String, Account),
> {
    if has_key(m, k@) {
        m.update(key_at(m, k@), (m[key_at(m, k@)].0, a))
    } else {
        m.push((k, a))
    }
}

/// The ledger as its mathematical model: the total and the account list.
pub type LedgerModel = (int, Seq<(String, Account)>);

/// Apply a coinbase of `amount` to the account under `pk`'s key.
pub open spec fn spec_apply_coinbase(total: int, m: Seq<(String, Account)>, pk: String, amount: u64) -> Result<
    LedgerModel,
    Error,
> {
    if !has_key(m, pk@) {
        Err(Error::InvalidAbsentFromLedger(pk))
    } else {
        let i = key_at(m, pk@);
        let a = m[i].1;
        if a.balance + amount > u64::MAX || total + amount > u64::MAX {
            Err(Error::InvalidUpdate)
        } else {
            Ok(
                (
                    total + amount,
                    m.update(
                        i,
                        (
                            m[i].0,
                            Account {
                                balance: (a.balance + amount) as u64,
                                ..a
                            },
                        ),
                    ),
                ),
            )
        }
    }
}

/// Create the account for `pk`: a zero-balance account whose stored key
/// field is the entry's `to` key.
pub open spec fn spec_apply_creation(total: int, m: Seq<(String, Account)>, pk: String, key_to: String) -> Result<
    LedgerModel,
    Error,
> {
    Ok(
        (
            total,
            upsert(
                m,
                pk,
                Account { pk: key_to, balance: 0, delegate: None, delegations: 0 },
            ),
        ),
    )
}

/// Record that `dfrom` delegates to `dto`, and add `dfrom`'s balance to
/// `dto`'s delegations.
pub open spec fn spec_apply_delegation(total: int, m: Seq<(String, Account)>, dfrom: String, dto: String) -> Result<
    LedgerModel,
    Error,
> {
    if !has_key(m, dfrom@) || !has_key(m, dto@) {
        Err(Error::InvalidUpdate)
    } else {
        let i = key_at(m, dfrom@);
        let j = key_at(m, dto@);
        let a = m[i].1;
        let m1 = m.update(i, (m[i].0, Account { delegate: Some(dto), ..a }));
        let b = m1[j].1;
        if b.delegations + m1[i].1.balance > u64::MAX {
            Err(Error::InvalidUpdate)
        } else {
            Ok(
                (
                    total,
                    m1.update(
                        j,
                        (
                            m1[j].0,
                            Account {
                                delegations: (b.delegations + m1[i].1.balance) as u64,
                                ..b
                            },
                        ),
                    ),
                ),
            )
        }
    }
}

/// Move `amount` from `f`'s account to `t`'s account.
pub open spec fn spec_apply_transfer(
    total: int,
    m: Seq<(String, Account)>,
    f: String,
    t: String,
    amount: u64,
) -> Result<LedgerModel, Error> {
    if !has_key(m, f@) || !has_key(m, t@) {
        Err(Error::InvalidUpdate)
    } else {
        let i = key_at(m, f@);
        let j = key_at(m, t@);
        let a = m[i].1;
        if a.balance < amount {
            Err(Error::InvalidTransfer)
        } else {
            let m1 = m.update(i, (m[i].0, Account { balance: (a.balance - amount) as u64, ..a }));
            let b = m1[j].1;
            if b.balance + amount > u64::MAX {
                Err(Error::InvalidUpdate)
            } else {
                Ok(
                    (
                        total,
                        m1.update(
                            j,
                            (m1[j].0, Account { balance: (b.balance + amount) as u64, ..b }),
                        ),
                    ),
                )
            }
        }
    }
}

/// Apply one keyed diff to the ledger model: validate it against the key's
/// account, then perform the update, leaving the model unchanged on error.
pub open spec fn spec_apply_entry(
    total: int,
    m: Seq<(String, Account)>,
    key_from: String,
    key_to: String,
    diff: Diff,
) -> Result<LedgerModel, Error> {
    if !has_key(m, key_from@) {
        match diff {
            Diff::Creation(pk) => spec_apply_creation(total, m, pk, key_to),
            _ => Err(Error::InvalidAbsentFromLedger(key_from)),
        }
    } else {
        let a = m[key_at(m, key_from@)].1;
        match diff {
            Diff::Creation(pk) => Err(Error::InvalidCreation(pk)),
            Diff::Coinbase(pk, amount) => if key_from@ == key_to@ {
                spec_apply_coinbase(total, m, pk, amount)
            } else {
                Ok((total, m))
            },
            Diff::Delegation(dfrom, delegate) => if !has_key(m, delegate@) {
                Err(Error::DelegateAbsentFromLedger(key_to))
            } else {
                spec_apply_delegation(total, m, dfrom, delegate)
            },
            Diff::Transfer(tfrom, tto, amount) => if a.balance < amount {
                Err(Error::InsufficientFunds(tfrom, a.balance, amount))
            } else if !has_key(m, tto@) {
                Err(Error::TransferAbsentFromLedger(tto))
            } else {
                spec_apply_transfer(total, m, tfrom, tto, amount)
            },
        }
    }
}

/// Apply the first `n` entries in order, stopping at the first error.
pub open spec fn spec_apply_upto(
    init: LedgerModel,
    entries: Seq<((String, String), Diff)>,
    n: int,
) -> Result<LedgerModel, Error>
    decreases n,
{
    if n <= 0 {
        Ok(init)
    } else {
        match spec_apply_upto(init, entries, n - 1) {
            Err(e) => Err(e),
            Ok(l) => spec_apply_entry(
                l.0,
                l.1,
                entries[n - 1].0.0,
                entries[n - 1].0.1,
                entries[n - 1].1,
            ),
        }
    }
}

/// Applying `entries` to `init` got as far as `fin` and then rejected the
/// next entry with `e`.
pub open spec fn apply_failed(
    init: LedgerModel,
    entries: Seq<((String, String), Diff)>,
    fin: LedgerModel,
    e: Error,
) -> bool {
    exists|n: int|
        0 <= n < entries.len() && (#[trigger] spec_apply_upto(init, entries, n)) == Ok::<
            LedgerModel,
            Error,
        >(fin) && spec_apply_entry(fin.0, fin.1, entries[n].0.0, entries[n].0.1, entries[n].1)
            == Err::<LedgerModel, Error>(e)
}

/// Under distinct keys, any index holding key `k` is the index `key_at`
/// names.
pub proof fn lemma_key_at_unique(m: Seq<(String, Account)>, k: Seq<char>, i: int)
    requires
        distinct_keys(m),
        0 <= i < m.len(),
        m[i].0@ == k,
    ensures
        has_key(m, k),
        key_at(m, k) == i,
{
    assert(has_key(m, k));
    let j = key_at(m, k);
    assert(0 <= j < m.len() && m[j].0@ == k);
    if i < j {
        assert(m[i].0@ != m[j].0@);
    } else if j < i {
        assert(m[j].0@ != m[i].0@);
    }
}

/// Find the position of the account stored under key `k`.
fn find_index(accounts: &Vec<(String, Account)>, k: &String) -> (r: Option<usize>)
    ensures
        match r {
            Some(i) => i < accounts@.len() && accounts@[i as int].0@ == k@,
            None => !has_key(accounts@, k@),
        },
{
    let n = accounts.len();
    let mut i: usize = 0;
    while i < n
        invariant
            i <= n == accounts@.len(),
            forall|j: int| 0 <= j < i ==> (#[trigger] accounts@[j]).0@ != k@,
        decreases n - i,
    {
        if accounts[i].0 == *k {
            return Some(i);
        }
        i = i + 1;
    }
    None
}

impl AccountUpdate {
    /// Assemble a validated update out of its raw parts, mirroring the four
    /// accepted shapes: a coinbase, a creation, a delegation, a transfer.
    /// Any other combination is rejected with the parts handed back.
    pub fn new(
        from: Option<&str>,
        to: &str,
        coinbase: bool,
        amount: Option<u64>,
        delegate: Option<String>,
    ) -> (r: Result<AccountUpdate, UpdateError>)
        requires
            !(coinbase && from is None && delegate is None && amount is None),
        ensures
            match r {
                Ok(u) => {
                    if coinbase && from is None {
                        &&& delegate is None
                        &&& u.diff matches Diff::Coinbase(pk, a) && pk@ == to@ && a
                            == amount.unwrap()
                    } else if amount is None && delegate is None {
                        u.diff matches Diff::Creation(pk) && pk@ == to@
                    } else if amount is None && delegate is Some && from is Some {
                        u.diff matches Diff::Delegation(f, d) && f@ == from.unwrap()@ && d
                            == delegate.unwrap()
                    } else {
                        &&& amount is Some && delegate is None && from is Some
                        &&& u.diff matches Diff::Transfer(f, t, a) && f@ == from.unwrap()@ && t@
                            == to@ && a == amount.unwrap()
                    }
                },
                Err(e) => {
                    &&& (coinbase && from is None && delegate is Some) || (!(coinbase
                        && from is None) && !(amount is None && delegate is None) && !(
                    amount is None && delegate is Some && from is Some) && !(amount is Some
                        && delegate is None && from is Some))
                    &&& (e.from is Some <==> from is Some)
                    &&& (e.from is Some ==> e.from.unwrap()@ == from.unwrap()@)
                    &&& e.to@ == to@
                    &&& e.coinbase == coinbase
                    &&& e.amount == amount
                    &&& e.delegate == delegate
                },
            },
    {
        if coinbase && from.is_none() {
            if delegate.is_none() {
                Ok(AccountUpdate { diff: Diff::Coinbase(to.to_owned(), amount.unwrap()) })
            } else {
                Err(UpdateError { from: None, to: to.to_owned(), coinbase, amount, delegate })
            }
        } else if amount.is_none() && delegate.is_none() {
            Ok(AccountUpdate { diff: Diff::Creation(to.to_owned()) })
        } else if amount.is_none() && delegate.is_some() && from.is_some() {
            Ok(
                AccountUpdate {
                    diff: Diff::Delegation(from.unwrap().to_owned(), delegate.unwrap()),
                },
            )
        } else if amount.is_some() && delegate.is_none() && from.is_some() {
            Ok(
                AccountUpdate {
                    diff: Diff::Transfer(from.unwrap().to_owned(), to.to_owned(), amount.unwrap()),
                },
            )
        } else {
            let from_owned: Option<String> = match from {
                Some(f) => Some(f.to_owned()),
                None => None,
            };
            Err(UpdateError { from: from_owned, to: to.to_owned(), coinbase, amount, delegate })
        }
    }
}

impl Ledger {
    /// The accounts carry distinct keys.
    pub open spec fn wf(&self) -> bool {
        distinct_keys(self.accounts@)
    }

    /// An empty ledger.
    pub fn new() -> (l: Ledger)
        ensures
            l.total == 0,
            l.accounts@.len() == 0,
            l.wf(),
    {
        Ledger { total: 0, accounts: Vec::new() }
    }

    /// Store `account` under key `pk`, replacing any account already there.
    pub fn insert_account(&mut self, pk: String, account: Account)
        requires
            old(self).wf(),
        ensures
            final(self).wf(),
            final(self).total == old(self).total,
            final(self).accounts@ == upsert(old(self).accounts@, pk, account),
    {
        let r = find_index(&self.accounts, &pk);
        match r {
            Some(i) => {
                proof {
                    lemma_key_at_unique(self.accounts@, pk@, i as int);
                }
                let key = self.accounts[i].0.clone();
                self.accounts.set(i, (key, account));
                proof {
                    assert(final(self).accounts@ =~= upsert(old(self).accounts@, pk, account));
                }
            }
            None => {
                self.accounts.push((pk, account));
            }
        }
    }

    /// The account stored under key `pk`, if any.
    pub fn account(&self, pk: &str) -> (r: Option<&Account>)
        ensures
            match r {
                Some(a) => has_key(self.accounts@, pk@) && exists|i: int|
                    0 <= i < self.accounts@.len() && (#[trigger] self.accounts@[i]).0@ == pk@
                        && self.accounts@[i].1 == *a,
                None => !has_key(self.accounts@, pk@),
            },
    {
        let pk_owned: String = pk.to_owned();
        let n = self.accounts.len();
        let mut i: usize = 0;
        while i < n
            invariant
                pk_owned@ == pk@,
                i <= n == self.accounts@.len(),
                forall|j: int| 0 <= j < i ==> (#[trigger] self.accounts@[j]).0@ != pk@,
            decreases n - i,
        {
            if self.accounts[i].0 == pk_owned {
                return Some(&self.accounts[i].1);
            }
            i = i + 1;
        }
        None
    }

    /// Whether an account is stored under key `pk`.
    pub fn contains_account(&self, pk: &str) -> (r: bool)
        ensures
            r == has_key(self.accounts@, pk@),
    {
        match self.account(pk) {
            Some(_) => true,
            None => false,
        }
    }
}

/// Copy an account field by field.
fn clone_account(a: &Account) -> (r: Account)
    ensures
        r == *a,
{
    let delegate: Option<String> = match &a.delegate {
        Some(d) => Some(d.clone()),
        None => None,
    };
    Account { pk: a.pk.clone(), balance: a.balance, delegate, delegations: a.delegations }
}

impl Ledger {
    /// Apply a coinbase: credit the account under `pk` and the total.
    fn apply_coinbase(&mut self, pk: &String, amount: u64) -> (r: Result<(), Error>)
        requires
            old(self).wf(),
        ensures
            final(self).wf(),
            match r {
                Ok(()) => spec_apply_coinbase(
                    old(self).total as int,
                    old(self).accounts@,
                    *pk,
                    amount,
                ) == Ok::<LedgerModel, Error>((final(self).total as int, final(self).accounts@)),
                Err(e) => spec_apply_coinbase(
                    old(self).total as int,
                    old(self).accounts@,
                    *pk,
                    amount,
                ) == Err::<LedgerModel, Error>(e) && *final(self) == *old(self),
            },
    {
        match find_index(&self.accounts, pk) {
            None => Err(Error::InvalidAbsentFromLedger(pk.clone())),
            Some(i) => {
                proof {
                    lemma_key_at_unique(self.accounts@, pk@, i as int);
                }
                let a = clone_account(&self.accounts[i].1);
                if amount > u64::MAX - a.balance || amount > u64::MAX - self.total {
                    Err(Error::InvalidUpdate)
                } else {
                    let key = self.accounts[i].0.clone();
                    let na = Account { balance: a.balance + amount, ..a };
                    self.accounts.set(i, (key, na));
                    self.total = self.total + amount;
                    proof {
                        assert(final(self).accounts@ =~= old(self).accounts@.update(
                            i as int,
                            (
                                old(self).accounts@[i as int].0,
                                Account {
                                    balance: (old(self).accounts@[i as int].1.balance
                                        + amount) as u64,
                                    ..old(self).accounts@[i as int].1
                                },
                            ),
                        ));
                    }
                    Ok(())
                }
            }
        }
    }

    /// Apply a delegation: set the delegate of `dfrom`'s account and add its
    /// balance to `dto`'s delegations.
    fn apply_delegation(&mut self, dfrom: &String, dto: &String) -> (r: Result<(), Error>)
        requires
            old(self).wf(),
        ensures
            final(self).wf(),
            match r {
                Ok(()) => spec_apply_delegation(
                    old(self).total as int,
                    old(self).accounts@,
                    *dfrom,
                    *dto,
                ) == Ok::<LedgerModel, Error>((final(self).total as int, final(self).accounts@)),
                Err(e) => spec_apply_delegation(
                    old(self).total as int,
                    old(self).accounts@,
                    *dfrom,
                    *dto,
                ) == Err::<LedgerModel, Error>(e) && *final(self) == *old(self),
            },
    {
        let i = match find_index(&self.accounts, dfrom) {
            Some(i) => i,
            None => {
                return Err(Error::InvalidUpdate);
            }
        };
        let j = match find_index(&self.accounts, dto) {
            Some(j) => j,
            None => {
                return Err(Error::InvalidUpdate);
            }
        };
        proof {
            lemma_key_at_unique(self.accounts@, dfrom@, i as int);
            lemma_key_at_unique(self.accounts@, dto@, j as int);
        }
        let bal_i = self.accounts[i].1.balance;
        let del_j = self.accounts[j].1.delegations;
        if bal_i > u64::MAX - del_j {
            return Err(Error::InvalidUpdate);
        }
        let a = clone_account(&self.accounts[i].1);
        let key_i = self.accounts[i].0.clone();
        let a1 = Account { delegate: Some(dto.clone()), ..a };
        self.accounts.set(i, (key_i, a1));
        let b = clone_account(&self.accounts[j].1);
        let key_j = self.accounts[j].0.clone();
        let b1 = Account { delegations: del_j + bal_i, ..b };
        self.accounts.set(j, (key_j, b1));
        proof {
            let m = old(self).accounts@;
            let m1 = m.update(
                i as int,
                (m[i as int].0, Account { delegate: Some(*dto), ..m[i as int].1 }),
            );
            assert(b == m1[j as int].1);
            assert(m1[i as int].1.balance == bal_i);
            assert(final(self).accounts@ =~= m1.update(
                j as int,
                (
                    m1[j as int].0,
                    Account {
                        delegations: (m1[j as int].1.delegations + m1[i as int].1.balance) as u64,
                        ..m1[j as int].1
                    },
                ),
            ));
        }
        Ok(())
    }

    /// Apply a transfer: debit `tfrom`'s account and credit `tto`'s.
    fn apply_transfer(&mut self, tfrom: &String, tto: &String, amount: u64) -> (r: Result<
        (),
        Error,
    >)
        requires
            old(self).wf(),
        ensures
            final(self).wf(),
            match r {
                Ok(()) => spec_apply_transfer(
                    old(self).total as int,
                    old(self).accounts@,
                    *tfrom,
                    *tto,
                    amount,
                ) == Ok::<LedgerModel, Error>((final(self).total as int, final(self).accounts@)),
                Err(e) => spec_apply_transfer(
                    old(self).total as int,
                    old(self).accounts@,
                    *tfrom,
                    *tto,
                    amount,
                ) == Err::<LedgerModel, Error>(e) && *final(self) == *old(self),
            },
    {
        let i = match find_index(&self.accounts, tfrom) {
            Some(i) => i,
            None => {
                return Err(Error::InvalidUpdate);
            }
        };
        let j = match find_index(&self.accounts, tto) {
            Some(j) => j,
            None => {
                return Err(Error::InvalidUpdate);
            }
        };
        proof {
            lemma_key_at_unique(self.accounts@, tfrom@, i as int);
            lemma_key_at_unique(self.accounts@, tto@, j as int);
        }
        let a = clone_account(&self.accounts[i].1);
        if a.balance < amount {
            return Err(Error::InvalidTransfer);
        }
        let bj: u64 = if i == j {
            a.balance - amount
        } else {
            self.accounts[j].1.balance
        };
        if amount > u64::MAX - bj {
            return Err(Error::InvalidUpdate);
        }
        let key_i = self.accounts[i].0.clone();
        let a1 = Account { balance: a.balance - amount, ..a };
        self.accounts.set(i, (key_i, a1));
        let b = clone_account(&self.accounts[j].1);
        let key_j = self.accounts[j].0.clone();
        let b1 = Account { balance: bj + amount, ..b };
        self.accounts.set(j, (key_j, b1));
        proof {
            let m = old(self).accounts@;
            let m1 = m.update(
                i as int,
                (
                    m[i as int].0,
                    Account { balance: (m[i as int].1.balance - amount) as u64, ..m[i as int].1 },
                ),
            );
            assert(b == m1[j as int].1);
            assert(bj == m1[j as int].1.balance);
            assert(final(self).accounts@ =~= m1.update(
                j as int,
                (
                    m1[j as int].0,
                    Account { balance: (m1[j as int].1.balance + amount) as u64, ..m1[j as int].1 },
                ),
            ));
        }
        Ok(())
    }

    /// Apply one keyed diff, leaving the ledger unchanged when it is
    /// rejected.
    fn apply_entry(&mut self, key_from: &String, key_to: &String, diff: &Diff) -> (r: Result<
        (),
        Error,
    >)
        requires
            old(self).wf(),
        ensures
            final(self).wf(),
            match r {
                Ok(()) => spec_apply_entry(
                    old(self).total as int,
                    old(self).accounts@,
                    *key_from,
                    *key_to,
                    *diff,
                ) == Ok::<LedgerModel, Error>((final(self).total as int, final(self).accounts@)),
                Err(e) => spec_apply_entry(
                    old(self).total as int,
                    old(self).accounts@,
                    *key_from,
                    *key_to,
                    *diff,
                ) == Err::<LedgerModel, Error>(e) && *final(self) == *old(self),
            },
    {
        let from_idx = find_index(&self.accounts, key_from);
        match from_idx {
            None => {
                match diff {
                    Diff::Creation(pk) => {
                        let account = Account {
                            pk: key_to.clone(),
                            balance: 0,
                            delegate: None,
                            delegations: 0,
                        };
                        self.insert_account(pk.clone(), account);
                        Ok(())
                    }
                    _ => Err(Error::InvalidAbsentFromLedger(key_from.clone())),
                }
            }
            Some(i) => {
                proof {
                    lemma_key_at_unique(self.accounts@, key_from@, i as int);
                }
                let a_balance = self.accounts[i].1.balance;
                match diff {
                    Diff::Creation(pk) => Err(Error::InvalidCreation(pk.clone())),
                    Diff::Coinbase(pk, amount) => {
                        if *key_from == *key_to {
                            self.apply_coinbase(pk, *amount)
                        } else {
                            Ok(())
                        }
                    }
                    Diff::Delegation(dfrom, delegate) => {
                        match find_index(&self.accounts, delegate) {
                            None => Err(Error::DelegateAbsentFromLedger(key_to.clone())),
                            Some(_) => self.apply_delegation(dfrom, delegate),
                        }
                    }
                    Diff::Transfer(tfrom, tto, amount) => {
                        if a_balance < *amount {
                            Err(Error::InsufficientFunds(tfrom.clone(), a_balance, *amount))
                        } else {
                            match find_index(&self.accounts, tto) {
                                None => Err(Error::TransferAbsentFromLedger(tto.clone())),
                                Some(_) => self.apply_transfer(tfrom, tto, *amount),
                            }
                        }
                    }
                }
            }
        }
    }

    /// Apply a batch of keyed diffs in order, stopping at and returning the
    /// first error; the entries before it stay applied.
    pub fn apply(&mut self, delta: LedgerDiff) -> (r: Result<(), Error>)
        requires
            old(self).wf(),
        ensures
            final(self).wf(),
            r is Ok ==> spec_apply_upto(
                (old(self).total as int, old(self).accounts@),
                delta.entries@,
                delta.entries@.len() as int,
            ) == Ok::<LedgerModel, Error>((final(self).total as int, final(self).accounts@)),
            r matches Err(e) ==> apply_failed(
                (old(self).total as int, old(self).accounts@),
                delta.entries@,
                (final(self).total as int, final(self).accounts@),
                e,
            ),
    {
        let ghost init = (self.total as int, self.accounts@);
        let n = delta.entries.len();
        let mut idx: usize = 0;
        while idx < n
            invariant
                init == (old(self).total as int, old(self).accounts@),
                idx <= n == delta.entries@.len(),
                self.wf(),
                spec_apply_upto(init, delta.entries@, idx as int) == Ok::<LedgerModel, Error>(
                    (self.total as int, self.accounts@),
                ),
            decreases n - idx,
        {
            let entry = &delta.entries[idx];
            let res = self.apply_entry(&entry.0.0, &entry.0.1, &entry.1);
            match res {
                Ok(()) => {}
                Err(e) => {
                    proof {
                        let entries = delta.entries@;
                        let fin = (self.total as int, self.accounts@);
                        assert(spec_apply_upto(init, entries, idx as int) == Ok::<
                            LedgerModel,
                            Error,
                        >(fin));
                        assert(spec_apply_entry(
                            fin.0,
                            fin.1,
                            entries[idx as int].0.0,
                            entries[idx as int].0.1,
                            entries[idx as int].1,
                        ) == Err::<LedgerModel, Error>(e));
                        assert(apply_failed(init, entries, fin, e));
                    }
                    return Err(e);
                }
            }
            idx = idx + 1;
        }
        Ok(())
    }
}

/// The `(from, to)` key under which a diff is filed.
pub open spec fn diff_key(d: Diff) -> (String, String) {
    match d {
        Diff::Creation(pk) => (pk, pk),
        Diff::Coinbase(pk, _) => (pk, pk),
        Diff::Delegation(f, t) => (f, t),
        Diff::Transfer(f, t, _) => (f, t),
    }
}

/// Some entry is filed under the key with these views.
pub open spec fn has_ekey(
    es: Seq<((String, String), Diff)>,
    kf: Seq<char>,
    kt: Seq<char>,
) -> bool {
    exists|i: int|
        0 <= i < es.len() && (#[trigger] es[i]).0.0@ == kf && es[i].0.1@ == kt
}

/// The first index filed under the key with these views, or -1.
pub open spec fn ekey_at(es: Seq<((String, String), Diff)>, kf: Seq<char>, kt: Seq<char>) -> int
    decreases es.len(),
{
    if es.len() == 0 {
        -1
    } else if es[0].0.0@ == kf && es[0].0.1@ == kt {
        0
    } else {
        let r = ekey_at(es.drop_first(), kf, kt);
        if r < 0 {
            -1
        } else {
            r + 1
        }
    }
}

/// The first match the scan stops at is the index `ekey_at` names.
proof fn lemma_ekey_at_first(es: Seq<((String, String), Diff)>, kf: Seq<char>, kt: Seq<char>, i: int)
    requires
        0 <= i < es.len(),
        es[i].0.0@ == kf && es[i].0.1@ == kt,
        forall|j: int| 0 <= j < i ==> !((#[trigger] es[j]).0.0@ == kf && es[j].0.1@ == kt),
    ensures
        ekey_at(es, kf, kt) == i,
        has_ekey(es, kf, kt),
    decreases i,
{
    assert(has_ekey(es, kf, kt));
    if i == 0 {
    } else {
        assert(!(es[0].0.0@ == kf && es[0].0.1@ == kt));
        let tail = es.drop_first();
        assert(tail[i - 1] == es[i]);
        assert forall|j: int| 0 <= j < i - 1 implies !((#[trigger] tail[j]).0.0@ == kf
            && tail[j].0.1@ == kt) by {
            assert(tail[j] == es[j + 1]);
        }
        lemma_ekey_at_first(tail, kf, kt, i - 1);
    }
}

/// When no entry carries the key, `ekey_at` reports -1.
proof fn lemma_ekey_at_none(es: Seq<((String, String), Diff)>, kf: Seq<char>, kt: Seq<char>)
    requires
        forall|j: int|
            0 <= j < es.len() ==> !((#[trigger] es[j]).0.0@ == kf && es[j].0.1@ == kt),
    ensures
        ekey_at(es, kf, kt) == -1,
        !has_ekey(es, kf, kt),
    decreases es.len(),
{
    if es.len() > 0 {
        let tail = es.drop_first();
        assert forall|j: int| 0 <= j < tail.len() implies !((#[trigger] tail[j]).0.0@ == kf
            && tail[j].0.1@ == kt) by {
            assert(tail[j] == es[j + 1]);
        }
        lemma_ekey_at_none(tail, kf, kt);
    }
}

/// File `d` under the key `(kf, kt)`: replace the diff under an existing
/// key, else append.
pub open spec fn ld_insert(
    es: Seq<((String, String), Diff)>,
    kf: String,
    kt: String,
    d: Diff,
) -> Seq<((String, String), Diff)> {
    if has_ekey(es, kf@, kt@) {
        es.update(ekey_at(es, kf@, kt@), (es[ekey_at(es, kf@, kt@)].0, d))
    } else {
        es.push(((kf, kt), d))
    }
}

/// The batch a list of diffs collapses to, each filed under its own key in
/// order.
pub open spec fn from_spec(diffs: Seq<Diff>) -> Seq<((String, String), Diff)>
    decreases diffs.len(),
{
    if diffs.len() == 0 {
        Seq::<((String, String), Diff)>::empty()
    } else {
        ld_insert(
            from_spec(diffs.drop_last()),
            diff_key(diffs.last()).0,
            diff_key(diffs.last()).1,
            diffs.last(),
        )
    }
}

/// Copy a diff field by field.
fn clone_diff(d: &Diff) -> (r: Diff)
    ensures
        r == *d,
{
    match d {
        Diff::Creation(pk) => Diff::Creation(pk.clone()),
        Diff::Coinbase(pk, amount) => Diff::Coinbase(pk.clone(), *amount),
        Diff::Delegation(f, t) => Diff::Delegation(f.clone(), t.clone()),
        Diff::Transfer(f, t, amount) => Diff::Transfer(f.clone(), t.clone(), *amount),
    }
}

impl LedgerDiff {
    /// An empty batch.
    pub fn new() -> (d: LedgerDiff)
        ensures
            d.entries@.len() == 0,
    {
        LedgerDiff { entries: Vec::new() }
    }

    /// File `diff` under the owned key `(kf, kt)`.
    fn insert_owned(&mut self, kf: String, kt: String, diff: Diff)
        ensures
            final(self).entries@ == ld_insert(old(self).entries@, kf, kt, diff),
    {
        let n = self.entries.len();
        let mut i: usize = 0;
        while i < n
            invariant
                i <= n == self.entries@.len(),
                self.entries@ == old(self).entries@,
                forall|j: int|
                    0 <= j < i ==> !((#[trigger] self.entries@[j]).0.0@ == kf@
                        && self.entries@[j].0.1@ == kt@),
            decreases n - i,
        {
            if self.entries[i].0.0 == kf && self.entries[i].0.1 == kt {
                proof {
                    lemma_ekey_at_first(self.entries@, kf@, kt@, i as int);
                }
                let key = (self.entries[i].0.0.clone(), self.entries[i].0.1.clone());
                self.entries.set(i, (key, diff));
                proof {
                    assert(final(self).entries@ =~= ld_insert(old(self).entries@, kf, kt, diff));
                }
                return ;
            }
            i = i + 1;
        }
        proof {
            lemma_ekey_at_none(self.entries@, kf@, kt@);
        }
        self.entries.push(((kf, kt), diff));
    }

    /// Collapse a list of diffs into a batch, filing each under its own key
    /// in order.
    pub fn from(diffs: &[Diff]) -> (d: LedgerDiff)
        ensures
            d.entries@ == from_spec(diffs@),
    {
        let mut delta = LedgerDiff::new();
        let n = diffs.len();
        let mut i: usize = 0;
        while i < n
            invariant
                i <= n == diffs@.len(),
                delta.entries@ == from_spec(diffs@.take(i as int)),
            decreases n - i,
        {
            let diff = clone_diff(&diffs[i]);
            let (kf, kt) = match &diff {
                Diff::Creation(pk) => (pk.clone(), pk.clone()),
                Diff::Coinbase(pk, _) => (pk.clone(), pk.clone()),
                Diff::Delegation(f, t) => (f.clone(), t.clone()),
                Diff::Transfer(f, t, _) => (f.clone(), t.clone()),
            };
            delta.insert_owned(kf, kt, diff);
            proof {
                let t1 = diffs@.take(i + 1);
                assert(t1.drop_last() =~= diffs@.take(i as int));
                assert(t1.last() == diffs@[i as int]);
            }
            i = i + 1;
        }
        proof {
            assert(diffs@.take(n as int) =~= diffs@);
        }
        delta
    }

    /// File `diff` under the key `(from, to)`.
    pub fn insert(&mut self, from: &str, to: &str, diff: Diff)
        ensures
            exists|kf: String, kt: String|
                kf@ == from@ && kt@ == to@ && #[trigger] ld_insert(
                    old(self).entries@,
                    kf,
                    kt,
                    diff,
                ) == final(self).entries@,
    {
        let kf: String = from.to_owned();
        let kt: String = to.to_owned();
        let ghost kfg = kf;
        let ghost ktg = kt;
        self.insert_owned(kf, kt, diff);
        proof {
            assert(ld_insert(old(self).entries@, kfg, ktg, diff) == final(self).entries@);
        }
    }

    /// The diff filed under the key `(from, to)`, if any.
    pub fn get(&self, from: &str, to: &str) -> (r: Option<&Diff>)
        ensures
            match r {
                Some(d) => has_ekey(self.entries@, from@, to@) && exists|i: int|
                    0 <= i < self.entries@.len() && (#[trigger] self.entries@[i]).0.0@ == from@
                        && self.entries@[i].0.1@ == to@ && self.entries@[i].1 == *d,
                None => !has_ekey(self.entries@, from@, to@),
            },
    {
        let kf: String = from.to_owned();
        let kt: String = to.to_owned();
        let n = self.entries.len();
        let mut i: usize = 0;
        while i < n
            invariant
                kf@ == from@,
                kt@ == to@,
                i <= n == self.entries@.len(),
                forall|j: int|
                    0 <= j < i ==> !((#[trigger] self.entries@[j]).0.0@ == from@
                        && self.entries@[j].0.1@ == to@),
            decreases n - i,
        {
            if self.entries[i].0.0 == kf && self.entries[i].0.1 == kt {
                return Some(&self.entries[i].1);
            }
            i = i + 1;
        }
        None
    }
}

} // verus!
