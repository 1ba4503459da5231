//! Accounts of the toy ledger: a public key, a balance, and delegation
//! bookkeeping.

use vstd::prelude::*;
use crate::ledger::Diff;

verus! {

/// One ledger account.
#[derive(Debug, Clone, PartialEq)]
pub struct Account {
    pub pk: String,
    pub balance: u64,
    pub delegate: Option<String>,
    pub delegations: u64,
}

/// A validated single-account update, carrying the diff to apply.
#[derive(Debug, Clone)]
pub struct AccountUpdate {
    pub diff: Diff,
}

impl Account {
    /// A fresh account with no delegate.
    pub fn new(pk: String, balance: u64, delegations: u64) -> (a: Account)
        ensures
            a.pk == pk,
            a.balance == balance,
            a.delegate is None,
            a.delegations == delegations,
    {
        Account { delegate: None, pk, balance, delegations }
    }
}

} // verus!
