use blockchain::account::{Account, AccountUpdate};
use blockchain::ledger::{Diff, Error, Ledger, LedgerDiff};

#[test]
pub fn mod_ledger_example() {
    println!("~~~~~~~~~~~~~~~~~~~~~~~~~~");
    println!("~~~~~ ledger_example ~~~~~");
    println!("~~~~~~~~~~~~~~~~~~~~~~~~~~\n");

    let mut ledger = Ledger::new();

    // initial pks + balances
    let (a, a_balance) = ("A".to_string(), 100);
    let (b, b_balance) = ("B".to_string(), 150);
    let (c, c_balance) = ("C".to_string(), 87);

    // insert accounts
    ledger.insert_account(a.clone(), Account::new(a.clone(), a_balance, 25));
    ledger.insert_account(b.clone(), Account::new(b.clone(), b_balance, 5));
    ledger.insert_account(c.clone(), Account::new(c.clone(), c_balance, 10));
    ledger.total = a_balance + b_balance + c_balance;

    println!("=== Initial ===");
    println!("{:?}", ledger);

    // Transfer
    // A sends 20 to B
    let trans_amt = 20;
    let diff0 = LedgerDiff::from(&[Diff::Transfer(a.clone(), b.clone(), trans_amt)]);
    let old_ledger = ledger.clone();
    ledger.apply(diff0).expect("transfer apply is ok");

    let from_account = old_ledger.account(&a).unwrap();
    if from_account.balance < trans_amt {
        assert_eq!(ledger, old_ledger);
    }

    println!(
        "=== After transfer: {:?} -> {:?} ({}) ===",
        a.clone(),
        b.clone(),
        trans_amt
    );
    println!("{:?}", ledger);

    // Coinbase
    // A gets a 5 coinbase
    let cb_amt = 5;
    let diff1 = LedgerDiff::from(&[Diff::Coinbase(a.clone(), cb_amt)]);
    let old_ledger = ledger.clone();
    ledger.apply(diff1.clone()).expect("coinbase apply is ok");

    // total increase
    match diff1.get(&a, &a).unwrap() {
        Diff::Coinbase(_, amount) => {
            assert_eq!(ledger.total, old_ledger.total + amount);
        }
        _ => {
            assert!(false);
        }
    }

    // balance increase
    assert_eq!(
        ledger.account(&a).unwrap().balance,
        old_ledger.account(&a).unwrap().balance + cb_amt
    );

    println!("=== After coinbase: * -> A ({}) ===", cb_amt);
    println!("{:?}", ledger);

    // Delegation
    // A delegates to B
    let diff2 = LedgerDiff::from(&[Diff::Delegation(a.clone(), b.clone())]);
    let old_ledger = ledger.clone();

    ledger.apply(diff2).expect("delegation apply is ok");
    for (pk, old_account) in &old_ledger.accounts {
        let new_account = ledger.account(pk).unwrap();
        println!(
            "pk: {:?}, before: {}, after: {}",
            pk, old_account.balance, new_account.balance
        );
        assert_eq!(new_account.balance, old_account.balance);
        if pk == &a {
            // delegation
            assert_eq!(old_account.delegate, None);
            assert_eq!(new_account.delegate, Some(b.clone()));
            assert_eq!(new_account.delegations, old_account.delegations);
        } else if pk == &b {
            let a_balance = ledger.account(&a).unwrap().balance;
            assert_eq!(new_account.delegations, old_account.delegations + a_balance)
        }
    }

    println!(
        "=== After delegation: A({}), B({}) -> B({}) ===",
        old_ledger.account(&a).unwrap().balance,
        old_ledger.account(&b).unwrap().delegations,
        ledger.account(&b).unwrap().delegations,
    );

    // sum of all account balances = total
    assert_eq!(
        ledger.accounts.iter().fold(0, |acc, (_, a)| acc + a.balance),
        ledger.total
    );

    // Creation
    // Create account D
    let d = "D".to_string();
    let diff3 = LedgerDiff::from(&[Diff::Creation(d.clone())]);
    let old_ledger = ledger.clone();

    // D is not in the ledger
    assert!(!old_ledger.contains_account(&d));

    // after diff apply, D is in the ledger
    ledger.apply(diff3).expect("creation apply is ok");
    assert!(ledger.contains_account(&d));

    // Errors
    // errors don't change the ledger

    // coinbase error
    let e = "E".to_string();
    let diff4 = LedgerDiff::from(&[Diff::Coinbase(e.clone(), 10)]);
    let old_ledger = ledger.clone();
    assert_eq!(
        ledger.apply(diff4),
        Err(Error::InvalidAbsentFromLedger(e.clone()))
    );
    assert_eq!(old_ledger, ledger);

    // delegation error
    let diff5 = LedgerDiff::from(&[Diff::Delegation(e.clone(), e.clone())]);
    let old_ledger = ledger.clone();
    assert_eq!(
        ledger.apply(diff5),
        Err(Error::InvalidAbsentFromLedger(e.clone()))
    );
    assert_eq!(old_ledger, ledger);

    assert!(!ledger.contains_account(&e));
    let diff6 = LedgerDiff::from(&[Diff::Transfer(e.clone(), d.clone(), 5)]);
    let old_ledger = ledger.clone();
    assert_eq!(
        ledger.apply(diff6),
        Err(Error::InvalidAbsentFromLedger(e.clone()))
    );
    assert_eq!(old_ledger, ledger);

    // receiver doesn't exist
    let diff7 = LedgerDiff::from(&[Diff::Transfer(c, e.clone(), 5)]);
    let old_ledger = ledger.clone();
    assert_eq!(ledger.apply(diff7), Err(Error::TransferAbsentFromLedger(e)));
    assert_eq!(old_ledger, ledger);

    // insufficient funds error
    let diff8 = LedgerDiff::from(&[Diff::Transfer(a.clone(), b, 500)]);
    let old_ledger = ledger.clone();
    assert_eq!(
        ledger.apply(diff8),
        Err(Error::InsufficientFunds(a, 85, 500))
    );
    assert_eq!(old_ledger, ledger);

    // print final ledger
    println!("{:?}", ledger);
}

#[test]
fn ledger_diff_insert_replaces() {
    let mut delta = LedgerDiff::new();
    delta.insert("A", "B", Diff::Transfer("A".to_string(), "B".to_string(), 3));
    delta.insert("A", "B", Diff::Transfer("A".to_string(), "B".to_string(), 9));
    match delta.get("A", "B").unwrap() {
        Diff::Transfer(_, _, amount) => assert_eq!(*amount, 9),
        _ => panic!("expected a transfer"),
    }
    assert_eq!(delta.entries.len(), 1);
}

#[test]
fn transfer_rejected_on_missing_sender() {
    let mut ledger = Ledger::new();
    ledger.insert_account("B".to_string(), Account::new("B".to_string(), 10, 0));
    let delta = LedgerDiff::from(&[Diff::Transfer("A".to_string(), "B".to_string(), 1)]);
    assert_eq!(
        ledger.apply(delta),
        Err(Error::InvalidAbsentFromLedger("A".to_string()))
    );
}

#[test]
fn creation_of_existing_account_rejected() {
    let mut ledger = Ledger::new();
    ledger.insert_account("A".to_string(), Account::new("A".to_string(), 10, 0));
    let delta = LedgerDiff::from(&[Diff::Creation("A".to_string())]);
    assert_eq!(
        ledger.apply(delta),
        Err(Error::InvalidCreation("A".to_string()))
    );
}

#[test]
fn coinbase_overflow_rejected() {
    let mut ledger = Ledger::new();
    ledger.insert_account("A".to_string(), Account::new("A".to_string(), u64::MAX, 0));
    let delta = LedgerDiff::from(&[Diff::Coinbase("A".to_string(), 1)]);
    assert_eq!(ledger.apply(delta), Err(Error::InvalidUpdate));
}

#[test]
fn account_update_shapes() {
    // A coinbase update carries the target and the amount.
    let u = AccountUpdate::new(None, "A", true, Some(5), None).unwrap();
    match u.diff {
        Diff::Coinbase(pk, amount) => {
            assert_eq!(pk, "A");
            assert_eq!(amount, 5);
        }
        _ => panic!("expected a coinbase"),
    }
    // A creation carries only the target.
    let u = AccountUpdate::new(None, "D", false, None, None).unwrap();
    assert!(matches!(u.diff, Diff::Creation(_)));
    // A delegation carries the delegator and the delegate.
    let u = AccountUpdate::new(Some("A"), "B", false, None, Some("B".to_string())).unwrap();
    assert!(matches!(u.diff, Diff::Delegation(_, _)));
    // A transfer carries both parties and the amount.
    let u = AccountUpdate::new(Some("A"), "B", false, Some(7), None).unwrap();
    assert!(matches!(u.diff, Diff::Transfer(_, _, 7)));
    // A coinbase with a delegate is rejected with its parts handed back.
    let e = AccountUpdate::new(None, "A", true, Some(5), Some("B".to_string())).unwrap_err();
    assert_eq!(e.to, "A");
    assert!(e.coinbase);
    assert_eq!(e.amount, Some(5));
    assert_eq!(e.delegate, Some("B".to_string()));
}

#[test]
fn delegate_absent_rejected() {
    let mut ledger = Ledger::new();
    ledger.insert_account("A".to_string(), Account::new("A".to_string(), 10, 0));
    let delta = LedgerDiff::from(&[Diff::Delegation("A".to_string(), "Z".to_string())]);
    assert_eq!(
        ledger.apply(delta),
        Err(Error::DelegateAbsentFromLedger("Z".to_string()))
    );
}

#[test]
fn transfer_recheck_rejected() {
    // The entry's key names a well-funded account, but the transfer itself
    // moves money from a poorer one: the validation passes and the update
    // is rejected.
    let mut ledger = Ledger::new();
    ledger.insert_account("A".to_string(), Account::new("A".to_string(), 100, 0));
    ledger.insert_account("B".to_string(), Account::new("B".to_string(), 10, 0));
    ledger.insert_account("C".to_string(), Account::new("C".to_string(), 2, 0));
    let mut delta = LedgerDiff::new();
    delta.insert("A", "B", Diff::Transfer("C".to_string(), "B".to_string(), 5));
    assert_eq!(ledger.apply(delta), Err(Error::InvalidTransfer));
}

#[test]
fn coinbase_target_absent_rejected() {
    // The entry's key is present, but the coinbase itself names an unknown
    // account.
    let mut ledger = Ledger::new();
    ledger.insert_account("A".to_string(), Account::new("A".to_string(), 10, 0));
    let mut delta = LedgerDiff::new();
    delta.insert("A", "A", Diff::Coinbase("Z".to_string(), 5));
    assert_eq!(
        ledger.apply(delta),
        Err(Error::InvalidAbsentFromLedger("Z".to_string()))
    );
}
