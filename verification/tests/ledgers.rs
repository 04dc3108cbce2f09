use payroll::embedded::REGISTRY_SPACE;
use payroll::embedded_ledger::EmbeddedLedger;
use payroll::error::PayrollError;
use payroll::identity::{Identity, Wallet};
use payroll::store::Store;

fn id(byte: u8) -> Identity {
    Identity::new([byte; 32])
}

fn acme() -> (EmbeddedLedger, Identity, Identity) {
    let admin = id(1);
    let mut ledger = EmbeddedLedger::new(payroll::embedded::program_id());
    let key = ledger.initialize(admin, String::from("acme"), 5_000).unwrap();
    assert_eq!(ledger.add_employee(&key, &admin, 1000, String::from("Bob"), &id(11)), Ok(1));
    assert_eq!(ledger.add_employee(&key, &admin, 2000, String::from("Ann"), &id(12)), Ok(2));
    (ledger, key, admin)
}

fn records(ledger: &EmbeddedLedger, key: &Identity) -> Vec<(u64, u64, Identity, String)> {
    ledger
        .registry(key)
        .unwrap()
        .state
        .employees
        .iter()
        .map(|e| (e.employee_id, e.salary, e.pubkey, e.name.clone()))
        .collect()
}

#[test]
fn store_holds_one_value_per_address() {
    let mut store: Store<u64> = Store::new();
    assert!(!store.contains(&id(1)));
    assert_eq!(store.get(&id(1)), None);
    assert_eq!(store.put(id(1), 10), None);
    assert_eq!(store.put(id(2), 20), None);
    assert_eq!(store.put(id(1), 11), Some(11));
    assert_eq!(store.get(&id(1)), Some(&10));
    assert_eq!(store.get(&id(2)), Some(&20));
    assert_eq!(store.take(&id(1)), Some(10));
    assert_eq!(store.take(&id(1)), None);
    assert!(!store.contains(&id(1)));
    assert!(store.contains(&id(2)));
    assert_eq!(store.put(id(1), 12), None);
    assert_eq!(store.get(&id(1)), Some(&12));
}

#[test]
fn initialize_creates_an_empty_registry_at_the_derived_address() {
    let admin = id(1);
    let program = payroll::embedded::program_id();
    let mut ledger = EmbeddedLedger::new(program);
    assert_eq!(ledger.program(), program);
    let key = ledger.initialize(admin, String::from("acme"), 5_000).unwrap();
    assert_eq!(Some(key), payroll::address::registry_address("acme", &admin, &program));
    assert_eq!(Some(key), ledger.registry_address("acme", &admin));
    assert_eq!(None, ledger.registry_address(&"t".repeat(33), &admin));
    let account = ledger.registry(&key).unwrap();
    assert_eq!(account.lamports, 5_000);
    assert_eq!(account.space, REGISTRY_SPACE);
    assert_eq!(account.state.admin, admin);
    assert_eq!(account.state.title, "acme");
    assert_eq!(account.state.id_counter, 0);
    assert!(account.state.employees.is_empty());
}

#[test]
fn initialize_twice_is_refused_the_second_time() {
    let admin = id(1);
    let mut ledger = EmbeddedLedger::new(id(9));
    let key = ledger.initialize(admin, String::from("acme"), 5_000).unwrap();
    assert_eq!(ledger.add_employee(&key, &admin, 1, String::from("Bob"), &id(11)), Ok(1));
    assert_eq!(
        ledger.initialize(admin, String::from("acme"), 5_000),
        Err(PayrollError::AlreadyExists)
    );
    assert_eq!(
        ledger.initialize_at(key, id(2), String::from("other"), 1),
        Err(PayrollError::AlreadyExists)
    );
    let account = ledger.registry(&key).unwrap();
    assert_eq!(account.state.id_counter, 1);
    assert_eq!(account.state.employees.len(), 1);
    assert_eq!(account.lamports, 5_000);
}

#[test]
fn registries_of_other_titles_and_admins_stand_apart() {
    let mut ledger = EmbeddedLedger::new(id(9));
    let a = ledger.initialize(id(1), String::from("acme"), 1).unwrap();
    let b = ledger.initialize(id(1), String::from("bolt"), 2).unwrap();
    let c = ledger.initialize(id(2), String::from("acme"), 3).unwrap();
    assert_ne!(a, b);
    assert_ne!(a, c);
    assert_ne!(b, c);
    assert_eq!(ledger.add_employee(&b, &id(1), 7, String::from("Bob"), &id(11)), Ok(1));
    assert_eq!(ledger.registry(&a).unwrap().state.employees.len(), 0);
    assert_eq!(ledger.registry(&b).unwrap().state.employees.len(), 1);
    assert_eq!(ledger.registry(&c).unwrap().state.admin, id(2));
}

#[test]
fn a_title_that_admits_no_address_is_refused() {
    let mut ledger = EmbeddedLedger::new(id(9));
    assert_eq!(
        ledger.initialize(id(1), "t".repeat(33), 5_000),
        Err(PayrollError::InvalidSeeds)
    );
    assert_eq!(
        ledger.initialize(id(1), "t".repeat(33), 5_000),
        Err(PayrollError::InvalidSeeds)
    );
    assert!(ledger.initialize(id(1), "t".repeat(32), 5_000).is_ok());
}

#[test]
fn unknown_addresses_are_not_found() {
    let (mut ledger, _, admin) = acme();
    let nowhere = id(77);
    assert!(ledger.registry(&nowhere).is_none());
    assert_eq!(
        ledger.add_employee(&nowhere, &admin, 1, String::from("Cy"), &id(13)),
        Err(PayrollError::NotFound)
    );
    assert_eq!(ledger.remove_employee(&nowhere, &admin, 1), Err(PayrollError::NotFound));
    assert_eq!(ledger.update_salary(&nowhere, &admin, 1, 1), Err(PayrollError::NotFound));
    let mut wallet = Wallet { key: id(11), lamports: 0 };
    assert_eq!(ledger.process_payroll(&nowhere, &admin, &mut wallet), Err(PayrollError::NotFound));
    let mut purse = Wallet { key: admin, lamports: 0 };
    assert_eq!(ledger.close(&nowhere, &mut purse), Err(PayrollError::NotFound));
}

#[test]
fn a_stranger_changes_nothing_in_the_ledger() {
    let (mut ledger, key, _) = acme();
    let stranger = id(2);
    let before = records(&ledger, &key);
    assert_eq!(
        ledger.add_employee(&key, &stranger, 1, String::from("Mal"), &id(66)),
        Err(PayrollError::Unauthorized)
    );
    assert_eq!(ledger.remove_employee(&key, &stranger, 1), Err(PayrollError::Unauthorized));
    assert_eq!(ledger.update_salary(&key, &stranger, 1, 1), Err(PayrollError::Unauthorized));
    let mut wallet = Wallet { key: id(11), lamports: 0 };
    assert_eq!(
        ledger.process_payroll(&key, &stranger, &mut wallet),
        Err(PayrollError::Unauthorized)
    );
    assert_eq!(wallet.lamports, 0);
    let mut purse = Wallet { key: stranger, lamports: 0 };
    assert_eq!(ledger.close(&key, &mut purse), Err(PayrollError::Unauthorized));
    assert_eq!(purse.lamports, 0);
    assert_eq!(records(&ledger, &key), before);
    let account = ledger.registry(&key).unwrap();
    assert_eq!(account.lamports, 5_000);
    assert_eq!(account.state.id_counter, 2);
}

#[test]
fn ledger_remove_then_update_is_not_found() {
    let (mut ledger, key, admin) = acme();
    assert_eq!(ledger.remove_employee(&key, &admin, 1), Ok(()));
    assert_eq!(ledger.update_salary(&key, &admin, 1, 5), Err(PayrollError::NotFound));
    assert_eq!(records(&ledger, &key), vec![(2, 2000, id(12), String::from("Ann"))]);
}

#[test]
fn ledger_payroll_is_not_idempotent() {
    let (mut ledger, key, admin) = acme();
    let mut wallet = Wallet { key: id(12), lamports: 1 };
    let before = records(&ledger, &key);
    assert_eq!(ledger.process_payroll(&key, &admin, &mut wallet), Ok(2000));
    assert_eq!(ledger.registry(&key).unwrap().lamports, 3_000);
    assert_eq!(wallet.lamports, 2_001);
    assert_eq!(ledger.process_payroll(&key, &admin, &mut wallet), Ok(2000));
    assert_eq!(ledger.registry(&key).unwrap().lamports, 1_000);
    assert_eq!(wallet.lamports, 4_001);
    assert_eq!(
        ledger.process_payroll(&key, &admin, &mut wallet),
        Err(PayrollError::TransferFailure)
    );
    assert_eq!(ledger.registry(&key).unwrap().lamports, 1_000);
    assert_eq!(wallet.lamports, 4_001);
    assert_eq!(records(&ledger, &key), before);
    let mut unknown = Wallet { key: id(99), lamports: 0 };
    assert_eq!(ledger.process_payroll(&key, &admin, &mut unknown), Err(PayrollError::NotFound));
}

#[test]
fn a_closed_title_can_be_initialized_again() {
    let (mut ledger, key, admin) = acme();
    let mut purse = Wallet { key: admin, lamports: 0 };
    assert_eq!(ledger.close(&key, &mut purse), Ok(5_000));
    assert_eq!(purse.lamports, 5_000);
    assert_eq!(ledger.initialize(admin, String::from("acme"), 9), Ok(key));
    let account = ledger.registry(&key).unwrap();
    assert_eq!(account.state.id_counter, 0);
    assert!(account.state.employees.is_empty());
    assert_eq!(account.lamports, 9);
}

#[test]
fn close_that_fails_keeps_the_registry() {
    let (mut ledger, key, admin) = acme();
    let mut purse = Wallet { key: admin, lamports: u64::MAX };
    assert_eq!(ledger.close(&key, &mut purse), Err(PayrollError::TransferFailure));
    assert_eq!(purse.lamports, u64::MAX);
    assert_eq!(ledger.registry(&key).unwrap().lamports, 5_000);
    assert_eq!(ledger.registry(&key).unwrap().state.employees.len(), 2);
}

#[test]
fn ledger_lookup_by_wallet_finds_the_first_record() {
    let (mut ledger, key, admin) = acme();
    assert_eq!(ledger.add_employee(&key, &admin, 7, String::from("Bob2"), &id(11)), Ok(3));
    let found = ledger.lookup_by_wallet(&key, &id(11)).unwrap();
    assert_eq!((found.employee_id, found.salary, found.name.as_str()), (1, 1000, "Bob"));
    assert!(ledger.lookup_by_wallet(&key, &id(99)).is_none());
    assert!(ledger.lookup_by_wallet(&id(77), &id(11)).is_none());
}

#[test]
fn payments_then_close_refund_the_rest() {
    for k in 1..=2u64 {
        let (mut ledger, key, admin) = acme();
        let mut wallet = Wallet { key: id(11), lamports: 40 };
        for _ in 0..k {
            assert_eq!(ledger.process_payroll(&key, &admin, &mut wallet), Ok(1000));
        }
        let mut purse = Wallet { key: admin, lamports: 300 };
        assert_eq!(ledger.close(&key, &mut purse), Ok(5_000 - k * 1000));
        assert_eq!(wallet.lamports, 40 + k * 1000);
        assert_eq!(purse.lamports, 300 + 5_000 - k * 1000);
        assert!(ledger.registry(&key).is_none());
    }
}

#[test]
fn close_after_payment_fails_only_where_the_admin_cannot_hold_the_refund() {
    let (mut ledger, key, admin) = acme();
    let mut wallet = Wallet { key: id(11), lamports: 0 };
    assert_eq!(ledger.process_payroll(&key, &admin, &mut wallet), Ok(1000));
    let mut purse = Wallet { key: admin, lamports: u64::MAX - 3_999 };
    assert_eq!(ledger.close(&key, &mut purse), Err(PayrollError::TransferFailure));
    purse.lamports = u64::MAX - 4_000;
    assert_eq!(ledger.close(&key, &mut purse), Ok(4_000));
    assert_eq!(purse.lamports, u64::MAX);
}
