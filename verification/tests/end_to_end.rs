use payroll::embedded_ledger::EmbeddedLedger;
use payroll::error::PayrollError;
use payroll::identity::{Identity, Wallet};

fn id(byte: u8) -> Identity {
    Identity::new([byte; 32])
}

#[test]
fn acme_from_initialize_to_close() {
    let program = id(9);
    let admin = id(1);
    let w1 = id(11);
    let w2 = id(12);
    let mut ledger = EmbeddedLedger::new(program);

    let acme = ledger.initialize(admin, String::from("acme"), 5_000).unwrap();
    assert_eq!(ledger.add_employee(&acme, &admin, 1000, String::from("Bob"), &w1), Ok(1));
    assert_eq!(ledger.add_employee(&acme, &admin, 2000, String::from("Ann"), &w2), Ok(2));

    assert_eq!(ledger.remove_employee(&acme, &admin, 1), Ok(()));
    {
        let state = &ledger.registry(&acme).unwrap().state;
        assert_eq!(state.employees.len(), 1);
        assert_eq!(state.employees[0].employee_id, 2);
    }

    assert_eq!(ledger.update_salary(&acme, &admin, 2, 2500), Ok(()));
    {
        let state = &ledger.registry(&acme).unwrap().state;
        assert_eq!(state.employees[0].salary, 2500);
        assert_eq!(state.employees[0].name, "Ann");
        assert_eq!(state.employees[0].pubkey, w2);
        assert_eq!(state.id_counter, 2);
    }

    let mut purse = Wallet { key: admin, lamports: 7 };
    assert_eq!(ledger.close(&acme, &mut purse), Ok(5_000));
    assert_eq!(purse.lamports, 5_007);
    assert!(ledger.registry(&acme).is_none());

    assert_eq!(
        ledger.add_employee(&acme, &admin, 1, String::from("Cy"), &w1),
        Err(PayrollError::NotFound)
    );
    assert_eq!(ledger.remove_employee(&acme, &admin, 2), Err(PayrollError::NotFound));
    assert_eq!(ledger.update_salary(&acme, &admin, 2, 1), Err(PayrollError::NotFound));
    let mut paid = Wallet { key: w2, lamports: 0 };
    assert_eq!(ledger.process_payroll(&acme, &admin, &mut paid), Err(PayrollError::NotFound));
    assert_eq!(ledger.close(&acme, &mut purse), Err(PayrollError::NotFound));
}
