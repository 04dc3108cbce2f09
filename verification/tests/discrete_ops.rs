use payroll::discrete::{
    add_employee, close_payroll_account, initialize_payroll, remove_employee, scrub_wallet,
    update_salary, AddEmployee, CloseSolanaPayroll, Employee, EmployeeAccount,
    InitializeSolanaPayroll, PayrollAccount, PayrollState, RemoveEmployee, UpdateSalary,
};
use payroll::discrete_ledger::DiscreteLedger;
use payroll::error::PayrollError;
use payroll::identity::{Identity, Wallet};

fn id(byte: u8) -> Identity {
    Identity::new([byte; 32])
}

fn registry(admin: Identity, lamports: u64) -> PayrollAccount {
    let blank = PayrollAccount {
        lamports,
        state: PayrollState {
            id_counter: 5,
            admin: id(0),
            title: String::from("stale"),
            employees: vec![id(3)],
        },
    };
    let mut ctx = InitializeSolanaPayroll { solana_payroll: blank, admin };
    assert_eq!(initialize_payroll(&mut ctx, String::from("acme")), Ok(()));
    assert_eq!(ctx.admin, admin);
    ctx.solana_payroll
}

fn blank_entry(lamports: u64) -> EmployeeAccount {
    EmployeeAccount {
        lamports,
        state: Employee { employee_id: 0, salary: 0, name: String::new(), pubkey: id(0) },
    }
}

fn entry_fields(entry: &EmployeeAccount) -> (u64, u32, u64, String, Identity) {
    (
        entry.lamports,
        entry.state.employee_id,
        entry.state.salary,
        entry.state.name.clone(),
        entry.state.pubkey,
    )
}

fn registry_fields(account: &PayrollAccount) -> (u64, u32, Identity, String, Vec<Identity>) {
    (
        account.lamports,
        account.state.id_counter,
        account.state.admin,
        account.state.title.clone(),
        account.state.employees.clone(),
    )
}

#[test]
fn discrete_initialize_resets_every_field() {
    let account = registry(id(1), 40);
    assert_eq!(registry_fields(&account), (40, 0, id(1), String::from("acme"), vec![]));
}

#[test]
fn discrete_add_writes_the_entry_and_counts_up() {
    let admin = id(1);
    let mut ctx = AddEmployee {
        employee: blank_entry(9),
        solana_payroll: registry(admin, 40),
        admin,
    };
    assert_eq!(add_employee(&mut ctx, 1000, String::from("Bob"), id(11)), Ok(1));
    assert_eq!(entry_fields(&ctx.employee), (9, 1, 1000, String::from("Bob"), id(11)));
    assert_eq!(registry_fields(&ctx.solana_payroll), (40, 1, admin, String::from("acme"), vec![]));
    ctx.employee = blank_entry(9);
    assert_eq!(add_employee(&mut ctx, 2000, String::from("Ann"), id(12)), Ok(2));
    assert_eq!(entry_fields(&ctx.employee), (9, 2, 2000, String::from("Ann"), id(12)));
    assert_eq!(ctx.solana_payroll.state.id_counter, 2);
}

#[test]
fn discrete_add_fails_when_the_counter_is_spent() {
    let admin = id(1);
    let mut account = registry(admin, 40);
    account.state.id_counter = u32::MAX;
    let mut ctx = AddEmployee { employee: blank_entry(9), solana_payroll: account, admin };
    assert_eq!(
        add_employee(&mut ctx, 1000, String::from("Bob"), id(11)),
        Err(PayrollError::CapacityExceeded)
    );
    assert_eq!(entry_fields(&ctx.employee), (9, 0, 0, String::new(), id(0)));
    assert_eq!(ctx.solana_payroll.state.id_counter, u32::MAX);
}

#[test]
fn discrete_stranger_is_refused_and_changes_nothing() {
    let stranger = id(2);
    let mut ctx = AddEmployee {
        employee: blank_entry(9),
        solana_payroll: registry(id(1), 40),
        admin: stranger,
    };
    assert_eq!(
        add_employee(&mut ctx, 1000, String::from("Bob"), id(11)),
        Err(PayrollError::Unauthorized)
    );
    assert_eq!(entry_fields(&ctx.employee), (9, 0, 0, String::new(), id(0)));
    assert_eq!(registry_fields(&ctx.solana_payroll), (40, 0, id(1), String::from("acme"), vec![]));

    let mut entry = blank_entry(9);
    entry.state.salary = 10;
    let mut ctx = UpdateSalary {
        employee: entry,
        solana_payroll: ctx.solana_payroll,
        admin: stranger,
    };
    assert_eq!(update_salary(&mut ctx, 99), Err(PayrollError::Unauthorized));
    assert_eq!(ctx.employee.state.salary, 10);

    let mut account = ctx.solana_payroll;
    account.state.employees = vec![id(0), id(4)];
    let mut ctx = RemoveEmployee {
        admin: Wallet { key: stranger, lamports: 1 },
        employee: ctx.employee,
        solana_payroll: account,
    };
    assert_eq!(remove_employee(&mut ctx), Err(PayrollError::Unauthorized));
    assert_eq!(ctx.solana_payroll.state.employees, vec![id(0), id(4)]);
    assert_eq!(ctx.employee.lamports, 9);
    assert_eq!(ctx.admin.lamports, 1);

    let mut ctx = CloseSolanaPayroll {
        admin: Wallet { key: stranger, lamports: 1 },
        solana_payroll: ctx.solana_payroll,
    };
    assert_eq!(close_payroll_account(&mut ctx), Err(PayrollError::Unauthorized));
    assert_eq!(ctx.solana_payroll.lamports, 40);
    assert_eq!(ctx.admin.lamports, 1);
}

#[test]
fn discrete_update_overwrites_only_the_salary() {
    let admin = id(1);
    let mut ctx = AddEmployee {
        employee: blank_entry(9),
        solana_payroll: registry(admin, 40),
        admin,
    };
    assert_eq!(add_employee(&mut ctx, 1000, String::from("Bob"), id(11)), Ok(1));
    let mut ctx =
        UpdateSalary { employee: ctx.employee, solana_payroll: ctx.solana_payroll, admin };
    assert_eq!(update_salary(&mut ctx, 1500), Ok(()));
    assert_eq!(entry_fields(&ctx.employee), (9, 1, 1500, String::from("Bob"), id(11)));
    assert_eq!(registry_fields(&ctx.solana_payroll), (40, 1, admin, String::from("acme"), vec![]));
}

#[test]
fn scrub_removes_every_occurrence() {
    let mut wallets = vec![id(5), id(1), id(5), id(5), id(2), id(5)];
    scrub_wallet(&mut wallets, &id(5));
    assert_eq!(wallets, vec![id(1), id(2)]);
    scrub_wallet(&mut wallets, &id(5));
    assert_eq!(wallets, vec![id(1), id(2)]);
    let mut all = vec![id(5), id(5)];
    scrub_wallet(&mut all, &id(5));
    assert!(all.is_empty());
    let mut none: Vec<Identity> = Vec::new();
    scrub_wallet(&mut none, &id(5));
    assert!(none.is_empty());
}

#[test]
fn discrete_remove_scrubs_the_wallet_and_reclaims_the_entry() {
    let admin = id(1);
    let mut account = registry(admin, 40);
    account.state.employees = vec![id(11), id(12), id(11)];
    account.state.id_counter = 3;
    let mut entry = blank_entry(9);
    entry.state.pubkey = id(11);
    entry.state.employee_id = 1;
    let mut ctx = RemoveEmployee {
        admin: Wallet { key: admin, lamports: 100 },
        employee: entry,
        solana_payroll: account,
    };
    assert_eq!(remove_employee(&mut ctx), Ok(()));
    assert_eq!(ctx.solana_payroll.state.employees, vec![id(12)]);
    assert_eq!(ctx.solana_payroll.state.id_counter, 3);
    assert_eq!(ctx.solana_payroll.lamports, 40);
    assert_eq!(ctx.admin.lamports, 109);
    assert_eq!(ctx.employee.lamports, 0);
}

#[test]
fn discrete_remove_fails_when_the_admin_cannot_hold_the_amount() {
    let admin = id(1);
    let mut account = registry(admin, 40);
    account.state.employees = vec![id(0)];
    let mut ctx = RemoveEmployee {
        admin: Wallet { key: admin, lamports: u64::MAX - 8 },
        employee: blank_entry(9),
        solana_payroll: account,
    };
    assert_eq!(remove_employee(&mut ctx), Err(PayrollError::TransferFailure));
    assert_eq!(ctx.solana_payroll.state.employees, vec![id(0)]);
    assert_eq!(ctx.employee.lamports, 9);
    assert_eq!(ctx.admin.lamports, u64::MAX - 8);
}

#[test]
fn discrete_close_hands_the_balance_to_the_admin() {
    let admin = id(1);
    let mut ctx = CloseSolanaPayroll {
        admin: Wallet { key: admin, lamports: 2 },
        solana_payroll: registry(admin, 40),
    };
    assert_eq!(close_payroll_account(&mut ctx), Ok(40));
    assert_eq!(ctx.admin.lamports, 42);
    assert_eq!(ctx.solana_payroll.lamports, 0);
    let mut ctx = CloseSolanaPayroll {
        admin: Wallet { key: admin, lamports: u64::MAX },
        solana_payroll: registry(admin, 40),
    };
    assert_eq!(close_payroll_account(&mut ctx), Err(PayrollError::TransferFailure));
    assert_eq!(ctx.solana_payroll.lamports, 40);
}

#[test]
fn discrete_ledger_from_initialize_to_close() {
    let program = payroll::discrete::program_id();
    let admin = id(1);
    let mut ledger = DiscreteLedger::new(program);
    assert_eq!(ledger.program(), program);
    let acme = ledger.initialize(admin, String::from("acme"), 500).unwrap();
    assert_eq!(Some(acme), payroll::address::registry_address("acme", &admin, &program));
    assert_eq!(Some(acme), ledger.registry_address("acme", &admin));
    assert_eq!(
        ledger.initialize(admin, String::from("acme"), 500),
        Err(PayrollError::AlreadyExists)
    );

    assert_eq!(ledger.add_employee(&acme, &admin, 1000, String::from("Bob"), &id(11), 7), Ok(1));
    assert_eq!(ledger.add_employee(&acme, &admin, 2000, String::from("Bob"), &id(12), 8), Ok(2));
    let first = ledger.entry_address("Bob", 1).unwrap();
    let second = ledger.entry_address("Bob", 2).unwrap();
    assert_ne!(first, second);
    assert_eq!(Some(first), payroll::address::employee_address("Bob", 0, &program));
    assert_eq!(Some(second), payroll::address::employee_address("Bob", 1, &program));
    assert!(ledger.entry_address("Bob", 0).is_none());
    assert_eq!(
        entry_fields(ledger.employee(&first).unwrap()),
        (7, 1, 1000, String::from("Bob"), id(11))
    );
    assert_eq!(
        entry_fields(ledger.employee(&second).unwrap()),
        (8, 2, 2000, String::from("Bob"), id(12))
    );
    assert_eq!(ledger.registry(&acme).unwrap().state.id_counter, 2);

    assert_eq!(ledger.update_salary(&acme, &admin, "Bob", 2, 2500), Ok(()));
    assert_eq!(ledger.employee(&second).unwrap().state.salary, 2500);
    assert_eq!(ledger.employee(&first).unwrap().state.salary, 1000);
    assert_eq!(ledger.update_salary(&acme, &admin, "Bob", 3, 1), Err(PayrollError::NotFound));
    assert_eq!(ledger.update_salary(&acme, &admin, "Bob", 0, 1), Err(PayrollError::NotFound));
    assert_eq!(ledger.update_salary(&acme, &admin, "Ann", 1, 1), Err(PayrollError::NotFound));
    assert_eq!(
        ledger.update_salary(&acme, &admin, &"n".repeat(33), 1, 1),
        Err(PayrollError::NotFound)
    );

    let mut purse = Wallet { key: admin, lamports: 0 };
    assert_eq!(ledger.remove_employee(&acme, &mut purse, "Bob", 1), Ok(()));
    assert_eq!(purse.lamports, 7);
    assert!(ledger.employee(&first).is_none());
    assert!(ledger.employee(&second).is_some());
    assert_eq!(ledger.update_salary(&acme, &admin, "Bob", 1, 5), Err(PayrollError::NotFound));
    assert_eq!(
        ledger.remove_employee(&acme, &mut purse, "Bob", 1),
        Err(PayrollError::NotFound)
    );
    assert_eq!(ledger.registry(&acme).unwrap().state.id_counter, 2);
    assert_eq!(ledger.add_employee(&acme, &admin, 1, String::from("Bob"), &id(13), 1), Ok(3));

    assert_eq!(ledger.close_payroll_account(&acme, &mut purse), Ok(500));
    assert_eq!(purse.lamports, 507);
    assert!(ledger.registry(&acme).is_none());
    assert_eq!(
        ledger.add_employee(&acme, &admin, 1, String::from("Cy"), &id(14), 1),
        Err(PayrollError::NotFound)
    );
    assert_eq!(ledger.update_salary(&acme, &admin, "Bob", 2, 1), Err(PayrollError::NotFound));
    assert_eq!(
        ledger.remove_employee(&acme, &mut purse, "Bob", 2),
        Err(PayrollError::NotFound)
    );
    assert_eq!(ledger.close_payroll_account(&acme, &mut purse), Err(PayrollError::NotFound));
}

#[test]
fn discrete_entry_is_never_overwritten() {
    let admin = id(1);
    let mut ledger = DiscreteLedger::new(id(9));
    let acme = ledger.initialize(admin, String::from("acme"), 500).unwrap();
    let bolt = ledger.initialize(admin, String::from("bolt"), 500).unwrap();
    assert_eq!(ledger.add_employee(&acme, &admin, 1000, String::from("Bob"), &id(11), 7), Ok(1));
    assert_eq!(
        ledger.add_employee(&bolt, &admin, 2000, String::from("Bob"), &id(12), 8),
        Err(PayrollError::AlreadyExists)
    );
    assert_eq!(ledger.registry(&bolt).unwrap().state.id_counter, 0);
    let entry = ledger.entry_address("Bob", 1).unwrap();
    assert_eq!(
        ledger.add_employee_at(&acme, entry, &admin, 3000, String::from("Bob"), &id(13), 9),
        Err(PayrollError::AlreadyExists)
    );
    assert_eq!(
        entry_fields(ledger.employee(&entry).unwrap()),
        (7, 1, 1000, String::from("Bob"), id(11))
    );
    assert_eq!(ledger.registry(&acme).unwrap().state.id_counter, 1);
    assert_eq!(
        ledger.add_employee(&acme, &admin, 1, "n".repeat(33), &id(13), 9),
        Err(PayrollError::InvalidSeeds)
    );
    assert_eq!(
        ledger.initialize(admin, "t".repeat(33), 1),
        Err(PayrollError::InvalidSeeds)
    );
}

#[test]
fn discrete_ledger_refuses_a_stranger() {
    let admin = id(1);
    let stranger = id(2);
    let mut ledger = DiscreteLedger::new(id(9));
    let acme = ledger.initialize(admin, String::from("acme"), 500).unwrap();
    assert_eq!(ledger.add_employee(&acme, &admin, 1000, String::from("Bob"), &id(11), 7), Ok(1));
    let entry = ledger.entry_address("Bob", 1).unwrap();
    assert_eq!(
        ledger.add_employee(&acme, &stranger, 1, String::from("Mal"), &id(66), 1),
        Err(PayrollError::Unauthorized)
    );
    assert_eq!(
        ledger.add_employee_at(&acme, entry, &stranger, 1, String::from("Mal"), &id(66), 1),
        Err(PayrollError::Unauthorized)
    );
    assert_eq!(
        ledger.update_salary(&acme, &stranger, "Bob", 1, 1),
        Err(PayrollError::Unauthorized)
    );
    assert_eq!(
        ledger.update_salary_at(&acme, None, &stranger, 1),
        Err(PayrollError::Unauthorized)
    );
    let mut purse = Wallet { key: stranger, lamports: 3 };
    assert_eq!(
        ledger.remove_employee(&acme, &mut purse, "Bob", 1),
        Err(PayrollError::Unauthorized)
    );
    assert_eq!(
        ledger.remove_employee_at(&acme, Some(entry), &mut purse),
        Err(PayrollError::Unauthorized)
    );
    assert_eq!(ledger.close_payroll_account(&acme, &mut purse), Err(PayrollError::Unauthorized));
    assert_eq!(purse.lamports, 3);
    assert_eq!(
        entry_fields(ledger.employee(&entry).unwrap()),
        (7, 1, 1000, String::from("Bob"), id(11))
    );
    assert_eq!(
        registry_fields(ledger.registry(&acme).unwrap()),
        (500, 1, admin, String::from("acme"), vec![])
    );
}

#[test]
fn discrete_removed_entry_stays_away_whatever_follows() {
    let admin = id(1);
    let mut ledger = DiscreteLedger::new(id(9));
    let acme = ledger.initialize(admin, String::from("acme"), 500).unwrap();
    let bolt = ledger.initialize(admin, String::from("bolt"), 500).unwrap();
    assert_eq!(ledger.add_employee(&acme, &admin, 1000, String::from("Bob"), &id(11), 7), Ok(1));
    assert_eq!(ledger.add_employee(&acme, &admin, 2000, String::from("Ann"), &id(12), 8), Ok(2));
    let bob = ledger.entry_address("Bob", 1);
    let mut purse = Wallet { key: admin, lamports: 0 };
    assert_eq!(ledger.remove_employee_at(&acme, bob, &mut purse), Ok(()));
    assert_eq!(purse.lamports, 7);

    assert_eq!(ledger.add_employee(&acme, &admin, 3000, String::from("Bob"), &id(13), 9), Ok(3));
    assert_eq!(ledger.update_salary(&acme, &admin, "Ann", 2, 2500), Ok(()));
    assert_eq!(ledger.remove_employee(&acme, &mut purse, "Ann", 2), Ok(()));
    assert_eq!(ledger.close_payroll_account(&bolt, &mut purse), Ok(500));

    assert_eq!(ledger.update_salary_at(&acme, bob, &admin, 1), Err(PayrollError::NotFound));
    assert_eq!(ledger.update_salary(&acme, &admin, "Bob", 1, 1), Err(PayrollError::NotFound));
    assert_eq!(
        ledger.remove_employee_at(&acme, bob, &mut purse),
        Err(PayrollError::NotFound)
    );
    let again = ledger.entry_address("Bob", 3).unwrap();
    assert_eq!(ledger.employee(&again).unwrap().state.salary, 3000);
}
