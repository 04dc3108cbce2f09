use anchor_lang::AnchorSerialize;
use payroll::embedded::{
    add_employee, close, encoded_size, initialize_payroll, lookup_by_wallet, position_of_id,
    position_of_wallet, process_payroll, remove_employee, update_salary, AddEmployee,
    CloseSolanaPayroll, Employee, InitializeSolanaPayroll, PayrollAccount, PayrollState,
    ProcessPayroll, RemoveEmployee, UpdateSalary, REGISTRY_SPACE,
};
use payroll::error::PayrollError;
use payroll::guard::require_admin;
use payroll::identity::{Identity, Wallet};

fn id(byte: u8) -> Identity {
    Identity::new([byte; 32])
}

fn blank(lamports: u64, space: u64) -> PayrollAccount {
    PayrollAccount {
        lamports,
        space,
        state: PayrollState {
            admin: id(0),
            title: String::new(),
            id_counter: 0,
            employees: Vec::new(),
        },
    }
}

fn registry(admin: Identity, title: &str, lamports: u64, space: u64) -> PayrollAccount {
    let mut ctx = InitializeSolanaPayroll { solana_payroll: blank(lamports, space), admin };
    assert_eq!(initialize_payroll(&mut ctx, String::from(title)), Ok(()));
    ctx.solana_payroll
}

fn add(
    account: PayrollAccount,
    caller: Identity,
    salary: u64,
    name: &str,
    wallet: Identity,
) -> (PayrollAccount, Result<u64, PayrollError>) {
    let mut ctx = AddEmployee { solana_payroll: account, admin: caller, employee: wallet };
    let r = add_employee(&mut ctx, salary, String::from(name));
    assert_eq!(ctx.admin, caller);
    assert_eq!(ctx.employee, wallet);
    (ctx.solana_payroll, r)
}

type Snapshot = (u64, u64, Identity, String, u64, Vec<(u64, u64, Identity, String)>);

fn snapshot(account: &PayrollAccount) -> Snapshot {
    (
        account.lamports,
        account.space,
        account.state.admin,
        account.state.title.clone(),
        account.state.id_counter,
        account
            .state
            .employees
            .iter()
            .map(|e| (e.employee_id, e.salary, e.pubkey, e.name.clone()))
            .collect(),
    )
}

fn acme_with_bob_and_ann() -> PayrollAccount {
    let admin = id(1);
    let account = registry(admin, "acme", 10_000, REGISTRY_SPACE);
    let (account, r) = add(account, admin, 1000, "Bob", id(11));
    assert_eq!(r, Ok(1));
    let (account, r) = add(account, admin, 2000, "Ann", id(12));
    assert_eq!(r, Ok(2));
    account
}

#[test]
fn require_admin_accepts_only_the_admin() {
    assert_eq!(require_admin(&id(1), &id(1)), Ok(()));
    assert_eq!(require_admin(&id(1), &id(2)), Err(PayrollError::Unauthorized));
}

#[test]
fn initialize_sets_admin_title_counter_and_empty_directory() {
    let mut start = blank(77, REGISTRY_SPACE);
    start.state.id_counter = 9;
    start.state.employees.push(Employee {
        employee_id: 9,
        salary: 1,
        pubkey: id(5),
        name: String::from("old"),
    });
    let mut ctx = InitializeSolanaPayroll { solana_payroll: start, admin: id(1) };
    assert_eq!(initialize_payroll(&mut ctx, String::from("acme")), Ok(()));
    let account = ctx.solana_payroll;
    assert_eq!(account.state.admin, id(1));
    assert_eq!(account.state.title, "acme");
    assert_eq!(account.state.id_counter, 0);
    assert!(account.state.employees.is_empty());
    assert_eq!(account.lamports, 77);
    assert_eq!(account.space, REGISTRY_SPACE);
}

#[test]
fn initialize_needs_room_for_the_title() {
    let mut ctx = InitializeSolanaPayroll { solana_payroll: blank(1, 59), admin: id(1) };
    assert_eq!(
        initialize_payroll(&mut ctx, String::from("acme")),
        Err(PayrollError::CapacityExceeded)
    );
    assert_eq!(ctx.solana_payroll.state.title, "");
    assert_eq!(ctx.solana_payroll.state.admin, id(0));
    let mut ctx = InitializeSolanaPayroll { solana_payroll: blank(1, 60), admin: id(1) };
    assert_eq!(initialize_payroll(&mut ctx, String::from("acme")), Ok(()));
}

#[test]
fn encoded_size_counts_header_fields_and_records() {
    let account = registry(id(1), "acme", 0, REGISTRY_SPACE);
    assert_eq!(encoded_size(&account.state, REGISTRY_SPACE), Some(60));
    assert_eq!(encoded_size(&account.state, 60), Some(60));
    assert_eq!(encoded_size(&account.state, 59), None);
    let account = acme_with_bob_and_ann();
    assert_eq!(encoded_size(&account.state, REGISTRY_SPACE), Some(60 + 55 + 55));
    assert_eq!(encoded_size(&account.state, 169), None);
    assert_eq!(encoded_size(&account.state, 0), None);
}

#[test]
fn space_is_one_million_bytes_behind_the_header() {
    assert_eq!(REGISTRY_SPACE, 8 + 1_000_000);
}

#[test]
fn added_ids_count_up_from_one() {
    let admin = id(1);
    let mut account = registry(admin, "acme", 0, REGISTRY_SPACE);
    let mut last = 0;
    for i in 0..20u64 {
        let (next, r) = add(account, admin, 100 + i, "Eve", id(40));
        account = next;
        let got = r.unwrap();
        assert_eq!(got, i + 1);
        assert!(got > last);
        last = got;
    }
    assert_eq!(account.state.id_counter, 20);
    let ids: Vec<u64> = account.state.employees.iter().map(|e| e.employee_id).collect();
    assert_eq!(ids, (1..=20u64).collect::<Vec<u64>>());
}

#[test]
fn add_records_what_it_was_given() {
    let account = acme_with_bob_and_ann();
    let bob = &account.state.employees[0];
    assert_eq!(bob.employee_id, 1);
    assert_eq!(bob.salary, 1000);
    assert_eq!(bob.name, "Bob");
    assert_eq!(bob.pubkey, id(11));
    let ann = &account.state.employees[1];
    assert_eq!(ann.employee_id, 2);
    assert_eq!(ann.salary, 2000);
    assert_eq!(ann.name, "Ann");
    assert_eq!(ann.pubkey, id(12));
}

#[test]
fn ids_are_not_reused_after_removal() {
    let admin = id(1);
    let account = acme_with_bob_and_ann();
    let mut ctx = RemoveEmployee { solana_payroll: account, admin };
    assert_eq!(remove_employee(&mut ctx, 2), Ok(()));
    let (account, r) = add(ctx.solana_payroll, admin, 5, "Cy", id(13));
    assert_eq!(r, Ok(3));
    let ids: Vec<u64> = account.state.employees.iter().map(|e| e.employee_id).collect();
    assert_eq!(ids, vec![1, 3]);
}

#[test]
fn add_fails_when_the_record_does_not_fit() {
    let admin = id(1);
    let account = registry(admin, "acme", 0, 60 + 55);
    let (account, r) = add(account, admin, 1000, "Bob", id(11));
    assert_eq!(r, Ok(1));
    let before = snapshot(&account);
    let (account, r) = add(account, admin, 2000, "Ann", id(12));
    assert_eq!(r, Err(PayrollError::CapacityExceeded));
    assert_eq!(snapshot(&account), before);
    assert_eq!(account.state.id_counter, 1);

    let exact = registry(admin, "acme", 0, 60 + 55 - 1);
    let (_, r) = add(exact, admin, 1000, "Bob", id(11));
    assert_eq!(r, Err(PayrollError::CapacityExceeded));
}

#[test]
fn add_fails_when_the_counter_is_spent() {
    let admin = id(1);
    let mut account = registry(admin, "acme", 0, REGISTRY_SPACE);
    account.state.id_counter = u64::MAX;
    let before = snapshot(&account);
    let (account, r) = add(account, admin, 1000, "Bob", id(11));
    assert_eq!(r, Err(PayrollError::CapacityExceeded));
    assert_eq!(snapshot(&account), before);
    let mut account = account;
    account.state.id_counter = u64::MAX - 1;
    let (account, r) = add(account, admin, 1000, "Bob", id(11));
    assert_eq!(r, Ok(u64::MAX));
    assert_eq!(account.state.id_counter, u64::MAX);
}

#[test]
fn remove_takes_out_the_record_and_keeps_the_order() {
    let admin = id(1);
    let (account, r) = add(acme_with_bob_and_ann(), admin, 3000, "Cy", id(13));
    assert_eq!(r, Ok(3));
    let mut ctx = RemoveEmployee { solana_payroll: account, admin };
    assert_eq!(remove_employee(&mut ctx, 2), Ok(()));
    let names: Vec<&str> =
        ctx.solana_payroll.state.employees.iter().map(|e| e.name.as_str()).collect();
    assert_eq!(names, vec!["Bob", "Cy"]);
    assert_eq!(ctx.solana_payroll.state.id_counter, 3);
    assert_eq!(ctx.admin, admin);
}

#[test]
fn remove_of_an_unknown_id_is_not_found() {
    let account = acme_with_bob_and_ann();
    let before = snapshot(&account);
    let mut ctx = RemoveEmployee { solana_payroll: account, admin: id(1) };
    assert_eq!(remove_employee(&mut ctx, 3), Err(PayrollError::NotFound));
    assert_eq!(remove_employee(&mut ctx, 0), Err(PayrollError::NotFound));
    assert_eq!(snapshot(&ctx.solana_payroll), before);
}

#[test]
fn update_after_remove_is_not_found() {
    let admin = id(1);
    let mut ctx = RemoveEmployee { solana_payroll: acme_with_bob_and_ann(), admin };
    assert_eq!(remove_employee(&mut ctx, 1), Ok(()));
    let mut ctx = UpdateSalary { solana_payroll: ctx.solana_payroll, admin };
    assert_eq!(update_salary(&mut ctx, 1, 9), Err(PayrollError::NotFound));
    let (account, r) = add(ctx.solana_payroll, admin, 1, "Cy", id(13));
    assert_eq!(r, Ok(3));
    let mut ctx = UpdateSalary { solana_payroll: account, admin };
    assert_eq!(update_salary(&mut ctx, 1, 9), Err(PayrollError::NotFound));
    let mut ctx = RemoveEmployee { solana_payroll: ctx.solana_payroll, admin };
    assert_eq!(remove_employee(&mut ctx, 1), Err(PayrollError::NotFound));
}

#[test]
fn update_overwrites_only_the_salary() {
    let mut ctx = UpdateSalary { solana_payroll: acme_with_bob_and_ann(), admin: id(1) };
    assert_eq!(update_salary(&mut ctx, 2, 2500), Ok(()));
    let account = ctx.solana_payroll;
    assert_eq!(
        snapshot(&account).5,
        vec![
            (1, 1000, id(11), String::from("Bob")),
            (2, 2500, id(12), String::from("Ann")),
        ]
    );
    assert_eq!(account.state.id_counter, 2);
    assert_eq!(account.lamports, 10_000);
}

#[test]
fn update_of_an_unknown_id_is_not_found() {
    let account = acme_with_bob_and_ann();
    let before = snapshot(&account);
    let mut ctx = UpdateSalary { solana_payroll: account, admin: id(1) };
    assert_eq!(update_salary(&mut ctx, 7, 1), Err(PayrollError::NotFound));
    assert_eq!(snapshot(&ctx.solana_payroll), before);
}

#[test]
fn a_stranger_is_refused_and_changes_nothing() {
    let stranger = id(2);
    let account = acme_with_bob_and_ann();
    let before = snapshot(&account);

    let (account, r) = add(account, stranger, 1, "Mal", id(66));
    assert_eq!(r, Err(PayrollError::Unauthorized));
    assert_eq!(snapshot(&account), before);

    let mut ctx = RemoveEmployee { solana_payroll: account, admin: stranger };
    assert_eq!(remove_employee(&mut ctx, 1), Err(PayrollError::Unauthorized));
    assert_eq!(remove_employee(&mut ctx, 9), Err(PayrollError::Unauthorized));
    assert_eq!(snapshot(&ctx.solana_payroll), before);

    let mut ctx = UpdateSalary { solana_payroll: ctx.solana_payroll, admin: stranger };
    assert_eq!(update_salary(&mut ctx, 1, 1), Err(PayrollError::Unauthorized));
    assert_eq!(snapshot(&ctx.solana_payroll), before);

    let mut ctx = ProcessPayroll {
        solana_payroll: ctx.solana_payroll,
        admin: stranger,
        employee: Wallet { key: id(11), lamports: 3 },
    };
    assert_eq!(process_payroll(&mut ctx), Err(PayrollError::Unauthorized));
    assert_eq!(snapshot(&ctx.solana_payroll), before);
    assert_eq!(ctx.employee.lamports, 3);

    let mut ctx = CloseSolanaPayroll {
        admin: Wallet { key: stranger, lamports: 4 },
        solana_payroll: ctx.solana_payroll,
    };
    assert_eq!(close(&mut ctx), Err(PayrollError::Unauthorized));
    assert_eq!(snapshot(&ctx.solana_payroll), before);
    assert_eq!(ctx.admin.lamports, 4);
}

#[test]
fn lookup_by_wallet_returns_the_first_match() {
    let admin = id(1);
    let (account, r) = add(acme_with_bob_and_ann(), admin, 3000, "Bob2", id(11));
    assert_eq!(r, Ok(3));
    let found = lookup_by_wallet(&account.state, &id(11)).unwrap();
    assert_eq!(found.employee_id, 1);
    assert_eq!(found.name, "Bob");
    assert_eq!(lookup_by_wallet(&account.state, &id(12)).unwrap().employee_id, 2);
    assert!(lookup_by_wallet(&account.state, &id(99)).is_none());
    assert_eq!(position_of_wallet(&account.state.employees, &id(11)), Some(0));
    assert_eq!(position_of_wallet(&account.state.employees, &id(99)), None);
    assert_eq!(position_of_id(&account.state.employees, 3), Some(2));
    assert_eq!(position_of_id(&account.state.employees, 4), None);
}

#[test]
fn payroll_moves_exactly_the_salary() {
    let account = acme_with_bob_and_ann();
    let records = snapshot(&account).5;
    let mut ctx = ProcessPayroll {
        solana_payroll: account,
        admin: id(1),
        employee: Wallet { key: id(12), lamports: 30 },
    };
    assert_eq!(process_payroll(&mut ctx), Ok(2000));
    assert_eq!(ctx.solana_payroll.lamports, 8_000);
    assert_eq!(ctx.employee.lamports, 2_030);
    assert_eq!(ctx.employee.key, id(12));
    assert_eq!(snapshot(&ctx.solana_payroll).5, records);
    assert_eq!(ctx.solana_payroll.state.id_counter, 2);
}

#[test]
fn payroll_paid_twice_moves_twice_the_salary() {
    let mut ctx = ProcessPayroll {
        solana_payroll: acme_with_bob_and_ann(),
        admin: id(1),
        employee: Wallet { key: id(11), lamports: 0 },
    };
    assert_eq!(process_payroll(&mut ctx), Ok(1000));
    assert_eq!(process_payroll(&mut ctx), Ok(1000));
    assert_eq!(ctx.solana_payroll.lamports, 10_000 - 2 * 1000);
    assert_eq!(ctx.employee.lamports, 2 * 1000);
}

#[test]
fn payroll_to_an_unknown_wallet_is_not_found() {
    let account = acme_with_bob_and_ann();
    let before = snapshot(&account);
    let mut ctx = ProcessPayroll {
        solana_payroll: account,
        admin: id(1),
        employee: Wallet { key: id(99), lamports: 5 },
    };
    assert_eq!(process_payroll(&mut ctx), Err(PayrollError::NotFound));
    assert_eq!(snapshot(&ctx.solana_payroll), before);
    assert_eq!(ctx.employee.lamports, 5);
}

#[test]
fn payroll_fails_when_the_balance_is_short() {
    let mut account = acme_with_bob_and_ann();
    account.lamports = 999;
    let mut ctx = ProcessPayroll {
        solana_payroll: account,
        admin: id(1),
        employee: Wallet { key: id(11), lamports: 5 },
    };
    assert_eq!(process_payroll(&mut ctx), Err(PayrollError::TransferFailure));
    assert_eq!(ctx.solana_payroll.lamports, 999);
    assert_eq!(ctx.employee.lamports, 5);
    ctx.solana_payroll.lamports = 1000;
    assert_eq!(process_payroll(&mut ctx), Ok(1000));
    assert_eq!(ctx.solana_payroll.lamports, 0);
    assert_eq!(ctx.employee.lamports, 1005);
}

#[test]
fn payroll_fails_when_the_wallet_cannot_hold_it() {
    let mut ctx = ProcessPayroll {
        solana_payroll: acme_with_bob_and_ann(),
        admin: id(1),
        employee: Wallet { key: id(11), lamports: u64::MAX - 999 },
    };
    assert_eq!(process_payroll(&mut ctx), Err(PayrollError::TransferFailure));
    assert_eq!(ctx.solana_payroll.lamports, 10_000);
    assert_eq!(ctx.employee.lamports, u64::MAX - 999);
    ctx.employee.lamports = u64::MAX - 1000;
    assert_eq!(process_payroll(&mut ctx), Ok(1000));
    assert_eq!(ctx.employee.lamports, u64::MAX);
}

#[test]
fn close_hands_the_balance_to_the_admin() {
    let mut ctx = CloseSolanaPayroll {
        admin: Wallet { key: id(1), lamports: 25 },
        solana_payroll: acme_with_bob_and_ann(),
    };
    assert_eq!(close(&mut ctx), Ok(10_000));
    assert_eq!(ctx.admin.lamports, 10_025);
    assert_eq!(ctx.admin.key, id(1));
    assert_eq!(ctx.solana_payroll.lamports, 0);
}

#[test]
fn close_fails_when_the_admin_cannot_hold_the_balance() {
    let mut ctx = CloseSolanaPayroll {
        admin: Wallet { key: id(1), lamports: u64::MAX - 9_999 },
        solana_payroll: acme_with_bob_and_ann(),
    };
    assert_eq!(close(&mut ctx), Err(PayrollError::TransferFailure));
    assert_eq!(ctx.admin.lamports, u64::MAX - 9_999);
    assert_eq!(ctx.solana_payroll.lamports, 10_000);
}

fn stored_len(account: &PayrollAccount) -> u64 {
    let mut out: Vec<u8> = vec![0u8; 8];
    account.state.admin.bytes.serialize(&mut out).unwrap();
    account.state.title.serialize(&mut out).unwrap();
    account.state.id_counter.serialize(&mut out).unwrap();
    (account.state.employees.len() as u32).serialize(&mut out).unwrap();
    for record in account.state.employees.iter() {
        record.employee_id.serialize(&mut out).unwrap();
        record.salary.serialize(&mut out).unwrap();
        record.pubkey.bytes.serialize(&mut out).unwrap();
        record.name.serialize(&mut out).unwrap();
    }
    out.len() as u64
}

#[test]
fn encoded_size_is_the_length_of_the_stored_bytes() {
    let admin = id(1);
    let account = registry(admin, "Büro", 0, REGISTRY_SPACE);
    assert_eq!(encoded_size(&account.state, REGISTRY_SPACE), Some(stored_len(&account)));
    assert_eq!(stored_len(&account), 56 + 5);
    let (account, r) = add(account, admin, 1000, "Zoë", id(11));
    assert_eq!(r, Ok(1));
    let (account, r) = add(account, admin, 2000, "", id(12));
    assert_eq!(r, Ok(2));
    assert_eq!(encoded_size(&account.state, REGISTRY_SPACE), Some(stored_len(&account)));
    assert_eq!(stored_len(&account), 56 + 5 + (52 + 4) + 52);
}
