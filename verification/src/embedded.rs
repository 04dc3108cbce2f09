//! The embedded directory: employee records live inline in the registry, in
//! the order in which they were added, and are found by scanning for their id.

use crate::address::text_bytes;
use crate::error::PayrollError;
use crate::guard::require_admin;
use crate::identity::{Identity, Wallet};
use vstd::prelude::*;

verus! {

/// Bytes allotted to a registry when it is created; they bound how many
/// records it can embed.
pub const REGISTRY_SPACE: u64 = 1000008;

/// The bytes of the program under which embedded registries are addressed.
pub const PROGRAM_ID: [u8; 32] = [
    118, 58, 205, 21, 210, 252, 220, 174,
    73, 39, 165, 213, 97, 74, 43, 250,
    115, 200, 4, 195, 182, 192, 168, 136,
    206, 14, 34, 201, 81, 240, 16, 203,
];

/// The program under which embedded registries are addressed.
pub fn program_id() -> (id: Identity)
    ensures
        id.bytes == PROGRAM_ID,
{
    Identity::new(PROGRAM_ID)
}

/// One employee of a registry.
#[derive(Debug)]
pub struct Employee {
    pub employee_id: u64,
    pub salary: u64,
    pub pubkey: Identity,
    pub name: String,
}

/// What an employee record holds.
pub struct EmployeeView {
    pub employee_id: u64,
    pub salary: u64,
    pub pubkey: Seq<u8>,
    pub name: Seq<char>,
}

impl View for Employee {
    type V = EmployeeView;

    open spec fn view(&self) -> EmployeeView {
        EmployeeView {
            employee_id: self.employee_id,
            salary: self.salary,
            pubkey: self.pubkey@,
            name: self.name@,
        }
    }
}

/// The records of a directory, each by its view.
pub open spec fn records_view(records: Seq<Employee>) -> Seq<EmployeeView> {
    Seq::new(records.len(), |i: int| records[i]@)
}

/// The payroll ledger of one (title, admin) pair.
#[derive(Debug)]
pub struct PayrollState {
    pub admin: Identity,
    pub title: String,
    pub id_counter: u64,
    pub employees: Vec<Employee>,
}

/// What a registry holds.
pub struct PayrollStateView {
    pub admin: Seq<u8>,
    pub title: Seq<char>,
    pub id_counter: u64,
    pub employees: Seq<EmployeeView>,
}

impl View for PayrollState {
    type V = PayrollStateView;

    open spec fn view(&self) -> PayrollStateView {
        PayrollStateView {
            admin: self.admin@,
            title: self.title@,
            id_counter: self.id_counter,
            employees: records_view(self.employees@),
        }
    }
}

/// A registry in storage: its balance, its byte budget and its contents.
#[derive(Debug)]
pub struct PayrollAccount {
    pub lamports: u64,
    pub space: u64,
    pub state: PayrollState,
}

/// What a stored registry holds.
pub struct PayrollAccountView {
    pub lamports: u64,
    pub space: u64,
    pub state: PayrollStateView,
}

impl View for PayrollAccount {
    type V = PayrollAccountView;

    open spec fn view(&self) -> PayrollAccountView {
        PayrollAccountView { lamports: self.lamports, space: self.space, state: self.state@ }
    }
}

/// Bytes that one record takes in storage: id, salary, wallet, and the name
/// behind its four-byte length.
pub open spec fn record_len(record: EmployeeView) -> nat {
    8 + 8 + 32 + 4 + text_bytes(record.name).len()
}

/// Bytes that the records take in storage, one after another.
pub open spec fn records_len(records: Seq<EmployeeView>) -> nat
    decreases records.len(),
{
    if records.len() == 0 {
        0
    } else {
        records_len(records.drop_last()) + record_len(records.last())
    }
}

/// Bytes that a registry takes in storage: the header, the admin, the title
/// behind its length, the counter, and the records behind their count.
pub open spec fn encoded_len(state: PayrollStateView) -> nat {
    8 + 32 + 4 + text_bytes(state.title).len() + 8 + 4 + records_len(state.employees)
}

/// Whether some record carries `id`.
pub open spec fn has_id(records: Seq<EmployeeView>, id: u64) -> bool {
    exists|i: int| 0 <= i < records.len() && (#[trigger] records[i]).employee_id == id
}

/// Whether `i` is the place of the first record that carries `id`.
pub open spec fn is_first_with_id(records: Seq<EmployeeView>, id: u64, i: int) -> bool {
    &&& 0 <= i < records.len()
    &&& records[i].employee_id == id
    &&& forall|j: int| 0 <= j < i ==> (#[trigger] records[j]).employee_id != id
}

/// The place of the first record that carries `id`.
pub open spec fn index_of_id(records: Seq<EmployeeView>, id: u64) -> int {
    choose|i: int| is_first_with_id(records, id, i)
}

/// Whether some record is paid to `wallet`.
pub open spec fn has_wallet(records: Seq<EmployeeView>, wallet: Seq<u8>) -> bool {
    exists|i: int| 0 <= i < records.len() && (#[trigger] records[i]).pubkey == wallet
}

/// Whether `i` is the place of the first record that is paid to `wallet`.
pub open spec fn is_first_with_wallet(records: Seq<EmployeeView>, wallet: Seq<u8>, i: int) -> bool {
    &&& 0 <= i < records.len()
    &&& records[i].pubkey == wallet
    &&& forall|j: int| 0 <= j < i ==> (#[trigger] records[j]).pubkey != wallet
}

/// The place of the first record that is paid to `wallet`.
pub open spec fn index_of_wallet(records: Seq<EmployeeView>, wallet: Seq<u8>) -> int {
    choose|i: int| is_first_with_wallet(records, wallet, i)
}

impl PayrollStateView {
    /// Ids were handed out by the counter: each lies between 1 and the
    /// counter, and they increase along the directory, so none occurs twice.
    pub open spec fn wf(self) -> bool {
        &&& forall|i: int|
            0 <= i < self.employees.len() ==> 1 <= (#[trigger] self.employees[i]).employee_id
                <= self.id_counter
        &&& forall|i: int, j: int|
            0 <= i < j < self.employees.len() ==> (#[trigger] self.employees[i]).employee_id < (
            #[trigger] self.employees[j]).employee_id
    }
}

impl PayrollAccountView {
    /// The contents are well formed and fit the byte budget.
    pub open spec fn wf(self) -> bool {
        &&& self.state.wf()
        &&& encoded_len(self.state) <= self.space
    }
}

/// The first place with `id` is the only first place with `id`.
pub proof fn lemma_first_with_id_unique(records: Seq<EmployeeView>, id: u64, i: int)
    requires
        is_first_with_id(records, id, i),
    ensures
        has_id(records, id),
        index_of_id(records, id) == i,
{
    let k = index_of_id(records, id);
    assert(is_first_with_id(records, id, k));
    if k < i {
        assert(records[k].employee_id != id);
    } else if i < k {
        assert(records[i].employee_id != id);
    }
}

/// The first place with `wallet` is the only first place with `wallet`.
pub proof fn lemma_first_with_wallet_unique(records: Seq<EmployeeView>, wallet: Seq<u8>, i: int)
    requires
        is_first_with_wallet(records, wallet, i),
    ensures
        has_wallet(records, wallet),
        index_of_wallet(records, wallet) == i,
{
    let k = index_of_wallet(records, wallet);
    assert(is_first_with_wallet(records, wallet, k));
    if k < i {
        assert(records[k].pubkey != wallet);
    } else if i < k {
        assert(records[i].pubkey != wallet);
    }
}

/// A prefix of the records takes no more bytes than all of them.
pub proof fn lemma_records_len_prefix(records: Seq<EmployeeView>, k: int)
    requires
        0 <= k <= records.len(),
    ensures
        records_len(records.take(k)) <= records_len(records),
    decreases records.len(),
{
    if k == records.len() {
        assert(records.take(k) =~= records);
    } else {
        assert(records.drop_last().take(k) =~= records.take(k));
        lemma_records_len_prefix(records.drop_last(), k);
    }
}

/// Appending a record adds its bytes.
pub proof fn lemma_records_len_push(records: Seq<EmployeeView>, record: EmployeeView)
    ensures
        records_len(records.push(record)) == records_len(records) + record_len(record),
{
    assert(records.push(record).drop_last() =~= records);
}

/// Taking a record out frees its bytes.
pub proof fn lemma_records_len_remove(records: Seq<EmployeeView>, i: int)
    requires
        0 <= i < records.len(),
    ensures
        records_len(records.remove(i)) + record_len(records[i]) == records_len(records),
    decreases records.len(),
{
    if i == records.len() - 1 {
        assert(records.remove(i) =~= records.drop_last());
    } else {
        assert(records.remove(i).drop_last() =~= records.drop_last().remove(i));
        assert(records.remove(i).last() == records.last());
        lemma_records_len_remove(records.drop_last(), i);
    }
}

/// Changing a salary changes no record's size.
pub proof fn lemma_records_len_update(records: Seq<EmployeeView>, i: int, record: EmployeeView)
    requires
        0 <= i < records.len(),
        record.name == records[i].name,
    ensures
        records_len(records.update(i, record)) == records_len(records),
    decreases records.len(),
{
    if i == records.len() - 1 {
        assert(records.update(i, record).drop_last() =~= records.drop_last());
    } else {
        assert(records.update(i, record).drop_last() =~= records.drop_last().update(i, record));
        lemma_records_len_update(records.drop_last(), i, record);
    }
}

/// The bytes that `state` takes in storage, where they are at most `limit`.
pub fn encoded_size(state: &PayrollState, limit: u64) -> (size: Option<u64>)
    ensures
        match size {
            Some(n) => n == encoded_len(state@) && n <= limit,
            None => encoded_len(state@) > limit,
        },
{
    let ghost records = state@.employees;
    let title_len: usize = state.title.as_str().as_bytes().len();
    let fixed: u128 = 56 + title_len as u128;
    if fixed > limit as u128 {
        return None;
    }
    let mut total: u64 = fixed as u64;
    let mut i: usize = 0;
    assert(records.take(0) =~= Seq::<EmployeeView>::empty());
    while i < state.employees.len()
        invariant
            i <= state.employees.len(),
            records == state@.employees,
            total == 56 + text_bytes(state@.title).len() + records_len(records.take(i as int)),
            total <= limit,
        decreases state.employees.len() - i,
    {
        let name_len: usize = state.employees[i].name.as_str().as_bytes().len();
        let next: u128 = total as u128 + 52 + name_len as u128;
        proof {
            assert(records.take(i + 1).drop_last() =~= records.take(i as int));
            assert(records.take(i + 1).last() == state.employees@[i as int]@);
            lemma_records_len_prefix(records, i + 1);
        }
        if next > limit as u128 {
            return None;
        }
        total = next as u64;
        i += 1;
    }
    assert(records.take(i as int) =~= records);
    Some(total)
}

/// The accounts of `initialize_payroll`: the freshly allotted registry and
/// the admin who creates it.
#[derive(Debug)]
pub struct InitializeSolanaPayroll {
    pub solana_payroll: PayrollAccount,
    pub admin: Identity,
}

/// The accounts of `add_employee`: the registry, the caller, and the wallet
/// of the employee to add.
#[derive(Debug)]
pub struct AddEmployee {
    pub solana_payroll: PayrollAccount,
    pub admin: Identity,
    pub employee: Identity,
}

/// The accounts of `remove_employee`: the registry and the caller.
#[derive(Debug)]
pub struct RemoveEmployee {
    pub solana_payroll: PayrollAccount,
    pub admin: Identity,
}

/// The accounts of `update_salary`: the registry and the caller.
#[derive(Debug)]
pub struct UpdateSalary {
    pub solana_payroll: PayrollAccount,
    pub admin: Identity,
}

/// The accounts of `process_payroll`: the registry, the caller, and the
/// wallet to pay.
#[derive(Debug)]
pub struct ProcessPayroll {
    pub solana_payroll: PayrollAccount,
    pub admin: Identity,
    pub employee: Wallet,
}

/// The accounts of `close`: the caller, who receives the balance, and the
/// registry to close.
#[derive(Debug)]
pub struct CloseSolanaPayroll {
    pub admin: Wallet,
    pub solana_payroll: PayrollAccount,
}

/// A registry as `initialize_payroll` leaves it.
pub open spec fn fresh_state(admin: Seq<u8>, title: Seq<char>) -> PayrollStateView {
    PayrollStateView { admin, title, id_counter: 0, employees: Seq::empty() }
}

/// What `initialize_payroll` makes of an allotted account: the account after
/// the call, and the call's result.
pub open spec fn initialize_payroll_spec(
    account: PayrollAccountView,
    admin: Seq<u8>,
    title: Seq<char>,
) -> (PayrollAccountView, Result<(), PayrollError>) {
    if encoded_len(fresh_state(admin, title)) > account.space {
        (account, Err(PayrollError::CapacityExceeded))
    } else {
        (PayrollAccountView { state: fresh_state(admin, title), ..account }, Ok(()))
    }
}

/// Sets up a registry in its allotted account: `admin` and `title` as given,
/// the counter at zero, the directory empty. Fails with `CapacityExceeded`,
/// and leaves the account as it was, where not even that fits the budget.
pub fn initialize_payroll(ctx: &mut InitializeSolanaPayroll, title: String) -> (r: Result<
    (),
    PayrollError,
>)
    ensures
        final(ctx).admin == old(ctx).admin,
        (final(ctx).solana_payroll@, r) == initialize_payroll_spec(
            old(ctx).solana_payroll@,
            old(ctx).admin@,
            title@,
        ),
        r is Ok ==> final(ctx).solana_payroll@.wf(),
{
    let title_len: usize = title.as_str().as_bytes().len();
    if 56 + title_len as u128 > ctx.solana_payroll.space as u128 {
        return Err(PayrollError::CapacityExceeded);
    }
    ctx.solana_payroll.state.admin = ctx.admin;
    ctx.solana_payroll.state.title = title;
    ctx.solana_payroll.state.id_counter = 0;
    ctx.solana_payroll.state.employees = Vec::new();
    assert(ctx.solana_payroll.state@.employees =~= Seq::<EmployeeView>::empty());
    assert(ctx.solana_payroll.state@ == fresh_state(old(ctx).admin@, title@));
    Ok(())
}

/// The record that `add_employee` appends.
pub open spec fn new_record(id: u64, salary: u64, name: Seq<char>, wallet: Seq<u8>) -> EmployeeView {
    EmployeeView { employee_id: id, salary, pubkey: wallet, name }
}

/// What `add_employee` makes of a registry: the account after the call, and
/// the id it assigned or the reason it refused.
pub open spec fn add_employee_spec(
    account: PayrollAccountView,
    caller: Seq<u8>,
    salary: u64,
    name: Seq<char>,
    wallet: Seq<u8>,
) -> (PayrollAccountView, Result<u64, PayrollError>) {
    let id = (account.state.id_counter + 1) as u64;
    let record = new_record(id, salary, name, wallet);
    if caller != account.state.admin {
        (account, Err(PayrollError::Unauthorized))
    } else if account.state.id_counter == u64::MAX {
        (account, Err(PayrollError::CapacityExceeded))
    } else if encoded_len(account.state) + record_len(record) > account.space {
        (account, Err(PayrollError::CapacityExceeded))
    } else {
        (
            PayrollAccountView {
                state: PayrollStateView {
                    id_counter: id,
                    employees: account.state.employees.push(record),
                    ..account.state
                },
                ..account
            },
            Ok(id),
        )
    }
}

/// Adds an employee: the counter goes up by one, its new value is the
/// employee's id, and the record is appended to the directory. Only the admin
/// may add. Where the counter is spent or the record would not fit the byte
/// budget the call fails with `CapacityExceeded`. A failed call leaves the
/// registry as it was.
pub fn add_employee(ctx: &mut AddEmployee, salary: u64, name: String) -> (r: Result<
    u64,
    PayrollError,
>)
    ensures
        final(ctx).admin == old(ctx).admin,
        final(ctx).employee == old(ctx).employee,
        (final(ctx).solana_payroll@, r) == add_employee_spec(
            old(ctx).solana_payroll@,
            old(ctx).admin@,
            salary,
            name@,
            old(ctx).employee@,
        ),
        old(ctx).solana_payroll@.wf() ==> final(ctx).solana_payroll@.wf(),
{
    let ghost before = ctx.solana_payroll@;
    if require_admin(&ctx.solana_payroll.state.admin, &ctx.admin).is_err() {
        return Err(PayrollError::Unauthorized);
    }
    if ctx.solana_payroll.state.id_counter == u64::MAX {
        return Err(PayrollError::CapacityExceeded);
    }
    let id: u64 = ctx.solana_payroll.state.id_counter + 1;
    let ghost record = new_record(id, salary, name@, ctx.employee@);
    let name_len: usize = name.as_str().as_bytes().len();
    let fits = match encoded_size(&ctx.solana_payroll.state, ctx.solana_payroll.space) {
        Some(size) => size as u128 + 52 + name_len as u128 <= ctx.solana_payroll.space as u128,
        None => false,
    };
    if !fits {
        return Err(PayrollError::CapacityExceeded);
    }
    ctx.solana_payroll.state.id_counter = id;
    ctx.solana_payroll.state.employees.push(
        Employee { employee_id: id, salary, pubkey: ctx.employee, name },
    );
    proof {
        assert(ctx.solana_payroll.state@.employees =~= before.state.employees.push(record));
        lemma_records_len_push(before.state.employees, record);
    }
    Ok(id)
}

/// Finds the first record that carries `id`.
pub fn position_of_id(records: &Vec<Employee>, id: u64) -> (found: Option<usize>)
    ensures
        found is Some == has_id(records_view(records@), id),
        found matches Some(i) ==> i == index_of_id(records_view(records@), id)
            && is_first_with_id(records_view(records@), id, i as int),
{
    let ghost view = records_view(records@);
    let mut i: usize = 0;
    while i < records.len()
        invariant
            i <= records.len(),
            view == records_view(records@),
            forall|j: int| 0 <= j < i ==> (#[trigger] view[j]).employee_id != id,
        decreases records.len() - i,
    {
        if records[i].employee_id == id {
            proof {
                assert(view[i as int] == records@[i as int]@);
                lemma_first_with_id_unique(view, id, i as int);
            }
            return Some(i);
        }
        assert(view[i as int] == records@[i as int]@);
        i += 1;
    }
    None
}

/// Finds the first record that is paid to `wallet`.
pub fn position_of_wallet(records: &Vec<Employee>, wallet: &Identity) -> (found: Option<usize>)
    ensures
        found is Some == has_wallet(records_view(records@), wallet@),
        found matches Some(i) ==> i == index_of_wallet(records_view(records@), wallet@)
            && is_first_with_wallet(records_view(records@), wallet@, i as int),
{
    let ghost view = records_view(records@);
    let mut i: usize = 0;
    while i < records.len()
        invariant
            i <= records.len(),
            view == records_view(records@),
            forall|j: int| 0 <= j < i ==> (#[trigger] view[j]).pubkey != wallet@,
        decreases records.len() - i,
    {
        if records[i].pubkey.same(wallet) {
            proof {
                assert(view[i as int] == records@[i as int]@);
                lemma_first_with_wallet_unique(view, wallet@, i as int);
            }
            return Some(i);
        }
        assert(view[i as int] == records@[i as int]@);
        i += 1;
    }
    None
}

/// The first record of `state` that is paid to `wallet`, if there is one.
pub fn lookup_by_wallet<'a>(state: &'a PayrollState, wallet: &Identity) -> (found: Option<
    &'a Employee,
>)
    ensures
        found is Some == has_wallet(state@.employees, wallet@),
        found matches Some(record) ==> record@ == state@.employees[index_of_wallet(
            state@.employees,
            wallet@,
        )],
{
    match position_of_wallet(&state.employees, wallet) {
        Some(i) => Some(&state.employees[i]),
        None => None,
    }
}

/// What `remove_employee` makes of a registry.
pub open spec fn remove_employee_spec(account: PayrollAccountView, caller: Seq<u8>, id: u64) -> (
    PayrollAccountView,
    Result<(), PayrollError>,
) {
    if caller != account.state.admin {
        (account, Err(PayrollError::Unauthorized))
    } else if !has_id(account.state.employees, id) {
        (account, Err(PayrollError::NotFound))
    } else {
        (
            PayrollAccountView {
                state: PayrollStateView {
                    employees: account.state.employees.remove(
                        index_of_id(account.state.employees, id),
                    ),
                    ..account.state
                },
                ..account
            },
            Ok(()),
        )
    }
}

/// Removes the record that carries `employee_id`; the others keep their
/// order. Only the admin may remove. Fails with `NotFound` where no record
/// carries the id. The counter stays, so the id is never assigned again.
pub fn remove_employee(ctx: &mut RemoveEmployee, employee_id: u64) -> (r: Result<
    (),
    PayrollError,
>)
    ensures
        final(ctx).admin == old(ctx).admin,
        (final(ctx).solana_payroll@, r) == remove_employee_spec(
            old(ctx).solana_payroll@,
            old(ctx).admin@,
            employee_id,
        ),
        old(ctx).solana_payroll@.wf() ==> final(ctx).solana_payroll@.wf(),
{
    let ghost before = ctx.solana_payroll@;
    if require_admin(&ctx.solana_payroll.state.admin, &ctx.admin).is_err() {
        return Err(PayrollError::Unauthorized);
    }
    match position_of_id(&ctx.solana_payroll.state.employees, employee_id) {
        Some(index) => {
            ctx.solana_payroll.state.employees.remove(index);
            proof {
                assert(ctx.solana_payroll.state@.employees =~= before.state.employees.remove(
                    index as int,
                ));
                lemma_records_len_remove(before.state.employees, index as int);
            }
            Ok(())
        },
        None => Err(PayrollError::NotFound),
    }
}

/// The record `record` with its salary set to `salary`.
pub open spec fn with_salary(record: EmployeeView, salary: u64) -> EmployeeView {
    EmployeeView { salary, ..record }
}

/// What `update_salary` makes of a registry.
pub open spec fn update_salary_spec(
    account: PayrollAccountView,
    caller: Seq<u8>,
    id: u64,
    salary: u64,
) -> (PayrollAccountView, Result<(), PayrollError>) {
    let i = index_of_id(account.state.employees, id);
    if caller != account.state.admin {
        (account, Err(PayrollError::Unauthorized))
    } else if !has_id(account.state.employees, id) {
        (account, Err(PayrollError::NotFound))
    } else {
        (
            PayrollAccountView {
                state: PayrollStateView {
                    employees: account.state.employees.update(
                        i,
                        with_salary(account.state.employees[i], salary),
                    ),
                    ..account.state
                },
                ..account
            },
            Ok(()),
        )
    }
}

/// Overwrites the salary of the record that carries `employee_id`; its id,
/// name and wallet stay, and so does every other record. Only the admin may
/// update. Fails with `NotFound` where no record carries the id.
pub fn update_salary(ctx: &mut UpdateSalary, employee_id: u64, new_salary: u64) -> (r: Result<
    (),
    PayrollError,
>)
    ensures
        final(ctx).admin == old(ctx).admin,
        (final(ctx).solana_payroll@, r) == update_salary_spec(
            old(ctx).solana_payroll@,
            old(ctx).admin@,
            employee_id,
            new_salary,
        ),
        old(ctx).solana_payroll@.wf() ==> final(ctx).solana_payroll@.wf(),
{
    let ghost before = ctx.solana_payroll@;
    if require_admin(&ctx.solana_payroll.state.admin, &ctx.admin).is_err() {
        return Err(PayrollError::Unauthorized);
    }
    match position_of_id(&ctx.solana_payroll.state.employees, employee_id) {
        Some(index) => {
            let mut record = ctx.solana_payroll.state.employees.remove(index);
            record.salary = new_salary;
            ctx.solana_payroll.state.employees.insert(index, record);
            proof {
                let changed = with_salary(before.state.employees[index as int], new_salary);
                assert(ctx.solana_payroll.state@.employees =~= before.state.employees.update(
                    index as int,
                    changed,
                ));
                lemma_records_len_update(before.state.employees, index as int, changed);
            }
            Ok(())
        },
        None => Err(PayrollError::NotFound),
    }
}

/// What `process_payroll` makes of a registry and of the wallet to pay: the
/// account after the call, the wallet's balance after it, and the amount
/// moved or the reason that none was.
pub open spec fn process_payroll_spec(
    account: PayrollAccountView,
    caller: Seq<u8>,
    wallet: Seq<u8>,
    wallet_lamports: u64,
) -> (PayrollAccountView, u64, Result<u64, PayrollError>) {
    let salary = account.state.employees[index_of_wallet(account.state.employees, wallet)].salary;
    if caller != account.state.admin {
        (account, wallet_lamports, Err(PayrollError::Unauthorized))
    } else if !has_wallet(account.state.employees, wallet) {
        (account, wallet_lamports, Err(PayrollError::NotFound))
    } else if salary > account.lamports || wallet_lamports + salary > u64::MAX {
        (account, wallet_lamports, Err(PayrollError::TransferFailure))
    } else {
        (
            PayrollAccountView { lamports: (account.lamports - salary) as u64, ..account },
            (wallet_lamports + salary) as u64,
            Ok(salary),
        )
    }
}

/// Pays one employee: moves exactly the salary of the first record paid to
/// the wallet from the registry's balance to that wallet, and returns the
/// amount. The directory is not touched, and nothing marks the employee as
/// paid: a second call pays again. Only the admin may pay: the caller is
/// held against the admin recorded in the registry, not against whoever owns
/// the registry's storage. Fails with
/// `NotFound` where no record is paid to the wallet, with `TransferFailure`
/// where the balance does not cover the salary or the wallet cannot hold it.
pub fn process_payroll(ctx: &mut ProcessPayroll) -> (r: Result<u64, PayrollError>)
    ensures
        final(ctx).admin == old(ctx).admin,
        final(ctx).employee.key == old(ctx).employee.key,
        (final(ctx).solana_payroll@, final(ctx).employee.lamports, r) == process_payroll_spec(
            old(ctx).solana_payroll@,
            old(ctx).admin@,
            old(ctx).employee.key@,
            old(ctx).employee.lamports,
        ),
        old(ctx).solana_payroll@.wf() ==> final(ctx).solana_payroll@.wf(),
{
    if require_admin(&ctx.solana_payroll.state.admin, &ctx.admin).is_err() {
        return Err(PayrollError::Unauthorized);
    }
    let salary: u64 = match lookup_by_wallet(&ctx.solana_payroll.state, &ctx.employee.key) {
        Some(record) => record.salary,
        None => {
            return Err(PayrollError::NotFound);
        },
    };
    if salary > ctx.solana_payroll.lamports {
        return Err(PayrollError::TransferFailure);
    }
    let credited: u64 = match ctx.employee.lamports.checked_add(salary) {
        Some(sum) => sum,
        None => {
            return Err(PayrollError::TransferFailure);
        },
    };
    ctx.solana_payroll.lamports = ctx.solana_payroll.lamports - salary;
    ctx.employee.lamports = credited;
    Ok(salary)
}

/// What `close` makes of a registry and of its admin's balance: the account
/// after the call, the admin's balance after it, and the amount reclaimed or
/// the reason that none was.
pub open spec fn close_spec(account: PayrollAccountView, caller: Seq<u8>, caller_lamports: u64) -> (
    PayrollAccountView,
    u64,
    Result<u64, PayrollError>,
) {
    if caller != account.state.admin {
        (account, caller_lamports, Err(PayrollError::Unauthorized))
    } else if caller_lamports + account.lamports > u64::MAX {
        (account, caller_lamports, Err(PayrollError::TransferFailure))
    } else {
        (
            PayrollAccountView { lamports: 0, ..account },
            (caller_lamports + account.lamports) as u64,
            Ok(account.lamports),
        )
    }
}

/// Closes a registry: its whole balance goes to the admin, and the amount is
/// returned; the storage is then the host's to release. Only the admin may
/// close. Fails with `TransferFailure` where the admin cannot hold the
/// balance.
pub fn close(ctx: &mut CloseSolanaPayroll) -> (r: Result<u64, PayrollError>)
    ensures
        final(ctx).admin.key == old(ctx).admin.key,
        (final(ctx).solana_payroll@, final(ctx).admin.lamports, r) == close_spec(
            old(ctx).solana_payroll@,
            old(ctx).admin.key@,
            old(ctx).admin.lamports,
        ),
{
    if require_admin(&ctx.solana_payroll.state.admin, &ctx.admin.key).is_err() {
        return Err(PayrollError::Unauthorized);
    }
    let reclaimed: u64 = ctx.solana_payroll.lamports;
    let credited: u64 = match ctx.admin.lamports.checked_add(reclaimed) {
        Some(sum) => sum,
        None => {
            return Err(PayrollError::TransferFailure);
        },
    };
    ctx.solana_payroll.lamports = 0;
    ctx.admin.lamports = credited;
    Ok(reclaimed)
}

} // verus!
