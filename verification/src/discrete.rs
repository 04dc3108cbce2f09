//! The discrete directory: every employee has an entry of its own in
//! storage, at the address derived from the employee's name and the
//! registry's counter as it stood when the entry was created. The registry
//! itself keeps only a list of raw wallets.

use crate::error::PayrollError;
use crate::guard::require_admin;
use crate::identity::{Identity, Wallet};
use vstd::prelude::*;

verus! {

/// The bytes of the program under which discrete registries and their entries are addressed.
pub const PROGRAM_ID: [u8; 32] = [
    122, 4, 47, 220, 81, 151, 179, 57,
    186, 235, 206, 123, 73, 180, 207, 236,
    149, 13, 197, 49, 86, 36, 148, 137,
    191, 142, 195, 227, 119, 105, 221, 238,
];

/// The program under which discrete registries and their entries are addressed.
pub fn program_id() -> (id: Identity)
    ensures
        id.bytes == PROGRAM_ID,
{
    Identity::new(PROGRAM_ID)
}

/// One employee, in an entry of its own.
#[derive(Debug)]
pub struct Employee {
    pub employee_id: u32,
    pub salary: u64,
    pub name: String,
    pub pubkey: Identity,
}

/// What an employee entry holds.
pub struct EmployeeView {
    pub employee_id: u32,
    pub salary: u64,
    pub name: Seq<char>,
    pub pubkey: Seq<u8>,
}

impl View for Employee {
    type V = EmployeeView;

    open spec fn view(&self) -> EmployeeView {
        EmployeeView {
            employee_id: self.employee_id,
            salary: self.salary,
            name: self.name@,
            pubkey: self.pubkey@,
        }
    }
}

/// The wallets of a list, each by its bytes.
pub open spec fn wallets_view(wallets: Seq<Identity>) -> Seq<Seq<u8>> {
    Seq::new(wallets.len(), |i: int| wallets[i]@)
}

/// The payroll ledger of one (title, admin) pair.
#[derive(Debug)]
pub struct PayrollState {
    pub id_counter: u32,
    pub admin: Identity,
    pub title: String,
    pub employees: Vec<Identity>,
}

/// What a registry holds.
pub struct PayrollStateView {
    pub id_counter: u32,
    pub admin: Seq<u8>,
    pub title: Seq<char>,
    pub employees: Seq<Seq<u8>>,
}

impl View for PayrollState {
    type V = PayrollStateView;

    open spec fn view(&self) -> PayrollStateView {
        PayrollStateView {
            id_counter: self.id_counter,
            admin: self.admin@,
            title: self.title@,
            employees: wallets_view(self.employees@),
        }
    }
}

/// A registry in storage: its balance and its contents.
#[derive(Debug)]
pub struct PayrollAccount {
    pub lamports: u64,
    pub state: PayrollState,
}

/// What a stored registry holds.
pub struct PayrollAccountView {
    pub lamports: u64,
    pub state: PayrollStateView,
}

impl View for PayrollAccount {
    type V = PayrollAccountView;

    open spec fn view(&self) -> PayrollAccountView {
        PayrollAccountView { lamports: self.lamports, state: self.state@ }
    }
}

/// An employee entry in storage: the balance that holds its allocation, and
/// the record.
#[derive(Debug)]
pub struct EmployeeAccount {
    pub lamports: u64,
    pub state: Employee,
}

/// What a stored employee entry holds.
pub struct EmployeeAccountView {
    pub lamports: u64,
    pub state: EmployeeView,
}

impl View for EmployeeAccount {
    type V = EmployeeAccountView;

    open spec fn view(&self) -> EmployeeAccountView {
        EmployeeAccountView { lamports: self.lamports, state: self.state@ }
    }
}

/// The wallets without any occurrence of `wallet`, the others in their order.
pub open spec fn scrubbed(wallets: Seq<Seq<u8>>, wallet: Seq<u8>) -> Seq<Seq<u8>>
    decreases wallets.len(),
{
    if wallets.len() == 0 {
        wallets
    } else if wallets.last() == wallet {
        scrubbed(wallets.drop_last(), wallet)
    } else {
        scrubbed(wallets.drop_last(), wallet).push(wallets.last())
    }
}

/// Removes every occurrence of `wallet` from `wallets`: all of them, not
/// only the first. The others keep their order.
pub fn scrub_wallet(wallets: &mut Vec<Identity>, wallet: &Identity)
    ensures
        wallets_view(final(wallets)@) == scrubbed(wallets_view(old(wallets)@), wallet@),
{
    let ghost before = wallets_view(wallets@);
    let ghost mut k: int = 0;
    let mut i: usize = 0;
    assert(before.take(0) =~= Seq::<Seq<u8>>::empty());
    assert(wallets_view(wallets@) =~= scrubbed(before.take(0), wallet@) + before.skip(0));
    while i < wallets.len()
        invariant
            0 <= k <= before.len(),
            i <= wallets.len(),
            wallets_view(wallets@) == scrubbed(before.take(k), wallet@) + before.skip(k),
            i == scrubbed(before.take(k), wallet@).len(),
        decreases wallets.len() - i,
    {
        let ghost kept = scrubbed(before.take(k), wallet@);
        let ghost now = wallets_view(wallets@);
        proof {
            assert(now.len() == wallets@.len());
            assert(k < before.len());
            assert(now[i as int] == before.skip(k)[0]);
            assert(wallets@[i as int]@ == before[k]);
            assert(before.take(k + 1).drop_last() =~= before.take(k));
            assert(before.take(k + 1).last() == before[k]);
        }
        if wallets[i].same(wallet) {
            wallets.remove(i);
            proof {
                assert(wallets_view(wallets@) =~= now.remove(i as int));
                assert(now.remove(i as int) =~= kept + before.skip(k + 1));
                k = k + 1;
            }
        } else {
            i += 1;
            proof {
                assert(now =~= kept.push(before[k]) + before.skip(k + 1));
                k = k + 1;
            }
        }
    }
    proof {
        assert(wallets_view(wallets@).len() == wallets@.len());
        assert(k == before.len());
        assert(before.take(k) =~= before);
        assert(wallets_view(wallets@) =~= scrubbed(before, wallet@));
    }
}

/// The accounts of `initialize_payroll`: the freshly allotted registry and
/// the admin who creates it.
#[derive(Debug)]
pub struct InitializeSolanaPayroll {
    pub solana_payroll: PayrollAccount,
    pub admin: Identity,
}

/// The accounts of `add_employee`: the freshly allotted entry, the registry
/// and the caller.
#[derive(Debug)]
pub struct AddEmployee {
    pub employee: EmployeeAccount,
    pub solana_payroll: PayrollAccount,
    pub admin: Identity,
}

/// The accounts of `close_payroll_account`: the caller, who receives the
/// balance, and the registry to close.
#[derive(Debug)]
pub struct CloseSolanaPayroll {
    pub admin: Wallet,
    pub solana_payroll: PayrollAccount,
}

/// The accounts of `remove_employee`: the caller, who receives what the
/// entry's storage held, the entry, and the registry.
#[derive(Debug)]
pub struct RemoveEmployee {
    pub admin: Wallet,
    pub employee: EmployeeAccount,
    pub solana_payroll: PayrollAccount,
}

/// The accounts of `update_salary`: the entry, the registry and the caller.
#[derive(Debug)]
pub struct UpdateSalary {
    pub employee: EmployeeAccount,
    pub solana_payroll: PayrollAccount,
    pub admin: Identity,
}

/// A registry as `initialize_payroll` leaves it.
pub open spec fn fresh_state(admin: Seq<u8>, title: Seq<char>) -> PayrollStateView {
    PayrollStateView { id_counter: 0, admin, title, employees: Seq::empty() }
}

/// Sets up a registry in its allotted account: `admin` and `title` as given,
/// the counter at zero, the wallet list empty. It always succeeds.
pub fn initialize_payroll(ctx: &mut InitializeSolanaPayroll, title: String) -> (r: Result<
    (),
    PayrollError,
>)
    ensures
        r == Ok::<(), PayrollError>(()),
        final(ctx).admin == old(ctx).admin,
        final(ctx).solana_payroll@ == (PayrollAccountView {
            lamports: old(ctx).solana_payroll.lamports,
            state: fresh_state(old(ctx).admin@, title@),
        }),
{
    ctx.solana_payroll.state.id_counter = 0;
    ctx.solana_payroll.state.title = title;
    ctx.solana_payroll.state.employees = Vec::new();
    ctx.solana_payroll.state.admin = ctx.admin;
    assert(ctx.solana_payroll.state@.employees =~= Seq::<Seq<u8>>::empty());
    Ok(())
}

/// What `add_employee` makes of a registry and of the allotted entry: the
/// two after the call, and the id assigned or the reason that none was.
pub open spec fn add_employee_spec(
    registry: PayrollAccountView,
    entry: EmployeeAccountView,
    caller: Seq<u8>,
    salary: u64,
    name: Seq<char>,
    wallet: Seq<u8>,
) -> (PayrollAccountView, EmployeeAccountView, Result<u32, PayrollError>) {
    let id = (registry.state.id_counter + 1) as u32;
    if caller != registry.state.admin {
        (registry, entry, Err(PayrollError::Unauthorized))
    } else if registry.state.id_counter == u32::MAX {
        (registry, entry, Err(PayrollError::CapacityExceeded))
    } else {
        (
            PayrollAccountView {
                state: PayrollStateView { id_counter: id, ..registry.state },
                ..registry
            },
            EmployeeAccountView {
                state: EmployeeView { employee_id: id, salary, name, pubkey: wallet },
                ..entry
            },
            Ok(id),
        )
    }
}

/// Adds an employee: the registry's counter goes up by one, its new value is
/// the employee's id, and the record is written into the allotted entry. Only
/// the admin may add. Fails with `CapacityExceeded` where the counter is
/// spent. A failed call leaves registry and entry as they were.
pub fn add_employee(ctx: &mut AddEmployee, salary: u64, name: String, wallet: Identity) -> (r:
    Result<u32, PayrollError>)
    ensures
        final(ctx).admin == old(ctx).admin,
        (final(ctx).solana_payroll@, final(ctx).employee@, r) == add_employee_spec(
            old(ctx).solana_payroll@,
            old(ctx).employee@,
            old(ctx).admin@,
            salary,
            name@,
            wallet@,
        ),
{
    if require_admin(&ctx.solana_payroll.state.admin, &ctx.admin).is_err() {
        return Err(PayrollError::Unauthorized);
    }
    if ctx.solana_payroll.state.id_counter == u32::MAX {
        return Err(PayrollError::CapacityExceeded);
    }
    ctx.solana_payroll.state.id_counter = ctx.solana_payroll.state.id_counter + 1;
    let employee_id: u32 = ctx.solana_payroll.state.id_counter;
    ctx.employee.state.employee_id = employee_id;
    ctx.employee.state.salary = salary;
    ctx.employee.state.name = name;
    ctx.employee.state.pubkey = wallet;
    Ok(employee_id)
}

/// What `update_salary` makes of an entry.
pub open spec fn update_salary_spec(
    registry: PayrollAccountView,
    entry: EmployeeAccountView,
    caller: Seq<u8>,
    salary: u64,
) -> (EmployeeAccountView, Result<(), PayrollError>) {
    if caller != registry.state.admin {
        (entry, Err(PayrollError::Unauthorized))
    } else {
        (EmployeeAccountView { state: EmployeeView { salary, ..entry.state }, ..entry }, Ok(()))
    }
}

/// Overwrites the salary in the entry; its id, name and wallet stay, and so
/// does the registry. Only the admin may update.
pub fn update_salary(ctx: &mut UpdateSalary, new_salary: u64) -> (r: Result<(), PayrollError>)
    ensures
        final(ctx).admin == old(ctx).admin,
        final(ctx).solana_payroll@ == old(ctx).solana_payroll@,
        (final(ctx).employee@, r) == update_salary_spec(
            old(ctx).solana_payroll@,
            old(ctx).employee@,
            old(ctx).admin@,
            new_salary,
        ),
{
    if require_admin(&ctx.solana_payroll.state.admin, &ctx.admin).is_err() {
        return Err(PayrollError::Unauthorized);
    }
    ctx.employee.state.salary = new_salary;
    Ok(())
}

/// What `close_payroll_account` makes of a registry and of its admin's
/// balance.
pub open spec fn close_spec(registry: PayrollAccountView, caller: Seq<u8>, caller_lamports: u64) -> (
    PayrollAccountView,
    u64,
    Result<u64, PayrollError>,
) {
    if caller != registry.state.admin {
        (registry, caller_lamports, Err(PayrollError::Unauthorized))
    } else if caller_lamports + registry.lamports > u64::MAX {
        (registry, caller_lamports, Err(PayrollError::TransferFailure))
    } else {
        (
            PayrollAccountView { lamports: 0, ..registry },
            (caller_lamports + registry.lamports) as u64,
            Ok(registry.lamports),
        )
    }
}

/// Closes a registry: its whole balance goes to the admin, and the amount is
/// returned; the storage is then the host's to release. Only the admin may
/// close. Fails with `TransferFailure` where the admin cannot hold the
/// balance.
pub fn close_payroll_account(ctx: &mut CloseSolanaPayroll) -> (r: Result<u64, PayrollError>)
    ensures
        final(ctx).admin.key == old(ctx).admin.key,
        (final(ctx).solana_payroll@, final(ctx).admin.lamports, r) == close_spec(
            old(ctx).solana_payroll@,
            old(ctx).admin.key@,
            old(ctx).admin.lamports,
        ),
{
    if require_admin(&ctx.solana_payroll.state.admin, &ctx.admin.key).is_err() {
        return Err(PayrollError::Unauthorized);
    }
    let reclaimed: u64 = ctx.solana_payroll.lamports;
    let credited: u64 = match ctx.admin.lamports.checked_add(reclaimed) {
        Some(sum) => sum,
        None => {
            return Err(PayrollError::TransferFailure);
        },
    };
    ctx.solana_payroll.lamports = 0;
    ctx.admin.lamports = credited;
    Ok(reclaimed)
}

/// What `remove_employee` makes of a registry, of the entry and of the
/// admin's balance.
pub open spec fn remove_employee_spec(
    registry: PayrollAccountView,
    entry: EmployeeAccountView,
    caller: Seq<u8>,
    caller_lamports: u64,
) -> (PayrollAccountView, EmployeeAccountView, u64, Result<(), PayrollError>) {
    if caller != registry.state.admin {
        (registry, entry, caller_lamports, Err(PayrollError::Unauthorized))
    } else if caller_lamports + entry.lamports > u64::MAX {
        (registry, entry, caller_lamports, Err(PayrollError::TransferFailure))
    } else {
        (
            PayrollAccountView {
                state: PayrollStateView {
                    employees: scrubbed(registry.state.employees, entry.state.pubkey),
                    ..registry.state
                },
                ..registry
            },
            EmployeeAccountView { lamports: 0, ..entry },
            (caller_lamports + entry.lamports) as u64,
            Ok(()),
        )
    }
}

/// Removes an employee: every occurrence of the employee's wallet leaves the
/// registry's wallet list, and what the entry's storage held goes to the
/// admin; the entry is then the host's to release. Only the admin may remove.
/// Fails with `TransferFailure` where the admin cannot hold the amount. The
/// counter stays, so the id is never assigned again.
pub fn remove_employee(ctx: &mut RemoveEmployee) -> (r: Result<(), PayrollError>)
    ensures
        final(ctx).admin.key == old(ctx).admin.key,
        (final(ctx).solana_payroll@, final(ctx).employee@, final(ctx).admin.lamports, r)
            == remove_employee_spec(
            old(ctx).solana_payroll@,
            old(ctx).employee@,
            old(ctx).admin.key@,
            old(ctx).admin.lamports,
        ),
{
    let pubkey = ctx.employee.state.pubkey;
    if require_admin(&ctx.solana_payroll.state.admin, &ctx.admin.key).is_err() {
        return Err(PayrollError::Unauthorized);
    }
    let credited: u64 = match ctx.admin.lamports.checked_add(ctx.employee.lamports) {
        Some(sum) => sum,
        None => {
            return Err(PayrollError::TransferFailure);
        },
    };
    scrub_wallet(&mut ctx.solana_payroll.state.employees, &pubkey);
    ctx.employee.lamports = 0;
    ctx.admin.lamports = credited;
    Ok(())
}

} // verus!
