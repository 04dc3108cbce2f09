//! What holds of an embedded registry whatever is asked of it.
//!
//! The laws speak of the same spec functions as the contracts of `embedded`
//! and `embedded_ledger`, so each holds of the executable operations too.

use crate::embedded::{
    add_employee_spec, close_spec, has_id, has_wallet, index_of_id, index_of_wallet,
    is_first_with_id, process_payroll_spec, remove_employee_spec, update_salary_spec,
    EmployeeView, PayrollAccountView,
};
use crate::embedded_ledger::{
    initialize_spec, ledger_add_employee_spec, ledger_close_spec, ledger_process_payroll_spec,
    ledger_remove_employee_spec, ledger_update_salary_spec, EmbeddedLedgerView,
};
use crate::error::PayrollError;
use vstd::prelude::*;

verus! {

/// One request to change a registry, with the identity that makes it.
pub enum Call {
    Add { caller: Seq<u8>, salary: u64, name: Seq<char>, wallet: Seq<u8> },
    Remove { caller: Seq<u8>, id: u64 },
    Update { caller: Seq<u8>, id: u64, salary: u64 },
    Pay { caller: Seq<u8>, wallet: Seq<u8>, wallet_lamports: u64 },
}

/// How a request ended.
pub enum Reply {
    /// An employee was added under this id.
    Assigned(u64),
    /// A record was removed or its salary set.
    Done,
    /// This amount was paid.
    Paid(u64),
    /// Nothing was changed.
    Refused(PayrollError),
}

impl Call {
    /// The identity that makes the request.
    pub open spec fn caller(self) -> Seq<u8> {
        match self {
            Call::Add { caller, .. } => caller,
            Call::Remove { caller, .. } => caller,
            Call::Update { caller, .. } => caller,
            Call::Pay { caller, .. } => caller,
        }
    }
}

/// The registry after `call`, and how the call ended.
pub open spec fn step(account: PayrollAccountView, call: Call) -> (PayrollAccountView, Reply) {
    match call {
        Call::Add { caller, salary, name, wallet } => {
            let (next, r) = add_employee_spec(account, caller, salary, name, wallet);
            match r {
                Ok(id) => (next, Reply::Assigned(id)),
                Err(e) => (next, Reply::Refused(e)),
            }
        },
        Call::Remove { caller, id } => {
            let (next, r) = remove_employee_spec(account, caller, id);
            match r {
                Ok(_) => (next, Reply::Done),
                Err(e) => (next, Reply::Refused(e)),
            }
        },
        Call::Update { caller, id, salary } => {
            let (next, r) = update_salary_spec(account, caller, id, salary);
            match r {
                Ok(_) => (next, Reply::Done),
                Err(e) => (next, Reply::Refused(e)),
            }
        },
        Call::Pay { caller, wallet, wallet_lamports } => {
            let (next, _, r) = process_payroll_spec(account, caller, wallet, wallet_lamports);
            match r {
                Ok(amount) => (next, Reply::Paid(amount)),
                Err(e) => (next, Reply::Refused(e)),
            }
        },
    }
}

/// The registry after the calls, made one after another.
pub open spec fn run(account: PayrollAccountView, calls: Seq<Call>) -> PayrollAccountView
    decreases calls.len(),
{
    if calls.len() == 0 {
        account
    } else {
        step(run(account, calls.drop_last()), calls.last()).0
    }
}

/// The ids that the calls were assigned, in the order of the calls.
pub open spec fn assigned(account: PayrollAccountView, calls: Seq<Call>) -> Seq<u64>
    decreases calls.len(),
{
    if calls.len() == 0 {
        Seq::empty()
    } else {
        let before = assigned(account, calls.drop_last());
        match step(run(account, calls.drop_last()), calls.last()).1 {
            Reply::Assigned(id) => before.push(id),
            _ => before,
        }
    }
}

/// One call keeps a well-formed registry well formed, never lowers the
/// counter, and keeps an id absent that the counter has passed.
pub proof fn lemma_step_keeps(account: PayrollAccountView, call: Call)
    ensures
        account.state.wf() ==> step(account, call).0.state.wf(),
        account.wf() ==> step(account, call).0.wf(),
        step(account, call).0.state.id_counter >= account.state.id_counter,
        step(account, call).0.state.admin == account.state.admin,
        step(account, call).0.state.title == account.state.title,
        step(account, call).0.space == account.space,
        step(account, call).1 matches Reply::Assigned(id) ==> id == account.state.id_counter + 1
            && id == step(account, call).0.state.id_counter,
        forall|id: u64|
            id <= account.state.id_counter && !has_id(account.state.employees, id) ==> !has_id(
                step(account, call).0.state.employees,
                id,
            ),
{
    let before = account.state.employees;
    let after = step(account, call).0.state.employees;
    match call {
        Call::Add { caller, salary, name, wallet } => {
            if step(account, call).1 is Assigned {
                crate::embedded::lemma_records_len_push(before, after.last());
                assert forall|id: u64|
                    id <= account.state.id_counter && !has_id(before, id) implies !has_id(
                    after,
                    id,
                ) by {
                    if has_id(after, id) {
                        let k = choose|k: int|
                            0 <= k < after.len() && (#[trigger] after[k]).employee_id == id;
                        if k < before.len() {
                            assert(before[k].employee_id == id);
                        }
                    }
                }
            }
        },
        Call::Remove { caller, id } => {
            if step(account, call).1 is Done {
                let i = index_of_id(before, id);
                lemma_has_id_first(before, id);
                crate::embedded::lemma_records_len_remove(before, i);
                assert forall|other: u64| !has_id(before, other) implies !has_id(after, other) by {
                    if has_id(after, other) {
                        let k = choose|k: int|
                            0 <= k < after.len() && (#[trigger] after[k]).employee_id == other;
                        let k0 = if k < i { k } else { k + 1 };
                        assert(before[k0].employee_id == other);
                    }
                }
                if account.state.wf() {
                    assert forall|a: int, b: int| 0 <= a < b < after.len() implies (
                    #[trigger] after[a]).employee_id < (#[trigger] after[b]).employee_id by {
                        let a0 = if a < i { a } else { a + 1 };
                        let b0 = if b < i { b } else { b + 1 };
                        assert(before[a0].employee_id < before[b0].employee_id);
                    }
                    assert forall|a: int| 0 <= a < after.len() implies 1 <= (
                    #[trigger] after[a]).employee_id <= account.state.id_counter by {
                        let a0 = if a < i { a } else { a + 1 };
                        assert(1 <= before[a0].employee_id <= account.state.id_counter);
                    }
                }
            }
        },
        Call::Update { caller, id, salary } => {
            if step(account, call).1 is Done {
                let i = index_of_id(before, id);
                lemma_has_id_first(before, id);
                crate::embedded::lemma_records_len_update(before, i, after[i]);
                assert forall|other: u64| !has_id(before, other) implies !has_id(after, other) by {
                    if has_id(after, other) {
                        let k = choose|k: int|
                            0 <= k < after.len() && (#[trigger] after[k]).employee_id == other;
                        assert(before[k].employee_id == other);
                    }
                }
                if account.state.wf() {
                    assert forall|a: int, b: int| 0 <= a < b < after.len() implies (
                    #[trigger] after[a]).employee_id < (#[trigger] after[b]).employee_id by {
                        assert(before[a].employee_id < before[b].employee_id);
                    }
                    assert forall|a: int| 0 <= a < after.len() implies 1 <= (
                    #[trigger] after[a]).employee_id <= account.state.id_counter by {
                        assert(1 <= before[a].employee_id <= account.state.id_counter);
                    }
                }
            }
        },
        Call::Pay { caller, wallet, wallet_lamports } => {},
    }
}

/// Where some record carries `id`, there is a first one.
pub proof fn lemma_has_id_first(records: Seq<EmployeeView>, id: u64)
    requires
        has_id(records, id),
    ensures
        is_first_with_id(records, id, index_of_id(records, id)),
{
    let w = choose|w: int| 0 <= w < records.len() && (#[trigger] records[w]).employee_id == id;
    lemma_first_below(records, id, w);
}

/// Where the record at `w` carries `id`, some place up to `w` is the first
/// that does.
proof fn lemma_first_below(records: Seq<EmployeeView>, id: u64, w: int)
    requires
        0 <= w < records.len(),
        records[w].employee_id == id,
    ensures
        exists|i: int| is_first_with_id(records, id, i),
    decreases w,
{
    if exists|j: int| 0 <= j < w && (#[trigger] records[j]).employee_id == id {
        let j = choose|j: int| 0 <= j < w && (#[trigger] records[j]).employee_id == id;
        lemma_first_below(records, id, j);
    } else {
        assert(is_first_with_id(records, id, w));
    }
}

/// Calls keep a well-formed registry well formed and never lower the counter;
/// the ids they assign lie above the counter as it stood and up to the
/// counter as it stands.
pub proof fn lemma_run_keeps(account: PayrollAccountView, calls: Seq<Call>)
    ensures
        account.state.wf() ==> run(account, calls).state.wf(),
        account.wf() ==> run(account, calls).wf(),
        run(account, calls).state.id_counter >= account.state.id_counter,
        run(account, calls).state.admin == account.state.admin,
        forall|i: int|
            0 <= i < assigned(account, calls).len() ==> account.state.id_counter < (
            #[trigger] assigned(account, calls)[i]) <= run(account, calls).state.id_counter,
        forall|i: int, j: int|
            0 <= i < j < assigned(account, calls).len() ==> (#[trigger] assigned(account, calls)[i])
                < (#[trigger] assigned(account, calls)[j]),
    decreases calls.len(),
{
    let ids = assigned(account, calls);
    if calls.len() > 0 {
        let earlier = assigned(account, calls.drop_last());
        let middle = run(account, calls.drop_last());
        lemma_run_keeps(account, calls.drop_last());
        lemma_step_keeps(middle, calls.last());
        assert forall|i: int| 0 <= i < ids.len() implies account.state.id_counter < (
        #[trigger] ids[i]) <= run(account, calls).state.id_counter by {
            if i < earlier.len() {
                assert(ids[i] == earlier[i]);
            }
        }
        assert forall|i: int, j: int| 0 <= i < j < ids.len() implies (#[trigger] ids[i]) < (
        #[trigger] ids[j]) by {
            assert(ids[i] == earlier[i]);
            if j < earlier.len() {
                assert(ids[j] == earlier[j]);
            }
        }
    }
}

/// The ids that any sequence of calls on one registry is assigned increase
/// strictly, so no two of them are the same; and in a well-formed registry
/// none of them is the id of a record that was there before.
pub proof fn law_assigned_ids_increase(account: PayrollAccountView, calls: Seq<Call>)
    ensures
        forall|i: int, j: int|
            0 <= i < j < assigned(account, calls).len() ==> (#[trigger] assigned(account, calls)[i])
                < (#[trigger] assigned(account, calls)[j]),
        forall|i: int, j: int|
            0 <= i < assigned(account, calls).len() && 0 <= j < assigned(account, calls).len() && i
                != j ==> (#[trigger] assigned(account, calls)[i]) != (#[trigger] assigned(
                account,
                calls,
            )[j]),
        account.state.wf() ==> forall|i: int, k: int|
            0 <= i < assigned(account, calls).len() && 0 <= k < account.state.employees.len() ==> (
            #[trigger] assigned(account, calls)[i]) != (
            #[trigger] account.state.employees[k]).employee_id,
        account.state.wf() ==> run(account, calls).state.wf(),
{
    lemma_run_keeps(account, calls);
    let ids = assigned(account, calls);
    assert forall|i: int, j: int| 0 <= i < ids.len() && 0 <= j < ids.len() && i != j implies (
    #[trigger] ids[i]) != (#[trigger] ids[j]) by {
        if i < j {
            assert(ids[i] < ids[j]);
        } else {
            assert(ids[j] < ids[i]);
        }
    }
}

/// Whatever calls are made, the registry keeps its admin, its title and its
/// byte budget: none of them changes after the registry is set up.
pub proof fn law_admin_and_title_stay(account: PayrollAccountView, calls: Seq<Call>)
    ensures
        run(account, calls).state.admin == account.state.admin,
        run(account, calls).state.title == account.state.title,
        run(account, calls).space == account.space,
    decreases calls.len(),
{
    if calls.len() > 0 {
        law_admin_and_title_stay(account, calls.drop_last());
        lemma_step_keeps(run(account, calls.drop_last()), calls.last());
    }
}

/// An id that the counter has passed and that no record carries stays without
/// a record, whatever calls follow: ids are never assigned again.
pub proof fn lemma_absent_id_stays_absent(account: PayrollAccountView, calls: Seq<Call>, id: u64)
    requires
        id <= account.state.id_counter,
        !has_id(account.state.employees, id),
    ensures
        !has_id(run(account, calls).state.employees, id),
    decreases calls.len(),
{
    if calls.len() > 0 {
        lemma_absent_id_stays_absent(account, calls.drop_last(), id);
        lemma_run_keeps(account, calls.drop_last());
        lemma_step_keeps(run(account, calls.drop_last()), calls.last());
    }
}

/// Once an employee is removed from a well-formed registry, setting the
/// salary for the same id fails with `NotFound`, at once and after any calls
/// in between: removal is permanent.
pub proof fn law_update_after_remove_not_found(
    account: PayrollAccountView,
    admin: Seq<u8>,
    id: u64,
    between: Seq<Call>,
    salary: u64,
)
    requires
        account.state.wf(),
        remove_employee_spec(account, admin, id).1 is Ok,
    ensures
        update_salary_spec(remove_employee_spec(account, admin, id).0, admin, id, salary) == (
            remove_employee_spec(account, admin, id).0,
            Err::<(), PayrollError>(PayrollError::NotFound),
        ),
        update_salary_spec(
            run(remove_employee_spec(account, admin, id).0, between),
            admin,
            id,
            salary,
        ) == (
            run(remove_employee_spec(account, admin, id).0, between),
            Err::<(), PayrollError>(PayrollError::NotFound),
        ),
{
    let before = account.state.employees;
    let removed = remove_employee_spec(account, admin, id).0;
    let after = removed.state.employees;
    let i = index_of_id(before, id);
    lemma_has_id_first(before, id);
    if has_id(after, id) {
        let k = choose|k: int| 0 <= k < after.len() && (#[trigger] after[k]).employee_id == id;
        let k0 = if k < i { k } else { k + 1 };
        assert(before[k0].employee_id == id);
        if k0 < i {
            assert(before[k0].employee_id < before[i].employee_id);
        } else {
            assert(before[i].employee_id < before[k0].employee_id);
        }
    }
    assert(1 <= before[i].employee_id <= account.state.id_counter);
    lemma_absent_id_stays_absent(removed, between, id);
    lemma_run_keeps(removed, between);
}

/// A call from anyone but the admin is refused with `Unauthorized` and leaves
/// the registry exactly as it was; so does an attempt to close it.
pub proof fn law_non_admin_changes_nothing(
    account: PayrollAccountView,
    call: Call,
    caller_lamports: u64,
)
    requires
        call.caller() != account.state.admin,
    ensures
        step(account, call) == (account, Reply::Refused(PayrollError::Unauthorized)),
        close_spec(account, call.caller(), caller_lamports) == (
            account,
            caller_lamports,
            Err::<u64, PayrollError>(PayrollError::Unauthorized),
        ),
{
}

/// A payment moves exactly the employee's salary from the registry's balance
/// to the wallet and leaves every record as it was. It is not idempotent: a
/// second payment to the same wallet succeeds wherever balance and wallet
/// allow twice the salary, and the two together move twice the salary.
pub proof fn law_payment_moves_salary(
    account: PayrollAccountView,
    admin: Seq<u8>,
    wallet: Seq<u8>,
    wallet_lamports: u64,
)
    requires
        process_payroll_spec(account, admin, wallet, wallet_lamports).2 is Ok,
    ensures
        ({
            let salary = account.state.employees[index_of_wallet(
                account.state.employees,
                wallet,
            )].salary;
            let (once, held, first) = process_payroll_spec(account, admin, wallet, wallet_lamports);
            let (twice, held_twice, second) = process_payroll_spec(once, admin, wallet, held);
            &&& has_wallet(account.state.employees, wallet)
            &&& first == Ok::<u64, PayrollError>(salary)
            &&& once.state == account.state
            &&& once.lamports == account.lamports - salary
            &&& held == wallet_lamports + salary
            &&& second is Ok <==> 2 * salary <= account.lamports && wallet_lamports + 2 * salary
                <= u64::MAX
            &&& second is Ok ==> {
                &&& second == Ok::<u64, PayrollError>(salary)
                &&& twice.state == account.state
                &&& twice.lamports == account.lamports - 2 * salary
                &&& held_twice == wallet_lamports + 2 * salary
            }
        }),
{
}

/// The registry and the wallet's balance after `k` payments to `wallet`, one
/// after another, and whether every one of them succeeded.
pub open spec fn pay_times(
    account: PayrollAccountView,
    admin: Seq<u8>,
    wallet: Seq<u8>,
    wallet_lamports: u64,
    k: nat,
) -> (PayrollAccountView, u64, bool)
    decreases k,
{
    if k == 0 {
        (account, wallet_lamports, true)
    } else {
        let (before, held, paid) = pay_times(account, admin, wallet, wallet_lamports, (k - 1) as nat);
        let (after, credited, r) = process_payroll_spec(before, admin, wallet, held);
        (after, credited, paid && r is Ok)
    }
}

/// Payments and the closing add up: where `k` payments to one wallet have
/// succeeded, each moved exactly the salary from the registry's balance to
/// the wallet and changed no record; and closing the registry then refunds
/// exactly what is left to the admin. The closing succeeds wherever the admin
/// can hold the refund.
pub proof fn law_payments_then_close_refund_the_rest(
    account: PayrollAccountView,
    admin: Seq<u8>,
    wallet: Seq<u8>,
    wallet_lamports: u64,
    admin_lamports: u64,
    k: nat,
)
    requires
        pay_times(account, admin, wallet, wallet_lamports, k).2,
    ensures
        ({
            let salary = account.state.employees[index_of_wallet(
                account.state.employees,
                wallet,
            )].salary;
            let (paid, held, _) = pay_times(account, admin, wallet, wallet_lamports, k);
            let (closed, refunded, r) = close_spec(paid, admin, admin_lamports);
            &&& k * salary <= account.lamports
            &&& paid.state == account.state
            &&& paid.space == account.space
            &&& paid.lamports == account.lamports - k * salary
            &&& held == wallet_lamports + k * salary
            &&& k > 0 ==> admin == account.state.admin
            &&& k > 0 ==> (r is Ok <==> admin_lamports + account.lamports - k * salary <= u64::MAX)
            &&& k > 0 && r is Ok ==> {
                &&& r == Ok::<u64, PayrollError>((account.lamports - k * salary) as u64)
                &&& refunded == admin_lamports + account.lamports - k * salary
                &&& closed.lamports == 0
            }
        }),
    decreases k,
{
    let salary = account.state.employees[index_of_wallet(account.state.employees, wallet)].salary;
    if k > 0 {
        law_payments_then_close_refund_the_rest(
            account,
            admin,
            wallet,
            wallet_lamports,
            admin_lamports,
            (k - 1) as nat,
        );
        assert((k - 1) * salary + salary == k * salary) by (nonlinear_arith);
    } else {
        assert(k * salary == 0) by (nonlinear_arith)
            requires
                k == 0,
        ;
    }
}

/// The ledger and the wallet's balance after `k` payments to `wallet` from
/// the registry at `key`, one after another, and whether every one of them
/// succeeded.
pub open spec fn ledger_pay_times(
    ledger: EmbeddedLedgerView,
    key: Seq<u8>,
    admin: Seq<u8>,
    wallet: Seq<u8>,
    wallet_lamports: u64,
    k: nat,
) -> (EmbeddedLedgerView, u64, bool)
    decreases k,
{
    if k == 0 {
        (ledger, wallet_lamports, true)
    } else {
        let (before, held, paid) = ledger_pay_times(
            ledger,
            key,
            admin,
            wallet,
            wallet_lamports,
            (k - 1) as nat,
        );
        let (after, credited, r) = ledger_process_payroll_spec(before, key, admin, wallet, held);
        (after, credited, paid && r is Ok)
    }
}

/// Payments from a stored registry are payments from that registry:
/// where `k` of them have succeeded, the ledger holds the registry as the
/// payments left it, and every other registry as it was.
pub proof fn lemma_ledger_pay_times(
    ledger: EmbeddedLedgerView,
    key: Seq<u8>,
    admin: Seq<u8>,
    wallet: Seq<u8>,
    wallet_lamports: u64,
    k: nat,
)
    requires
        k > 0,
        ledger_pay_times(ledger, key, admin, wallet, wallet_lamports, k).2,
    ensures
        ledger.resolves(key),
        pay_times(ledger.registries[key], admin, wallet, wallet_lamports, k).2,
        ledger_pay_times(ledger, key, admin, wallet, wallet_lamports, k).0 == ledger.with_account(
            key,
            pay_times(ledger.registries[key], admin, wallet, wallet_lamports, k).0,
        ),
        ledger_pay_times(ledger, key, admin, wallet, wallet_lamports, k).1 == pay_times(
            ledger.registries[key],
            admin,
            wallet,
            wallet_lamports,
            k,
        ).1,
    decreases k,
{
    let account = ledger.registries[key];
    reveal_with_fuel(ledger_pay_times, 2);
    reveal_with_fuel(pay_times, 2);
    if k > 1 {
        lemma_ledger_pay_times(ledger, key, admin, wallet, wallet_lamports, (k - 1) as nat);
        let before = pay_times(account, admin, wallet, wallet_lamports, (k - 1) as nat).0;
        let after = pay_times(account, admin, wallet, wallet_lamports, k).0;
        assert(ledger.with_account(key, before).registries.insert(key, after)
            =~= ledger.registries.insert(key, after));
    }
}

/// Payments and the closing add up in the ledger: where `k` payments, at
/// least one, from the registry at `key` to one wallet have succeeded, each
/// moved exactly the salary to the wallet; and closing the registry then
/// refunds exactly what is left of its balance to the admin and frees the
/// address. The closing succeeds wherever the admin can hold the refund.
pub proof fn law_ledger_payments_then_close(
    ledger: EmbeddedLedgerView,
    key: Seq<u8>,
    admin: Seq<u8>,
    wallet: Seq<u8>,
    wallet_lamports: u64,
    admin_lamports: u64,
    k: nat,
)
    requires
        k > 0,
        ledger_pay_times(ledger, key, admin, wallet, wallet_lamports, k).2,
    ensures
        ({
            let account = ledger.registries[key];
            let salary = account.state.employees[index_of_wallet(
                account.state.employees,
                wallet,
            )].salary;
            let (paid, held, _) = ledger_pay_times(ledger, key, admin, wallet, wallet_lamports, k);
            let (closed, refunded, r) = ledger_close_spec(paid, key, admin, admin_lamports);
            &&& k * salary <= account.lamports
            &&& held == wallet_lamports + k * salary
            &&& paid.registries[key].lamports == account.lamports - k * salary
            &&& r is Ok <==> admin_lamports + account.lamports - k * salary <= u64::MAX
            &&& r is Ok ==> {
                &&& r == Ok::<u64, PayrollError>((account.lamports - k * salary) as u64)
                &&& refunded == admin_lamports + account.lamports - k * salary
                &&& !closed.resolves(key)
            }
        }),
{
    lemma_ledger_pay_times(ledger, key, admin, wallet, wallet_lamports, k);
    law_payments_then_close_refund_the_rest(
        ledger.registries[key],
        admin,
        wallet,
        wallet_lamports,
        admin_lamports,
        k,
    );
}

/// Creating the same registry twice fails the second time. It fails with
/// `AlreadyExists` wherever the first call created the registry or found it
/// there; where the first call found no address or no room for the title, the
/// second fails as the first did.
pub proof fn law_initialize_twice_fails(
    ledger: EmbeddedLedgerView,
    admin: Seq<u8>,
    title: Seq<char>,
    lamports: u64,
    lamports_again: u64,
)
    ensures
        ({
            let (next, first) = initialize_spec(ledger, admin, title, lamports);
            let (last, second) = initialize_spec(next, admin, title, lamports_again);
            &&& second is Err
            &&& last == next
            &&& first is Ok || first == Err::<Seq<u8>, PayrollError>(PayrollError::AlreadyExists)
                ==> second == Err::<Seq<u8>, PayrollError>(PayrollError::AlreadyExists)
            &&& !(first is Ok) ==> second == first
        }),
{
}

/// On an address that does not resolve every operation fails with `NotFound`
/// and changes nothing.
pub proof fn law_unresolved_not_found(
    ledger: EmbeddedLedgerView,
    key: Seq<u8>,
    call: Call,
    caller_lamports: u64,
)
    requires
        !ledger.resolves(key),
    ensures
        ledger_step(ledger, key, call) == (ledger, Reply::Refused(PayrollError::NotFound)),
        ledger_close_spec(ledger, key, call.caller(), caller_lamports) == (
            ledger,
            caller_lamports,
            Err::<u64, PayrollError>(PayrollError::NotFound),
        ),
{
}

/// The ledger after `call` on the registry at `key`, and how the call ended.
pub open spec fn ledger_step(ledger: EmbeddedLedgerView, key: Seq<u8>, call: Call) -> (
    EmbeddedLedgerView,
    Reply,
) {
    match call {
        Call::Add { caller, salary, name, wallet } => {
            let (next, r) = ledger_add_employee_spec(ledger, key, caller, salary, name, wallet);
            match r {
                Ok(id) => (next, Reply::Assigned(id)),
                Err(e) => (next, Reply::Refused(e)),
            }
        },
        Call::Remove { caller, id } => {
            let (next, r) = ledger_remove_employee_spec(ledger, key, caller, id);
            match r {
                Ok(_) => (next, Reply::Done),
                Err(e) => (next, Reply::Refused(e)),
            }
        },
        Call::Update { caller, id, salary } => {
            let (next, r) = ledger_update_salary_spec(ledger, key, caller, id, salary);
            match r {
                Ok(_) => (next, Reply::Done),
                Err(e) => (next, Reply::Refused(e)),
            }
        },
        Call::Pay { caller, wallet, wallet_lamports } => {
            let (next, _, r) = ledger_process_payroll_spec(
                ledger,
                key,
                caller,
                wallet,
                wallet_lamports,
            );
            match r {
                Ok(amount) => (next, Reply::Paid(amount)),
                Err(e) => (next, Reply::Refused(e)),
            }
        },
    }
}

/// An operation on one registry is that registry's own affair: it ends as it
/// would on the registry alone, the ledger then holds what it made of that
/// registry, and every other registry is as it was.
pub proof fn law_ledger_step_is_local(ledger: EmbeddedLedgerView, key: Seq<u8>, call: Call)
    requires
        ledger.resolves(key),
    ensures
        ledger_step(ledger, key, call) == (
            ledger.with_account(key, step(ledger.registries[key], call).0),
            step(ledger.registries[key], call).1,
        ),
        forall|other: Seq<u8>|
            other != key ==> (#[trigger] ledger_step(ledger, key, call).0.resolves(other))
                == ledger.resolves(other),
        forall|other: Seq<u8>|
            other != key && ledger.resolves(other) ==> (#[trigger] ledger_step(
                ledger,
                key,
                call,
            ).0.registries[other]) == ledger.registries[other],
{
    assert(ledger.registries.insert(key, ledger.registries[key]) =~= ledger.registries);
}

/// Once a registry is closed its address no longer resolves, and every
/// operation on it fails with `NotFound`: closing is final.
pub proof fn law_closed_is_final(
    ledger: EmbeddedLedgerView,
    key: Seq<u8>,
    admin: Seq<u8>,
    admin_lamports: u64,
    call: Call,
    caller_lamports: u64,
)
    requires
        ledger_close_spec(ledger, key, admin, admin_lamports).2 is Ok,
    ensures
        ({
            let (closed, held, reclaimed) = ledger_close_spec(ledger, key, admin, admin_lamports);
            &&& !closed.resolves(key)
            &&& reclaimed == Ok::<u64, PayrollError>(ledger.registries[key].lamports)
            &&& held == admin_lamports + ledger.registries[key].lamports
            &&& ledger_step(closed, key, call) == (closed, Reply::Refused(PayrollError::NotFound))
            &&& ledger_close_spec(closed, key, call.caller(), caller_lamports) == (
                closed,
                caller_lamports,
                Err::<u64, PayrollError>(PayrollError::NotFound),
            )
        }),
{
}

/// On a registry that resolves, a call from anyone but its admin is refused
/// with `Unauthorized` and leaves the whole ledger exactly as it was.
pub proof fn law_ledger_non_admin_changes_nothing(
    ledger: EmbeddedLedgerView,
    key: Seq<u8>,
    call: Call,
    caller_lamports: u64,
)
    requires
        ledger.resolves(key),
        call.caller() != ledger.registries[key].state.admin,
    ensures
        ledger_step(ledger, key, call) == (ledger, Reply::Refused(PayrollError::Unauthorized)),
        ledger_close_spec(ledger, key, call.caller(), caller_lamports) == (
            ledger,
            caller_lamports,
            Err::<u64, PayrollError>(PayrollError::Unauthorized),
        ),
{
}

} // verus!
