//! What holds of discrete registries and their employee entries whatever is
//! asked of them.
//!
//! The laws speak of the same spec functions as the contracts of
//! `discrete_ledger`, so each holds of the executable operations too.

use crate::discrete::{
    add_employee_spec, remove_employee_spec, scrubbed, EmployeeAccountView, PayrollAccountView,
};
use crate::discrete_ledger::{
    add_employee_at_spec, initialize_spec, ledger_add_employee_spec, ledger_close_spec,
    remove_employee_at_spec, update_salary_at_spec, DiscreteLedgerView,
};
use crate::error::PayrollError;
use vstd::prelude::*;

verus! {

/// One request that may change a registry, with the identity that makes it
/// and the entry it is made on.
pub enum Call {
    Add {
        caller: Seq<u8>,
        salary: u64,
        name: Seq<char>,
        wallet: Seq<u8>,
        entry: EmployeeAccountView,
    },
    Remove { caller: Seq<u8>, caller_lamports: u64, entry: EmployeeAccountView },
}

/// The registry after `call`, and the id that the call was assigned, if it
/// added an employee.
pub open spec fn step(registry: PayrollAccountView, call: Call) -> (PayrollAccountView, Option<u32>) {
    match call {
        Call::Add { caller, salary, name, wallet, entry } => {
            let (next, _, r) = add_employee_spec(registry, entry, caller, salary, name, wallet);
            match r {
                Ok(id) => (next, Some(id)),
                Err(_) => (next, None),
            }
        },
        Call::Remove { caller, caller_lamports, entry } => (
            remove_employee_spec(registry, entry, caller, caller_lamports).0,
            None,
        ),
    }
}

/// The registry after the calls, made one after another.
pub open spec fn run(registry: PayrollAccountView, calls: Seq<Call>) -> PayrollAccountView
    decreases calls.len(),
{
    if calls.len() == 0 {
        registry
    } else {
        step(run(registry, calls.drop_last()), calls.last()).0
    }
}

/// The ids that the calls were assigned, in the order of the calls.
pub open spec fn assigned(registry: PayrollAccountView, calls: Seq<Call>) -> Seq<u32>
    decreases calls.len(),
{
    if calls.len() == 0 {
        Seq::empty()
    } else {
        let before = assigned(registry, calls.drop_last());
        match step(run(registry, calls.drop_last()), calls.last()).1 {
            Some(id) => before.push(id),
            None => before,
        }
    }
}

/// The ids that any sequence of calls on one registry is assigned increase
/// strictly, so no two of them are the same: each lies above the counter as
/// it stood and up to the counter as it stands. The calls change neither the
/// registry's admin nor its title nor its balance.
pub proof fn law_assigned_ids_increase(registry: PayrollAccountView, calls: Seq<Call>)
    ensures
        run(registry, calls).state.id_counter >= registry.state.id_counter,
        run(registry, calls).state.admin == registry.state.admin,
        run(registry, calls).state.title == registry.state.title,
        run(registry, calls).lamports == registry.lamports,
        forall|i: int|
            0 <= i < assigned(registry, calls).len() ==> registry.state.id_counter < (
            #[trigger] assigned(registry, calls)[i]) <= run(registry, calls).state.id_counter,
        forall|i: int, j: int|
            0 <= i < j < assigned(registry, calls).len() ==> (#[trigger] assigned(
                registry,
                calls,
            )[i]) < (#[trigger] assigned(registry, calls)[j]),
    decreases calls.len(),
{
    let ids = assigned(registry, calls);
    if calls.len() > 0 {
        let earlier = assigned(registry, calls.drop_last());
        law_assigned_ids_increase(registry, calls.drop_last());
        assert forall|i: int| 0 <= i < ids.len() implies registry.state.id_counter < (
        #[trigger] ids[i]) <= run(registry, calls).state.id_counter by {
            if i < earlier.len() {
                assert(ids[i] == earlier[i]);
            }
        }
        assert forall|i: int, j: int| 0 <= i < j < ids.len() implies (#[trigger] ids[i]) < (
        #[trigger] ids[j]) by {
            assert(ids[i] == earlier[i]);
            if j < earlier.len() {
                assert(ids[j] == earlier[j]);
            }
        }
    }
}

/// An employee who is added gets the counter's next value as id, and the
/// counter then stands at that id: of two employees added to one registry one
/// after the other, the second has the greater id.
pub proof fn law_next_added_gets_next_id(
    ledger: DiscreteLedgerView,
    key: Seq<u8>,
    admin: Seq<u8>,
    first_entry: Seq<u8>,
    first_salary: u64,
    first_name: Seq<char>,
    first_wallet: Seq<u8>,
    second_entry: Seq<u8>,
    second_salary: u64,
    second_name: Seq<char>,
    second_wallet: Seq<u8>,
    lamports: u64,
)
    ensures
        ({
            let (next, first) = add_employee_at_spec(
                ledger,
                key,
                first_entry,
                admin,
                first_salary,
                first_name,
                first_wallet,
                lamports,
            );
            let (last, second) = add_employee_at_spec(
                next,
                key,
                second_entry,
                admin,
                second_salary,
                second_name,
                second_wallet,
                lamports,
            );
            &&& first matches Ok(id) ==> {
                &&& id == ledger.registries[key].state.id_counter + 1
                &&& next.registries[key].state.id_counter == id
                &&& next.employees[first_entry].state.employee_id == id
            }
            &&& first matches Ok(a) ==> (second matches Ok(b) ==> a < b && b == a + 1)
        }),
{
}

/// An entry is never overwritten: adding an employee at an address that is
/// taken fails and changes nothing, with `AlreadyExists` where the registry
/// resolves and the caller is its admin. So the same name under the same
/// counter value cannot be entered twice.
pub proof fn law_entry_never_overwritten(
    ledger: DiscreteLedgerView,
    key: Seq<u8>,
    entry: Seq<u8>,
    caller: Seq<u8>,
    salary: u64,
    name: Seq<char>,
    wallet: Seq<u8>,
    lamports: u64,
)
    requires
        ledger.resolves_entry(entry),
    ensures
        ({
            let (next, r) = add_employee_at_spec(
                ledger,
                key,
                entry,
                caller,
                salary,
                name,
                wallet,
                lamports,
            );
            &&& next == ledger
            &&& r is Err
            &&& ledger.resolves(key) && caller == ledger.registries[key].state.admin ==> r == Err::<
                u32,
                PayrollError,
            >(PayrollError::AlreadyExists)
        }),
{
}

/// Once an employee is added, the address of its entry is taken: adding at
/// that address again fails.
pub proof fn law_added_entry_is_taken(
    ledger: DiscreteLedgerView,
    key: Seq<u8>,
    entry: Seq<u8>,
    admin: Seq<u8>,
    salary: u64,
    name: Seq<char>,
    wallet: Seq<u8>,
    lamports: u64,
)
    requires
        add_employee_at_spec(ledger, key, entry, admin, salary, name, wallet, lamports).1 is Ok,
    ensures
        ({
            let next = add_employee_at_spec(
                ledger,
                key,
                entry,
                admin,
                salary,
                name,
                wallet,
                lamports,
            ).0;
            &&& next.resolves_entry(entry)
            &&& add_employee_at_spec(next, key, entry, admin, salary, name, wallet, lamports) == (
                next,
                Err::<u32, PayrollError>(PayrollError::AlreadyExists),
            )
        }),
{
}

/// Once an employee is removed, setting the salary in its entry fails with
/// `NotFound`, and so does removing it again: removal is permanent.
pub proof fn law_update_after_remove_not_found(
    ledger: DiscreteLedgerView,
    key: Seq<u8>,
    entry: Option<Seq<u8>>,
    admin: Seq<u8>,
    admin_lamports: u64,
    salary: u64,
)
    requires
        remove_employee_at_spec(ledger, key, entry, admin, admin_lamports).2 is Ok,
    ensures
        ({
            let (next, held, _) = remove_employee_at_spec(ledger, key, entry, admin, admin_lamports);
            &&& entry is Some
            &&& !next.resolves_entry(entry->0)
            &&& held == admin_lamports + ledger.employees[entry->0].lamports
            &&& update_salary_at_spec(next, key, entry, admin, salary) == (
                next,
                Err::<(), PayrollError>(PayrollError::NotFound),
            )
            &&& remove_employee_at_spec(next, key, entry, admin, held) == (
                next,
                held,
                Err::<(), PayrollError>(PayrollError::NotFound),
            )
        }),
{
}

/// One request on a ledger that creates no registry: it names the registry
/// it is made on and the identity that makes it.
pub enum LedgerCall {
    Add {
        registry: Seq<u8>,
        at: Seq<u8>,
        caller: Seq<u8>,
        salary: u64,
        name: Seq<char>,
        wallet: Seq<u8>,
        lamports: u64,
    },
    Update { registry: Seq<u8>, entry: Option<Seq<u8>>, caller: Seq<u8>, salary: u64 },
    Remove { registry: Seq<u8>, entry: Option<Seq<u8>>, caller: Seq<u8>, caller_lamports: u64 },
    Close { registry: Seq<u8>, caller: Seq<u8>, caller_lamports: u64 },
}

impl LedgerCall {
    /// Whether the call asks for an entry to be created at `entry`.
    pub open spec fn creates_at(self, entry: Seq<u8>) -> bool {
        self matches LedgerCall::Add { at, .. } && at == entry
    }
}

/// The ledger after `call`.
pub open spec fn ledger_step(ledger: DiscreteLedgerView, call: LedgerCall) -> DiscreteLedgerView {
    match call {
        LedgerCall::Add { registry, at, caller, salary, name, wallet, lamports } => {
            add_employee_at_spec(ledger, registry, at, caller, salary, name, wallet, lamports).0
        },
        LedgerCall::Update { registry, entry, caller, salary } => {
            update_salary_at_spec(ledger, registry, entry, caller, salary).0
        },
        LedgerCall::Remove { registry, entry, caller, caller_lamports } => {
            remove_employee_at_spec(ledger, registry, entry, caller, caller_lamports).0
        },
        LedgerCall::Close { registry, caller, caller_lamports } => {
            ledger_close_spec(ledger, registry, caller, caller_lamports).0
        },
    }
}

/// The ledger after the calls, made one after another.
pub open spec fn ledger_run(ledger: DiscreteLedgerView, calls: Seq<LedgerCall>) -> DiscreteLedgerView
    decreases calls.len(),
{
    if calls.len() == 0 {
        ledger
    } else {
        ledger_step(ledger_run(ledger, calls.drop_last()), calls.last())
    }
}

/// Calls that create no registry leave no registry where there was none and
/// keep the admin of each that stays; and an address without an entry stays
/// without one as long as no call creates an entry there.
pub proof fn lemma_ledger_run_keeps(
    ledger: DiscreteLedgerView,
    calls: Seq<LedgerCall>,
    key: Seq<u8>,
    entry: Seq<u8>,
)
    requires
        !ledger.resolves_entry(entry),
        forall|i: int| 0 <= i < calls.len() ==> !(#[trigger] calls[i]).creates_at(entry),
    ensures
        !ledger_run(ledger, calls).resolves_entry(entry),
        ledger_run(ledger, calls).resolves(key) ==> ledger.resolves(key) && ledger_run(
            ledger,
            calls,
        ).registries[key].state.admin == ledger.registries[key].state.admin,
    decreases calls.len(),
{
    if calls.len() > 0 {
        lemma_ledger_run_keeps(ledger, calls.drop_last(), key, entry);
        assert(!calls[calls.len() - 1].creates_at(entry));
    }
}

/// Once an employee is removed, setting the salary in its entry fails with
/// `NotFound` after any calls in between that create no entry at the removed
/// address, and so does removing it again: nothing but a new creation brings
/// an entry back.
pub proof fn law_update_after_remove_and_calls_not_found(
    ledger: DiscreteLedgerView,
    key: Seq<u8>,
    entry: Option<Seq<u8>>,
    admin: Seq<u8>,
    admin_lamports: u64,
    between: Seq<LedgerCall>,
    salary: u64,
    lamports_then: u64,
)
    requires
        remove_employee_at_spec(ledger, key, entry, admin, admin_lamports).2 is Ok,
        forall|i: int| 0 <= i < between.len() ==> !(#[trigger] between[i]).creates_at(entry->0),
    ensures
        ({
            let removed = remove_employee_at_spec(ledger, key, entry, admin, admin_lamports).0;
            let later = ledger_run(removed, between);
            &&& !later.resolves_entry(entry->0)
            &&& update_salary_at_spec(later, key, entry, admin, salary) == (
                later,
                Err::<(), PayrollError>(PayrollError::NotFound),
            )
            &&& remove_employee_at_spec(later, key, entry, admin, lamports_then) == (
                later,
                lamports_then,
                Err::<(), PayrollError>(PayrollError::NotFound),
            )
        }),
{
    let removed = remove_employee_at_spec(ledger, key, entry, admin, admin_lamports).0;
    lemma_ledger_run_keeps(removed, between, key, entry->0);
}

/// On a registry that resolves, a request from anyone but its admin is
/// refused with `Unauthorized` and leaves the whole ledger exactly as it was.
pub proof fn law_non_admin_changes_nothing(
    ledger: DiscreteLedgerView,
    key: Seq<u8>,
    entry: Seq<u8>,
    caller: Seq<u8>,
    caller_lamports: u64,
    salary: u64,
    name: Seq<char>,
    wallet: Seq<u8>,
    lamports: u64,
)
    requires
        ledger.resolves(key),
        caller != ledger.registries[key].state.admin,
    ensures
        add_employee_at_spec(ledger, key, entry, caller, salary, name, wallet, lamports) == (
            ledger,
            Err::<u32, PayrollError>(PayrollError::Unauthorized),
        ),
        ledger_add_employee_spec(ledger, key, caller, salary, name, wallet, lamports) == (
            ledger,
            Err::<u32, PayrollError>(PayrollError::Unauthorized),
        ),
        update_salary_at_spec(ledger, key, Some(entry), caller, salary) == (
            ledger,
            Err::<(), PayrollError>(PayrollError::Unauthorized),
        ),
        remove_employee_at_spec(ledger, key, Some(entry), caller, caller_lamports) == (
            ledger,
            caller_lamports,
            Err::<(), PayrollError>(PayrollError::Unauthorized),
        ),
        ledger_close_spec(ledger, key, caller, caller_lamports) == (
            ledger,
            caller_lamports,
            Err::<u64, PayrollError>(PayrollError::Unauthorized),
        ),
{
}

/// Creating the same registry twice fails the second time: with
/// `AlreadyExists` wherever the title and the admin admit an address, with
/// `InvalidSeeds`, as the first time, where they admit none.
pub proof fn law_initialize_twice_fails(
    ledger: DiscreteLedgerView,
    admin: Seq<u8>,
    title: Seq<char>,
    lamports: u64,
    lamports_again: u64,
)
    ensures
        ({
            let (next, first) = initialize_spec(ledger, admin, title, lamports);
            let (last, second) = initialize_spec(next, admin, title, lamports_again);
            &&& second is Err
            &&& last == next
            &&& first != Err::<Seq<u8>, PayrollError>(PayrollError::InvalidSeeds) ==> second == Err::<
                Seq<u8>,
                PayrollError,
            >(PayrollError::AlreadyExists)
            &&& first == Err::<Seq<u8>, PayrollError>(PayrollError::InvalidSeeds) ==> second
                == first
        }),
{
}

/// Once a registry is closed its address no longer resolves, and every
/// request on it fails with `NotFound`: closing is final.
pub proof fn law_closed_is_final(
    ledger: DiscreteLedgerView,
    key: Seq<u8>,
    admin: Seq<u8>,
    admin_lamports: u64,
    entry: Seq<u8>,
    caller: Seq<u8>,
    caller_lamports: u64,
    salary: u64,
    name: Seq<char>,
    wallet: Seq<u8>,
    lamports: u64,
)
    requires
        ledger_close_spec(ledger, key, admin, admin_lamports).2 is Ok,
    ensures
        ({
            let (closed, held, reclaimed) = ledger_close_spec(ledger, key, admin, admin_lamports);
            &&& !closed.resolves(key)
            &&& reclaimed == Ok::<u64, PayrollError>(ledger.registries[key].lamports)
            &&& held == admin_lamports + ledger.registries[key].lamports
            &&& add_employee_at_spec(closed, key, entry, caller, salary, name, wallet, lamports)
                == (closed, Err::<u32, PayrollError>(PayrollError::NotFound))
            &&& ledger_add_employee_spec(closed, key, caller, salary, name, wallet, lamports) == (
                closed,
                Err::<u32, PayrollError>(PayrollError::NotFound),
            )
            &&& update_salary_at_spec(closed, key, Some(entry), caller, salary) == (
                closed,
                Err::<(), PayrollError>(PayrollError::NotFound),
            )
            &&& remove_employee_at_spec(closed, key, Some(entry), caller, caller_lamports) == (
                closed,
                caller_lamports,
                Err::<(), PayrollError>(PayrollError::NotFound),
            )
            &&& ledger_close_spec(closed, key, caller, caller_lamports) == (
                closed,
                caller_lamports,
                Err::<u64, PayrollError>(PayrollError::NotFound),
            )
        }),
{
}

/// After scrubbing, `wallet` does not occur at all, however often it occurred
/// before; every other wallet still occurs; and a list without `wallet` is
/// left as it was.
pub proof fn law_scrub_removes_every_match(wallets: Seq<Seq<u8>>, wallet: Seq<u8>)
    ensures
        !scrubbed(wallets, wallet).contains(wallet),
        scrubbed(wallets, wallet).len() <= wallets.len(),
        forall|other: Seq<u8>|
            other != wallet ==> (#[trigger] scrubbed(wallets, wallet).contains(other))
                == wallets.contains(other),
        !wallets.contains(wallet) ==> scrubbed(wallets, wallet) == wallets,
    decreases wallets.len(),
{
    if wallets.len() > 0 {
        let rest = wallets.drop_last();
        let kept = scrubbed(rest, wallet);
        let all = scrubbed(wallets, wallet);
        law_scrub_removes_every_match(rest, wallet);
        if all.contains(wallet) {
            let i = choose|i: int| 0 <= i < all.len() && all[i] == wallet;
            if i < kept.len() {
                assert(kept[i] == wallet);
            }
        }
        assert forall|other: Seq<u8>| other != wallet implies (#[trigger] all.contains(other))
            == wallets.contains(other) by {
            if all.contains(other) {
                let i = choose|i: int| 0 <= i < all.len() && all[i] == other;
                if i < kept.len() {
                    assert(kept.contains(other));
                    let j = choose|j: int| 0 <= j < rest.len() && rest[j] == other;
                    assert(wallets[j] == other);
                } else {
                    assert(wallets[wallets.len() - 1] == other);
                }
            }
            if wallets.contains(other) {
                let j = choose|j: int| 0 <= j < wallets.len() && wallets[j] == other;
                if j < rest.len() {
                    assert(rest[j] == other);
                    assert(rest.contains(other));
                    assert(kept.contains(other));
                    let i = choose|i: int| 0 <= i < kept.len() && kept[i] == other;
                    assert(all[i] == other);
                } else {
                    assert(all[all.len() - 1] == other);
                }
            }
        }
        if !wallets.contains(wallet) {
            assert(wallets[wallets.len() - 1] != wallet);
            assert forall|j: int| 0 <= j < rest.len() implies rest[j] != wallet by {
                assert(wallets[j] == rest[j]);
            }
            assert(!rest.contains(wallet));
            assert(kept.push(wallets.last()) =~= wallets);
        }
    }
}

} // verus!
