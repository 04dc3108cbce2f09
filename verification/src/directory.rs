//! The employee directory: one contract, two ways of keeping the records.
//!
//! A ledger of embedded registries and a ledger of discrete registries both
//! answer to `EmployeeDirectory`. The contract speaks of what a directory
//! shows, not of how it stores it: who administers a registry, where its
//! counter stands, and what record it keeps of an employee. What a call
//! leaves behind, and whether and why it is refused, each directory says for
//! itself, and the contract holds every call to it. Finding an employee by
//! wallet is no part of the contract: only an embedded registry, which holds
//! its records itself, can answer that.

use crate::discrete_ledger::{
    entry_key, remove_employee_at_spec, update_salary_at_spec, DiscreteLedger, DiscreteLedgerView,
};
use crate::embedded::{has_id, index_of_id, is_first_with_id, lemma_first_with_id_unique};
use crate::embedded_laws::{law_update_after_remove_not_found, lemma_has_id_first, Call};
use crate::embedded_ledger::{
    ledger_add_employee_spec, ledger_remove_employee_spec, ledger_update_salary_spec,
    EmbeddedLedger, EmbeddedLedgerView,
};
use crate::error::PayrollError;
use crate::identity::{Identity, Wallet};
use vstd::prelude::*;

verus! {

/// What a directory keeps of one employee.
pub struct EmployeeRecord {
    pub employee_id: u64,
    pub salary: u64,
    pub name: Seq<char>,
    pub wallet: Seq<u8>,
}

/// Why a call is refused, if its result is a refusal.
pub open spec fn refusal<T>(r: Result<T, PayrollError>) -> Option<PayrollError> {
    match r {
        Ok(_) => None,
        Err(e) => Some(e),
    }
}

/// A collection of employees, kept per registry, that only a registry's
/// admin may change.
pub trait EmployeeDirectory: View {
    /// What the directory needs in order to tell its records apart by what a
    /// caller names. The promises about `record_of` after a change are made
    /// of a directory of which this holds, and every call keeps it. A
    /// directory that needs nothing says `true`.
    spec fn wf(&self) -> bool;

    /// The admin of the registry at `registry`, where one is stored there.
    spec fn admin_of(&self, registry: Seq<u8>) -> Option<Seq<u8>>;

    /// Where the id counter of the registry at `registry` stands.
    spec fn counter_of(&self, registry: Seq<u8>) -> u64;

    /// The record kept of the employee `name` with `id`, where there is one.
    spec fn record_of(&self, registry: Seq<u8>, name: Seq<char>, id: u64) -> Option<
        EmployeeRecord,
    >;

    /// Why `add` refuses the call, or `None` where it adds the employee.
    spec fn add_refusal(
        &self,
        registry: Seq<u8>,
        caller: Seq<u8>,
        salary: u64,
        name: Seq<char>,
        wallet: Seq<u8>,
    ) -> Option<PayrollError>;

    /// What the directory holds after `add`.
    spec fn after_add(
        &self,
        registry: Seq<u8>,
        caller: Seq<u8>,
        salary: u64,
        name: Seq<char>,
        wallet: Seq<u8>,
    ) -> Self::V;

    /// Why `remove` refuses the call of a caller with `caller_lamports`, or
    /// `None` where it removes the employee.
    spec fn remove_refusal(
        &self,
        registry: Seq<u8>,
        caller: Seq<u8>,
        caller_lamports: u64,
        name: Seq<char>,
        id: u64,
    ) -> Option<PayrollError>;

    /// What the directory holds after `remove`.
    spec fn after_remove(
        &self,
        registry: Seq<u8>,
        caller: Seq<u8>,
        caller_lamports: u64,
        name: Seq<char>,
        id: u64,
    ) -> Self::V;

    /// What the storage of the record of the employee `name` with `id` holds:
    /// the amount that goes to the admin who removes the employee.
    spec fn remove_credit(&self, registry: Seq<u8>, name: Seq<char>, id: u64) -> u64;

    /// Why `update_salary` refuses the call, or `None` where it sets the
    /// salary.
    spec fn update_refusal(
        &self,
        registry: Seq<u8>,
        caller: Seq<u8>,
        name: Seq<char>,
        id: u64,
        salary: u64,
    ) -> Option<PayrollError>;

    /// What the directory holds after `update_salary`.
    spec fn after_update_salary(
        &self,
        registry: Seq<u8>,
        caller: Seq<u8>,
        name: Seq<char>,
        id: u64,
        salary: u64,
    ) -> Self::V;

    /// Adds an employee to the registry at `registry`: the counter goes up by
    /// one, its new value is the employee's id, and a record is kept of the
    /// employee. The call succeeds unless `add_refusal` names a reason, and
    /// then fails with that reason: `NotFound` where no registry is stored
    /// there, `Unauthorized` where the caller is not its admin. A failed call
    /// changes nothing.
    fn add(
        &mut self,
        registry: &Identity,
        caller: &Identity,
        salary: u64,
        name: String,
        wallet: &Identity,
    ) -> (r: Result<u64, PayrollError>)
        ensures
            refusal(r) == old(self).add_refusal(registry@, caller@, salary, name@, wallet@),
            final(self)@ == old(self).after_add(registry@, caller@, salary, name@, wallet@),
            old(self).wf() ==> final(self).wf(),
            old(self).admin_of(registry@) is None ==> r == Err::<u64, PayrollError>(
                PayrollError::NotFound,
            ),
            old(self).admin_of(registry@) matches Some(admin) && admin != caller@ ==> r == Err::<
                u64,
                PayrollError,
            >(PayrollError::Unauthorized),
            r is Err ==> final(self)@ == old(self)@,
            r matches Ok(id) ==> {
                &&& old(self).admin_of(registry@) == Some(caller@)
                &&& final(self).admin_of(registry@) == Some(caller@)
                &&& id == old(self).counter_of(registry@) + 1
                &&& final(self).counter_of(registry@) == id
                &&& old(self).wf() ==> final(self).record_of(registry@, name@, id) == Some(
                    EmployeeRecord { employee_id: id, salary, name: name@, wallet: wallet@ },
                )
            },
    ;

    /// Removes the employee `name` with `employee_id` for good: no record is
    /// kept, and the counter stays, so that the id is never assigned again.
    /// What the record's storage held goes to the caller. The call succeeds
    /// unless `remove_refusal` names a reason, and then fails with that
    /// reason: `NotFound` where no registry is stored at `registry`,
    /// `Unauthorized` where the caller is not its admin, `NotFound` where no
    /// record is kept of the employee. A failed call changes nothing.
    fn remove(
        &mut self,
        registry: &Identity,
        caller: &mut Wallet,
        name: &str,
        employee_id: u64,
    ) -> (r: Result<(), PayrollError>)
        ensures
            final(caller).key == old(caller).key,
            refusal(r) == old(self).remove_refusal(
                registry@,
                old(caller).key@,
                old(caller).lamports,
                name@,
                employee_id,
            ),
            final(self)@ == old(self).after_remove(
                registry@,
                old(caller).key@,
                old(caller).lamports,
                name@,
                employee_id,
            ),
            old(self).wf() ==> final(self).wf(),
            old(self).admin_of(registry@) is None ==> r == Err::<(), PayrollError>(
                PayrollError::NotFound,
            ),
            old(self).admin_of(registry@) matches Some(admin) && admin != old(caller).key@ ==> r
                == Err::<(), PayrollError>(PayrollError::Unauthorized),
            old(self).admin_of(registry@) == Some(old(caller).key@) && old(self).record_of(
                registry@,
                name@,
                employee_id,
            ) is None ==> r == Err::<(), PayrollError>(PayrollError::NotFound),
            r is Err ==> final(self)@ == old(self)@ && final(caller).lamports == old(
                caller,
            ).lamports,
            r is Ok ==> {
                &&& old(self).record_of(registry@, name@, employee_id) is Some
                &&& final(self).admin_of(registry@) == old(self).admin_of(registry@)
                &&& final(self).counter_of(registry@) == old(self).counter_of(registry@)
                &&& final(caller).lamports == old(caller).lamports + old(self).remove_credit(
                    registry@,
                    name@,
                    employee_id,
                )
                &&& old(self).wf() ==> final(self).record_of(registry@, name@, employee_id) is None
            },
    ;

    /// Overwrites the salary in the record of the employee `name` with
    /// `employee_id`; the rest of the record stays. The call succeeds unless
    /// `update_refusal` names a reason, and then fails with that reason:
    /// `NotFound` where no registry is stored at `registry`, `Unauthorized`
    /// where the caller is not its admin, `NotFound` where no record is kept
    /// of the employee. A failed call changes nothing.
    fn update_salary(
        &mut self,
        registry: &Identity,
        caller: &Identity,
        name: &str,
        employee_id: u64,
        new_salary: u64,
    ) -> (r: Result<(), PayrollError>)
        ensures
            refusal(r) == old(self).update_refusal(
                registry@,
                caller@,
                name@,
                employee_id,
                new_salary,
            ),
            final(self)@ == old(self).after_update_salary(
                registry@,
                caller@,
                name@,
                employee_id,
                new_salary,
            ),
            old(self).wf() ==> final(self).wf(),
            old(self).admin_of(registry@) is None ==> r == Err::<(), PayrollError>(
                PayrollError::NotFound,
            ),
            old(self).admin_of(registry@) matches Some(admin) && admin != caller@ ==> r == Err::<
                (),
                PayrollError,
            >(PayrollError::Unauthorized),
            old(self).admin_of(registry@) == Some(caller@) ==> (r is Ok <==> old(self).record_of(
                registry@,
                name@,
                employee_id,
            ) is Some),
            old(self).admin_of(registry@) == Some(caller@) && r is Err ==> r == Err::<
                (),
                PayrollError,
            >(PayrollError::NotFound),
            r is Err ==> final(self)@ == old(self)@,
            r is Ok ==> {
                &&& final(self).admin_of(registry@) == old(self).admin_of(registry@)
                &&& final(self).counter_of(registry@) == old(self).counter_of(registry@)
                &&& final(self).record_of(registry@, name@, employee_id) == Some(
                    EmployeeRecord {
                        salary: new_salary,
                        ..old(self).record_of(registry@, name@, employee_id)->0
                    },
                )
            },
    ;
}

/// What an embedded ledger keeps of the employee with `id` in the registry
/// at `registry`: the first record that carries the id, whatever the name.
pub open spec fn embedded_record(ledger: EmbeddedLedgerView, registry: Seq<u8>, id: u64) -> Option<
    EmployeeRecord,
> {
    let records = ledger.registries[registry].state.employees;
    if ledger.resolves(registry) && has_id(records, id) {
        let found = records[index_of_id(records, id)];
        Some(
            EmployeeRecord {
                employee_id: found.employee_id,
                salary: found.salary,
                name: found.name,
                wallet: found.pubkey,
            },
        )
    } else {
        None
    }
}

/// What a discrete ledger keeps of the employee `name` with `id`: the entry
/// at the address derived from the two.
pub open spec fn discrete_record(ledger: DiscreteLedgerView, name: Seq<char>, id: u64) -> Option<
    EmployeeRecord,
> {
    if id > u32::MAX {
        None
    } else {
        match entry_key(name, id as u32, ledger.program) {
            Some(key) => if ledger.resolves_entry(key) {
                let found = ledger.employees[key].state;
                Some(
                    EmployeeRecord {
                        employee_id: found.employee_id as u64,
                        salary: found.salary,
                        name: found.name,
                        wallet: found.pubkey,
                    },
                )
            } else {
                None
            },
            None => None,
        }
    }
}

/// The address at which a discrete ledger looks for the entry of the
/// employee `name` with `id`, where one can be derived.
pub open spec fn discrete_entry(ledger: DiscreteLedgerView, name: Seq<char>, id: u64) -> Option<
    Seq<u8>,
> {
    if id > u32::MAX {
        None
    } else {
        entry_key(name, id as u32, ledger.program)
    }
}

impl EmployeeDirectory for EmbeddedLedger {
    open spec fn wf(&self) -> bool {
        self@.wf()
    }

    open spec fn admin_of(&self, registry: Seq<u8>) -> Option<Seq<u8>> {
        if self@.resolves(registry) {
            Some(self@.registries[registry].state.admin)
        } else {
            None
        }
    }

    open spec fn counter_of(&self, registry: Seq<u8>) -> u64 {
        self@.registries[registry].state.id_counter
    }

    open spec fn record_of(&self, registry: Seq<u8>, name: Seq<char>, id: u64) -> Option<
        EmployeeRecord,
    > {
        embedded_record(self@, registry, id)
    }

    open spec fn add_refusal(
        &self,
        registry: Seq<u8>,
        caller: Seq<u8>,
        salary: u64,
        name: Seq<char>,
        wallet: Seq<u8>,
    ) -> Option<PayrollError> {
        refusal(ledger_add_employee_spec(self@, registry, caller, salary, name, wallet).1)
    }

    open spec fn after_add(
        &self,
        registry: Seq<u8>,
        caller: Seq<u8>,
        salary: u64,
        name: Seq<char>,
        wallet: Seq<u8>,
    ) -> EmbeddedLedgerView {
        ledger_add_employee_spec(self@, registry, caller, salary, name, wallet).0
    }

    open spec fn remove_refusal(
        &self,
        registry: Seq<u8>,
        caller: Seq<u8>,
        caller_lamports: u64,
        name: Seq<char>,
        id: u64,
    ) -> Option<PayrollError> {
        refusal(ledger_remove_employee_spec(self@, registry, caller, id).1)
    }

    open spec fn after_remove(
        &self,
        registry: Seq<u8>,
        caller: Seq<u8>,
        caller_lamports: u64,
        name: Seq<char>,
        id: u64,
    ) -> EmbeddedLedgerView {
        ledger_remove_employee_spec(self@, registry, caller, id).0
    }

    /// An embedded record has no storage of its own: nothing is credited.
    open spec fn remove_credit(&self, registry: Seq<u8>, name: Seq<char>, id: u64) -> u64 {
        0
    }

    open spec fn update_refusal(
        &self,
        registry: Seq<u8>,
        caller: Seq<u8>,
        name: Seq<char>,
        id: u64,
        salary: u64,
    ) -> Option<PayrollError> {
        refusal(ledger_update_salary_spec(self@, registry, caller, id, salary).1)
    }

    open spec fn after_update_salary(
        &self,
        registry: Seq<u8>,
        caller: Seq<u8>,
        name: Seq<char>,
        id: u64,
        salary: u64,
    ) -> EmbeddedLedgerView {
        ledger_update_salary_spec(self@, registry, caller, id, salary).0
    }

    fn add(
        &mut self,
        registry: &Identity,
        caller: &Identity,
        salary: u64,
        name: String,
        wallet: &Identity,
    ) -> (r: Result<u64, PayrollError>) {
        let r = self.add_employee(registry, caller, salary, name, wallet);
        proof {
            if r is Ok && old(self)@.wf() {
                let before = old(self)@.registries[registry@].state;
                let after = final(self)@.registries[registry@].state.employees;
                let last = after.len() - 1;
                assert(after[last].employee_id == r->Ok_0);
                assert forall|j: int| 0 <= j < last implies (#[trigger] after[j]).employee_id
                    != r->Ok_0 by {
                    assert(before.employees[j].employee_id <= before.id_counter);
                }
                lemma_first_with_id_unique(after, r->Ok_0, last);
            }
        }
        r
    }

    fn remove(
        &mut self,
        registry: &Identity,
        caller: &mut Wallet,
        name: &str,
        employee_id: u64,
    ) -> (r: Result<(), PayrollError>) {
        let key = caller.key;
        let r = self.remove_employee(registry, &key, employee_id);
        proof {
            if r is Ok && old(self)@.wf() {
                law_update_after_remove_not_found(
                    old(self)@.registries[registry@],
                    key@,
                    employee_id,
                    Seq::<Call>::empty(),
                    0,
                );
            }
        }
        r
    }

    fn update_salary(
        &mut self,
        registry: &Identity,
        caller: &Identity,
        name: &str,
        employee_id: u64,
        new_salary: u64,
    ) -> (r: Result<(), PayrollError>) {
        let r = EmbeddedLedger::update_salary(self, registry, caller, employee_id, new_salary);
        proof {
            if r is Ok {
                let before = old(self)@.registries[registry@].state.employees;
                let after = final(self)@.registries[registry@].state.employees;
                let i = index_of_id(before, employee_id);
                lemma_has_id_first(before, employee_id);
                assert(is_first_with_id(after, employee_id, i)) by {
                    assert forall|j: int| 0 <= j < i implies (#[trigger] after[j]).employee_id
                        != employee_id by {
                        assert(before[j].employee_id != employee_id);
                    }
                }
                lemma_first_with_id_unique(after, employee_id, i);
            }
        }
        r
    }
}

impl EmployeeDirectory for DiscreteLedger {
    /// Entries are told apart by their addresses: nothing is needed.
    open spec fn wf(&self) -> bool {
        true
    }

    open spec fn admin_of(&self, registry: Seq<u8>) -> Option<Seq<u8>> {
        if self@.resolves(registry) {
            Some(self@.registries[registry].state.admin)
        } else {
            None
        }
    }

    open spec fn counter_of(&self, registry: Seq<u8>) -> u64 {
        self@.registries[registry].state.id_counter as u64
    }

    open spec fn record_of(&self, registry: Seq<u8>, name: Seq<char>, id: u64) -> Option<
        EmployeeRecord,
    > {
        discrete_record(self@, name, id)
    }

    open spec fn add_refusal(
        &self,
        registry: Seq<u8>,
        caller: Seq<u8>,
        salary: u64,
        name: Seq<char>,
        wallet: Seq<u8>,
    ) -> Option<PayrollError> {
        refusal(
            crate::discrete_ledger::ledger_add_employee_spec(
                self@,
                registry,
                caller,
                salary,
                name,
                wallet,
                0,
            ).1,
        )
    }

    open spec fn after_add(
        &self,
        registry: Seq<u8>,
        caller: Seq<u8>,
        salary: u64,
        name: Seq<char>,
        wallet: Seq<u8>,
    ) -> DiscreteLedgerView {
        crate::discrete_ledger::ledger_add_employee_spec(
            self@,
            registry,
            caller,
            salary,
            name,
            wallet,
            0,
        ).0
    }

    open spec fn remove_refusal(
        &self,
        registry: Seq<u8>,
        caller: Seq<u8>,
        caller_lamports: u64,
        name: Seq<char>,
        id: u64,
    ) -> Option<PayrollError> {
        refusal(
            remove_employee_at_spec(
                self@,
                registry,
                discrete_entry(self@, name, id),
                caller,
                caller_lamports,
            ).2,
        )
    }

    open spec fn after_remove(
        &self,
        registry: Seq<u8>,
        caller: Seq<u8>,
        caller_lamports: u64,
        name: Seq<char>,
        id: u64,
    ) -> DiscreteLedgerView {
        remove_employee_at_spec(
            self@,
            registry,
            discrete_entry(self@, name, id),
            caller,
            caller_lamports,
        ).0
    }

    open spec fn remove_credit(&self, registry: Seq<u8>, name: Seq<char>, id: u64) -> u64 {
        match discrete_entry(self@, name, id) {
            Some(key) => if self@.resolves_entry(key) {
                self@.employees[key].lamports
            } else {
                0
            },
            None => 0,
        }
    }

    open spec fn update_refusal(
        &self,
        registry: Seq<u8>,
        caller: Seq<u8>,
        name: Seq<char>,
        id: u64,
        salary: u64,
    ) -> Option<PayrollError> {
        refusal(
            update_salary_at_spec(self@, registry, discrete_entry(self@, name, id), caller, salary).1,
        )
    }

    open spec fn after_update_salary(
        &self,
        registry: Seq<u8>,
        caller: Seq<u8>,
        name: Seq<char>,
        id: u64,
        salary: u64,
    ) -> DiscreteLedgerView {
        update_salary_at_spec(self@, registry, discrete_entry(self@, name, id), caller, salary).0
    }

    /// The new entry's storage is created without a balance.
    fn add(
        &mut self,
        registry: &Identity,
        caller: &Identity,
        salary: u64,
        name: String,
        wallet: &Identity,
    ) -> (r: Result<u64, PayrollError>) {
        match self.add_employee(registry, caller, salary, name, wallet, 0) {
            Ok(id) => Ok(id as u64),
            Err(e) => Err(e),
        }
    }

    fn remove(
        &mut self,
        registry: &Identity,
        caller: &mut Wallet,
        name: &str,
        employee_id: u64,
    ) -> (r: Result<(), PayrollError>) {
        let entry = if employee_id > u32::MAX as u64 {
            None
        } else {
            self.entry_address(name, employee_id as u32)
        };
        self.remove_employee_at(registry, entry, caller)
    }

    fn update_salary(
        &mut self,
        registry: &Identity,
        caller: &Identity,
        name: &str,
        employee_id: u64,
        new_salary: u64,
    ) -> (r: Result<(), PayrollError>) {
        let entry = if employee_id > u32::MAX as u64 {
            None
        } else {
            self.entry_address(name, employee_id as u32)
        };
        self.update_salary_at(registry, entry, caller, new_salary)
    }
}

} // verus!
