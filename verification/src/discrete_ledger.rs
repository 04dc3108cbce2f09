//! Discrete registries and their employee entries in storage.
//!
//! A registry sits at the address derived from its title and admin; an
//! employee entry sits at the address derived from the employee's name and
//! the counter of the registry as it stood when the entry was created, which
//! is one less than the employee's id. An entry's address does not name its
//! registry: the same name under the same counter value meets the same
//! address in every registry of the program, and whoever comes second is
//! refused with `AlreadyExists`. For the same reason an entry answers to the
//! admin of whichever registry it is named with.
//!
//! Every operation first resolves the addresses, then runs the operation of
//! `discrete`, and stores the outcome. A failed operation leaves the ledger as
//! it was.

use crate::address::{
    employee_address, employee_seeds_spec, key_view, option_view, registry_address,
    registry_seeds_spec, storage_key, text_bytes, MAX_SEED_LEN,
};
use crate::discrete::{
    add_employee_spec, close_spec, fresh_state, remove_employee_spec, update_salary_spec,
    AddEmployee, CloseSolanaPayroll, Employee, EmployeeAccount, EmployeeAccountView, EmployeeView,
    InitializeSolanaPayroll, PayrollAccount, PayrollAccountView, PayrollState, RemoveEmployee,
    UpdateSalary,
};
use crate::error::PayrollError;
use crate::guard::require_admin;
use crate::identity::{Identity, Wallet};
use crate::store::Store;
use vstd::prelude::*;

verus! {

/// The registries and employee entries of one program, by address.
pub struct DiscreteLedger {
    program: Identity,
    registries: Store<PayrollAccount>,
    employees: Store<EmployeeAccount>,
}

/// What a ledger holds.
pub struct DiscreteLedgerView {
    pub program: Seq<u8>,
    pub registries: Map<Seq<u8>, PayrollAccountView>,
    pub employees: Map<Seq<u8>, EmployeeAccountView>,
}

impl DiscreteLedgerView {
    /// Whether a registry is stored at `key`.
    pub open spec fn resolves(self, key: Seq<u8>) -> bool {
        self.registries.dom().contains(key)
    }

    /// Whether an employee entry is stored at `key`.
    pub open spec fn resolves_entry(self, key: Seq<u8>) -> bool {
        self.employees.dom().contains(key)
    }

    /// The ledger with `registry` stored at `key`.
    pub open spec fn with_registry(self, key: Seq<u8>, registry: PayrollAccountView) -> Self {
        DiscreteLedgerView { registries: self.registries.insert(key, registry), ..self }
    }

    /// The ledger with no registry stored at `key`.
    pub open spec fn without_registry(self, key: Seq<u8>) -> Self {
        DiscreteLedgerView { registries: self.registries.remove(key), ..self }
    }

    /// The ledger with `entry` stored at `key`.
    pub open spec fn with_entry(self, key: Seq<u8>, entry: EmployeeAccountView) -> Self {
        DiscreteLedgerView { employees: self.employees.insert(key, entry), ..self }
    }

    /// The ledger with no employee entry stored at `key`.
    pub open spec fn without_entry(self, key: Seq<u8>) -> Self {
        DiscreteLedgerView { employees: self.employees.remove(key), ..self }
    }
}

/// The bytes of the identity that is all zeroes.
pub open spec fn zero_key() -> Seq<u8> {
    Seq::new(32, |i: int| 0u8)
}

/// The account that the host allots to a new employee entry, funded with
/// `lamports`.
pub open spec fn allotted_entry(lamports: u64) -> EmployeeAccountView {
    EmployeeAccountView {
        lamports,
        state: EmployeeView { employee_id: 0, salary: 0, name: Seq::empty(), pubkey: zero_key() },
    }
}

/// The address of the entry of the employee `name` with `id`: derived from
/// the name and the counter as it stood before `id` was assigned.
pub open spec fn entry_key(name: Seq<char>, id: u32, program: Seq<u8>) -> Option<Seq<u8>> {
    if id == 0 {
        None
    } else {
        storage_key(employee_seeds_spec(name, (id - 1) as u32), program)
    }
}

/// What creating a registry at `key` makes of a ledger.
pub open spec fn initialize_at_spec(
    ledger: DiscreteLedgerView,
    key: Seq<u8>,
    admin: Seq<u8>,
    title: Seq<char>,
    lamports: u64,
) -> (DiscreteLedgerView, Result<(), PayrollError>) {
    if ledger.resolves(key) {
        (ledger, Err(PayrollError::AlreadyExists))
    } else {
        (
            ledger.with_registry(
                key,
                PayrollAccountView { lamports, state: fresh_state(admin, title) },
            ),
            Ok(()),
        )
    }
}

/// What `initialize` makes of a ledger: the ledger after the call, and the
/// new registry's address or the reason that none was created.
pub open spec fn initialize_spec(
    ledger: DiscreteLedgerView,
    admin: Seq<u8>,
    title: Seq<char>,
    lamports: u64,
) -> (DiscreteLedgerView, Result<Seq<u8>, PayrollError>) {
    match storage_key(registry_seeds_spec(title, admin), ledger.program) {
        None => (ledger, Err(PayrollError::InvalidSeeds)),
        Some(key) => {
            let (next, r) = initialize_at_spec(ledger, key, admin, title, lamports);
            match r {
                Ok(_) => (next, Ok(key)),
                Err(e) => (next, Err(e)),
            }
        },
    }
}

/// What adding an employee with its entry at `entry` makes of a ledger.
pub open spec fn add_employee_at_spec(
    ledger: DiscreteLedgerView,
    key: Seq<u8>,
    entry: Seq<u8>,
    caller: Seq<u8>,
    salary: u64,
    name: Seq<char>,
    wallet: Seq<u8>,
    lamports: u64,
) -> (DiscreteLedgerView, Result<u32, PayrollError>) {
    let (registry, record, r) = add_employee_spec(
        ledger.registries[key],
        allotted_entry(lamports),
        caller,
        salary,
        name,
        wallet,
    );
    if !ledger.resolves(key) {
        (ledger, Err(PayrollError::NotFound))
    } else if caller != ledger.registries[key].state.admin {
        (ledger, Err(PayrollError::Unauthorized))
    } else if ledger.resolves_entry(entry) {
        (ledger, Err(PayrollError::AlreadyExists))
    } else if r is Err {
        (ledger, r)
    } else {
        (ledger.with_registry(key, registry).with_entry(entry, record), r)
    }
}

/// What `add_employee` makes of a ledger.
pub open spec fn ledger_add_employee_spec(
    ledger: DiscreteLedgerView,
    key: Seq<u8>,
    caller: Seq<u8>,
    salary: u64,
    name: Seq<char>,
    wallet: Seq<u8>,
    lamports: u64,
) -> (DiscreteLedgerView, Result<u32, PayrollError>) {
    if !ledger.resolves(key) {
        (ledger, Err(PayrollError::NotFound))
    } else if caller != ledger.registries[key].state.admin {
        (ledger, Err(PayrollError::Unauthorized))
    } else {
        match storage_key(
            employee_seeds_spec(name, ledger.registries[key].state.id_counter),
            ledger.program,
        ) {
            None => (ledger, Err(PayrollError::InvalidSeeds)),
            Some(entry) => add_employee_at_spec(
                ledger,
                key,
                entry,
                caller,
                salary,
                name,
                wallet,
                lamports,
            ),
        }
    }
}

/// What setting the salary in the entry at `entry` makes of a ledger; `None`
/// stands for an entry whose address cannot be derived.
pub open spec fn update_salary_at_spec(
    ledger: DiscreteLedgerView,
    key: Seq<u8>,
    entry: Option<Seq<u8>>,
    caller: Seq<u8>,
    salary: u64,
) -> (DiscreteLedgerView, Result<(), PayrollError>) {
    if !ledger.resolves(key) {
        (ledger, Err(PayrollError::NotFound))
    } else if caller != ledger.registries[key].state.admin {
        (ledger, Err(PayrollError::Unauthorized))
    } else if entry is None || !ledger.resolves_entry(entry->0) {
        (ledger, Err(PayrollError::NotFound))
    } else {
        let (record, r) = update_salary_spec(
            ledger.registries[key],
            ledger.employees[entry->0],
            caller,
            salary,
        );
        (ledger.with_entry(entry->0, record), r)
    }
}

/// What removing the employee whose entry is at `entry` makes of a ledger and
/// of the admin's balance; `None` stands for an entry whose address cannot be
/// derived.
pub open spec fn remove_employee_at_spec(
    ledger: DiscreteLedgerView,
    key: Seq<u8>,
    entry: Option<Seq<u8>>,
    caller: Seq<u8>,
    caller_lamports: u64,
) -> (DiscreteLedgerView, u64, Result<(), PayrollError>) {
    if !ledger.resolves(key) {
        (ledger, caller_lamports, Err(PayrollError::NotFound))
    } else if caller != ledger.registries[key].state.admin {
        (ledger, caller_lamports, Err(PayrollError::Unauthorized))
    } else if entry is None || !ledger.resolves_entry(entry->0) {
        (ledger, caller_lamports, Err(PayrollError::NotFound))
    } else {
        let (registry, record, credited, r) = remove_employee_spec(
            ledger.registries[key],
            ledger.employees[entry->0],
            caller,
            caller_lamports,
        );
        if r is Ok {
            (ledger.with_registry(key, registry).without_entry(entry->0), credited, r)
        } else {
            (ledger, caller_lamports, r)
        }
    }
}

/// What `close_payroll_account` makes of a ledger and of the admin's balance.
pub open spec fn ledger_close_spec(
    ledger: DiscreteLedgerView,
    key: Seq<u8>,
    caller: Seq<u8>,
    caller_lamports: u64,
) -> (DiscreteLedgerView, u64, Result<u64, PayrollError>) {
    if !ledger.resolves(key) {
        (ledger, caller_lamports, Err(PayrollError::NotFound))
    } else {
        let (registry, credited, r) = close_spec(ledger.registries[key], caller, caller_lamports);
        if r is Ok {
            (ledger.without_registry(key), credited, r)
        } else {
            (ledger, caller_lamports, r)
        }
    }
}

impl View for DiscreteLedger {
    type V = DiscreteLedgerView;

    closed spec fn view(&self) -> DiscreteLedgerView {
        DiscreteLedgerView {
            program: self.program@,
            registries: self.registries@.map_values(|account: PayrollAccount| account@),
            employees: self.employees@.map_values(|account: EmployeeAccount| account@),
        }
    }
}

impl DiscreteLedger {
    /// An empty ledger for the program `program`.
    pub fn new(program: Identity) -> (ledger: DiscreteLedger)
        ensures
            ledger@.program == program@,
            ledger@.registries == Map::<Seq<u8>, PayrollAccountView>::empty(),
            ledger@.employees == Map::<Seq<u8>, EmployeeAccountView>::empty(),
    {
        let ledger = DiscreteLedger { program, registries: Store::new(), employees: Store::new() };
        ledger
    }

    /// The program whose registries the ledger holds.
    pub fn program(&self) -> (program: Identity)
        ensures
            program@ == self@.program,
    {
        self.program
    }

    /// The address of the registry titled `title` under `admin`, where one
    /// can be derived.
    pub fn registry_address(&self, title: &str, admin: &Identity) -> (key: Option<Identity>)
        ensures
            key.is_some() == storage_key(
                registry_seeds_spec(title@, admin@),
                self@.program,
            ).is_some(),
            key matches Some(k) ==> storage_key(registry_seeds_spec(title@, admin@), self@.program)
                == Some(k@),
    {
        registry_address(title, admin, &self.program)
    }

    /// The registry stored at `registry`, if there is one.
    pub fn registry(&self, registry: &Identity) -> (found: Option<&PayrollAccount>)
        ensures
            found is Some == self@.resolves(registry@),
            found matches Some(account) ==> account@ == self@.registries[registry@],
    {
        self.registries.get(registry)
    }

    /// The employee entry stored at `entry`, if there is one.
    pub fn employee(&self, entry: &Identity) -> (found: Option<&EmployeeAccount>)
        ensures
            found is Some == self@.resolves_entry(entry@),
            found matches Some(account) ==> account@ == self@.employees[entry@],
    {
        self.employees.get(entry)
    }

    /// The address of the entry of the employee `name` with `employee_id`,
    /// where one can be derived.
    pub fn entry_address(&self, name: &str, employee_id: u32) -> (key: Option<Identity>)
        ensures
            key.is_some() == entry_key(name@, employee_id, self@.program).is_some(),
            key matches Some(k) ==> entry_key(name@, employee_id, self@.program) == Some(k@),
    {
        if employee_id == 0 {
            None
        } else {
            employee_address(name, employee_id - 1, &self.program)
        }
    }

    /// Stores `account` at the free address `key`.
    fn store_registry(&mut self, key: Identity, account: PayrollAccount)
        requires
            !old(self)@.resolves(key@),
        ensures
            final(self)@ == old(self)@.with_registry(key@, account@),
    {
        let refused = self.registries.put(key, account);
        assert(final(self)@.registries =~= old(self)@.registries.insert(key@, account@));
    }

    /// Takes the registry at `key` out of storage.
    fn load_registry(&mut self, key: &Identity) -> (found: Option<PayrollAccount>)
        ensures
            found is Some == old(self)@.resolves(key@),
            found matches Some(account) ==> account@ == old(self)@.registries[key@] && final(self)@
                == old(self)@.without_registry(key@),
            found is None ==> final(self)@ == old(self)@,
    {
        let found = self.registries.take(key);
        assert(found is Some ==> final(self)@.registries =~= old(self)@.registries.remove(key@));
        found
    }

    /// Stores `account` at the free address `key`.
    fn store_entry(&mut self, key: Identity, account: EmployeeAccount)
        requires
            !old(self)@.resolves_entry(key@),
        ensures
            final(self)@ == old(self)@.with_entry(key@, account@),
    {
        let refused = self.employees.put(key, account);
        assert(final(self)@.employees =~= old(self)@.employees.insert(key@, account@));
    }

    /// Takes the employee entry at `key` out of storage.
    fn load_entry(&mut self, key: &Identity) -> (found: Option<EmployeeAccount>)
        ensures
            found is Some == old(self)@.resolves_entry(key@),
            found matches Some(account) ==> account@ == old(self)@.employees[key@] && final(self)@
                == old(self)@.without_entry(key@),
            found is None ==> final(self)@ == old(self)@,
    {
        let found = self.employees.take(key);
        assert(found is Some ==> final(self)@.employees =~= old(self)@.employees.remove(key@));
        found
    }

    /// Creates the registry titled `title` under `admin` at `key`, funded
    /// with `lamports`. Fails with `AlreadyExists` where `key` is taken.
    pub fn initialize_at(
        &mut self,
        key: Identity,
        admin: Identity,
        title: String,
        lamports: u64,
    ) -> (r: Result<(), PayrollError>)
        ensures
            (final(self)@, r) == initialize_at_spec(old(self)@, key@, admin@, title@, lamports),
    {
        if self.registries.contains(&key) {
            return Err(PayrollError::AlreadyExists);
        }
        let account = PayrollAccount {
            lamports,
            state: PayrollState {
                id_counter: 0,
                admin: Identity::new([0u8; 32]),
                title: String::new(),
                employees: Vec::new(),
            },
        };
        let mut ctx = InitializeSolanaPayroll { solana_payroll: account, admin };
        let r = crate::discrete::initialize_payroll(&mut ctx, title);
        self.store_registry(key, ctx.solana_payroll);
        r
    }

    /// Creates the registry titled `title` under `admin`, funded with
    /// `lamports`, at the address derived from the title and the admin, and
    /// returns that address. Fails with `InvalidSeeds` where the two admit no
    /// address, with `AlreadyExists` where the address is taken.
    pub fn initialize(&mut self, admin: Identity, title: String, lamports: u64) -> (r: Result<
        Identity,
        PayrollError,
    >)
        ensures
            (final(self)@, key_view(r)) == initialize_spec(old(self)@, admin@, title@, lamports),
            text_bytes(title@).len() > MAX_SEED_LEN ==> r == Err::<Identity, PayrollError>(
                PayrollError::InvalidSeeds,
            ),
    {
        let key = match registry_address(title.as_str(), &admin, &self.program) {
            Some(key) => key,
            None => {
                return Err(PayrollError::InvalidSeeds);
            },
        };
        match self.initialize_at(key, admin, title, lamports) {
            Ok(()) => Ok(key),
            Err(e) => Err(e),
        }
    }

    /// Adds an employee to the registry at `registry`, with the employee's
    /// entry at `entry`, funded with `lamports`, and returns the id assigned.
    /// Fails with `NotFound` where no registry is stored there, with
    /// `Unauthorized` where the caller is not its admin, with `AlreadyExists`
    /// where `entry` is taken (nothing is overwritten), with
    /// `CapacityExceeded` where the counter is spent.
    pub fn add_employee_at(
        &mut self,
        registry: &Identity,
        entry: Identity,
        caller: &Identity,
        salary: u64,
        name: String,
        wallet: &Identity,
        lamports: u64,
    ) -> (r: Result<u32, PayrollError>)
        ensures
            (final(self)@, r) == add_employee_at_spec(
                old(self)@,
                registry@,
                entry@,
                caller@,
                salary,
                name@,
                wallet@,
                lamports,
            ),
    {
        let taken = self.employees.contains(&entry);
        let account = match self.load_registry(registry) {
            Some(account) => account,
            None => {
                return Err(PayrollError::NotFound);
            },
        };
        let zero = Identity::new([0u8; 32]);
        assert(zero@ =~= zero_key());
        let blank = EmployeeAccount {
            lamports,
            state: Employee { employee_id: 0, salary: 0, name: String::new(), pubkey: zero },
        };
        let mut ctx = AddEmployee { employee: blank, solana_payroll: account, admin: *caller };
        let r = if require_admin(&ctx.solana_payroll.state.admin, caller).is_err() {
            Err(PayrollError::Unauthorized)
        } else if taken {
            Err(PayrollError::AlreadyExists)
        } else {
            crate::discrete::add_employee(&mut ctx, salary, name, *wallet)
        };
        self.store_registry(*registry, ctx.solana_payroll);
        if r.is_ok() {
            self.store_entry(entry, ctx.employee);
            assert(final(self)@.registries =~= old(self)@.with_registry(
                registry@,
                ctx.solana_payroll@,
            ).registries);
        } else {
            assert(final(self)@.registries =~= old(self)@.registries);
        }
        r
    }

    /// Adds an employee to the registry at `registry`: derives the address of
    /// the employee's entry from `name` and the registry's counter, creates
    /// the entry there, funded with `lamports`, and returns the id assigned.
    /// Fails as `add_employee_at` does, and with `InvalidSeeds` where the name
    /// admits no address.
    pub fn add_employee(
        &mut self,
        registry: &Identity,
        caller: &Identity,
        salary: u64,
        name: String,
        wallet: &Identity,
        lamports: u64,
    ) -> (r: Result<u32, PayrollError>)
        ensures
            (final(self)@, r) == ledger_add_employee_spec(
                old(self)@,
                registry@,
                caller@,
                salary,
                name@,
                wallet@,
                lamports,
            ),
            old(self)@.resolves(registry@) && caller@ == old(self)@.registries[registry@].state.admin
                && text_bytes(name@).len() > MAX_SEED_LEN ==> r == Err::<u32, PayrollError>(
                PayrollError::InvalidSeeds,
            ),
    {
        let counter: u32 = match self.registries.get(registry) {
            Some(account) => {
                if require_admin(&account.state.admin, caller).is_err() {
                    return Err(PayrollError::Unauthorized);
                }
                account.state.id_counter
            },
            None => {
                return Err(PayrollError::NotFound);
            },
        };
        let entry = match employee_address(name.as_str(), counter, &self.program) {
            Some(entry) => entry,
            None => {
                return Err(PayrollError::InvalidSeeds);
            },
        };
        self.add_employee_at(registry, entry, caller, salary, name, wallet, lamports)
    }

    /// Sets the salary in the employee entry at `entry`, on behalf of the
    /// registry at `registry`. Fails with `NotFound` where no registry is
    /// stored there, with `Unauthorized` where the caller is not its admin,
    /// with `NotFound` where `entry` is lacking or holds nothing.
    pub fn update_salary_at(
        &mut self,
        registry: &Identity,
        entry: Option<Identity>,
        caller: &Identity,
        new_salary: u64,
    ) -> (r: Result<(), PayrollError>)
        ensures
            (final(self)@, r) == update_salary_at_spec(
                old(self)@,
                registry@,
                option_view(entry),
                caller@,
                new_salary,
            ),
    {
        let account = match self.load_registry(registry) {
            Some(account) => account,
            None => {
                return Err(PayrollError::NotFound);
            },
        };
        if require_admin(&account.state.admin, caller).is_err() {
            self.store_registry(*registry, account);
            assert(final(self)@.registries =~= old(self)@.registries);
            return Err(PayrollError::Unauthorized);
        }
        let found = match entry {
            Some(at) => match self.load_entry(&at) {
                Some(record) => Some((at, record)),
                None => None,
            },
            None => None,
        };
        match found {
            Some((at, record)) => {
                let mut ctx = UpdateSalary {
                    employee: record,
                    solana_payroll: account,
                    admin: *caller,
                };
                let r = crate::discrete::update_salary(&mut ctx, new_salary);
                self.store_entry(at, ctx.employee);
                self.store_registry(*registry, ctx.solana_payroll);
                assert(final(self)@.registries =~= old(self)@.registries);
                assert(final(self)@.employees =~= old(self)@.with_entry(
                    at@,
                    ctx.employee@,
                ).employees);
                r
            },
            None => {
                self.store_registry(*registry, account);
                assert(final(self)@.registries =~= old(self)@.registries);
                Err(PayrollError::NotFound)
            },
        }
    }

    /// Sets the salary of the employee `name` with `employee_id`, whose entry
    /// is found at the address derived from the two. Fails as
    /// `update_salary_at` does.
    pub fn update_salary(
        &mut self,
        registry: &Identity,
        caller: &Identity,
        name: &str,
        employee_id: u32,
        new_salary: u64,
    ) -> (r: Result<(), PayrollError>)
        ensures
            (final(self)@, r) == update_salary_at_spec(
                old(self)@,
                registry@,
                entry_key(name@, employee_id, old(self)@.program),
                caller@,
                new_salary,
            ),
    {
        let entry = self.entry_address(name, employee_id);
        self.update_salary_at(registry, entry, caller, new_salary)
    }

    /// Removes the employee whose entry is at `entry`: the entry leaves
    /// storage, what it held goes to `admin`, and the employee's wallet leaves
    /// the registry's wallet list. Fails with `NotFound` where no registry is
    /// stored at `registry`, with `Unauthorized` where `admin` is not its
    /// admin, with `NotFound` where `entry` is lacking or holds nothing.
    pub fn remove_employee_at(
        &mut self,
        registry: &Identity,
        entry: Option<Identity>,
        admin: &mut Wallet,
    ) -> (r: Result<(), PayrollError>)
        ensures
            final(admin).key == old(admin).key,
            (final(self)@, final(admin).lamports, r) == remove_employee_at_spec(
                old(self)@,
                registry@,
                option_view(entry),
                old(admin).key@,
                old(admin).lamports,
            ),
    {
        let account = match self.load_registry(registry) {
            Some(account) => account,
            None => {
                return Err(PayrollError::NotFound);
            },
        };
        if require_admin(&account.state.admin, &admin.key).is_err() {
            self.store_registry(*registry, account);
            assert(final(self)@.registries =~= old(self)@.registries);
            return Err(PayrollError::Unauthorized);
        }
        let found = match entry {
            Some(at) => match self.load_entry(&at) {
                Some(record) => Some((at, record)),
                None => None,
            },
            None => None,
        };
        match found {
            Some((at, record)) => {
                let mut ctx = RemoveEmployee {
                    admin: *admin,
                    employee: record,
                    solana_payroll: account,
                };
                let r = crate::discrete::remove_employee(&mut ctx);
                self.store_registry(*registry, ctx.solana_payroll);
                if r.is_ok() {
                    admin.lamports = ctx.admin.lamports;
                    assert(final(self)@.registries =~= old(self)@.with_registry(
                        registry@,
                        ctx.solana_payroll@,
                    ).registries);
                } else {
                    self.store_entry(at, ctx.employee);
                    assert(final(self)@.registries =~= old(self)@.registries);
                    assert(final(self)@.employees =~= old(self)@.employees);
                }
                r
            },
            None => {
                self.store_registry(*registry, account);
                assert(final(self)@.registries =~= old(self)@.registries);
                Err(PayrollError::NotFound)
            },
        }
    }

    /// Removes the employee `name` with `employee_id`, whose entry is found at
    /// the address derived from the two. Fails as `remove_employee_at` does.
    pub fn remove_employee(
        &mut self,
        registry: &Identity,
        admin: &mut Wallet,
        name: &str,
        employee_id: u32,
    ) -> (r: Result<(), PayrollError>)
        ensures
            final(admin).key == old(admin).key,
            (final(self)@, final(admin).lamports, r) == remove_employee_at_spec(
                old(self)@,
                registry@,
                entry_key(name@, employee_id, old(self)@.program),
                old(admin).key@,
                old(admin).lamports,
            ),
    {
        let entry = self.entry_address(name, employee_id);
        self.remove_employee_at(registry, entry, admin)
    }

    /// Closes the registry at `registry`: its balance goes to `admin`, the
    /// amount is returned, and the address no longer resolves, so that every
    /// later operation on it fails with `NotFound`. Only the registry's admin
    /// may close it.
    pub fn close_payroll_account(&mut self, registry: &Identity, admin: &mut Wallet) -> (r: Result<
        u64,
        PayrollError,
    >)
        ensures
            final(admin).key == old(admin).key,
            (final(self)@, final(admin).lamports, r) == ledger_close_spec(
                old(self)@,
                registry@,
                old(admin).key@,
                old(admin).lamports,
            ),
    {
        let account = match self.load_registry(registry) {
            Some(account) => account,
            None => {
                return Err(PayrollError::NotFound);
            },
        };
        let mut ctx = CloseSolanaPayroll { admin: *admin, solana_payroll: account };
        let r = crate::discrete::close_payroll_account(&mut ctx);
        if r.is_ok() {
            admin.lamports = ctx.admin.lamports;
        } else {
            self.store_registry(*registry, ctx.solana_payroll);
            assert(final(self)@.registries =~= old(self)@.registries);
        }
        r
    }
}

} // verus!
