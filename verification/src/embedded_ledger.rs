//! Embedded registries in storage: each at the address derived from its
//! title and admin, found again by that address alone.
//!
//! Every operation first resolves the registry's address, then runs the
//! operation of `embedded` on what it finds there, and stores the outcome.
//! A failed operation leaves the ledger as it was.

use crate::address::{
    key_view, registry_address, registry_seeds_spec, storage_key, text_bytes, MAX_SEED_LEN,
};
use crate::embedded::{
    add_employee_spec, close_spec, fresh_state, has_wallet, index_of_wallet,
    initialize_payroll_spec, process_payroll_spec, remove_employee_spec, update_salary_spec,
    AddEmployee, CloseSolanaPayroll, Employee, InitializeSolanaPayroll, PayrollAccount,
    PayrollAccountView, PayrollState, ProcessPayroll, RemoveEmployee, UpdateSalary, REGISTRY_SPACE,
};
use crate::error::PayrollError;
use crate::identity::{Identity, Wallet};
use crate::store::Store;
use vstd::prelude::*;

verus! {

/// The registries of one program, by address.
pub struct EmbeddedLedger {
    program: Identity,
    registries: Store<PayrollAccount>,
}

/// What a ledger holds.
pub struct EmbeddedLedgerView {
    pub program: Seq<u8>,
    pub registries: Map<Seq<u8>, PayrollAccountView>,
}

impl EmbeddedLedgerView {
    /// Whether a registry is stored at `key`.
    pub open spec fn resolves(self, key: Seq<u8>) -> bool {
        self.registries.dom().contains(key)
    }

    /// The ledger with `account` stored at `key`.
    pub open spec fn with_account(self, key: Seq<u8>, account: PayrollAccountView) -> Self {
        EmbeddedLedgerView { registries: self.registries.insert(key, account), ..self }
    }

    /// The ledger with nothing stored at `key`.
    pub open spec fn without(self, key: Seq<u8>) -> Self {
        EmbeddedLedgerView { registries: self.registries.remove(key), ..self }
    }

    /// Every stored registry is well formed.
    pub open spec fn wf(self) -> bool {
        forall|key: Seq<u8>| self.resolves(key) ==> (#[trigger] self.registries[key]).wf()
    }
}

/// The account that the host allots to a new registry, funded with
/// `lamports`.
pub open spec fn allotted(lamports: u64) -> PayrollAccountView {
    PayrollAccountView {
        lamports,
        space: REGISTRY_SPACE,
        state: fresh_state(Seq::new(32, |i: int| 0u8), Seq::empty()),
    }
}

/// What creating a registry at `key` makes of a ledger.
pub open spec fn initialize_at_spec(
    ledger: EmbeddedLedgerView,
    key: Seq<u8>,
    admin: Seq<u8>,
    title: Seq<char>,
    lamports: u64,
) -> (EmbeddedLedgerView, Result<(), PayrollError>) {
    let (account, r) = initialize_payroll_spec(allotted(lamports), admin, title);
    if ledger.resolves(key) {
        (ledger, Err(PayrollError::AlreadyExists))
    } else if r is Err {
        (ledger, r)
    } else {
        (ledger.with_account(key, account), Ok(()))
    }
}

/// What `initialize` makes of a ledger: the ledger after the call, and the
/// new registry's address or the reason that none was created.
pub open spec fn initialize_spec(
    ledger: EmbeddedLedgerView,
    admin: Seq<u8>,
    title: Seq<char>,
    lamports: u64,
) -> (EmbeddedLedgerView, Result<Seq<u8>, PayrollError>) {
    match storage_key(registry_seeds_spec(title, admin), ledger.program) {
        None => (ledger, Err(PayrollError::InvalidSeeds)),
        Some(key) => {
            let (next, r) = initialize_at_spec(ledger, key, admin, title, lamports);
            match r {
                Ok(_) => (next, Ok(key)),
                Err(e) => (next, Err(e)),
            }
        },
    }
}

/// What `add_employee` makes of a ledger.
pub open spec fn ledger_add_employee_spec(
    ledger: EmbeddedLedgerView,
    key: Seq<u8>,
    caller: Seq<u8>,
    salary: u64,
    name: Seq<char>,
    wallet: Seq<u8>,
) -> (EmbeddedLedgerView, Result<u64, PayrollError>) {
    if !ledger.resolves(key) {
        (ledger, Err(PayrollError::NotFound))
    } else {
        let (account, r) = add_employee_spec(ledger.registries[key], caller, salary, name, wallet);
        if r is Err {
            (ledger, r)
        } else {
            (ledger.with_account(key, account), r)
        }
    }
}

/// What `remove_employee` makes of a ledger.
pub open spec fn ledger_remove_employee_spec(
    ledger: EmbeddedLedgerView,
    key: Seq<u8>,
    caller: Seq<u8>,
    id: u64,
) -> (EmbeddedLedgerView, Result<(), PayrollError>) {
    if !ledger.resolves(key) {
        (ledger, Err(PayrollError::NotFound))
    } else {
        let (account, r) = remove_employee_spec(ledger.registries[key], caller, id);
        if r is Err {
            (ledger, r)
        } else {
            (ledger.with_account(key, account), r)
        }
    }
}

/// What `update_salary` makes of a ledger.
pub open spec fn ledger_update_salary_spec(
    ledger: EmbeddedLedgerView,
    key: Seq<u8>,
    caller: Seq<u8>,
    id: u64,
    salary: u64,
) -> (EmbeddedLedgerView, Result<(), PayrollError>) {
    if !ledger.resolves(key) {
        (ledger, Err(PayrollError::NotFound))
    } else {
        let (account, r) = update_salary_spec(ledger.registries[key], caller, id, salary);
        if r is Err {
            (ledger, r)
        } else {
            (ledger.with_account(key, account), r)
        }
    }
}

/// What `process_payroll` makes of a ledger and of the wallet to pay.
pub open spec fn ledger_process_payroll_spec(
    ledger: EmbeddedLedgerView,
    key: Seq<u8>,
    caller: Seq<u8>,
    wallet: Seq<u8>,
    wallet_lamports: u64,
) -> (EmbeddedLedgerView, u64, Result<u64, PayrollError>) {
    if !ledger.resolves(key) {
        (ledger, wallet_lamports, Err(PayrollError::NotFound))
    } else {
        let (account, credited, r) = process_payroll_spec(
            ledger.registries[key],
            caller,
            wallet,
            wallet_lamports,
        );
        if r is Err {
            (ledger, wallet_lamports, r)
        } else {
            (ledger.with_account(key, account), credited, r)
        }
    }
}

/// What `close` makes of a ledger and of the admin's balance.
pub open spec fn ledger_close_spec(
    ledger: EmbeddedLedgerView,
    key: Seq<u8>,
    caller: Seq<u8>,
    caller_lamports: u64,
) -> (EmbeddedLedgerView, u64, Result<u64, PayrollError>) {
    if !ledger.resolves(key) {
        (ledger, caller_lamports, Err(PayrollError::NotFound))
    } else {
        let (account, credited, r) = close_spec(ledger.registries[key], caller, caller_lamports);
        if r is Ok {
            (ledger.without(key), credited, r)
        } else {
            (ledger, caller_lamports, r)
        }
    }
}

impl View for EmbeddedLedger {
    type V = EmbeddedLedgerView;

    closed spec fn view(&self) -> EmbeddedLedgerView {
        EmbeddedLedgerView {
            program: self.program@,
            registries: self.registries@.map_values(|account: PayrollAccount| account@),
        }
    }
}

impl EmbeddedLedger {
    /// An empty ledger for the program `program`.
    pub fn new(program: Identity) -> (ledger: EmbeddedLedger)
        ensures
            ledger@.program == program@,
            ledger@.registries == Map::<Seq<u8>, PayrollAccountView>::empty(),
            ledger@.wf(),
    {
        let ledger = EmbeddedLedger { program, registries: Store::new() };
        ledger
    }

    /// The program whose registries the ledger holds.
    pub fn program(&self) -> (program: Identity)
        ensures
            program@ == self@.program,
    {
        self.program
    }

    /// The address of the registry titled `title` under `admin`, where one
    /// can be derived.
    pub fn registry_address(&self, title: &str, admin: &Identity) -> (key: Option<Identity>)
        ensures
            key.is_some() == storage_key(
                registry_seeds_spec(title@, admin@),
                self@.program,
            ).is_some(),
            key matches Some(k) ==> storage_key(registry_seeds_spec(title@, admin@), self@.program)
                == Some(k@),
    {
        registry_address(title, admin, &self.program)
    }

    /// The registry stored at `registry`, if there is one.
    pub fn registry(&self, registry: &Identity) -> (found: Option<&PayrollAccount>)
        ensures
            found is Some == self@.resolves(registry@),
            found matches Some(account) ==> account@ == self@.registries[registry@],
    {
        self.registries.get(registry)
    }

    /// The first record of the registry at `registry` that is paid to
    /// `wallet`, if the registry is stored and holds one.
    pub fn lookup_by_wallet(&self, registry: &Identity, wallet: &Identity) -> (found: Option<
        &Employee,
    >)
        ensures
            found is Some == (self@.resolves(registry@) && has_wallet(
                self@.registries[registry@].state.employees,
                wallet@,
            )),
            found matches Some(record) ==> ({
                let records = self@.registries[registry@].state.employees;
                record@ == records[index_of_wallet(records, wallet@)]
            }),
    {
        match self.registries.get(registry) {
            Some(account) => crate::embedded::lookup_by_wallet(&account.state, wallet),
            None => None,
        }
    }

    /// Stores `account` at the free address `key`.
    fn store(&mut self, key: Identity, account: PayrollAccount)
        requires
            !old(self)@.resolves(key@),
        ensures
            final(self)@ == old(self)@.with_account(key@, account@),
    {
        let refused = self.registries.put(key, account);
        assert(final(self)@.registries =~= old(self)@.registries.insert(key@, account@));
    }

    /// Takes the registry at `key` out of storage.
    fn load(&mut self, key: &Identity) -> (found: Option<PayrollAccount>)
        ensures
            found is Some == old(self)@.resolves(key@),
            found matches Some(account) ==> account@ == old(self)@.registries[key@],
            found is Some ==> final(self)@ == old(self)@.without(key@),
            found is None ==> final(self)@ == old(self)@,
    {
        let found = self.registries.take(key);
        assert(found is Some ==> final(self)@.registries =~= old(self)@.registries.remove(key@));
        found
    }

    /// Creates the registry titled `title` under `admin` at `key`, funded
    /// with `lamports`. Fails with `AlreadyExists` where `key` is taken.
    pub fn initialize_at(
        &mut self,
        key: Identity,
        admin: Identity,
        title: String,
        lamports: u64,
    ) -> (r: Result<(), PayrollError>)
        ensures
            (final(self)@, r) == initialize_at_spec(old(self)@, key@, admin@, title@, lamports),
            old(self)@.wf() ==> final(self)@.wf(),
    {
        if self.registries.contains(&key) {
            return Err(PayrollError::AlreadyExists);
        }
        let zero = Identity::new([0u8; 32]);
        let account = PayrollAccount {
            lamports,
            space: REGISTRY_SPACE,
            state: PayrollState {
                admin: zero,
                title: String::new(),
                id_counter: 0,
                employees: Vec::new(),
            },
        };
        assert(zero@ =~= Seq::new(32, |i: int| 0u8));
        assert(account@.state.employees =~= Seq::empty());
        let mut ctx = InitializeSolanaPayroll { solana_payroll: account, admin };
        match crate::embedded::initialize_payroll(&mut ctx, title) {
            Ok(()) => {
                self.store(key, ctx.solana_payroll);
                Ok(())
            },
            Err(e) => Err(e),
        }
    }

    /// Creates the registry titled `title` under `admin`, funded with
    /// `lamports`, at the address derived from the title and the admin, and
    /// returns that address. Fails with `InvalidSeeds` where the two admit no
    /// address, as where the title is longer than a seed may be, and with
    /// `AlreadyExists` where the address is taken: a second registry with the
    /// same title and admin cannot be created. It fails for no other reason.
    pub fn initialize(&mut self, admin: Identity, title: String, lamports: u64) -> (r: Result<
        Identity,
        PayrollError,
    >)
        ensures
            (final(self)@, key_view(r)) == initialize_spec(old(self)@, admin@, title@, lamports),
            text_bytes(title@).len() > MAX_SEED_LEN ==> r == Err::<Identity, PayrollError>(
                PayrollError::InvalidSeeds,
            ),
            r matches Err(e) ==> e == PayrollError::InvalidSeeds || e
                == PayrollError::AlreadyExists,
            old(self)@.wf() ==> final(self)@.wf(),
    {
        let key = match registry_address(title.as_str(), &admin, &self.program) {
            Some(key) => key,
            None => {
                return Err(PayrollError::InvalidSeeds);
            },
        };
        match self.initialize_at(key, admin, title, lamports) {
            Ok(()) => Ok(key),
            Err(e) => Err(e),
        }
    }

    /// Adds an employee to the registry at `registry`, as `embedded::add_employee`
    /// does, and returns the id assigned. Fails with `NotFound` where no
    /// registry is stored there.
    pub fn add_employee(
        &mut self,
        registry: &Identity,
        caller: &Identity,
        salary: u64,
        name: String,
        wallet: &Identity,
    ) -> (r: Result<u64, PayrollError>)
        ensures
            (final(self)@, r) == ledger_add_employee_spec(
                old(self)@,
                registry@,
                caller@,
                salary,
                name@,
                wallet@,
            ),
            old(self)@.wf() ==> final(self)@.wf(),
    {
        let account = match self.load(registry) {
            Some(account) => account,
            None => {
                return Err(PayrollError::NotFound);
            },
        };
        let mut ctx = AddEmployee { solana_payroll: account, admin: *caller, employee: *wallet };
        let r = crate::embedded::add_employee(&mut ctx, salary, name);
        self.store(*registry, ctx.solana_payroll);
        assert(final(self)@.registries =~= old(self)@.with_account(
            registry@,
            ctx.solana_payroll@,
        ).registries);
        assert(r is Err ==> final(self)@.registries =~= old(self)@.registries);
        r
    }

    /// Removes the employee with `employee_id` from the registry at
    /// `registry`, as `embedded::remove_employee` does. Fails with `NotFound`
    /// where no registry is stored there.
    pub fn remove_employee(&mut self, registry: &Identity, caller: &Identity, employee_id: u64) -> (r:
        Result<(), PayrollError>)
        ensures
            (final(self)@, r) == ledger_remove_employee_spec(
                old(self)@,
                registry@,
                caller@,
                employee_id,
            ),
            old(self)@.wf() ==> final(self)@.wf(),
    {
        let account = match self.load(registry) {
            Some(account) => account,
            None => {
                return Err(PayrollError::NotFound);
            },
        };
        let mut ctx = RemoveEmployee { solana_payroll: account, admin: *caller };
        let r = crate::embedded::remove_employee(&mut ctx, employee_id);
        self.store(*registry, ctx.solana_payroll);
        assert(final(self)@.registries =~= old(self)@.with_account(
            registry@,
            ctx.solana_payroll@,
        ).registries);
        assert(r is Err ==> final(self)@.registries =~= old(self)@.registries);
        r
    }

    /// Sets the salary of the employee with `employee_id` in the registry at
    /// `registry`, as `embedded::update_salary` does. Fails with `NotFound`
    /// where no registry is stored there.
    pub fn update_salary(
        &mut self,
        registry: &Identity,
        caller: &Identity,
        employee_id: u64,
        new_salary: u64,
    ) -> (r: Result<(), PayrollError>)
        ensures
            (final(self)@, r) == ledger_update_salary_spec(
                old(self)@,
                registry@,
                caller@,
                employee_id,
                new_salary,
            ),
            old(self)@.wf() ==> final(self)@.wf(),
    {
        let account = match self.load(registry) {
            Some(account) => account,
            None => {
                return Err(PayrollError::NotFound);
            },
        };
        let mut ctx = UpdateSalary { solana_payroll: account, admin: *caller };
        let r = crate::embedded::update_salary(&mut ctx, employee_id, new_salary);
        self.store(*registry, ctx.solana_payroll);
        assert(final(self)@.registries =~= old(self)@.with_account(
            registry@,
            ctx.solana_payroll@,
        ).registries);
        assert(r is Err ==> final(self)@.registries =~= old(self)@.registries);
        r
    }

    /// Pays the employee whose wallet is `employee` from the balance of the
    /// registry at `registry`, as `embedded::process_payroll` does, and
    /// returns the amount moved. Fails with `NotFound` where no registry is
    /// stored there.
    pub fn process_payroll(
        &mut self,
        registry: &Identity,
        caller: &Identity,
        employee: &mut Wallet,
    ) -> (r: Result<u64, PayrollError>)
        ensures
            final(employee).key == old(employee).key,
            (final(self)@, final(employee).lamports, r) == ledger_process_payroll_spec(
                old(self)@,
                registry@,
                caller@,
                old(employee).key@,
                old(employee).lamports,
            ),
            old(self)@.wf() ==> final(self)@.wf(),
    {
        let account = match self.load(registry) {
            Some(account) => account,
            None => {
                return Err(PayrollError::NotFound);
            },
        };
        let mut ctx = ProcessPayroll { solana_payroll: account, admin: *caller, employee: *employee };
        let r = crate::embedded::process_payroll(&mut ctx);
        employee.lamports = ctx.employee.lamports;
        self.store(*registry, ctx.solana_payroll);
        assert(final(self)@.registries =~= old(self)@.with_account(
            registry@,
            ctx.solana_payroll@,
        ).registries);
        assert(r is Err ==> final(self)@.registries =~= old(self)@.registries);
        r
    }

    /// Closes the registry at `registry`: its balance goes to `admin`, the
    /// amount is returned, and the address no longer resolves, so that every
    /// later operation on it fails with `NotFound`. Only the registry's admin
    /// may close it.
    pub fn close(&mut self, registry: &Identity, admin: &mut Wallet) -> (r: Result<
        u64,
        PayrollError,
    >)
        ensures
            final(admin).key == old(admin).key,
            (final(self)@, final(admin).lamports, r) == ledger_close_spec(
                old(self)@,
                registry@,
                old(admin).key@,
                old(admin).lamports,
            ),
            old(self)@.wf() ==> final(self)@.wf(),
    {
        let account = match self.load(registry) {
            Some(account) => account,
            None => {
                return Err(PayrollError::NotFound);
            },
        };
        let mut ctx = CloseSolanaPayroll { admin: *admin, solana_payroll: account };
        let r = crate::embedded::close(&mut ctx);
        if r.is_ok() {
            admin.lamports = ctx.admin.lamports;
        } else {
            self.store(*registry, ctx.solana_payroll);
            assert(final(self)@.registries =~= old(self)@.registries);
        }
        r
    }
}

} // verus!
