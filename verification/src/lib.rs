//! A payroll registry: an admin-controlled directory of employees and the
//! disbursement of one employee's salary from the registry's balance.
//!
//! A registry lives at a storage address derived from its title and its
//! admin's identity (`address`), and only that admin may change it (`guard`).
//! Two directory layouts are provided: `embedded` keeps the employee records
//! inline in the registry, `discrete` gives every employee an entry of its
//! own at a derived address. `embedded_ledger` and `discrete_ledger` keep the
//! registries of a program in storage (`store`) and run the operations on
//! them; both answer to the one contract of `directory`. What holds of the
//! operations whatever is asked of them is proved in `embedded_laws` and
//! `discrete_laws`.

pub mod address;
pub mod directory;
pub mod discrete;
pub mod discrete_laws;
pub mod discrete_ledger;
pub mod embedded;
pub mod embedded_laws;
pub mod embedded_ledger;
pub mod error;
pub mod guard;
pub mod identity;
pub mod store;
