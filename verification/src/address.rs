//! Storage addresses derived from seeds.
//!
//! A registry or an employee entry is found again from the seeds it was
//! created with, without any index: the same seeds under the same program
//! always give the same address.

use crate::identity::Identity;
use anchor_lang::prelude::Pubkey;
use vstd::prelude::*;

verus! {

/// This many seeds, or more, admit no address: one of the sixteen places is
/// kept for the bump seed.
pub const MAX_SEEDS: usize = 16;

/// A seed longer than this admits no address.
pub const MAX_SEED_LEN: usize = 32;

/// What `Pubkey::try_find_program_address` returns for `seeds` under
/// `program`: the program address and its bump seed, or `None` where there is
/// none. It depends on the seeds and the program alone.
pub uninterp spec fn program_address(seeds: Seq<Seq<u8>>, program: Seq<u8>) -> Option<
    (Seq<u8>, u8),
>;

/// The storage key for `seeds` under `program`: the derived address without
/// its bump seed.
pub open spec fn storage_key(seeds: Seq<Seq<u8>>, program: Seq<u8>) -> Option<Seq<u8>> {
    match program_address(seeds, program) {
        Some((key, _)) => Some(key),
        None => None,
    }
}

/// The bytes that a text contributes to a seed or to the stored layout.
pub open spec fn text_bytes(text: Seq<char>) -> Seq<u8> {
    vstd::utf8::encode_utf8(text)
}

/// The seeds of a registry: its title, then its admin.
pub open spec fn registry_seeds_spec(title: Seq<char>, admin: Seq<u8>) -> Seq<Seq<u8>> {
    seq![text_bytes(title), admin]
}

/// The seeds of a discrete employee entry: the name, then the registry's
/// counter as it stood when the entry was created, in little-endian bytes.
pub open spec fn employee_seeds_spec(name: Seq<char>, counter: u32) -> Seq<Seq<u8>> {
    seq![text_bytes(name), vstd::bytes::spec_u32_to_le_bytes(counter)]
}

/// The seeds as byte sequences.
pub open spec fn seeds_view(seeds: Seq<Vec<u8>>) -> Seq<Seq<u8>> {
    Seq::new(seeds.len(), |i: int| seeds[i]@)
}

/// Whether one of the seeds is longer than a seed may be.
pub open spec fn has_long_seed(seeds: Seq<Seq<u8>>) -> bool {
    exists|i: int| 0 <= i < seeds.len() && (#[trigger] seeds[i]).len() > MAX_SEED_LEN
}

/// The view of a derivation result.
pub open spec fn found_view(found: Option<(Identity, u8)>) -> Option<(Seq<u8>, u8)> {
    match found {
        Some((key, bump)) => Some((key@, bump)),
        None => None,
    }
}

/// The view of an address that an operation returns, or of its failure.
pub open spec fn key_view<E>(r: Result<Identity, E>) -> Result<Seq<u8>, E> {
    match r {
        Ok(key) => Ok(key@),
        Err(e) => Err(e),
    }
}

/// The view of an address that may be lacking.
pub open spec fn option_view(key: Option<Identity>) -> Option<Seq<u8>> {
    match key {
        Some(k) => Some(k@),
        None => None,
    }
}

/// Calls `Pubkey::try_find_program_address`. Not proved, taken from that
/// function's source: the result is a function of the seeds and the program
/// alone, named `program_address`; and there is none for sixteen or more
/// seeds, nor where a seed is longer than 32 bytes.
#[verifier::external_body]
fn find_program_address(seeds: &Vec<Vec<u8>>, program: &Identity) -> (found: Option<
    (Identity, u8),
>)
    ensures
        found_view(found) == program_address(seeds_view(seeds@), program@),
        seeds_view(seeds@).len() >= MAX_SEEDS ==> found is None,
        has_long_seed(seeds_view(seeds@)) ==> found is None,
{
    let parts: Vec<&[u8]> = seeds.iter().map(|seed| seed.as_slice()).collect();
    match Pubkey::try_find_program_address(&parts, &Pubkey::new_from_array(program.bytes)) {
        Some((key, bump)) => Some((Identity { bytes: key.to_bytes() }, bump)),
        None => None,
    }
}

/// The bytes of `text`, owned.
pub fn text_to_bytes(text: &str) -> (bytes: Vec<u8>)
    ensures
        bytes@ == text_bytes(text@),
{
    let mut bytes: Vec<u8> = Vec::new();
    bytes.extend_from_slice(text.as_bytes());
    bytes
}

/// Builds the seeds of the registry titled `title` under `admin`.
pub fn registry_seeds(title: &str, admin: &Identity) -> (seeds: Vec<Vec<u8>>)
    ensures
        seeds_view(seeds@) == registry_seeds_spec(title@, admin@),
{
    let mut seeds: Vec<Vec<u8>> = Vec::new();
    seeds.push(text_to_bytes(title));
    seeds.push(admin.to_vec());
    seeds
}

/// Builds the seeds of the employee entry created for `name` while the
/// registry's counter stood at `counter`.
pub fn employee_seeds(name: &str, counter: u32) -> (seeds: Vec<Vec<u8>>)
    ensures
        seeds_view(seeds@) == employee_seeds_spec(name@, counter),
{
    let mut seeds: Vec<Vec<u8>> = Vec::new();
    seeds.push(text_to_bytes(name));
    seeds.push(vstd::bytes::u32_to_le_bytes(counter));
    seeds
}

/// Derives the storage key for `seeds` under `program`, together with the
/// bump seed that completes the seeds to that key. Both depend on the seeds
/// and the program alone; too many seeds, or one that is too long, give none.
pub fn derive_address_with_bump(seeds: &Vec<Vec<u8>>, program: &Identity) -> (found: Option<
    (Identity, u8),
>)
    ensures
        found_view(found) == program_address(seeds_view(seeds@), program@),
        seeds_view(seeds@).len() >= MAX_SEEDS ==> found is None,
        has_long_seed(seeds_view(seeds@)) ==> found is None,
{
    find_program_address(seeds, program)
}

/// Derives the storage key for `seeds` under `program`. The key depends on
/// the seeds and the program alone; too many seeds, or one that is too long,
/// give none.
pub fn derive_address(seeds: &Vec<Vec<u8>>, program: &Identity) -> (key: Option<Identity>)
    ensures
        key.is_some() == storage_key(seeds_view(seeds@), program@).is_some(),
        key matches Some(k) ==> storage_key(seeds_view(seeds@), program@) == Some(k@),
        seeds_view(seeds@).len() >= MAX_SEEDS ==> key is None,
        has_long_seed(seeds_view(seeds@)) ==> key is None,
{
    match derive_address_with_bump(seeds, program) {
        Some((key, _)) => Some(key),
        None => None,
    }
}

/// Derives the storage key of the registry titled `title` under `admin`.
pub fn registry_address(title: &str, admin: &Identity, program: &Identity) -> (key: Option<
    Identity,
>)
    ensures
        key.is_some() == storage_key(registry_seeds_spec(title@, admin@), program@).is_some(),
        key matches Some(k) ==> storage_key(registry_seeds_spec(title@, admin@), program@) == Some(
            k@,
        ),
        text_bytes(title@).len() > MAX_SEED_LEN ==> key is None,
{
    let seeds = registry_seeds(title, admin);
    assert(seeds_view(seeds@)[0] == text_bytes(title@));
    derive_address(&seeds, program)
}

/// Derives the storage key of the employee entry created for `name` while
/// the registry's counter stood at `counter`.
pub fn employee_address(name: &str, counter: u32, program: &Identity) -> (key: Option<Identity>)
    ensures
        key.is_some() == storage_key(employee_seeds_spec(name@, counter), program@).is_some(),
        key matches Some(k) ==> storage_key(employee_seeds_spec(name@, counter), program@) == Some(
            k@,
        ),
        text_bytes(name@).len() > MAX_SEED_LEN ==> key is None,
{
    let seeds = employee_seeds(name, counter);
    assert(seeds_view(seeds@)[0] == text_bytes(name@));
    derive_address(&seeds, program)
}

} // verus!
