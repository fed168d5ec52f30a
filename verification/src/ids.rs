//! Identifiers: UUIDs made at random, derived from a name, or read from
//! text.

use uuid::Uuid;
use vstd::prelude::*;

verus! {

/// `uuid::Uuid`, which the library carries through without looking
/// inside.
#[verifier::external_type_specification]
#[verifier::external_body]
pub struct ExUuid(Uuid);

/// `uuid::Error`, which says why a text is no UUID.
#[verifier::external_type_specification]
#[verifier::external_body]
pub struct ExUuidError(uuid::Error);

/// `Uuid` is `Copy` and its `Clone` is derived: a clone is the same
/// value.
pub assume_specification[ <Uuid as Clone>::clone ](id: &Uuid) -> (out: Uuid)
    ensures
        out == *id,
;

/// What `Uuid::new_v5` returns: the version 5 (SHA-1, name-based) UUID
/// of `name` within `namespace`.
pub uninterp spec fn v5_uuid(namespace: Uuid, name: Seq<u8>) -> Uuid;

/// What `Uuid::parse_str` makes of `input`: the UUID, or `None` where
/// the text is not one.
pub uninterp spec fn parsed_uuid(input: Seq<char>) -> Option<Uuid>;

/// A fresh random identifier.
///
/// Trusted: calls `Uuid::new_v4`, which draws from the operating system's
/// random number generator and panics where that gives no bytes; nothing
/// is claimed of the value.
#[verifier::external_body]
pub(crate) fn random_id() -> (id: Uuid) {
    Uuid::new_v4()
}

/// The identifier derived from `name` within `namespace`.
///
/// Trusted: calls `Uuid::new_v5`, which hashes the namespace's bytes and
/// the name with SHA-1; the contract only names the result, a function of
/// the two arguments.
#[verifier::external_body]
pub(crate) fn derived_id(namespace: &Uuid, name: &[u8]) -> (id: Uuid)
    ensures
        id == v5_uuid(*namespace, name@),
{
    Uuid::new_v5(namespace, name)
}

/// Reads a UUID from text.
///
/// Trusted: calls `Uuid::parse_str`; the contract names the outcome, a
/// function of the text: the UUID where the call succeeds, and `None`
/// where it returns an error.
#[verifier::external_body]
pub(crate) fn parse_id(input: &str) -> (out: Result<Uuid, uuid::Error>)
    ensures
        match out {
            Ok(id) => parsed_uuid(input@) == Some(id),
            Err(_) => parsed_uuid(input@) is None,
        },
{
    Uuid::parse_str(input)
}

} // verus!
