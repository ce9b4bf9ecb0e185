//! References to secrets. The secrets themselves are kept elsewhere.

use crate::ids::{random_uuid, uuid_text, uuid_to_text};
use vstd::prelude::*;

verus! {

/// The identity of a stored secret.
#[derive(Clone, Copy, Debug, PartialEq, Eq, PartialOrd, Ord, Hash, Structural)]
pub struct SecretRefId {
    pub value: u128,
}

impl SecretRefId {
    /// A fresh random identity.
    pub fn new() -> (r: SecretRefId)
        ensures
            r.value & 0xF000_C000_0000_0000_0000 == 0x4000_8000_0000_0000_0000,
    {
        SecretRefId { value: random_uuid() }
    }

    /// The identity with the given bits.
    pub fn from_uuid(value: u128) -> (r: SecretRefId)
        ensures
            r.value == value,
    {
        SecretRefId { value }
    }

    /// The hyphenated text.
    pub fn to_text(&self) -> (r: String)
        ensures
            r@ == uuid_text(self.value),
    {
        uuid_to_text(self.value)
    }
}

impl Default for SecretRefId {
    fn default() -> (r: SecretRefId)
        ensures
            r.value & 0xF000_C000_0000_0000_0000 == 0x4000_8000_0000_0000_0000,
    {
        SecretRefId::new()
    }
}

} // verus!
