//! Attempts of workers.

use crate::ids::{random_uuid, uuid_text, uuid_to_text};
use vstd::prelude::*;

verus! {

/// The identity of an attempt of a worker.
#[derive(Clone, Copy, Debug, PartialEq, Eq, PartialOrd, Ord, Hash, Structural)]
pub struct WorkerAttemptId {
    pub value: u128,
}

impl WorkerAttemptId {
    /// A fresh random identity.
    pub fn new() -> (r: WorkerAttemptId)
        ensures
            r.value & 0xF000_C000_0000_0000_0000 == 0x4000_8000_0000_0000_0000,
    {
        WorkerAttemptId { value: random_uuid() }
    }

    /// The identity with the given bits.
    pub fn from_uuid(value: u128) -> (r: WorkerAttemptId)
        ensures
            r.value == value,
    {
        WorkerAttemptId { value }
    }

    /// The hyphenated text.
    pub fn to_text(&self) -> (r: String)
        ensures
            r@ == uuid_text(self.value),
    {
        uuid_to_text(self.value)
    }
}

impl Default for WorkerAttemptId {
    fn default() -> (r: WorkerAttemptId)
        ensures
            r.value & 0xF000_C000_0000_0000_0000 == 0x4000_8000_0000_0000_0000,
    {
        WorkerAttemptId::new()
    }
}

} // verus!
