//! The generational arena that owns nodes and buffers.
//!
//! Storage is `slotmap::SlotMap` keyed by `slotmap::DefaultKey`.
//!
//! A key travels through the verified code as its 64-bit form
//! (`KeyData::as_ffi`).  `KeyData::from_ffi` forces the version half of
//! the number to be odd, so the key that a number designates is the
//! key whose 64-bit form is `slot_key` of that number.

use vstd::prelude::*;
use slotmap::{DefaultKey, SlotMap};

verus! {

/// A generational arena of values of type `V`.
///
/// The `SlotMap` is kept behind this struct, which Verus sees as opaque:
/// each module that stores values in an arena names what the arena
/// holds and states every call it makes over that name.
#[verifier::external_body]
#[verifier::reject_recursive_types(V)]
pub struct Arena<V> {
    pub(crate) slots: SlotMap<DefaultKey, V>,
}

/// The 64-bit form of the arena key that the number `ffi` designates:
/// `from_ffi` keeps the low half (the slot index) and sets the lowest bit
/// of the high half (the version).
pub open spec fn slot_key(ffi: u64) -> u64 {
    ffi | 0x1_0000_0000u64
}

/// Every 64-bit form that an arena hands out is its own `slot_key`.
pub open spec fn is_slot_key(ffi: u64) -> bool {
    slot_key(ffi) == ffi
}

/// Setting the version bit twice is setting it once.
pub proof fn lemma_slot_key_idempotent(ffi: u64)
    ensures
        is_slot_key(slot_key(ffi)),
{
    assert((ffi | 0x1_0000_0000u64) | 0x1_0000_0000u64 == ffi | 0x1_0000_0000u64) by (bit_vector);
}

} // verus!
