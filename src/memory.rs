//! Associative memory from numeric addresses to values. An address is
//! scaled by `10^10` and rounded to a key, so that addresses computed along
//! different paths that agree to that precision name the same cell.
use crate::number::{is_finite, is_finite_bits, quantize_address, quantized};
use crate::value::UVal;
use std::collections::HashMap;
use vstd::prelude::*;

verus! {

broadcast use vstd::std_specs::hash::group_hash_axioms;

#[derive(Debug, Clone)]
pub struct MemorySystem {
    pub storage: HashMap<i64, UVal>,
}

impl MemorySystem {
    /// The stored values, by key.
    pub open spec fn view(&self) -> Map<i64, UVal> {
        self.storage@
    }

    pub fn new() -> (r: MemorySystem)
        ensures
            r@ == Map::<i64, UVal>::empty(),
    {
        MemorySystem { storage: HashMap::new() }
    }

    /// An independent copy of the store.
    pub fn duplicate(&self) -> (r: MemorySystem)
        ensures
            r@ == self@,
    {
        MemorySystem { storage: self.storage.clone() }
    }

    /// The value stored at address `addr`, if any; nothing for a non-finite
    /// address.
    pub open spec fn read_spec(&self, addr: u64) -> Option<UVal> {
        if is_finite_bits(addr) && self@.contains_key(quantized(addr)) {
            Some(self@[quantized(addr)])
        } else {
            None
        }
    }

    /// The value stored at address `addr`, if any; nothing for a non-finite
    /// address.
    pub fn read(&self, addr: u64) -> (r: Option<UVal>)
        ensures
            r == self.read_spec(addr),
    {
        if !is_finite(addr) {
            return None;
        }
        let key = quantize_address(addr);
        match self.storage.get(&key) {
            Some(v) => Some(v.duplicate()),
            None => None,
        }
    }

    /// Stores `v` at address `addr`, replacing what was there. Returns false,
    /// and stores nothing, when the address is not finite.
    pub fn write(&mut self, addr: u64, v: UVal) -> (r: bool)
        ensures
            r == is_finite_bits(addr),
            r ==> final(self)@ == old(self)@.insert(quantized(addr), v),
            !r ==> final(self)@ == old(self)@,
    {
        if !is_finite(addr) {
            return false;
        }
        let key = quantize_address(addr);
        self.storage.insert(key, v);
        true
    }
}

/// Reading a finite address right after writing `v` to it gives `v`.
pub proof fn law_write_then_read(before: MemorySystem, after: MemorySystem, addr: u64, v: UVal)
    requires
        is_finite_bits(addr),
        after@ == before@.insert(quantized(addr), v),
    ensures
        after.read_spec(addr) == Some(v),
{
}

} // verus!
