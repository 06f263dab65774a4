//! The memory that submission entries point into.
//!
//! A submission entry carries the address and length of a buffer. [`Memory`] holds the bytes
//! at the addresses that the submitting process has made available.
use std::collections::HashMap;

use vstd::prelude::*;

verus! {

broadcast use vstd::std_specs::hash::group_hash_axioms;

/// Whether the `len` bytes from `addr` on fit the address space.
pub open spec fn in_address_space(addr: int, len: int) -> bool {
    addr + len <= u64::MAX + 1
}

/// Whether a byte is available at each of the `len` addresses from `addr` on.
pub open spec fn mapped(bytes: Map<u64, u8>, addr: int, len: int) -> bool {
    &&& in_address_space(addr, len)
    &&& forall|a: u64| addr <= a < addr + len ==> #[trigger] bytes.contains_key(a)
}

/// The `len` bytes from `addr` on.
pub open spec fn loaded(bytes: Map<u64, u8>, addr: int, len: int) -> Seq<u8> {
    Seq::new(len as nat, |i: int| bytes[(addr + i) as u64])
}

/// The memory after `data` was put at `addr`: the data inside its range, the old bytes
/// elsewhere.
pub open spec fn stored(bytes: Map<u64, u8>, addr: int, data: Seq<u8>) -> Map<u64, u8> {
    Map::new(
        |a: u64| bytes.contains_key(a) || addr <= a < addr + data.len(),
        |a: u64|
            if addr <= a < addr + data.len() {
                data[a - addr]
            } else {
                bytes[a]
            },
    )
}

/// The bytes of a process's memory, by address.
pub struct Memory {
    bytes: HashMap<u64, u8>,
}

impl View for Memory {
    type V = Map<u64, u8>;

    closed spec fn view(&self) -> Map<u64, u8> {
        self.bytes@
    }
}

impl Memory {
    /// Creates a memory in which no address is available.
    pub fn new() -> (memory: Memory)
        ensures
            memory@ == Map::<u64, u8>::empty(),
    {
        Memory { bytes: HashMap::new() }
    }

    /// Puts `data` at `addr`, making its addresses available.
    pub fn store(&mut self, addr: u64, data: &[u8])
        requires
            in_address_space(addr as int, data@.len() as int),
        ensures
            final(self)@ == stored(old(self)@, addr as int, data@),
    {
        let mut i: usize = 0;
        assert(self@ =~= stored(old(self)@, addr as int, data@.take(0)));
        while i < data.len()
            invariant
                i <= data@.len(),
                in_address_space(addr as int, data@.len() as int),
                self@ == stored(old(self)@, addr as int, data@.take(i as int)),
            decreases data@.len() - i,
        {
            self.bytes.insert(addr + i as u64, data[i]);
            assert(self@ =~= stored(old(self)@, addr as int, data@.take(i + 1)));
            i = i + 1;
        }
        assert(data@.take(i as int) =~= data@);
    }

    /// Returns whether a byte is available at each of the `len` addresses from `addr` on.
    pub fn maps(&self, addr: u64, len: u32) -> (available: bool)
        ensures
            available == mapped(self@, addr as int, len as int),
    {
        if len == 0 {
            return true;
        }
        if (len - 1) as u64 > u64::MAX - addr {
            return false;
        }
        let mut i: u32 = 0;
        while i < len
            invariant
                i <= len,
                in_address_space(addr as int, len as int),
                forall|a: u64| addr <= a < addr + i ==> #[trigger] self@.contains_key(a),
            decreases len - i,
        {
            let at: u64 = addr + i as u64;
            if !self.bytes.contains_key(&at) {
                assert(!self@.contains_key(at));
                return false;
            }
            assert(self@.contains_key(at));
            i = i + 1;
        }
        true
    }

    /// Returns the `len` bytes from `addr` on.
    pub fn load(&self, addr: u64, len: u32) -> (data: Vec<u8>)
        requires
            mapped(self@, addr as int, len as int),
        ensures
            data@ == loaded(self@, addr as int, len as int),
    {
        let mut data: Vec<u8> = Vec::new();
        let mut i: u32 = 0;
        while i < len
            invariant
                i <= len,
                mapped(self@, addr as int, len as int),
                data@ == loaded(self@, addr as int, i as int),
            decreases len - i,
        {
            let at: u64 = addr + i as u64;
            assert(self@.contains_key(at));
            let byte: u8 = *self.bytes.get(&at).unwrap();
            data.push(byte);
            assert(data@ =~= loaded(self@, addr as int, i + 1));
            i = i + 1;
        }
        data
    }
}

} // verus!
