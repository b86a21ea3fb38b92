//! Guest memory: the bytes of the guest's physical address space, reached by
//! guest physical address and never past their end.
//!
//! Everything the guest shares with the host lives here, and none of it is
//! trusted. Each access is checked against the size of the memory and fails,
//! rather than panics, where it does not fit. Multi-byte values are stored
//! little-endian, as virtio lays them out.

use vstd::prelude::*;
use vstd::slice::{slice_subrange, slice_to_vec};

verus! {

/// An access that does not lie within guest memory.
#[derive(Debug, Clone, Copy, PartialEq, Eq, Structural)]
pub struct OutOfBounds;

/// Whether the `len` bytes from `addr` on lie within a memory of `size`
/// bytes.
pub open spec fn in_bounds(size: nat, addr: int, len: int) -> bool {
    0 <= addr && 0 <= len && addr + len <= size
}

/// The 16-bit little-endian value at `addr`.
pub open spec fn u16_at(mem: Seq<u8>, addr: int) -> u16 {
    (mem[addr] + 0x100 * mem[addr + 1]) as u16
}

/// The 32-bit little-endian value at `addr`.
pub open spec fn u32_at(mem: Seq<u8>, addr: int) -> u32 {
    (u16_at(mem, addr) + 0x1_0000 * u16_at(mem, addr + 2)) as u32
}

/// The 64-bit little-endian value at `addr`.
pub open spec fn u64_at(mem: Seq<u8>, addr: int) -> u64 {
    (u32_at(mem, addr) + 0x1_0000_0000 * u32_at(mem, addr + 4)) as u64
}

/// The two bytes of `value`, low byte first.
pub open spec fn u16_bytes(value: u16) -> Seq<u8> {
    seq![(value % 0x100) as u8, (value / 0x100) as u8]
}

/// The four bytes of `value`, low byte first.
pub open spec fn u32_bytes(value: u32) -> Seq<u8> {
    u16_bytes((value % 0x1_0000) as u16) + u16_bytes((value / 0x1_0000) as u16)
}

/// `mem` with `data` laid over the bytes from `addr` on.
pub open spec fn patched(mem: Seq<u8>, addr: int, data: Seq<u8>) -> Seq<u8> {
    Seq::new(
        mem.len(),
        |i: int|
            if addr <= i < addr + data.len() {
                data[i - addr]
            } else {
                mem[i]
            },
    )
}

/// A 16-bit value that was stored is read back.
pub proof fn lemma_u16_round_trip(mem: Seq<u8>, addr: int, value: u16)
    requires
        in_bounds(mem.len(), addr, 2),
    ensures
        u16_at(patched(mem, addr, u16_bytes(value)), addr) == value,
{
    let after = patched(mem, addr, u16_bytes(value));
    assert(after[addr] == u16_bytes(value)[0]);
    assert(after[addr + 1] == u16_bytes(value)[1]);
}

/// The bytes of the guest's physical address space, from address zero on.
pub struct GuestMemory {
    bytes: Vec<u8>,
}

impl View for GuestMemory {
    type V = Seq<u8>;

    /// The bytes, by guest physical address.
    closed spec fn view(&self) -> Seq<u8> {
        self.bytes@
    }
}

impl GuestMemory {
    /// A memory of `size` zero bytes.
    pub fn new(size: usize) -> (mem: GuestMemory)
        ensures
            mem@.len() == size,
            forall|i: int| 0 <= i < size ==> mem@[i] == 0u8,
    {
        GuestMemory { bytes: vec![0u8; size] }
    }

    /// A memory that holds `bytes`.
    pub fn from_bytes(bytes: Vec<u8>) -> (mem: GuestMemory)
        ensures
            mem@ == bytes@,
    {
        GuestMemory { bytes }
    }

    /// The number of bytes in the memory.
    pub fn size(&self) -> (size: u64)
        ensures
            size == self@.len(),
    {
        self.bytes.len() as u64
    }

    /// Whether the `len` bytes from `addr` on lie within the memory.
    pub fn holds(&self, addr: u64, len: u64) -> (held: bool)
        ensures
            held == in_bounds(self@.len(), addr as int, len as int),
            self@.len() <= usize::MAX,
    {
        let size: u64 = self.bytes.len() as u64;
        len <= size && addr <= size - len
    }

    /// The `len` bytes from `addr` on, or `OutOfBounds` where they do not
    /// all lie within the memory.
    pub fn read_at(&self, addr: u64, len: usize) -> (result: Result<Vec<u8>, OutOfBounds>)
        ensures
            match result {
                Ok(bytes) => in_bounds(self@.len(), addr as int, len as int) && bytes@ == self@.subrange(
                    addr as int,
                    addr + len,
                ),
                Err(_) => !in_bounds(self@.len(), addr as int, len as int),
            },
    {
        if !self.holds(addr, len as u64) {
            return Err(OutOfBounds);
        }
        let start: usize = addr as usize;
        Ok(slice_to_vec(slice_subrange(self.bytes.as_slice(), start, start + len)))
    }

    /// Stores `data` from `addr` on, or fails with `OutOfBounds` and stores
    /// nothing where the bytes do not all lie within the memory.
    pub fn write_at(&mut self, addr: u64, data: &[u8]) -> (result: Result<(), OutOfBounds>)
        ensures
            match result {
                Ok(()) => in_bounds(old(self)@.len(), addr as int, data@.len() as int) && final(self)@
                    == patched(old(self)@, addr as int, data@),
                Err(_) => !in_bounds(old(self)@.len(), addr as int, data@.len() as int) && final(self)@
                    == old(self)@,
            },
    {
        let len: usize = data.len();
        if !self.holds(addr, len as u64) {
            return Err(OutOfBounds);
        }
        let start: usize = addr as usize;
        let mut i: usize = 0;
        while i < len
            invariant
                i <= len,
                len == data@.len(),
                start == addr,
                start + len <= self.bytes@.len() <= usize::MAX,
                self.bytes@.len() == old(self).bytes@.len(),
                forall|k: int|
                    0 <= k < self.bytes@.len() ==> self.bytes@[k] == if start <= k < start + i {
                        data@[k - start]
                    } else {
                        old(self).bytes@[k]
                    },
            decreases len - i,
        {
            self.bytes[start + i] = data[i];
            i += 1;
        }
        assert(self.bytes@ =~= patched(old(self).bytes@, addr as int, data@));
        Ok(())
    }

    /// The 16-bit little-endian value at `addr`.
    pub fn read_u16(&self, addr: u64) -> (result: Result<u16, OutOfBounds>)
        ensures
            match result {
                Ok(value) => in_bounds(self@.len(), addr as int, 2) && value == u16_at(self@, addr as int),
                Err(_) => !in_bounds(self@.len(), addr as int, 2),
            },
    {
        if !self.holds(addr, 2) {
            return Err(OutOfBounds);
        }
        Ok(decode_u16(self.bytes.as_slice(), addr as usize))
    }

    /// Stores `value` at `addr` as 16 bits, little-endian.
    pub fn write_u16(&mut self, addr: u64, value: u16) -> (result: Result<(), OutOfBounds>)
        ensures
            match result {
                Ok(()) => in_bounds(old(self)@.len(), addr as int, 2) && final(self)@ == patched(
                    old(self)@,
                    addr as int,
                    u16_bytes(value),
                ),
                Err(_) => !in_bounds(old(self)@.len(), addr as int, 2) && final(self)@ == old(self)@,
            },
    {
        let bytes: [u8; 2] = [(value % 0x100) as u8, (value / 0x100) as u8];
        assert(bytes@ =~= u16_bytes(value));
        self.write_at(addr, bytes.as_slice())
    }
}

/// The 16-bit little-endian value at `at` in `bytes`.
pub(crate) fn decode_u16(bytes: &[u8], at: usize) -> (value: u16)
    requires
        at + 2 <= bytes.len(),
    ensures
        value == u16_at(bytes@, at as int),
{
    bytes[at] as u16 + 0x100 * (bytes[at + 1] as u16)
}

/// The 32-bit little-endian value at `at` in `bytes`.
pub(crate) fn decode_u32(bytes: &[u8], at: usize) -> (value: u32)
    requires
        at + 4 <= bytes.len(),
    ensures
        value == u32_at(bytes@, at as int),
{
    decode_u16(bytes, at) as u32 + 0x1_0000 * (decode_u16(bytes, at + 2) as u32)
}

/// The 64-bit little-endian value at `at` in `bytes`.
pub(crate) fn decode_u64(bytes: &[u8], at: usize) -> (value: u64)
    requires
        at + 8 <= bytes.len(),
    ensures
        value == u64_at(bytes@, at as int),
{
    decode_u32(bytes, at) as u64 + 0x1_0000_0000 * (decode_u32(bytes, at + 4) as u64)
}

/// The four bytes of `value`, low byte first.
pub(crate) fn encode_u32(value: u32) -> (bytes: [u8; 4])
    ensures
        bytes@ == u32_bytes(value),
{
    let low: u16 = (value % 0x1_0000) as u16;
    let high: u16 = (value / 0x1_0000) as u16;
    let bytes: [u8; 4] = [
        (low % 0x100) as u8,
        (low / 0x100) as u8,
        (high % 0x100) as u8,
        (high / 0x100) as u8,
    ];
    assert(bytes@ =~= u32_bytes(value));
    bytes
}

} // verus!
