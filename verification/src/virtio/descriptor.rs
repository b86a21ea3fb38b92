//! The descriptor-chain engine: from a head index in a descriptor table to
//! the validated list of buffers that the chain names.
//!
//! A descriptor is a 16-byte record in guest memory: the address and length
//! of a buffer, flags, and the index of the next descriptor. The guest links
//! descriptors into chains, one chain per request. Nothing in a chain is
//! trusted: links may run in circles or leave the table, and buffers may be
//! empty or lie outside memory. Walking a chain either yields buffers that
//! were all checked, or rejects the whole chain.

use vstd::prelude::*;
use crate::memory::{decode_u16, decode_u32, decode_u64, in_bounds, u16_at, u32_at, u64_at, GuestMemory};
use crate::DeviceError;

verus! {

/// Flag of a descriptor: the chain continues at `next`.
pub const VIRTQ_DESC_F_NEXT: u16 = 0x1;

/// Flag of a descriptor: the device writes the buffer; it does not read it.
pub const VIRTQ_DESC_F_WRITE: u16 = 0x2;

/// Flag of a descriptor: the buffer is itself a table of descriptors.
pub const VIRTQ_DESC_F_INDIRECT: u16 = 0x4;

/// The size of one descriptor record in guest memory.
pub const DESCRIPTOR_SIZE: u64 = 16;

/// The most entries a table of descriptors can have: those of an indirect
/// table whose length all but fills 32 bits.
pub const MAX_TABLE_ENTRIES: u32 = 0x0fff_ffff;

/// One record of a descriptor table, as the guest wrote it.
#[derive(Debug, Clone, Copy, PartialEq, Eq, Structural)]
pub struct Descriptor {
    /// Guest physical address of the buffer.
    pub addr: u64,
    /// Length of the buffer in bytes.
    pub len: u32,
    /// The flags.
    pub flags: u16,
    /// Index of the next descriptor of the chain, where the chain goes on.
    pub next: u16,
}

/// One buffer of a chain, checked to be non-empty and within guest memory.
#[derive(Debug, Clone, Copy, PartialEq, Eq, Structural)]
pub struct Segment {
    /// Guest physical address of the buffer.
    pub guest_address: u64,
    /// Length of the buffer in bytes.
    pub length: u32,
    /// Whether the device writes the buffer; if not, the device reads it.
    pub device_writable: bool,
}

impl Descriptor {
    /// Whether the chain continues after this descriptor.
    pub open spec fn spec_has_next(&self) -> bool {
        (self.flags & VIRTQ_DESC_F_NEXT) != 0
    }

    /// Whether the buffer is for the device to write.
    pub open spec fn spec_is_write_only(&self) -> bool {
        (self.flags & VIRTQ_DESC_F_WRITE) != 0
    }

    /// Whether the buffer is a table of descriptors.
    pub open spec fn spec_is_indirect(&self) -> bool {
        (self.flags & VIRTQ_DESC_F_INDIRECT) != 0
    }

    /// The buffer that the descriptor names.
    pub open spec fn spec_segment(&self) -> Segment {
        Segment { guest_address: self.addr, length: self.len, device_writable: self.is_write_only() }
    }

    /// Whether the chain continues after this descriptor.
    #[verifier::when_used_as_spec(spec_has_next)]
    pub fn has_next(&self) -> (b: bool)
        ensures
            b == self.spec_has_next(),
    {
        (self.flags & VIRTQ_DESC_F_NEXT) != 0
    }

    /// Whether the buffer is for the device to write.
    #[verifier::when_used_as_spec(spec_is_write_only)]
    pub fn is_write_only(&self) -> (b: bool)
        ensures
            b == self.spec_is_write_only(),
    {
        (self.flags & VIRTQ_DESC_F_WRITE) != 0
    }

    /// Whether the buffer is a table of descriptors.
    #[verifier::when_used_as_spec(spec_is_indirect)]
    pub fn is_indirect(&self) -> (b: bool)
        ensures
            b == self.spec_is_indirect(),
    {
        (self.flags & VIRTQ_DESC_F_INDIRECT) != 0
    }

    /// The buffer that the descriptor names.
    #[verifier::when_used_as_spec(spec_segment)]
    pub fn segment(&self) -> (segment: Segment)
        ensures
            segment == self.spec_segment(),
    {
        Segment { guest_address: self.addr, length: self.len, device_writable: self.is_write_only() }
    }

    /// Reads the descriptor record at `addr`, in one access, or fails with
    /// `MalformedDescriptor` where the record does not lie within guest
    /// memory.
    pub fn read(mem: &GuestMemory, addr: u64) -> (result: Result<Descriptor, DeviceError>)
        ensures
            match result {
                Ok(descriptor) => in_bounds(mem@.len(), addr as int, 16) && descriptor == descriptor_at(
                    mem@,
                    addr as int,
                ),
                Err(e) => !in_bounds(mem@.len(), addr as int, 16) && e is MalformedDescriptor,
            },
    {
        match mem.read_at(addr, 16) {
            Ok(record) => {
                let bytes: &[u8] = record.as_slice();
                Ok(
                    Descriptor {
                        addr: decode_u64(bytes, 0),
                        len: decode_u32(bytes, 8),
                        flags: decode_u16(bytes, 12),
                        next: decode_u16(bytes, 14),
                    },
                )
            },
            Err(_) => Err(DeviceError::MalformedDescriptor),
        }
    }
}

/// The descriptor whose record starts at `addr`.
pub open spec fn descriptor_at(mem: Seq<u8>, addr: int) -> Descriptor {
    Descriptor {
        addr: u64_at(mem, addr),
        len: u32_at(mem, addr + 8),
        flags: u16_at(mem, addr + 12),
        next: u16_at(mem, addr + 14),
    }
}

/// The descriptor at `index` of the table at `table`.
pub open spec fn table_entry(mem: Seq<u8>, table: int, index: int) -> Descriptor {
    descriptor_at(mem, table + 16 * index)
}

/// `rest` with `segment` put in front; nothing where there is no `rest`.
pub open spec fn chained(segment: Segment, rest: Option<Seq<Segment>>) -> Option<Seq<Segment>> {
    match rest {
        Some(tail) => Some(seq![segment] + tail),
        None => None,
    }
}

/// The buffers of the chain that goes on at `index` of the table of
/// `entries` descriptors at `table`, or `None` where that chain is
/// malformed.
///
/// `hops` is the number of descriptors that the walk may still visit in this
/// table, `indirect` says whether the table is an indirect one, and `budget`
/// is the number of bytes that the buffers still to come may have in all.
/// The chain is malformed where
/// - the walk has no hop left, or `index` is not in the table, or the
///   record does not lie within guest memory;
/// - the descriptor is indirect and stands in an indirect table, or goes on
///   to a next one, or names a table that is empty, not a whole number of
///   records, or not within guest memory;
/// - the descriptor names a buffer that is empty, not within guest memory,
///   or longer than `budget`;
/// - the rest of the chain is malformed.
pub open spec fn walk(
    mem: Seq<u8>,
    table: int,
    entries: int,
    index: int,
    hops: nat,
    indirect: bool,
    budget: int,
) -> Option<Seq<Segment>>
    decreases
            (if indirect {
                0nat
            } else {
                1nat
            }),
            hops,
{
    if hops == 0 || index < 0 || index >= entries || !in_bounds(mem.len(), table + 16 * index, 16) {
        None
    } else {
        let d = table_entry(mem, table, index);
        if d.is_indirect() {
            if indirect || d.has_next() || d.len == 0 || d.len % 16 != 0 || !in_bounds(
                mem.len(),
                d.addr as int,
                d.len as int,
            ) {
                None
            } else {
                walk(mem, d.addr as int, d.len as int / 16, 0, (d.len / 16) as nat, true, budget)
            }
        } else if d.len == 0 || !in_bounds(mem.len(), d.addr as int, d.len as int) || d.len > budget {
            None
        } else if d.has_next() {
            chained(d.segment(), walk(mem, table, entries, d.next as int, (hops - 1) as nat, indirect, budget - d.len))
        } else {
            Some(seq![d.segment()])
        }
    }
}

/// The buffers of the chain that starts at `head` in the descriptor table at
/// `table` of a queue of `size` descriptors, or `None` where the chain is
/// malformed. The chain may visit `size` descriptors of the table, and its
/// buffers may have as many bytes in all as guest memory has.
pub open spec fn chain_segments(mem: Seq<u8>, table: int, size: int, head: int) -> Option<Seq<Segment>> {
    walk(mem, table, size, head, size as nat, false, mem.len() as int)
}

/// Whether each of `segments` is non-empty and lies within a guest memory of
/// `mem_len` bytes.
pub open spec fn segments_within(segments: Seq<Segment>, mem_len: nat) -> bool {
    forall|i: int|
        0 <= i < segments.len() ==> (#[trigger] segments[i]).length > 0 && in_bounds(
            mem_len,
            segments[i].guest_address as int,
            segments[i].length as int,
        )
}

/// The number of bytes of `segments` in all.
pub open spec fn total_bytes(segments: Seq<Segment>) -> int
    decreases segments.len(),
{
    if segments.len() == 0 {
        0
    } else {
        segments[0].length + total_bytes(segments.drop_first())
    }
}

/// The index of the `k`-th descriptor on the way that the `next` links of
/// the table at `table` lead from `index`.
pub open spec fn link(mem: Seq<u8>, table: int, index: int, k: nat) -> int
    decreases k,
{
    if k == 0 {
        index
    } else {
        table_entry(mem, table, link(mem, table, index, (k - 1) as nat)).next as int
    }
}

/// What a chain is, once walked: the index of its head in the descriptor
/// table, and its buffers in the order of the chain.
pub struct ChainView {
    /// Index of the chain's head in the descriptor table.
    pub head_index: u16,
    /// The buffers of the chain, in order.
    pub segments: Seq<Segment>,
}

/// A descriptor chain that was walked and found well-formed.
#[derive(Debug)]
pub struct DescriptorChain {
    head_index: u16,
    segments: Vec<Segment>,
}

impl View for DescriptorChain {
    type V = ChainView;

    closed spec fn view(&self) -> ChainView {
        ChainView { head_index: self.head_index, segments: self.segments@ }
    }
}

impl DescriptorChain {
    /// The index of the chain's head in the descriptor table: what the guest
    /// published, and what is reported back on completion.
    pub fn head_index(&self) -> (head: u16)
        ensures
            head == self@.head_index,
    {
        self.head_index
    }

    /// The number of buffers in the chain.
    pub fn len(&self) -> (n: usize)
        ensures
            n == self@.segments.len(),
    {
        self.segments.len()
    }

    /// The buffers of the chain, in order.
    pub fn segments(&self) -> (segments: &Vec<Segment>)
        ensures
            segments@ == self@.segments,
    {
        &self.segments
    }

    /// Walks the chain that starts at `head_index` in the descriptor table at
    /// `table` of a queue of `queue_size` descriptors.
    ///
    /// Returns the chain where it is well-formed, and fails with
    /// `MalformedDescriptor` where it is not. The walk reads each descriptor
    /// once and reads nothing of the buffers; it visits at most `queue_size`
    /// descriptors of the table and at most as many of an indirect table as
    /// that table has records, so it ends on every input.
    pub fn walk(mem: &GuestMemory, table: u64, queue_size: u16, head_index: u16) -> (result: Result<
        DescriptorChain,
        DeviceError,
    >)
        ensures
            match chain_segments(mem@, table as int, queue_size as int, head_index as int) {
                Some(segments) => result matches Ok(chain) && chain@ == (ChainView { head_index, segments }),
                None => result matches Err(e) && e is MalformedDescriptor,
            },
            result matches Ok(chain) ==> {
                &&& segments_within(chain@.segments, mem@.len())
                &&& 1 <= chain@.segments.len() <= total_bytes(chain@.segments) <= mem@.len()
            },
    {
        proof {
            lemma_segments_checked(
                mem@,
                table as int,
                queue_size as int,
                head_index as int,
                queue_size as nat,
                false,
                mem@.len() as int,
            );
        }
        let mut segments: Vec<Segment> = Vec::new();
        let mut table_addr: u64 = table;
        let mut entries: u32 = queue_size as u32;
        let mut index: u32 = head_index as u32;
        let mut hops: u32 = queue_size as u32;
        let mut indirect: bool = false;
        let mut budget: u64 = mem.size();
        let ghost whole = chain_segments(mem@, table as int, queue_size as int, head_index as int);
        loop
            invariant
                mem@.len() <= u64::MAX,
                entries <= MAX_TABLE_ENTRIES,
                whole == chain_segments(mem@, table as int, queue_size as int, head_index as int),
                whole matches Some(all) ==> {
                    &&& segments_within(all, mem@.len())
                    &&& 1 <= all.len() <= total_bytes(all) <= mem@.len()
                },
                whole == match walk(
                    mem@,
                    table_addr as int,
                    entries as int,
                    index as int,
                    hops as nat,
                    indirect,
                    budget as int,
                ) {
                    Some(rest) => Some(segments@ + rest),
                    None => None,
                },
            decreases
                    (if indirect {
                        0nat
                    } else {
                        1nat
                    }),
                    hops,
        {
            if hops == 0 || index >= entries {
                return Err(DeviceError::MalformedDescriptor);
            }
            let addr: u64 = match table_addr.checked_add(16 * (index as u64)) {
                Some(addr) => addr,
                None => {
                    return Err(DeviceError::MalformedDescriptor);
                },
            };
            let d: Descriptor = match Descriptor::read(mem, addr) {
                Ok(d) => d,
                Err(e) => {
                    return Err(e);
                },
            };
            if d.is_indirect() {
                if indirect || d.has_next() || d.len == 0 || d.len % 16 != 0 || !mem.holds(d.addr, d.len as u64) {
                    return Err(DeviceError::MalformedDescriptor);
                }
                table_addr = d.addr;
                entries = d.len / 16;
                index = 0;
                hops = entries;
                indirect = true;
            } else {
                if d.len == 0 || !mem.holds(d.addr, d.len as u64) || d.len as u64 > budget {
                    return Err(DeviceError::MalformedDescriptor);
                }
                let ghost before = segments@;
                segments.push(d.segment());
                if !d.has_next() {
                    assert(before + seq![d.segment()] =~= segments@);
                    return Ok(DescriptorChain { head_index, segments });
                }
                proof {
                    let rest = walk(
                        mem@,
                        table_addr as int,
                        entries as int,
                        d.next as int,
                        (hops - 1) as nat,
                        indirect,
                        budget - d.len,
                    );
                    if rest is Some {
                        assert(before + (seq![d.segment()] + rest->Some_0) =~= segments@ + rest->Some_0);
                    }
                }
                budget = budget - d.len as u64;
                index = d.next as u32;
                hops = hops - 1;
            }
        }
    }
}

/// Every buffer of a well-formed chain is non-empty and lies within guest
/// memory, there is at least one, and together they are no longer than the
/// budget of the walk. So a chain that names an empty buffer, or one that
/// is not wholly within guest memory, is malformed.
pub proof fn lemma_segments_checked(
    mem: Seq<u8>,
    table: int,
    entries: int,
    index: int,
    hops: nat,
    indirect: bool,
    budget: int,
)
    ensures
        walk(mem, table, entries, index, hops, indirect, budget) matches Some(segments) ==> {
            &&& segments_within(segments, mem.len())
            &&& 1 <= segments.len() <= total_bytes(segments) <= budget
        },
    decreases
            (if indirect {
                0nat
            } else {
                1nat
            }),
            hops,
{
    let result = walk(mem, table, entries, index, hops, indirect, budget);
    if result is Some {
        let d = table_entry(mem, table, index);
        if d.is_indirect() {
            lemma_segments_checked(mem, d.addr as int, d.len as int / 16, 0, (d.len / 16) as nat, true, budget);
        } else if d.has_next() {
            lemma_segments_checked(mem, table, entries, d.next as int, (hops - 1) as nat, indirect, budget - d.len);
            let rest = walk(mem, table, entries, d.next as int, (hops - 1) as nat, indirect, budget - d.len)->Some_0;
            let segments = result->Some_0;
            assert(segments == seq![d.segment()] + rest);
            assert(segments.drop_first() =~= rest);
            assert forall|i: int| 0 <= i < segments.len() implies (#[trigger] segments[i]).length > 0
                && in_bounds(mem.len(), segments[i].guest_address as int, segments[i].length as int) by {
                if i > 0 {
                    assert(segments[i] == rest[i - 1]);
                }
            }
        } else {
            let segments = result->Some_0;
            assert(segments.drop_first() =~= Seq::<Segment>::empty());
            assert(total_bytes(segments.drop_first()) == 0);
        }
    }
}

/// A well-formed chain has no more buffers than the walk had hops, but for
/// those of an indirect table, which has at most `MAX_TABLE_ENTRIES`
/// records: the walk ends within its hops, whatever the guest wrote.
pub proof fn lemma_chain_length_bounded(
    mem: Seq<u8>,
    table: int,
    entries: int,
    index: int,
    hops: nat,
    indirect: bool,
    budget: int,
)
    ensures
        walk(mem, table, entries, index, hops, indirect, budget) matches Some(segments) ==> segments.len()
            <= hops + if indirect {
            0int
        } else {
            MAX_TABLE_ENTRIES as int
        },
    decreases
            (if indirect {
                0nat
            } else {
                1nat
            }),
            hops,
{
    let result = walk(mem, table, entries, index, hops, indirect, budget);
    if result is Some {
        let d = table_entry(mem, table, index);
        if d.is_indirect() {
            lemma_chain_length_bounded(mem, d.addr as int, d.len as int / 16, 0, (d.len / 16) as nat, true, budget);
        } else if d.has_next() {
            lemma_chain_length_bounded(
                mem,
                table,
                entries,
                d.next as int,
                (hops - 1) as nat,
                indirect,
                budget - d.len,
            );
        }
    }
}

/// A chain in which each of the first `hops` descriptors goes on to a next
/// one is malformed: a chain longer than the walk has hops is rejected.
pub proof fn lemma_overlong_chain_rejected(
    mem: Seq<u8>,
    table: int,
    entries: int,
    index: int,
    hops: nat,
    indirect: bool,
    budget: int,
)
    requires
        forall|k: nat| k < hops ==> table_entry(mem, table, #[trigger] link(mem, table, index, k)).has_next(),
    ensures
        walk(mem, table, entries, index, hops, indirect, budget) is None,
    decreases hops,
{
    if hops > 0 {
        assert(link(mem, table, index, 0) == index);
        let d = table_entry(mem, table, index);
        assert(d.has_next());
        assert forall|k: nat| k < hops - 1 implies table_entry(
            mem,
            table,
            #[trigger] link(mem, table, d.next as int, k),
        ).has_next() by {
            lemma_link_shift(mem, table, index, k);
            assert(table_entry(mem, table, link(mem, table, index, k + 1)).has_next());
        }
        lemma_overlong_chain_rejected(mem, table, entries, d.next as int, (hops - 1) as nat, indirect, budget - d.len);
    }
}

/// The way from the second descriptor of a chain is the way from the first,
/// one step on.
proof fn lemma_link_shift(mem: Seq<u8>, table: int, index: int, k: nat)
    ensures
        link(mem, table, table_entry(mem, table, index).next as int, k) == link(mem, table, index, k + 1),
    decreases k,
{
    let second = table_entry(mem, table, index).next as int;
    assert(link(mem, table, index, 0) == index);
    assert(link(mem, table, index, k + 1) == table_entry(mem, table, link(mem, table, index, k)).next);
    if k > 0 {
        lemma_link_shift(mem, table, index, (k - 1) as nat);
        assert(link(mem, table, second, k) == table_entry(
            mem,
            table,
            link(mem, table, second, (k - 1) as nat),
        ).next);
    }
}

/// A chain whose links lead back to a descriptor that the chain has already
/// passed is malformed, however many hops the walk has.
///
/// The chain passes the descriptors at the steps `0 .. later`, each of which
/// goes on to a next one, and step `later` is at the descriptor of the
/// earlier step `earlier`.
pub proof fn lemma_cyclic_chain_rejected(
    mem: Seq<u8>,
    table: int,
    entries: int,
    index: int,
    hops: nat,
    indirect: bool,
    budget: int,
    earlier: nat,
    later: nat,
)
    requires
        earlier < later,
        link(mem, table, index, earlier) == link(mem, table, index, later),
        forall|k: nat| k < later ==> table_entry(mem, table, #[trigger] link(mem, table, index, k)).has_next(),
    ensures
        walk(mem, table, entries, index, hops, indirect, budget) is None,
{
    assert forall|k: nat| k < hops implies table_entry(mem, table, #[trigger] link(mem, table, index, k)).has_next() by {
        lemma_cycle_goes_on(mem, table, index, earlier, later, k);
    }
    lemma_overlong_chain_rejected(mem, table, entries, index, hops, indirect, budget);
}

/// On a way that returns at step `later` to where it was at step `earlier`,
/// every step from `later` on is where the way was `later - earlier` steps
/// before; so where every descriptor before `later` goes on to a next one,
/// every descriptor of the way does.
proof fn lemma_cycle_goes_on(mem: Seq<u8>, table: int, index: int, earlier: nat, later: nat, k: nat)
    requires
        earlier < later,
        link(mem, table, index, earlier) == link(mem, table, index, later),
        forall|j: nat| j < later ==> table_entry(mem, table, #[trigger] link(mem, table, index, j)).has_next(),
    ensures
        table_entry(mem, table, link(mem, table, index, k)).has_next(),
        k >= later ==> link(mem, table, index, k) == link(mem, table, index, (k - (later - earlier)) as nat),
    decreases k,
{
    if k >= later {
        let back = (k - (later - earlier)) as nat;
        if k > later {
            lemma_cycle_goes_on(mem, table, index, earlier, later, (k - 1) as nat);
            assert(link(mem, table, index, (k - 1) as nat) == link(mem, table, index, (back - 1) as nat));
        }
        lemma_cycle_goes_on(mem, table, index, earlier, later, back);
    }
}

/// The walk reads descriptor records and nothing else: what it yields does
/// not depend on what the buffers hold.
///
/// Let two guest memories of one size hold the same bytes in the table at
/// hand and, where that table is not itself an indirect one, in every
/// indirect table that one of its descriptors names. Then the walk yields
/// the same in both, whatever else differs between them.
pub proof fn lemma_walk_reads_descriptors_only(
    mem: Seq<u8>,
    other: Seq<u8>,
    table: int,
    entries: int,
    index: int,
    hops: nat,
    indirect: bool,
    budget: int,
)
    requires
        mem.len() == other.len(),
        forall|a: int| table <= a < table + 16 * entries && 0 <= a < mem.len() ==> mem[a] == other[a],
        !indirect ==> forall|i: int, a: int|
            0 <= i < entries && in_bounds(mem.len(), table + 16 * i, 16) && (#[trigger] table_entry(
                mem,
                table,
                i,
            )).is_indirect() && table_entry(mem, table, i).addr <= a < table_entry(mem, table, i).addr
                + table_entry(mem, table, i).len && 0 <= a < mem.len() ==> mem[a] == #[trigger] other[a],
    ensures
        walk(mem, table, entries, index, hops, indirect, budget) == walk(
            other,
            table,
            entries,
            index,
            hops,
            indirect,
            budget,
        ),
    decreases
            (if indirect {
                0nat
            } else {
                1nat
            }),
            hops,
{
    if !(hops == 0 || index < 0 || index >= entries || !in_bounds(mem.len(), table + 16 * index, 16)) {
        lemma_same_record(mem, other, table + 16 * index);
        let d = table_entry(mem, table, index);
        assert(d == table_entry(other, table, index));
        if d.is_indirect() {
            if !(indirect || d.has_next() || d.len == 0 || d.len % 16 != 0 || !in_bounds(
                mem.len(),
                d.addr as int,
                d.len as int,
            )) {
                assert forall|a: int|
                    d.addr <= a < d.addr + 16 * (d.len as int / 16) && 0 <= a < mem.len() implies mem[a]
                    == other[a] by {
                    assert(table_entry(mem, table, index).is_indirect());
                }
                lemma_walk_reads_descriptors_only(
                    mem,
                    other,
                    d.addr as int,
                    d.len as int / 16,
                    0,
                    (d.len / 16) as nat,
                    true,
                    budget,
                );
            }
        } else if !(d.len == 0 || !in_bounds(mem.len(), d.addr as int, d.len as int) || d.len > budget) {
            if d.has_next() {
                lemma_walk_reads_descriptors_only(
                    mem,
                    other,
                    table,
                    entries,
                    d.next as int,
                    (hops - 1) as nat,
                    indirect,
                    budget - d.len,
                );
            }
        }
    }
}

/// Two memories that hold the same sixteen bytes at `addr` hold the same
/// descriptor there.
proof fn lemma_same_record(mem: Seq<u8>, other: Seq<u8>, addr: int)
    requires
        forall|a: int| addr <= a < addr + 16 ==> mem[a] == other[a],
    ensures
        descriptor_at(mem, addr) == descriptor_at(other, addr),
{
    assert(u16_at(mem, addr) == u16_at(other, addr));
    assert(u16_at(mem, addr + 2) == u16_at(other, addr + 2));
    assert(u16_at(mem, addr + 4) == u16_at(other, addr + 4));
    assert(u16_at(mem, addr + 6) == u16_at(other, addr + 6));
    assert(u16_at(mem, addr + 8) == u16_at(other, addr + 8));
    assert(u16_at(mem, addr + 10) == u16_at(other, addr + 10));
    assert(u16_at(mem, addr + 12) == u16_at(other, addr + 12));
    assert(u16_at(mem, addr + 14) == u16_at(other, addr + 14));
}

} // verus!
