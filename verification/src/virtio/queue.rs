//! One virtqueue of one device: the descriptor table, the available ring
//! through which the guest offers chains, and the used ring through which
//! the host hands them back.
//!
//! A queue is created empty, given its geometry while guest and host
//! negotiate, and enabled; from then on the device pops the chains that the
//! guest offers and pushes each back as used once it is done with it.
//!
//! Layout of the rings in guest memory, all values little-endian:
//!
//! | region           | offset           | field                         |
//! |------------------|------------------|-------------------------------|
//! | descriptor table | `16 * i`         | descriptor `i`                |
//! | available ring   | `0`              | flags (16 bits)               |
//! |                  | `2`              | index (16 bits)               |
//! |                  | `4 + 2 * i`      | head of chain `i` (16 bits)   |
//! |                  | `4 + 2 * size`   | used event (16 bits)          |
//! | used ring        | `0`              | flags (16 bits)               |
//! |                  | `2`              | index (16 bits)               |
//! |                  | `4 + 8 * i`      | element `i`: id, length       |
//! |                  | `4 + 8 * size`   | available event (16 bits)     |

use vstd::prelude::*;
use crate::counted;
use crate::memory::{encode_u32, in_bounds, patched, u16_at, u16_bytes, u32_bytes, GuestMemory};
use crate::virtio::barrier::release_fence;
use crate::virtio::interrupt::Interrupt;
use crate::virtio::descriptor::{chain_segments, segments_within, total_bytes, ChainView, DescriptorChain};
use crate::DeviceError;

verus! {

/// The largest size a queue can have.
pub const MAX_QUEUE_SIZE: u16 = 32768;

/// The failures of queue configuration and use.
#[derive(Debug, Clone, Copy, PartialEq, Eq, Structural)]
pub enum QueueError {
    /// The queue's geometry is not valid: a bad size, or a region that
    /// overlaps another or does not lie within guest memory.
    InvalidQueueConfig,
    /// The queue is not enabled.
    NotEnabled,
}

/// Where a queue stands in its life.
#[derive(Debug, Clone, Copy, PartialEq, Eq, Structural)]
pub enum QueueState {
    /// Created, with no geometry yet.
    Uninitialized,
    /// Given a valid geometry; its indices are zero.
    Configured,
    /// In use: chains can be popped and pushed.
    Enabled,
}

/// A completion record of the used ring.
#[derive(Debug, Clone, Copy, PartialEq, Eq, Structural)]
pub struct UsedElement {
    /// Index of the head of the chain that is handed back.
    pub id: u32,
    /// Number of bytes that the device wrote into the chain's buffers.
    pub len: u32,
}

impl UsedElement {
    /// The eight bytes of the record as it stands in the used ring.
    pub open spec fn bytes(self) -> Seq<u8> {
        u32_bytes(self.id) + u32_bytes(self.len)
    }

    /// The eight bytes of the record as it stands in the used ring.
    pub fn encode(&self) -> (bytes: [u8; 8])
        ensures
            bytes@ == self.bytes(),
    {
        let id: [u8; 4] = encode_u32(self.id);
        let len: [u8; 4] = encode_u32(self.len);
        let bytes: [u8; 8] = [id[0], id[1], id[2], id[3], len[0], len[1], len[2], len[3]];
        assert(bytes@ =~= self.bytes());
        bytes
    }
}

/// Whether `size` is a size that a queue can have: a power of two up to
/// `MAX_QUEUE_SIZE`.
pub open spec fn is_queue_size(size: u16) -> bool {
    size == 1 || size == 2 || size == 4 || size == 8 || size == 16 || size == 32 || size == 64 || size == 128
        || size == 256 || size == 512 || size == 1024 || size == 2048 || size == 4096 || size == 8192 || size
        == 16384 || size == 32768
}

/// The length of the descriptor table of a queue of `size` descriptors.
pub open spec fn descriptor_table_len(size: u16) -> int {
    16 * size
}

/// The length of the available ring of a queue of `size` descriptors.
pub open spec fn avail_ring_len(size: u16) -> int {
    6 + 2 * size
}

/// The length of the used ring of a queue of `size` descriptors.
pub open spec fn used_ring_len(size: u16) -> int {
    6 + 8 * size
}

/// Whether the region of `a_len` bytes at `a` and that of `b_len` bytes at
/// `b` share no byte.
pub open spec fn apart(a: int, a_len: int, b: int, b_len: int) -> bool {
    a + a_len <= b || b + b_len <= a
}

/// `x` as a free-running 16-bit index: modulo 2^16.
pub open spec fn wrap16(x: int) -> u16 {
    (x % 0x1_0000) as u16
}

/// Whether the three regions of a queue of `size` descriptors, at the given
/// addresses, make a valid geometry in a guest memory of `mem_len` bytes for
/// a queue that can have up to `max_size` descriptors: the size is a power
/// of two within the maximum, each region lies within guest memory, and no
/// two regions overlap.
pub open spec fn geometry_ok(
    max_size: u16,
    size: u16,
    desc_addr: u64,
    avail_addr: u64,
    used_addr: u64,
    mem_len: nat,
) -> bool {
    &&& is_queue_size(size)
    &&& size <= max_size
    &&& in_bounds(mem_len, desc_addr as int, descriptor_table_len(size))
    &&& in_bounds(mem_len, avail_addr as int, avail_ring_len(size))
    &&& in_bounds(mem_len, used_addr as int, used_ring_len(size))
    &&& apart(desc_addr as int, descriptor_table_len(size), avail_addr as int, avail_ring_len(size))
    &&& apart(desc_addr as int, descriptor_table_len(size), used_addr as int, used_ring_len(size))
    &&& apart(avail_addr as int, avail_ring_len(size), used_addr as int, used_ring_len(size))
}

/// Whether the guest asked to be notified of one of the used indices that
/// were published since the last notification was considered.
///
/// `new` is the used index as published now, `old` the used index when a
/// notification was last considered, and `event` the threshold that the
/// guest declared: it wants an interrupt once the element with index `event`
/// is used. All three are free-running 16-bit indices, so the question is
/// whether `event` is one of `old, old + 1, .., new - 1` modulo 2^16.
pub open spec fn need_event(event: u16, new: u16, old: u16) -> bool {
    wrap16(new - event - 1) < wrap16(new - old)
}

/// The guest is notified exactly where the threshold it declared is the
/// index of one of the elements that were used since a notification was
/// last considered: one of the `new - old` indices, modulo 2^16, from `old`
/// on. So a threshold that the used index has not yet reached, or had
/// already passed, suppresses the notification.
pub proof fn lemma_need_event_window(event: u16, new: u16, old: u16)
    ensures
        need_event(event, new, old) <==> exists|k: int|
            0 <= k < wrap16(new - old) && #[trigger] wrap16(old + k) == event,
{
    let window = wrap16(new - old) as int;
    let back = wrap16(new - event - 1) as int;
    if need_event(event, new, old) {
        let k = window - 1 - back;
        assert(0 <= k < window);
        assert(wrap16(old + k) == event);
    }
    assert forall|k: int| 0 <= k < window && #[trigger] wrap16(old + k) == event implies need_event(
        event,
        new,
        old,
    ) by {
        assert(back == window - 1 - k);
    }
}

/// What a queue is: its geometry, its place in life and its indices.
pub struct QueueView {
    /// The most descriptors the queue can have.
    pub max_size: u16,
    /// The number of descriptors the queue has; zero until configured.
    pub size: u16,
    /// Where the queue stands in its life.
    pub state: QueueState,
    /// Guest physical address of the descriptor table.
    pub descriptor_table_addr: u64,
    /// Guest physical address of the available ring.
    pub avail_ring_addr: u64,
    /// Guest physical address of the used ring.
    pub used_ring_addr: u64,
    /// The available index up to which the host has taken chains.
    pub next_avail: u16,
    /// The used index up to which the host has handed chains back.
    pub next_used: u16,
    /// The used index when a notification was last considered.
    pub notified_used: u16,
    /// The number of chains dropped as malformed, wrapping.
    pub malformed_chains: u64,
}

/// What popping finds.
pub enum Popped {
    /// The queue is not enabled.
    NotEnabled,
    /// The queue's regions do not lie within the guest memory at hand.
    InvalidQueueConfig,
    /// The guest offers no chain that the host has not taken.
    Empty,
    /// The next chain on offer is malformed.
    Malformed,
    /// The next chain on offer.
    Chain(ChainView),
}

impl QueueView {
    /// Whether the three regions lie within a guest memory of `mem_len`
    /// bytes.
    pub open spec fn fits(self, mem_len: nat) -> bool {
        &&& in_bounds(mem_len, self.descriptor_table_addr as int, descriptor_table_len(self.size))
        &&& in_bounds(mem_len, self.avail_ring_addr as int, avail_ring_len(self.size))
        &&& in_bounds(mem_len, self.used_ring_addr as int, used_ring_len(self.size))
    }

    /// Whether no two of the three regions overlap.
    pub open spec fn regions_apart(self) -> bool {
        &&& apart(
            self.descriptor_table_addr as int,
            descriptor_table_len(self.size),
            self.avail_ring_addr as int,
            avail_ring_len(self.size),
        )
        &&& apart(
            self.descriptor_table_addr as int,
            descriptor_table_len(self.size),
            self.used_ring_addr as int,
            used_ring_len(self.size),
        )
        &&& apart(
            self.avail_ring_addr as int,
            avail_ring_len(self.size),
            self.used_ring_addr as int,
            used_ring_len(self.size),
        )
    }

    /// The invariant of a queue. An uninitialized queue is empty. Any other
    /// has a valid size within its maximum and three regions that lie within
    /// the address space and do not overlap. Only an enabled queue has
    /// indices other than zero.
    pub open spec fn inv(self) -> bool {
        &&& self.state is Uninitialized ==> {
            &&& self.size == 0
            &&& self.descriptor_table_addr == 0
            &&& self.avail_ring_addr == 0
            &&& self.used_ring_addr == 0
        }
        &&& !(self.state is Uninitialized) ==> {
            &&& is_queue_size(self.size)
            &&& self.size <= self.max_size
            &&& self.fits((u64::MAX) as nat)
            &&& self.regions_apart()
        }
        &&& !(self.state is Enabled) ==> {
            &&& self.next_avail == 0
            &&& self.next_used == 0
            &&& self.notified_used == 0
        }
    }

    /// The place in the rings of the element with the free-running `index`.
    pub open spec fn slot(self, index: u16) -> int {
        index as int % self.size as int
    }

    /// The available index that the guest has published.
    pub open spec fn avail_idx(self, mem: Seq<u8>) -> u16 {
        u16_at(mem, self.avail_ring_addr + 2)
    }

    /// The head that the guest put at `slot` of the available ring.
    pub open spec fn avail_entry(self, mem: Seq<u8>, slot: int) -> u16 {
        u16_at(mem, self.avail_ring_addr + 4 + 2 * slot)
    }

    /// The threshold for notifications that the guest has declared.
    pub open spec fn used_event(self, mem: Seq<u8>) -> u16 {
        u16_at(mem, self.avail_ring_addr + 4 + 2 * self.size)
    }

    /// The address of `slot` of the used ring.
    pub open spec fn used_entry_addr(self, slot: int) -> int {
        self.used_ring_addr + 4 + 8 * slot
    }

    /// The head of the chain that the guest offers next.
    pub open spec fn next_head(self, mem: Seq<u8>) -> u16 {
        self.avail_entry(mem, self.slot(self.next_avail))
    }

    /// What popping finds in `mem`.
    pub open spec fn pop_outcome(self, mem: Seq<u8>) -> Popped {
        if !(self.state is Enabled) {
            Popped::NotEnabled
        } else if !self.fits(mem.len()) {
            Popped::InvalidQueueConfig
        } else if self.avail_idx(mem) == self.next_avail {
            Popped::Empty
        } else {
            let head_index = self.next_head(mem);
            match chain_segments(mem, self.descriptor_table_addr as int, self.size as int, head_index as int) {
                Some(segments) => Popped::Chain(ChainView { head_index, segments }),
                None => Popped::Malformed,
            }
        }
    }

    /// The queue after popping from `mem`. A chain that was on offer is
    /// taken, well-formed or not, and a malformed one is counted; otherwise
    /// the queue stays as it is.
    pub open spec fn after_pop(self, mem: Seq<u8>) -> QueueView {
        match self.pop_outcome(mem) {
            Popped::Chain(_) => QueueView { next_avail: wrap16(self.next_avail + 1), ..self },
            Popped::Malformed => QueueView {
                next_avail: wrap16(self.next_avail + 1),
                malformed_chains: counted(self.malformed_chains),
                ..self
            },
            _ => self,
        }
    }

    /// Whether a chain can be pushed as used into `mem`.
    pub open spec fn can_push(self, mem: Seq<u8>) -> bool {
        self.state is Enabled && self.fits(mem.len())
    }

    /// The queue after pushing one chain as used.
    pub open spec fn after_push(self) -> QueueView {
        QueueView { next_used: wrap16(self.next_used + 1), ..self }
    }

    /// Guest memory after pushing `element`: the element stands in the slot
    /// of the used ring that `next_used` names, and the used index is one
    /// further; no other byte has changed.
    pub open spec fn used_written(self, mem: Seq<u8>, element: UsedElement) -> Seq<u8> {
        patched(
            patched(mem, self.used_entry_addr(self.slot(self.next_used)), element.bytes()),
            self.used_ring_addr + 2,
            u16_bytes(wrap16(self.next_used + 1)),
        )
    }

    /// Whether the guest must be notified now. A queue that is not enabled
    /// notifies nobody. Where the guest's threshold cannot be read, the
    /// guest is notified: an interrupt too many is wasteful, one too few
    /// stalls the guest.
    pub open spec fn notify_outcome(self, mem: Seq<u8>) -> bool {
        if !(self.state is Enabled) {
            false
        } else if !self.fits(mem.len()) {
            true
        } else {
            need_event(self.used_event(mem), self.next_used, self.notified_used)
        }
    }

    /// The queue after a notification was considered.
    pub open spec fn after_notify(self) -> QueueView {
        QueueView { notified_used: self.next_used, ..self }
    }
}

/// Whether `result` is what popping returns on `outcome`.
pub open spec fn pop_returns(result: Result<Option<DescriptorChain>, DeviceError>, outcome: Popped) -> bool {
    match outcome {
        Popped::NotEnabled => result matches Err(DeviceError::QueueError(e)) && e == QueueError::NotEnabled,
        Popped::InvalidQueueConfig => result matches Err(DeviceError::QueueError(e)) && e
            == QueueError::InvalidQueueConfig,
        Popped::Empty => result matches Ok(None),
        Popped::Malformed => result matches Err(DeviceError::MalformedDescriptor),
        Popped::Chain(view) => result matches Ok(Some(chain)) && chain@ == view,
    }
}

/// One virtqueue of one device.
#[derive(Debug)]
pub struct VirtQueue {
    max_size: u16,
    size: u16,
    state: QueueState,
    descriptor_table_addr: u64,
    avail_ring_addr: u64,
    used_ring_addr: u64,
    next_avail: u16,
    next_used: u16,
    notified_used: u16,
    malformed_chains: u64,
}

impl View for VirtQueue {
    type V = QueueView;

    closed spec fn view(&self) -> QueueView {
        QueueView {
            max_size: self.max_size,
            size: self.size,
            state: self.state,
            descriptor_table_addr: self.descriptor_table_addr,
            avail_ring_addr: self.avail_ring_addr,
            used_ring_addr: self.used_ring_addr,
            next_avail: self.next_avail,
            next_used: self.next_used,
            notified_used: self.notified_used,
            malformed_chains: self.malformed_chains,
        }
    }
}

/// Whether `size` is a power of two up to `MAX_QUEUE_SIZE`.
pub fn valid_queue_size(size: u16) -> (valid: bool)
    ensures
        valid == is_queue_size(size),
{
    assert((size != 0 && size <= 32768 && (size & ((size - 1) as u16)) == 0) == (size == 1 || size == 2 || size == 4
        || size == 8 || size == 16 || size == 32 || size == 64 || size == 128 || size == 256 || size == 512
        || size == 1024 || size == 2048 || size == 4096 || size == 8192 || size == 16384 || size == 32768))
        by (bit_vector);
    size != 0 && size <= MAX_QUEUE_SIZE && (size & (size - 1)) == 0
}

impl VirtQueue {
    /// The invariant of a queue.
    pub open spec fn inv(&self) -> bool {
        self@.inv()
    }

    /// An empty queue that can have up to `max_size` descriptors.
    pub fn new(max_size: u16) -> (queue: VirtQueue)
        ensures
            queue.inv(),
            queue@ == (QueueView {
                max_size,
                size: 0,
                state: QueueState::Uninitialized,
                descriptor_table_addr: 0,
                avail_ring_addr: 0,
                used_ring_addr: 0,
                next_avail: 0,
                next_used: 0,
                notified_used: 0,
                malformed_chains: 0,
            }),
    {
        VirtQueue {
            max_size,
            size: 0,
            state: QueueState::Uninitialized,
            descriptor_table_addr: 0,
            avail_ring_addr: 0,
            used_ring_addr: 0,
            next_avail: 0,
            next_used: 0,
            notified_used: 0,
            malformed_chains: 0,
        }
    }

    /// The most descriptors the queue can have.
    pub fn max_size(&self) -> (max_size: u16)
        ensures
            max_size == self@.max_size,
    {
        self.max_size
    }

    /// The number of descriptors the queue has.
    pub fn size(&self) -> (size: u16)
        ensures
            size == self@.size,
    {
        self.size
    }

    /// Where the queue stands in its life.
    pub fn state(&self) -> (state: QueueState)
        ensures
            state == self@.state,
    {
        self.state
    }

    /// Whether the queue is enabled.
    pub fn is_enabled(&self) -> (enabled: bool)
        ensures
            enabled == (self@.state is Enabled),
    {
        match self.state {
            QueueState::Enabled => true,
            _ => false,
        }
    }

    /// Guest physical address of the descriptor table.
    pub fn descriptor_table_addr(&self) -> (addr: u64)
        ensures
            addr == self@.descriptor_table_addr,
    {
        self.descriptor_table_addr
    }

    /// Guest physical address of the available ring.
    pub fn avail_ring_addr(&self) -> (addr: u64)
        ensures
            addr == self@.avail_ring_addr,
    {
        self.avail_ring_addr
    }

    /// Guest physical address of the used ring.
    pub fn used_ring_addr(&self) -> (addr: u64)
        ensures
            addr == self@.used_ring_addr,
    {
        self.used_ring_addr
    }

    /// The available index up to which the host has taken chains.
    pub fn next_avail(&self) -> (index: u16)
        ensures
            index == self@.next_avail,
    {
        self.next_avail
    }

    /// The used index up to which the host has handed chains back.
    pub fn next_used(&self) -> (index: u16)
        ensures
            index == self@.next_used,
    {
        self.next_used
    }

    /// The number of chains dropped as malformed.
    pub fn malformed_chains(&self) -> (count: u64)
        ensures
            count == self@.malformed_chains,
    {
        self.malformed_chains
    }

    /// Whether the three regions lie within `mem`.
    fn fits(&self, mem: &GuestMemory) -> (fits: bool)
        requires
            self.inv(),
        ensures
            fits == self@.fits(mem@.len()),
            mem@.len() <= u64::MAX,
    {
        let size: u64 = self.size as u64;
        mem.holds(self.descriptor_table_addr, 16 * size) && mem.holds(self.avail_ring_addr, 6 + 2 * size)
            && mem.holds(self.used_ring_addr, 6 + 8 * size)
    }

    /// Gives the queue its geometry: a descriptor table at `desc_addr`, an
    /// available ring at `avail_addr` and a used ring at `used_addr`, each
    /// for `size` descriptors.
    ///
    /// Succeeds, and leaves the queue configured with its indices at zero,
    /// exactly where the queue is not enabled and the geometry is valid in
    /// `mem`. Otherwise it fails with `InvalidQueueConfig` and leaves the
    /// queue as it was.
    pub fn configure(
        &mut self,
        mem: &GuestMemory,
        desc_addr: u64,
        avail_addr: u64,
        used_addr: u64,
        size: u16,
    ) -> (result: Result<(), QueueError>)
        requires
            old(self).inv(),
        ensures
            final(self).inv(),
            match result {
                Ok(()) => {
                    &&& !(old(self)@.state is Enabled)
                    &&& geometry_ok(old(self)@.max_size, size, desc_addr, avail_addr, used_addr, mem@.len())
                    &&& final(self)@ == (QueueView {
                        size,
                        state: QueueState::Configured,
                        descriptor_table_addr: desc_addr,
                        avail_ring_addr: avail_addr,
                        used_ring_addr: used_addr,
                        ..old(self)@
                    })
                },
                Err(e) => {
                    &&& e == QueueError::InvalidQueueConfig
                    &&& old(self)@.state is Enabled || !geometry_ok(
                        old(self)@.max_size,
                        size,
                        desc_addr,
                        avail_addr,
                        used_addr,
                        mem@.len(),
                    )
                    &&& final(self)@ == old(self)@
                },
            },
    {
        if self.is_enabled() || !valid_queue_size(size) || size > self.max_size {
            return Err(QueueError::InvalidQueueConfig);
        }
        let mem_size: u64 = mem.size();
        let desc_len: u64 = 16 * (size as u64);
        let avail_len: u64 = 6 + 2 * (size as u64);
        let used_len: u64 = 6 + 8 * (size as u64);
        if !mem.holds(desc_addr, desc_len) || !mem.holds(avail_addr, avail_len) || !mem.holds(used_addr, used_len) {
            return Err(QueueError::InvalidQueueConfig);
        }
        let desc_avail: bool = desc_addr + desc_len <= avail_addr || avail_addr + avail_len <= desc_addr;
        let desc_used: bool = desc_addr + desc_len <= used_addr || used_addr + used_len <= desc_addr;
        let avail_used: bool = avail_addr + avail_len <= used_addr || used_addr + used_len <= avail_addr;
        if !desc_avail || !desc_used || !avail_used {
            return Err(QueueError::InvalidQueueConfig);
        }
        self.size = size;
        self.state = QueueState::Configured;
        self.descriptor_table_addr = desc_addr;
        self.avail_ring_addr = avail_addr;
        self.used_ring_addr = used_addr;
        Ok(())
    }

    /// Enables the queue, so that chains can be popped and pushed.
    ///
    /// Fails with `InvalidQueueConfig`, and leaves the queue as it was,
    /// exactly where the queue was never configured. Enabling a queue that
    /// is enabled already changes nothing.
    pub fn enable(&mut self) -> (result: Result<(), QueueError>)
        requires
            old(self).inv(),
        ensures
            final(self).inv(),
            match result {
                Ok(()) => !(old(self)@.state is Uninitialized) && final(self)@ == (QueueView {
                    state: QueueState::Enabled,
                    ..old(self)@
                }),
                Err(e) => {
                    &&& e == QueueError::InvalidQueueConfig
                    &&& old(self)@.state is Uninitialized
                    &&& final(self)@ == old(self)@
                },
            },
    {
        match self.state {
            QueueState::Uninitialized => Err(QueueError::InvalidQueueConfig),
            _ => {
                self.state = QueueState::Enabled;
                Ok(())
            },
        }
    }

    /// Resets the queue: a queue that has a geometry keeps it and is
    /// configured again, with its indices at zero; a queue that has none
    /// stays as it is.
    pub fn reset(&mut self)
        requires
            old(self).inv(),
        ensures
            final(self).inv(),
            final(self)@ == if old(self)@.state is Uninitialized {
                old(self)@
            } else {
                QueueView {
                    state: QueueState::Configured,
                    next_avail: 0,
                    next_used: 0,
                    notified_used: 0,
                    ..old(self)@
                }
            },
    {
        match self.state {
            QueueState::Uninitialized => {},
            _ => {
                self.state = QueueState::Configured;
                self.next_avail = 0;
                self.next_used = 0;
                self.notified_used = 0;
            },
        }
    }

    /// Takes the next chain that the guest offers.
    ///
    /// - On a queue that is not enabled this fails with
    ///   `QueueError(NotEnabled)`, and where the queue's regions do not lie
    ///   within `mem` with `QueueError(InvalidQueueConfig)`.
    /// - Where the guest's available index is the one up to which the host
    ///   has taken chains, there is nothing to take: `Ok(None)`. The caller
    ///   then waits for the guest's next notification.
    /// - Otherwise the chain whose head stands next in the available ring
    ///   is walked. A well-formed chain is returned. A malformed one fails
    ///   with `MalformedDescriptor` and is counted. Either way the chain is
    ///   taken for good: the next call goes on with the chain after it.
    pub fn pop_chain(&mut self, mem: &GuestMemory) -> (result: Result<Option<DescriptorChain>, DeviceError>)
        requires
            old(self).inv(),
        ensures
            final(self).inv(),
            pop_returns(result, old(self)@.pop_outcome(mem@)),
            final(self)@ == old(self)@.after_pop(mem@),
            result matches Ok(Some(chain)) ==> {
                &&& segments_within(chain@.segments, mem@.len())
                &&& 1 <= chain@.segments.len() <= total_bytes(chain@.segments) <= mem@.len()
            },
    {
        if !self.is_enabled() {
            return Err(DeviceError::QueueError(QueueError::NotEnabled));
        }
        if !self.fits(mem) {
            return Err(DeviceError::QueueError(QueueError::InvalidQueueConfig));
        }
        let avail_idx: u16 = match mem.read_u16(self.avail_ring_addr + 2) {
            Ok(index) => index,
            Err(_) => {
                return Err(DeviceError::QueueError(QueueError::InvalidQueueConfig));
            },
        };
        if avail_idx == self.next_avail {
            return Ok(None);
        }
        let slot: u64 = (self.next_avail % self.size) as u64;
        let head: u16 = match mem.read_u16(self.avail_ring_addr + 4 + 2 * slot) {
            Ok(head) => head,
            Err(_) => {
                return Err(DeviceError::QueueError(QueueError::InvalidQueueConfig));
            },
        };
        self.next_avail = self.next_avail.wrapping_add(1);
        match DescriptorChain::walk(mem, self.descriptor_table_addr, self.size, head) {
            Ok(chain) => Ok(Some(chain)),
            Err(e) => {
                self.malformed_chains = self.malformed_chains.wrapping_add(1);
                Err(DeviceError::MalformedDescriptor)
            },
        }
    }

    /// Hands a chain back to the guest: the chain whose head is
    /// `chain_head_index`, into whose buffers the device wrote
    /// `bytes_written` bytes.
    ///
    /// The completion record is stored in the used ring at the slot that
    /// `next_used` names; only then is the used index, one further, stored
    /// for the guest to see, with a release fence between the two stores.
    /// Fails, with guest memory and the queue left as they were, with
    /// `NotEnabled` on a queue that is not enabled and with
    /// `InvalidQueueConfig` where the queue's regions do not lie within
    /// `mem`.
    pub fn push_used(&mut self, mem: &mut GuestMemory, chain_head_index: u16, bytes_written: u32) -> (result:
        Result<(), QueueError>)
        requires
            old(self).inv(),
        ensures
            final(self).inv(),
            match result {
                Ok(()) => {
                    &&& old(self)@.can_push(old(mem)@)
                    &&& final(self)@ == old(self)@.after_push()
                    &&& final(mem)@ == old(self)@.used_written(
                        old(mem)@,
                        UsedElement { id: chain_head_index as u32, len: bytes_written },
                    )
                },
                Err(e) => {
                    &&& !old(self)@.can_push(old(mem)@)
                    &&& e == if old(self)@.state is Enabled {
                        QueueError::InvalidQueueConfig
                    } else {
                        QueueError::NotEnabled
                    }
                    &&& final(self)@ == old(self)@
                    &&& final(mem)@ == old(mem)@
                },
            },
    {
        if !self.is_enabled() {
            return Err(QueueError::NotEnabled);
        }
        if !self.fits(mem) {
            return Err(QueueError::InvalidQueueConfig);
        }
        let element = UsedElement { id: chain_head_index as u32, len: bytes_written };
        let record: [u8; 8] = element.encode();
        let slot: u64 = (self.next_used % self.size) as u64;
        let next: u16 = self.next_used.wrapping_add(1);
        match mem.write_at(self.used_ring_addr + 4 + 8 * slot, record.as_slice()) {
            Ok(()) => {},
            Err(_) => {
                return Err(QueueError::InvalidQueueConfig);
            },
        }
        release_fence();
        match mem.write_u16(self.used_ring_addr + 2, next) {
            Ok(()) => {},
            Err(_) => {
                return Err(QueueError::InvalidQueueConfig);
            },
        }
        self.next_used = next;
        Ok(())
    }

    /// Whether the guest must be interrupted for the chains that were
    /// pushed since this was last asked.
    ///
    /// The guest declares a threshold, a used index, in the last field of
    /// the available ring: it wants an interrupt once the element with that
    /// index is used. An interrupt is due where that element is among those
    /// pushed since the last call, and is suppressed where it is not.
    pub fn needs_notification(&mut self, mem: &GuestMemory) -> (notify: bool)
        requires
            old(self).inv(),
        ensures
            final(self).inv(),
            notify == old(self)@.notify_outcome(mem@),
            final(self)@ == if old(self)@.state is Enabled {
                old(self)@.after_notify()
            } else {
                old(self)@
            },
    {
        if !self.is_enabled() {
            return false;
        }
        let new: u16 = self.next_used;
        let old: u16 = self.notified_used;
        self.notified_used = new;
        if !self.fits(mem) {
            return true;
        }
        match mem.read_u16(self.avail_ring_addr + 4 + 2 * (self.size as u64)) {
            Ok(event) => new.wrapping_sub(event).wrapping_sub(1) < new.wrapping_sub(old),
            Err(_) => true,
        }
    }

    /// Tells the guest of the chains that were pushed since it was last
    /// told, where it asked to be told.
    ///
    /// Where `needs_notification` says that an interrupt is due, the
    /// interrupt is raised, once: `Ok(true)` where that went well, and
    /// `FailedSignalingIrq` with the cause where it did not. Where no
    /// interrupt is due none is raised: `Ok(false)`.
    pub fn signal_used<I: Interrupt>(&mut self, mem: &GuestMemory, interrupt: &mut I) -> (result: Result<
        bool,
        DeviceError,
    >)
        requires
            old(self).inv(),
        ensures
            final(self).inv(),
            final(self)@ == if old(self)@.state is Enabled {
                old(self)@.after_notify()
            } else {
                old(self)@
            },
            if old(self)@.notify_outcome(mem@) {
                &&& I::signal_effect(*old(interrupt), *final(interrupt), result is Ok)
                &&& match result {
                    Ok(raised) => raised,
                    Err(e) => e is FailedSignalingIrq,
                }
            } else {
                &&& result matches Ok(raised) && !raised
                &&& *final(interrupt) == *old(interrupt)
            },
    {
        if !self.needs_notification(mem) {
            return Ok(false);
        }
        match interrupt.signal() {
            Ok(()) => Ok(true),
            Err(e) => Err(DeviceError::FailedSignalingIrq(e)),
        }
    }
}

} // verus!
