//! What a queue and guest memory look like after a run of chains has gone
//! through the queue: each popped, served and pushed back before the next.

use vstd::prelude::*;
use crate::memory::{in_bounds, patched, u16_at, u16_bytes, u32_at, u32_bytes};
use crate::virtio::queue::{is_queue_size, wrap16, Popped, QueueView, UsedElement};

verus! {

/// The queue and guest memory after as many chains as `lens` has entries
/// went through the queue in turn: chain `k` is popped, and pushed back as
/// used with `lens[k]` bytes written, before chain `k + 1` is popped.
pub open spec fn served(queue: QueueView, mem: Seq<u8>, lens: Seq<u32>) -> (QueueView, Seq<u8>)
    decreases lens.len(),
{
    if lens.len() == 0 {
        (queue, mem)
    } else {
        let (before, mem_before) = served(queue, mem, lens.drop_last());
        let popped = before.after_pop(mem_before);
        let element = UsedElement { id: before.next_head(mem_before) as u32, len: lens.last() };
        (popped.after_push(), popped.used_written(mem_before, element))
    }
}

/// Whether each of the pops of `served` finds a well-formed chain.
pub open spec fn all_popped(queue: QueueView, mem: Seq<u8>, lens: Seq<u32>) -> bool
    decreases lens.len(),
{
    lens.len() == 0 || {
        let (before, mem_before) = served(queue, mem, lens.drop_last());
        all_popped(queue, mem, lens.drop_last()) && before.pop_outcome(mem_before) is Chain
    }
}

/// The completion record that stands at `slot` of the used ring.
pub open spec fn used_entry(queue: QueueView, mem: Seq<u8>, slot: int) -> UsedElement {
    UsedElement {
        id: u32_at(mem, queue.used_entry_addr(slot)),
        len: u32_at(mem, queue.used_entry_addr(slot) + 4),
    }
}

/// The used index that stands in the used ring.
pub open spec fn used_idx(queue: QueueView, mem: Seq<u8>) -> u16 {
    u16_at(mem, queue.used_ring_addr + 2)
}

/// Whether `a` is the address of a byte of the used ring.
pub open spec fn in_used_ring(queue: QueueView, a: int) -> bool {
    queue.used_ring_addr <= a < queue.used_ring_addr + 6 + 8 * queue.size
}

/// A free-running index names the same slot as any number that differs
/// from it by a multiple of 2^16: the size of a queue divides 2^16.
pub proof fn lemma_slot_of_wrapped(size: u16, x: int)
    requires
        is_queue_size(size),
    ensures
        wrap16(x) as int % size as int == x % size as int,
{
    let s = size as int;
    let times = 0x1_0000int / s;
    assert(s * times == 0x1_0000);
    vstd::arithmetic::div_mod::lemma_mod_mod(x, s, times);
}

/// Two indices that are less far apart than the queue has slots name
/// different slots.
pub proof fn lemma_slots_differ(size: u16, start: u16, j: int, k: int)
    requires
        is_queue_size(size),
        0 <= j < k,
        k - j < size,
    ensures
        wrap16(start + j) as int % size as int != wrap16(start + k) as int % size as int,
{
    let s = size as int;
    lemma_slot_of_wrapped(size, start + j);
    lemma_slot_of_wrapped(size, start + k);
    if (start + j) % s == (start + k) % s {
        vstd::arithmetic::div_mod::lemma_fundamental_div_mod(start + j, s);
        vstd::arithmetic::div_mod::lemma_fundamental_div_mod(start + k, s);
        let qj = (start + j) / s;
        let qk = (start + k) / s;
        assert(k - j == s * qk - s * qj);
        assert(s * qk - s * qj == s * (qk - qj)) by (nonlinear_arith);
        assert(0 < s * (qk - qj) < s);
        assert(false) by (nonlinear_arith)
            requires
                0 < s * (qk - qj) < s,
                s > 0,
        ;
    }
}

/// A completion record that was stored is read back, field by field.
pub proof fn lemma_used_element_round_trip(mem: Seq<u8>, addr: int, element: UsedElement)
    requires
        in_bounds(mem.len(), addr, 8),
    ensures
        u32_at(patched(mem, addr, element.bytes()), addr) == element.id,
        u32_at(patched(mem, addr, element.bytes()), addr + 4) == element.len,
{
    let bytes = element.bytes();
    let after = patched(mem, addr, bytes);
    let id = u32_bytes(element.id);
    let len = u32_bytes(element.len);
    assert(id.len() == 4 && len.len() == 4 && bytes.len() == 8);
    assert forall|i: int| 0 <= i < 4 implies after[addr + i] == id[i] && after[addr + 4 + i] == len[i] by {
        assert(after[addr + i] == bytes[i]);
        assert(after[addr + 4 + i] == bytes[4 + i]);
    }
    let id_low = (element.id % 0x1_0000) as u16;
    let id_high = (element.id / 0x1_0000) as u16;
    let len_low = (element.len % 0x1_0000) as u16;
    let len_high = (element.len / 0x1_0000) as u16;
    assert(id[0] == u16_bytes(id_low)[0] && id[1] == u16_bytes(id_low)[1]);
    assert(id[2] == u16_bytes(id_high)[0] && id[3] == u16_bytes(id_high)[1]);
    assert(len[0] == u16_bytes(len_low)[0] && len[1] == u16_bytes(len_low)[1]);
    assert(len[2] == u16_bytes(len_high)[0] && len[3] == u16_bytes(len_high)[1]);
    assert(after[addr + 0] == id[0] && after[addr + 1] == id[1] && after[addr + 2] == id[2] && after[addr + 3]
        == id[3]);
    assert(after[addr + 4 + 0] == len[0] && after[addr + 4 + 1] == len[1] && after[addr + 4 + 2] == len[2]
        && after[addr + 4 + 3] == len[3]);
    assert(u16_at(after, addr) == id_low);
    assert(u16_at(after, addr + 2) == id_high);
    assert(u16_at(after, addr + 4) == len_low);
    assert(u16_at(after, addr + 6) == len_high);
}

/// What one push does to guest memory: the record stands in its slot and
/// the used index is one further; every other slot of the used ring and
/// every byte outside the used ring is as it was.
pub proof fn lemma_push_writes_one_slot(queue: QueueView, mem: Seq<u8>, element: UsedElement)
    requires
        queue.inv(),
        queue.can_push(mem),
    ensures
        ({
            let after = queue.used_written(mem, element);
            let slot = queue.slot(queue.next_used);
            &&& after.len() == mem.len()
            &&& 0 <= slot < queue.size
            &&& used_entry(queue, after, slot) == element
            &&& used_idx(queue, after) == wrap16(queue.next_used + 1)
            &&& forall|a: int| 0 <= a < mem.len() && !in_used_ring(queue, a) ==> after[a] == mem[a]
            &&& forall|other: int|
                0 <= other < queue.size && other != slot ==> used_entry(queue, after, other) == used_entry(
                    queue,
                    mem,
                    other,
                )
        }),
{
    let slot = queue.slot(queue.next_used);
    let entry = queue.used_entry_addr(slot);
    let index = queue.used_ring_addr + 2;
    let first = patched(mem, entry, element.bytes());
    let after = patched(first, index, u16_bytes(wrap16(queue.next_used + 1)));
    assert(element.bytes().len() == 8);
    assert(u16_bytes(wrap16(queue.next_used + 1)).len() == 2);
    lemma_used_element_round_trip(mem, entry, element);
    crate::memory::lemma_u16_round_trip(first, index, wrap16(queue.next_used + 1));
    assert forall|a: int| 0 <= a < mem.len() && !(index <= a < index + 2) implies after[a] == first[a] by {}
    assert forall|a: int| 0 <= a < mem.len() && !(entry <= a < entry + 8) implies first[a] == mem[a] by {}
    assert forall|other: int| 0 <= other < queue.size && other != slot implies used_entry(queue, after, other)
        == used_entry(queue, mem, other) by {
        let at = queue.used_entry_addr(other);
        assert forall|a: int| at <= a < at + 8 implies #[trigger] after[a] == mem[a] by {
            assert(after[a] == first[a]);
        }
    }
    assert forall|a: int| entry <= a < entry + 8 implies #[trigger] after[a] == first[a] by {}
}

/// Going one further from an index that is `n` further is going `n + 1`
/// further.
pub proof fn lemma_index_advances(index: u16, n: int)
    requires
        n >= 0,
    ensures
        wrap16(wrap16(index + n) + 1) == wrap16(index + n + 1),
{
}

/// An index that is `n` further names the slot that is `n` further, modulo
/// the size of the queue.
pub proof fn lemma_slot_advances(size: u16, index: u16, n: int)
    requires
        is_queue_size(size),
        n >= 0,
    ensures
        wrap16(index + n) as int % size as int == (index as int % size as int + n) % size as int,
{
    lemma_slot_of_wrapped(size, index + n);
    vstd::arithmetic::div_mod::lemma_add_mod_noop_right(n, index as int, size as int);
}

/// What one round does: the chain that the queue offers next is popped and
/// pushed back as used with `len` bytes written.
pub proof fn lemma_one_round(queue: QueueView, mem: Seq<u8>, len: u32)
    requires
        queue.inv(),
        queue.fits(mem.len()),
        queue.pop_outcome(mem) is Chain,
    ensures
        ({
            let popped = queue.after_pop(mem);
            let element = UsedElement { id: queue.next_head(mem) as u32, len };
            let after = popped.after_push();
            let mem_after = popped.used_written(mem, element);
            let slot = queue.slot(queue.next_used);
            &&& after == (QueueView {
                next_avail: wrap16(queue.next_avail + 1),
                next_used: wrap16(queue.next_used + 1),
                ..queue
            })
            &&& after.inv()
            &&& mem_after.len() == mem.len()
            &&& 0 <= slot < queue.size
            &&& used_entry(queue, mem_after, slot) == element
            &&& used_idx(queue, mem_after) == after.next_used
            &&& forall|a: int| 0 <= a < mem.len() && !in_used_ring(queue, a) ==> mem_after[a] == mem[a]
            &&& forall|other: int|
                0 <= other < queue.size && other != slot ==> used_entry(queue, mem_after, other)
                    == used_entry(queue, mem, other)
        }),
{
    let popped = queue.after_pop(mem);
    let element = UsedElement { id: queue.next_head(mem) as u32, len };
    lemma_push_writes_one_slot(popped, mem, element);
    let mem_after = popped.used_written(mem, element);
    assert forall|a: int| 0 <= a < mem.len() && !in_used_ring(queue, a) implies mem_after[a] == mem[a] by {
        assert(!in_used_ring(popped, a));
    }
    assert forall|other: int| 0 <= other < queue.size && other != queue.slot(queue.next_used) implies used_entry(
        queue,
        mem_after,
        other,
    ) == used_entry(queue, mem, other) by {
        assert(used_entry(popped, mem_after, other) == used_entry(popped, mem, other));
    }
}

/// Whether `after` and `mem_after` are what a queue that was `queue`, and a
/// guest memory that was `mem`, come to when chains go through in order,
/// one for each entry of `lens`.
pub open spec fn in_order(
    queue: QueueView,
    mem: Seq<u8>,
    lens: Seq<u32>,
    after: QueueView,
    mem_after: Seq<u8>,
) -> bool {
    let n = lens.len() as int;
    &&& after == (QueueView {
        next_avail: wrap16(queue.next_avail + n),
        next_used: wrap16(queue.next_used + n),
        ..queue
    })
    &&& mem_after.len() == mem.len()
    &&& n > 0 ==> used_idx(queue, mem_after) == after.next_used
    &&& forall|a: int| 0 <= a < mem.len() && !in_used_ring(queue, a) ==> mem_after[a] == mem[a]
    &&& forall|k: int|
        0 <= k < n && n - k <= queue.size ==> #[trigger] used_entry(
            queue,
            mem_after,
            queue.slot(wrap16(queue.next_used + k)),
        ) == (UsedElement {
            id: queue.avail_entry(mem, queue.slot(wrap16(queue.next_avail + k))) as u32,
            len: lens[k],
        })
}

/// One more round keeps the chains in order.
proof fn lemma_one_more_round(
    queue: QueueView,
    mem: Seq<u8>,
    front: Seq<u32>,
    before: QueueView,
    mem_before: Seq<u8>,
    len: u32,
)
    requires
        queue.inv(),
        queue.state is Enabled,
        queue.fits(mem.len()),
        in_order(queue, mem, front, before, mem_before),
        before.pop_outcome(mem_before) is Chain,
    ensures
        ({
            let popped = before.after_pop(mem_before);
            let element = UsedElement { id: before.next_head(mem_before) as u32, len };
            in_order(queue, mem, front.push(len), popped.after_push(), popped.used_written(mem_before, element))
        }),
{
    let m = front.len() as int;
    let lens = front.push(len);
    let popped = before.after_pop(mem_before);
    let head = before.next_head(mem_before);
    let element = UsedElement { id: head as u32, len };
    let after = popped.after_push();
    let mem_after = popped.used_written(mem_before, element);
    lemma_one_round(before, mem_before, len);
    lemma_index_advances(queue.next_avail, m);
    lemma_index_advances(queue.next_used, m);
    assert(head == queue.avail_entry(mem, queue.slot(wrap16(queue.next_avail + m)))) by {
        let slot = before.slot(before.next_avail);
        vstd::arithmetic::div_mod::lemma_mod_bound(before.next_avail as int, queue.size as int);
        let at = queue.avail_ring_addr + 4 + 2 * slot;
        assert(!in_used_ring(queue, at) && !in_used_ring(queue, at + 1));
        assert(mem_before[at] == mem[at] && mem_before[at + 1] == mem[at + 1]);
    }
    assert forall|k: int| 0 <= k < m + 1 && m + 1 - k <= queue.size implies #[trigger] used_entry(
        queue,
        mem_after,
        queue.slot(wrap16(queue.next_used + k)),
    ) == (UsedElement {
        id: queue.avail_entry(mem, queue.slot(wrap16(queue.next_avail + k))) as u32,
        len: lens[k],
    }) by {
        let target = queue.slot(wrap16(queue.next_used + k));
        vstd::arithmetic::div_mod::lemma_mod_bound(wrap16(queue.next_used + k) as int, queue.size as int);
        assert(used_entry(before, mem_after, target) == used_entry(queue, mem_after, target));
        assert(used_entry(before, mem_before, target) == used_entry(queue, mem_before, target));
        if k < m {
            lemma_slots_differ(queue.size, queue.next_used, k, m);
            assert(front[k] == lens[k]);
        }
    }
    assert forall|a: int| 0 <= a < mem.len() && !in_used_ring(queue, a) implies mem_after[a] == mem[a] by {
        assert(!in_used_ring(before, a));
    }
    assert(used_idx(queue, mem_after) == used_idx(before, mem_after));
}

/// Chains go through the queue in order and one by one.
///
/// Let any number of chains go through an enabled queue in turn, each
/// popped and then pushed back as used, and let each pop find a well-formed
/// chain. Then
/// - the available index up to which the host has taken chains, and the
///   used index up to which it has handed chains back, are each further by
///   the number of chains, modulo 2^16, and so, by `lemma_slot_advances`,
///   name a slot that is further by that number modulo the size of the
///   queue;
/// - the used ring holds the chains in the order in which the available
///   ring offered them: its `k`-th record from where the used index stood
///   names the head that the `k`-th slot of the available ring, from where
///   the available index stood, held at the outset, with the length that
///   was reported for it. This holds of the last chains, as many as the
///   queue has slots: the ring keeps no more, and a later record takes the
///   slot of the one that many chains before it;
/// - the used index that the guest sees is the one that the host has
///   reached, once any chain was pushed;
/// - nothing but the used ring has changed in guest memory, and nothing but
///   the two indices in the queue.
pub proof fn lemma_round_trip(queue: QueueView, mem: Seq<u8>, lens: Seq<u32>)
    requires
        queue.inv(),
        queue.state is Enabled,
        queue.fits(mem.len()),
        all_popped(queue, mem, lens),
    ensures
        in_order(queue, mem, lens, served(queue, mem, lens).0, served(queue, mem, lens).1),
    decreases lens.len(),
{
    let n = lens.len() as int;
    if n > 0 {
        let front = lens.drop_last();
        lemma_round_trip(queue, mem, front);
        let (before, mem_before) = served(queue, mem, front);
        lemma_one_more_round(queue, mem, front, before, mem_before, lens.last());
        assert(front.push(lens.last()) =~= lens);
    }
}

} // verus!
