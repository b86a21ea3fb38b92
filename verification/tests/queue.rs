use devices::memory::GuestMemory;
use devices::virtio::descriptor::{
    Descriptor, DescriptorChain, Segment, VIRTQ_DESC_F_INDIRECT, VIRTQ_DESC_F_NEXT, VIRTQ_DESC_F_WRITE,
};
use devices::virtio::interrupt::Interrupt;
use devices::virtio::queue::{valid_queue_size, QueueError, QueueState, UsedElement, VirtQueue};
use devices::DeviceError;

const MEM_SIZE: usize = 0x1000;
const DESC: u64 = 0x000;
const AVAIL: u64 = 0x100;
const USED: u64 = 0x200;
const SIZE: u16 = 4;

fn put_desc(mem: &mut GuestMemory, table: u64, index: u64, addr: u64, len: u32, flags: u16, next: u16) {
    let mut record = Vec::new();
    record.extend_from_slice(&addr.to_le_bytes());
    record.extend_from_slice(&len.to_le_bytes());
    record.extend_from_slice(&flags.to_le_bytes());
    record.extend_from_slice(&next.to_le_bytes());
    mem.write_at(table + 16 * index, &record).unwrap();
}

fn offer(mem: &mut GuestMemory, slot: u64, head: u16) {
    mem.write_u16(AVAIL + 4 + 2 * slot, head).unwrap();
}

fn publish(mem: &mut GuestMemory, index: u16) {
    mem.write_u16(AVAIL + 2, index).unwrap();
}

fn set_used_event(mem: &mut GuestMemory, index: u16) {
    mem.write_u16(AVAIL + 4 + 2 * SIZE as u64, index).unwrap();
}

fn used_index(mem: &GuestMemory) -> u16 {
    mem.read_u16(USED + 2).unwrap()
}

fn used_entry(mem: &GuestMemory, slot: u64) -> (u32, u32) {
    let bytes = mem.read_at(USED + 4 + 8 * slot, 8).unwrap();
    (
        u32::from_le_bytes([bytes[0], bytes[1], bytes[2], bytes[3]]),
        u32::from_le_bytes([bytes[4], bytes[5], bytes[6], bytes[7]]),
    )
}

fn ready() -> (VirtQueue, GuestMemory) {
    let mem = GuestMemory::new(MEM_SIZE);
    let mut queue = VirtQueue::new(256);
    assert_eq!(queue.configure(&mem, DESC, AVAIL, USED, SIZE), Ok(()));
    assert_eq!(queue.enable(), Ok(()));
    (queue, mem)
}

fn segment(guest_address: u64, length: u32, device_writable: bool) -> Segment {
    Segment { guest_address, length, device_writable }
}

fn pop_segments(queue: &mut VirtQueue, mem: &GuestMemory) -> (u16, Vec<Segment>) {
    let chain = queue.pop_chain(mem).unwrap().unwrap();
    (chain.head_index(), chain.segments().clone())
}

fn is_malformed<T>(result: &Result<T, DeviceError>) -> bool {
    matches!(result, Err(DeviceError::MalformedDescriptor))
}

#[test]
fn size_four_queue_from_configuration_to_completion() {
    let mut mem = GuestMemory::new(MEM_SIZE);
    let mut queue = VirtQueue::new(256);
    assert_eq!(queue.state(), QueueState::Uninitialized);
    assert_eq!(queue.configure(&mem, DESC, AVAIL, USED, 4), Ok(()));
    assert_eq!(queue.state(), QueueState::Configured);
    assert_eq!(queue.size(), 4);
    assert_eq!(queue.enable(), Ok(()));
    assert!(queue.is_enabled());
    assert!(matches!(queue.pop_chain(&mem), Ok(None)));
    assert_eq!(queue.next_avail(), 0);

    put_desc(&mut mem, DESC, 1, 0x400, 16, VIRTQ_DESC_F_WRITE, 0);
    offer(&mut mem, 0, 1);
    publish(&mut mem, 1);
    let chain = queue.pop_chain(&mem).unwrap().unwrap();
    assert_eq!(chain.head_index(), 1);
    assert_eq!(chain.len(), 1);
    assert_eq!(chain.segments(), &vec![segment(0x400, 16, true)]);
    assert_eq!(queue.next_avail(), 1);
    assert!(matches!(queue.pop_chain(&mem), Ok(None)));

    set_used_event(&mut mem, 0);
    assert_eq!(queue.push_used(&mut mem, chain.head_index(), 16), Ok(()));
    assert_eq!(queue.next_used(), 1);
    assert_eq!(used_index(&mem), 1);
    assert_eq!(used_entry(&mem, 0), (1, 16));
    assert!(queue.needs_notification(&mem));
    assert!(!queue.needs_notification(&mem));
}

#[test]
fn same_scenario_with_a_threshold_not_yet_reached() {
    let (mut queue, mut mem) = ready();
    put_desc(&mut mem, DESC, 1, 0x400, 16, VIRTQ_DESC_F_WRITE, 0);
    offer(&mut mem, 0, 1);
    publish(&mut mem, 1);
    let (head, _) = pop_segments(&mut queue, &mem);
    set_used_event(&mut mem, 2);
    assert_eq!(queue.push_used(&mut mem, head, 16), Ok(()));
    assert!(!queue.needs_notification(&mem));
}

#[test]
fn notification_follows_the_threshold() {
    let (mut queue, mut mem) = ready();
    set_used_event(&mut mem, 2);
    assert_eq!(queue.push_used(&mut mem, 0, 0), Ok(()));
    assert!(!queue.needs_notification(&mem));
    assert_eq!(queue.next_used(), 1);
    assert_eq!(queue.push_used(&mut mem, 1, 0), Ok(()));
    assert_eq!(queue.next_used(), 2);
    assert!(!queue.needs_notification(&mem));
    assert_eq!(queue.push_used(&mut mem, 2, 0), Ok(()));
    assert_eq!(queue.next_used(), 3);
    assert!(queue.needs_notification(&mem));
    assert_eq!(queue.push_used(&mut mem, 3, 0), Ok(()));
    assert!(!queue.needs_notification(&mem));
}

#[test]
fn notification_covers_every_chain_pushed_since_it_was_last_asked() {
    let (mut queue, mut mem) = ready();
    set_used_event(&mut mem, 1);
    for head in 0..3 {
        assert_eq!(queue.push_used(&mut mem, head, 0), Ok(()));
    }
    assert!(queue.needs_notification(&mem));
    assert!(!queue.needs_notification(&mem));
    set_used_event(&mut mem, 3);
    assert_eq!(queue.push_used(&mut mem, 0, 0), Ok(()));
    assert!(queue.needs_notification(&mem));
    set_used_event(&mut mem, 3);
    assert_eq!(queue.push_used(&mut mem, 0, 0), Ok(()));
    assert!(!queue.needs_notification(&mem));
}

#[test]
fn nothing_pushed_needs_no_notification() {
    let (mut queue, mut mem) = ready();
    for event in [0u16, 1, 2, 0xffff] {
        set_used_event(&mut mem, event);
        assert!(!queue.needs_notification(&mem));
    }
}

#[test]
fn notification_on_a_queue_that_is_not_enabled_or_does_not_fit() {
    let mem = GuestMemory::new(MEM_SIZE);
    let mut queue = VirtQueue::new(256);
    assert!(!queue.needs_notification(&mem));
    assert_eq!(queue.configure(&mem, DESC, AVAIL, USED, SIZE), Ok(()));
    assert!(!queue.needs_notification(&mem));
    assert_eq!(queue.enable(), Ok(()));
    let small = GuestMemory::new(0x100);
    assert!(queue.needs_notification(&small));
    assert!(queue.needs_notification(&small));
}

#[test]
fn chains_come_back_in_the_order_they_were_offered() {
    let (mut queue, mut mem) = ready();
    for index in 0..4u64 {
        put_desc(&mut mem, DESC, index, 0x400 + 0x100 * index, 8 + index as u32, 0, 0);
    }
    let heads = [2u16, 0, 3];
    for (slot, head) in heads.iter().enumerate() {
        offer(&mut mem, slot as u64, *head);
    }
    publish(&mut mem, 3);
    for (k, head) in heads.iter().enumerate() {
        let (popped, segments) = pop_segments(&mut queue, &mem);
        assert_eq!(popped, *head);
        assert_eq!(segments, vec![segment(0x400 + 0x100 * *head as u64, 8 + *head as u32, false)]);
        assert_eq!(queue.push_used(&mut mem, popped, 100 + k as u32), Ok(()));
    }
    assert!(matches!(queue.pop_chain(&mem), Ok(None)));
    assert_eq!(queue.next_avail(), 3);
    assert_eq!(queue.next_used(), 3);
    assert_eq!(used_index(&mem), 3);
    assert_eq!(used_entry(&mem, 0), (2, 100));
    assert_eq!(used_entry(&mem, 1), (0, 101));
    assert_eq!(used_entry(&mem, 2), (3, 102));
    assert_eq!(used_entry(&mem, 3), (0, 0));

    let heads = [1u16, 3, 2];
    for (k, head) in heads.iter().enumerate() {
        offer(&mut mem, (3 + k as u64) % 4, *head);
    }
    publish(&mut mem, 6);
    for (k, head) in heads.iter().enumerate() {
        let (popped, _) = pop_segments(&mut queue, &mem);
        assert_eq!(popped, *head);
        assert_eq!(queue.push_used(&mut mem, popped, 200 + k as u32), Ok(()));
    }
    assert_eq!(queue.next_avail(), 6);
    assert_eq!(queue.next_used(), 6);
    assert_eq!(used_index(&mem), 6);
    assert_eq!(used_entry(&mem, 3), (1, 200));
    assert_eq!(used_entry(&mem, 0), (3, 201));
    assert_eq!(used_entry(&mem, 1), (2, 202));
    assert_eq!(used_entry(&mem, 2), (3, 102));
}

#[test]
fn indices_wrap_at_two_to_the_sixteenth() {
    let (mut queue, mut mem) = ready();
    put_desc(&mut mem, DESC, 0, 0x400, 4, 0, 0);
    for slot in 0..4 {
        offer(&mut mem, slot, 0);
    }
    let rounds: u32 = 0x1_0000 + 5;
    for round in 0..rounds {
        publish(&mut mem, (round as u16).wrapping_add(1));
        let (head, _) = pop_segments(&mut queue, &mem);
        assert_eq!(head, 0);
        assert_eq!(queue.push_used(&mut mem, head, round), Ok(()));
    }
    assert_eq!(queue.next_avail(), 5);
    assert_eq!(queue.next_used(), 5);
    assert_eq!(used_index(&mem), 5);
    assert_eq!(used_entry(&mem, 0), (0, 0x1_0004));
    assert_eq!(used_entry(&mem, 1), (0, 0x1_0001));
    assert_eq!(used_entry(&mem, 3), (0, 0x1_0003));
    assert!(matches!(queue.pop_chain(&mem), Ok(None)));
}

#[test]
fn pushing_stores_the_record_and_then_the_index() {
    let (mut queue, mut mem) = ready();
    assert_eq!(queue.push_used(&mut mem, 0x0102, 0x0a0b0c0d), Ok(()));
    assert_eq!(
        mem.read_at(USED, 12),
        Ok(vec![0, 0, 1, 0, 0x02, 0x01, 0, 0, 0x0d, 0x0c, 0x0b, 0x0a])
    );
    assert_eq!(queue.push_used(&mut mem, 3, 1), Ok(()));
    assert_eq!(mem.read_at(USED, 4), Ok(vec![0, 0, 2, 0]));
    assert_eq!(mem.read_at(USED + 12, 8), Ok(vec![3, 0, 0, 0, 1, 0, 0, 0]));
    assert_eq!(mem.read_at(USED + 20, 18), Ok(vec![0u8; 18]));
    assert_eq!(mem.read_at(DESC, 0x100), Ok(vec![0u8; 0x100]));
    assert_eq!(mem.read_at(AVAIL, 0x100), Ok(vec![0u8; 0x100]));
}

#[test]
fn used_element_bytes() {
    let element = UsedElement { id: 0x01020304, len: 0xfffefdfc };
    assert_eq!(element.encode(), [4, 3, 2, 1, 0xfc, 0xfd, 0xfe, 0xff]);
    assert_eq!(UsedElement { id: 0, len: 0 }.encode(), [0u8; 8]);
}

#[test]
fn chain_of_several_buffers() {
    let (mut queue, mut mem) = ready();
    put_desc(&mut mem, DESC, 3, 0x400, 0x10, VIRTQ_DESC_F_NEXT, 1);
    put_desc(&mut mem, DESC, 1, 0x500, 0x20, VIRTQ_DESC_F_NEXT | VIRTQ_DESC_F_WRITE, 0);
    put_desc(&mut mem, DESC, 0, 0xff0, 0x10, VIRTQ_DESC_F_WRITE, 2);
    offer(&mut mem, 0, 3);
    publish(&mut mem, 1);
    let (head, segments) = pop_segments(&mut queue, &mem);
    assert_eq!(head, 3);
    assert_eq!(
        segments,
        vec![segment(0x400, 0x10, false), segment(0x500, 0x20, true), segment(0xff0, 0x10, true)]
    );
}

#[test]
fn chain_through_every_descriptor_of_the_table() {
    let (mut queue, mut mem) = ready();
    for index in 0..3u64 {
        put_desc(&mut mem, DESC, index, 0x400, 1, VIRTQ_DESC_F_NEXT, index as u16 + 1);
    }
    put_desc(&mut mem, DESC, 3, 0x400, 1, 0, 0);
    offer(&mut mem, 0, 0);
    publish(&mut mem, 1);
    let (_, segments) = pop_segments(&mut queue, &mem);
    assert_eq!(segments.len(), 4);
}

#[test]
fn cyclic_chain_is_rejected_and_consumed() {
    let (mut queue, mut mem) = ready();
    put_desc(&mut mem, DESC, 0, 0x400, 8, VIRTQ_DESC_F_NEXT, 1);
    put_desc(&mut mem, DESC, 1, 0x500, 8, VIRTQ_DESC_F_NEXT, 2);
    put_desc(&mut mem, DESC, 2, 0x600, 8, VIRTQ_DESC_F_NEXT, 0);
    put_desc(&mut mem, DESC, 3, 0x700, 8, 0, 0);
    offer(&mut mem, 0, 0);
    offer(&mut mem, 1, 3);
    publish(&mut mem, 2);
    assert!(is_malformed(&queue.pop_chain(&mem)));
    assert_eq!(queue.next_avail(), 1);
    assert_eq!(queue.malformed_chains(), 1);
    let (head, segments) = pop_segments(&mut queue, &mem);
    assert_eq!(head, 3);
    assert_eq!(segments, vec![segment(0x700, 8, false)]);
    assert_eq!(queue.next_avail(), 2);
    assert_eq!(queue.malformed_chains(), 1);
    assert!(matches!(queue.pop_chain(&mem), Ok(None)));
}

#[test]
fn descriptor_that_links_to_itself_is_rejected() {
    let mut mem = GuestMemory::new(MEM_SIZE);
    put_desc(&mut mem, DESC, 2, 0x400, 8, VIRTQ_DESC_F_NEXT, 2);
    assert!(is_malformed(&DescriptorChain::walk(&mem, DESC, 4, 2)));
    assert!(is_malformed(&DescriptorChain::walk(&mem, DESC, 32768, 2)));
}

#[test]
fn chain_longer_than_the_queue_is_rejected() {
    let mut mem = GuestMemory::new(MEM_SIZE);
    for index in 0..4u64 {
        put_desc(&mut mem, DESC, index, 0x400, 1, VIRTQ_DESC_F_NEXT, index as u16 + 1);
    }
    put_desc(&mut mem, DESC, 4, 0x400, 1, 0, 0);
    let chain = DescriptorChain::walk(&mem, DESC, 8, 0).unwrap();
    assert_eq!(chain.len(), 5);
    assert!(is_malformed(&DescriptorChain::walk(&mem, DESC, 4, 0)));
    let chain = DescriptorChain::walk(&mem, DESC, 8, 1).unwrap();
    assert_eq!(chain.len(), 4);
    assert_eq!(chain.head_index(), 1);
}

#[test]
fn empty_buffer_is_rejected() {
    let (mut queue, mut mem) = ready();
    put_desc(&mut mem, DESC, 0, 0x400, 0, 0, 0);
    put_desc(&mut mem, DESC, 1, 0x400, 8, VIRTQ_DESC_F_NEXT, 0);
    offer(&mut mem, 0, 0);
    offer(&mut mem, 1, 1);
    publish(&mut mem, 2);
    assert!(is_malformed(&queue.pop_chain(&mem)));
    assert!(is_malformed(&queue.pop_chain(&mem)));
    assert_eq!(queue.malformed_chains(), 2);
    assert_eq!(queue.next_avail(), 2);
    assert_eq!(mem.read_at(0x400, 0x100), Ok(vec![0u8; 0x100]));
}

#[test]
fn buffer_outside_guest_memory_is_rejected() {
    let mut mem = GuestMemory::new(MEM_SIZE);
    let cases: [(u64, u32); 6] = [
        (0x1000, 1),
        (0xfff, 2),
        (0, 0x1001),
        (u64::MAX, 1),
        (u64::MAX - 3, 8),
        (0x400, u32::MAX),
    ];
    for (addr, len) in cases {
        put_desc(&mut mem, DESC, 0, addr, len, VIRTQ_DESC_F_WRITE, 0);
        assert!(is_malformed(&DescriptorChain::walk(&mem, DESC, 4, 0)));
    }
    put_desc(&mut mem, DESC, 0, 0xfff, 1, VIRTQ_DESC_F_WRITE, 0);
    assert!(DescriptorChain::walk(&mem, DESC, 4, 0).is_ok());
    put_desc(&mut mem, DESC, 0, 0, 0x1000, 0, 0);
    assert!(DescriptorChain::walk(&mem, DESC, 4, 0).is_ok());
}

#[test]
fn bad_buffer_late_in_a_chain_rejects_the_whole_chain() {
    let mut mem = GuestMemory::new(MEM_SIZE);
    put_desc(&mut mem, DESC, 0, 0x400, 8, VIRTQ_DESC_F_NEXT, 1);
    put_desc(&mut mem, DESC, 1, 0x500, 8, VIRTQ_DESC_F_NEXT, 2);
    put_desc(&mut mem, DESC, 2, 0x2000, 8, 0, 0);
    assert!(is_malformed(&DescriptorChain::walk(&mem, DESC, 4, 0)));
    put_desc(&mut mem, DESC, 2, 0x600, 0, 0, 0);
    assert!(is_malformed(&DescriptorChain::walk(&mem, DESC, 4, 0)));
    put_desc(&mut mem, DESC, 2, 0x600, 8, 0, 0);
    assert_eq!(DescriptorChain::walk(&mem, DESC, 4, 0).unwrap().len(), 3);
}

#[test]
fn buffers_longer_in_all_than_guest_memory_are_rejected() {
    let mut mem = GuestMemory::new(MEM_SIZE);
    put_desc(&mut mem, DESC, 0, 0x100, 0x900, VIRTQ_DESC_F_NEXT, 1);
    put_desc(&mut mem, DESC, 1, 0x200, 0x700, 0, 0);
    assert_eq!(DescriptorChain::walk(&mem, DESC, 4, 0).unwrap().len(), 2);
    put_desc(&mut mem, DESC, 1, 0x200, 0x701, 0, 0);
    assert!(is_malformed(&DescriptorChain::walk(&mem, DESC, 4, 0)));
}

#[test]
fn links_and_heads_outside_the_table_are_rejected() {
    let (mut queue, mut mem) = ready();
    put_desc(&mut mem, DESC, 0, 0x400, 8, VIRTQ_DESC_F_NEXT, 4);
    put_desc(&mut mem, DESC, 4, 0x400, 8, 0, 0);
    offer(&mut mem, 0, 0);
    offer(&mut mem, 1, 4);
    offer(&mut mem, 2, 0xffff);
    publish(&mut mem, 3);
    for taken in 1..=3 {
        assert!(is_malformed(&queue.pop_chain(&mem)));
        assert_eq!(queue.next_avail(), taken);
        assert_eq!(queue.malformed_chains(), taken as u64);
    }
    assert!(matches!(queue.pop_chain(&mem), Ok(None)));
}

#[test]
fn table_outside_guest_memory_is_rejected() {
    let mem = GuestMemory::new(MEM_SIZE);
    assert!(is_malformed(&DescriptorChain::walk(&mem, 0xff8, 4, 0)));
    assert!(is_malformed(&DescriptorChain::walk(&mem, u64::MAX - 7, 4, 1)));
    assert!(is_malformed(&DescriptorChain::walk(&mem, DESC, 0, 0)));
}

#[test]
fn indirect_chain() {
    let (mut queue, mut mem) = ready();
    put_desc(&mut mem, DESC, 0, 0x400, 8, VIRTQ_DESC_F_NEXT, 2);
    put_desc(&mut mem, DESC, 2, 0x800, 48, VIRTQ_DESC_F_INDIRECT, 0);
    put_desc(&mut mem, 0x800, 0, 0x500, 1, VIRTQ_DESC_F_NEXT, 2);
    put_desc(&mut mem, 0x800, 2, 0x600, 2, VIRTQ_DESC_F_NEXT | VIRTQ_DESC_F_WRITE, 1);
    put_desc(&mut mem, 0x800, 1, 0x700, 3, VIRTQ_DESC_F_WRITE, 0);
    offer(&mut mem, 0, 0);
    publish(&mut mem, 1);
    let (head, segments) = pop_segments(&mut queue, &mem);
    assert_eq!(head, 0);
    assert_eq!(
        segments,
        vec![
            segment(0x400, 8, false),
            segment(0x500, 1, false),
            segment(0x600, 2, true),
            segment(0x700, 3, true)
        ]
    );
}

#[test]
fn indirect_table_may_hold_more_descriptors_than_the_queue() {
    let mut mem = GuestMemory::new(MEM_SIZE);
    put_desc(&mut mem, DESC, 1, 0x800, 16 * 6, VIRTQ_DESC_F_INDIRECT, 0);
    for index in 0..5u64 {
        put_desc(&mut mem, 0x800, index, 0x400, 4, VIRTQ_DESC_F_NEXT, index as u16 + 1);
    }
    put_desc(&mut mem, 0x800, 5, 0x400, 4, 0, 0);
    let chain = DescriptorChain::walk(&mem, DESC, 4, 1).unwrap();
    assert_eq!(chain.len(), 6);
    assert_eq!(chain.head_index(), 1);
}

#[test]
fn malformed_indirect_descriptors_are_rejected() {
    let mut mem = GuestMemory::new(MEM_SIZE);
    put_desc(&mut mem, 0x800, 0, 0x400, 4, 0, 0);

    put_desc(&mut mem, DESC, 0, 0x800, 16, VIRTQ_DESC_F_INDIRECT, 0);
    assert_eq!(DescriptorChain::walk(&mem, DESC, 4, 0).unwrap().len(), 1);

    put_desc(&mut mem, DESC, 0, 0x800, 16, VIRTQ_DESC_F_INDIRECT | VIRTQ_DESC_F_NEXT, 1);
    put_desc(&mut mem, DESC, 1, 0x400, 4, 0, 0);
    assert!(is_malformed(&DescriptorChain::walk(&mem, DESC, 4, 0)));

    for len in [0u32, 8, 17, 24, 0x1000] {
        put_desc(&mut mem, DESC, 0, 0x800, len, VIRTQ_DESC_F_INDIRECT, 0);
        assert!(is_malformed(&DescriptorChain::walk(&mem, DESC, 4, 0)));
    }
    put_desc(&mut mem, DESC, 0, 0xff8, 16, VIRTQ_DESC_F_INDIRECT, 0);
    assert!(is_malformed(&DescriptorChain::walk(&mem, DESC, 4, 0)));
    put_desc(&mut mem, DESC, 0, u64::MAX - 15, 16, VIRTQ_DESC_F_INDIRECT, 0);
    assert!(is_malformed(&DescriptorChain::walk(&mem, DESC, 4, 0)));
}

#[test]
fn nested_indirection_is_rejected() {
    let mut mem = GuestMemory::new(MEM_SIZE);
    put_desc(&mut mem, DESC, 0, 0x800, 32, VIRTQ_DESC_F_INDIRECT, 0);
    put_desc(&mut mem, 0x800, 0, 0x400, 4, VIRTQ_DESC_F_NEXT, 1);
    put_desc(&mut mem, 0x800, 1, 0x900, 16, VIRTQ_DESC_F_INDIRECT, 0);
    put_desc(&mut mem, 0x900, 0, 0x400, 4, 0, 0);
    assert!(is_malformed(&DescriptorChain::walk(&mem, DESC, 4, 0)));
    put_desc(&mut mem, 0x800, 1, 0x900, 16, 0, 0);
    assert_eq!(DescriptorChain::walk(&mem, DESC, 4, 0).unwrap().len(), 2);
}

#[test]
fn runaway_chains_in_an_indirect_table_are_rejected() {
    let mut mem = GuestMemory::new(MEM_SIZE);
    put_desc(&mut mem, DESC, 0, 0x800, 32, VIRTQ_DESC_F_INDIRECT, 0);
    put_desc(&mut mem, 0x800, 0, 0x400, 4, VIRTQ_DESC_F_NEXT, 1);
    put_desc(&mut mem, 0x800, 1, 0x400, 4, VIRTQ_DESC_F_NEXT, 0);
    assert!(is_malformed(&DescriptorChain::walk(&mem, DESC, 4, 0)));
    put_desc(&mut mem, 0x800, 1, 0x400, 4, VIRTQ_DESC_F_NEXT, 2);
    put_desc(&mut mem, 0x800, 2, 0x400, 4, 0, 0);
    assert!(is_malformed(&DescriptorChain::walk(&mem, DESC, 4, 0)));
    put_desc(&mut mem, 0x800, 1, 0x400, 4, 0, 0);
    assert_eq!(DescriptorChain::walk(&mem, DESC, 4, 0).unwrap().len(), 2);
}

#[test]
fn descriptor_records_are_decoded_field_by_field() {
    let mut mem = GuestMemory::new(64);
    let record: Vec<u8> = (1..=16).collect();
    mem.write_at(16, &record).unwrap();
    let d = Descriptor::read(&mem, 16).unwrap();
    assert_eq!(
        d,
        Descriptor { addr: 0x0807060504030201, len: 0x0c0b0a09, flags: 0x0e0d, next: 0x100f }
    );
    assert!(is_malformed(&Descriptor::read(&mem, 49)));
    assert!(is_malformed(&Descriptor::read(&mem, u64::MAX)));
    assert!(Descriptor::read(&mem, 48).is_ok());
}

#[test]
fn descriptor_flags() {
    let d = |flags: u16| Descriptor { addr: 0x10, len: 4, flags, next: 7 };
    assert!(d(VIRTQ_DESC_F_NEXT).has_next());
    assert!(!d(VIRTQ_DESC_F_NEXT).is_write_only());
    assert!(!d(VIRTQ_DESC_F_NEXT).is_indirect());
    assert!(d(VIRTQ_DESC_F_WRITE).is_write_only());
    assert!(!d(VIRTQ_DESC_F_WRITE).has_next());
    assert!(d(VIRTQ_DESC_F_INDIRECT).is_indirect());
    assert!(!d(0).has_next() && !d(0).is_write_only() && !d(0).is_indirect());
    assert!(d(0xfff8).segment() == segment(0x10, 4, false));
    assert_eq!(d(3).segment(), segment(0x10, 4, true));
}

#[test]
fn queue_sizes() {
    for shift in 0..16 {
        assert!(valid_queue_size(1 << shift));
    }
    for size in [0u16, 3, 5, 6, 7, 12, 255, 257, 32767, 32769, 0xffff] {
        assert!(!valid_queue_size(size));
    }
}

#[test]
fn invalid_geometry_is_rejected() {
    let mem = GuestMemory::new(MEM_SIZE);
    let mut queue = VirtQueue::new(8);
    let bad: [(u64, u64, u64, u16); 14] = [
        (DESC, AVAIL, USED, 0),
        (DESC, AVAIL, USED, 3),
        (DESC, AVAIL, USED, 16),
        (0xfc1, AVAIL, USED, 4),
        (DESC, 0xff3, USED, 4),
        (DESC, AVAIL, 0xfdb, 4),
        (u64::MAX - 8, AVAIL, USED, 4),
        (DESC, u64::MAX, USED, 4),
        (DESC, AVAIL, u64::MAX - 37, 4),
        (DESC, 0x3f, USED, 4),
        (0x10d, AVAIL, USED, 4),
        (DESC, AVAIL, 0x10d, 4),
        (0x225, AVAIL, USED, 4),
        (DESC, DESC, USED, 4),
    ];
    for (desc, avail, used, size) in bad {
        assert_eq!(queue.configure(&mem, desc, avail, used, size), Err(QueueError::InvalidQueueConfig));
        assert_eq!(queue.state(), QueueState::Uninitialized);
        assert_eq!(queue.size(), 0);
        assert_eq!(queue.enable(), Err(QueueError::InvalidQueueConfig));
    }
    assert_eq!(queue.configure(&mem, 0xfc0, 0xfb2, 0xf8c, 4), Ok(()));
    assert_eq!(queue.configure(&mem, 0x40, 0x32, 0x0, 4), Ok(()));
    assert_eq!(queue.configure(&mem, DESC, AVAIL, USED, 8), Ok(()));
    assert_eq!(queue.configure(&mem, DESC, AVAIL, USED, 1), Ok(()));
    assert_eq!(
        (queue.descriptor_table_addr(), queue.avail_ring_addr(), queue.used_ring_addr(), queue.size()),
        (DESC, AVAIL, USED, 1)
    );
    assert_eq!(queue.max_size(), 8);
}

#[test]
fn failed_configuration_keeps_the_earlier_one() {
    let mem = GuestMemory::new(MEM_SIZE);
    let mut queue = VirtQueue::new(8);
    assert_eq!(queue.configure(&mem, DESC, AVAIL, USED, 4), Ok(()));
    assert_eq!(queue.configure(&mem, DESC, DESC, USED, 4), Err(QueueError::InvalidQueueConfig));
    assert_eq!(queue.state(), QueueState::Configured);
    assert_eq!(
        (queue.descriptor_table_addr(), queue.avail_ring_addr(), queue.used_ring_addr(), queue.size()),
        (DESC, AVAIL, USED, 4)
    );
    assert_eq!(queue.enable(), Ok(()));
    assert_eq!(queue.configure(&mem, DESC, AVAIL, USED, 2), Err(QueueError::InvalidQueueConfig));
    assert_eq!(queue.size(), 4);
    assert!(queue.is_enabled());
    assert_eq!(queue.enable(), Ok(()));
    assert!(queue.is_enabled());
}

#[test]
fn queue_that_is_not_enabled_pops_and_pushes_nothing() {
    let mut mem = GuestMemory::new(MEM_SIZE);
    let mut queue = VirtQueue::new(8);
    let not_enabled = |result: Result<Option<DescriptorChain>, DeviceError>| {
        matches!(result, Err(DeviceError::QueueError(QueueError::NotEnabled)))
    };
    assert!(not_enabled(queue.pop_chain(&mem)));
    assert_eq!(queue.push_used(&mut mem, 0, 0), Err(QueueError::NotEnabled));
    assert_eq!(queue.configure(&mem, DESC, AVAIL, USED, 4), Ok(()));
    publish(&mut mem, 1);
    put_desc(&mut mem, DESC, 0, 0x400, 8, 0, 0);
    assert!(not_enabled(queue.pop_chain(&mem)));
    assert_eq!(queue.push_used(&mut mem, 0, 0), Err(QueueError::NotEnabled));
    assert_eq!(queue.next_avail(), 0);
    assert_eq!(queue.next_used(), 0);
    assert_eq!(mem.read_at(USED, 0x100), Ok(vec![0u8; 0x100]));
}

#[test]
fn queue_that_does_not_fit_the_memory_at_hand() {
    let (mut queue, mut mem) = ready();
    put_desc(&mut mem, DESC, 0, 0x40, 8, 0, 0);
    publish(&mut mem, 1);
    let mut small = GuestMemory::from_bytes(mem.read_at(0, 0x225).unwrap());
    assert!(matches!(
        queue.pop_chain(&small),
        Err(DeviceError::QueueError(QueueError::InvalidQueueConfig))
    ));
    assert_eq!(queue.push_used(&mut small, 0, 0), Err(QueueError::InvalidQueueConfig));
    assert_eq!(small.read_at(0, 0x225), mem.read_at(0, 0x225));
    assert_eq!(queue.next_avail(), 0);
    assert_eq!(queue.next_used(), 0);
    assert_eq!(queue.malformed_chains(), 0);
    let mut enough = GuestMemory::from_bytes(mem.read_at(0, 0x226).unwrap());
    assert_eq!(pop_segments(&mut queue, &enough).1, vec![segment(0x40, 8, false)]);
    assert_eq!(queue.push_used(&mut enough, 0, 8), Ok(()));
}

#[test]
fn reset_zeroes_the_indices_and_keeps_the_geometry() {
    let (mut queue, mut mem) = ready();
    put_desc(&mut mem, DESC, 0, 0x400, 8, 0, 0);
    put_desc(&mut mem, DESC, 1, 0x400, 0, 0, 0);
    offer(&mut mem, 0, 0);
    offer(&mut mem, 1, 1);
    publish(&mut mem, 2);
    let (head, _) = pop_segments(&mut queue, &mem);
    assert!(is_malformed(&queue.pop_chain(&mem)));
    assert_eq!(queue.push_used(&mut mem, head, 8), Ok(()));
    assert_eq!((queue.next_avail(), queue.next_used(), queue.malformed_chains()), (2, 1, 1));
    queue.reset();
    assert_eq!(queue.state(), QueueState::Configured);
    assert_eq!((queue.next_avail(), queue.next_used(), queue.malformed_chains()), (0, 0, 1));
    assert_eq!(
        (queue.descriptor_table_addr(), queue.avail_ring_addr(), queue.used_ring_addr(), queue.size()),
        (DESC, AVAIL, USED, SIZE)
    );
    assert_eq!(queue.enable(), Ok(()));
    assert_eq!(pop_segments(&mut queue, &mem).0, 0);
    set_used_event(&mut mem, 0);
    assert_eq!(queue.push_used(&mut mem, 0, 8), Ok(()));
    assert!(queue.needs_notification(&mem));

    let mut fresh = VirtQueue::new(8);
    fresh.reset();
    assert_eq!(fresh.state(), QueueState::Uninitialized);
    assert_eq!(fresh.enable(), Err(QueueError::InvalidQueueConfig));
}

/// An interrupt line that counts the attempts to raise it, and fails them
/// on demand.
struct Line {
    attempts: u32,
    broken: bool,
}

impl Interrupt for Line {
    fn signal(&mut self) -> Result<(), std::io::Error> {
        self.attempts += 1;
        if self.broken {
            Err(std::io::Error::from_raw_os_error(11))
        } else {
            Ok(())
        }
    }
}

#[test]
fn interrupt_is_raised_once_where_it_is_due() {
    let (mut queue, mut mem) = ready();
    let mut line = Line { attempts: 0, broken: false };
    set_used_event(&mut mem, 1);
    assert!(matches!(queue.signal_used(&mem, &mut line), Ok(false)));
    assert_eq!(queue.push_used(&mut mem, 0, 0), Ok(()));
    assert!(matches!(queue.signal_used(&mem, &mut line), Ok(false)));
    assert_eq!(line.attempts, 0);
    assert_eq!(queue.push_used(&mut mem, 1, 0), Ok(()));
    assert!(matches!(queue.signal_used(&mem, &mut line), Ok(true)));
    assert_eq!(line.attempts, 1);
    assert!(matches!(queue.signal_used(&mem, &mut line), Ok(false)));
    assert_eq!(line.attempts, 1);
}

#[test]
fn failed_interrupt_is_reported_and_not_retried() {
    let (mut queue, mut mem) = ready();
    let mut line = Line { attempts: 0, broken: true };
    set_used_event(&mut mem, 0);
    assert_eq!(queue.push_used(&mut mem, 0, 0), Ok(()));
    match queue.signal_used(&mem, &mut line) {
        Err(DeviceError::FailedSignalingIrq(e)) => assert_eq!(e.raw_os_error(), Some(11)),
        other => panic!("unexpected result: {:?}", other),
    }
    assert_eq!(line.attempts, 1);
    assert!(matches!(queue.signal_used(&mem, &mut line), Ok(false)));
    assert_eq!(line.attempts, 1);
}

#[test]
fn queue_that_is_not_enabled_raises_no_interrupt() {
    let mem = GuestMemory::new(MEM_SIZE);
    let mut queue = VirtQueue::new(8);
    let mut line = Line { attempts: 0, broken: false };
    assert!(matches!(queue.signal_used(&mem, &mut line), Ok(false)));
    assert_eq!(queue.configure(&mem, DESC, AVAIL, USED, SIZE), Ok(()));
    assert!(matches!(queue.signal_used(&mem, &mut line), Ok(false)));
    assert_eq!(line.attempts, 0);
}
