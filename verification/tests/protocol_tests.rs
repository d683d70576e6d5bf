use capboot::bootstrap::{bootstrap_two_children, BootOutcome};
use capboot::rights::{Capability, Rights};
use capboot::untyped::{KernelObjectHandle, ObjectAllocator, ObjectKind, UntypedRegion};
use capboot::vspace::{
    build_child_address_space, AsidPool, Image, Perms, ScratchPage, Segment, IPC_BUFFER_VADDR,
};
use capboot::wiring::{CNodeTable, ChildState, Notification, CHANNEL_SLOT, SELF_TCB_SLOT};
use capboot::user_image_frame_index;
use capboot::BootError;

fn one_region_allocator(size_bits: u64, slots: u64) -> ObjectAllocator {
    let region = UntypedRegion::new(0x8000_0000, size_bits, false);
    ObjectAllocator::new(vec![region], 100, 100 + slots)
}

fn rx() -> Perms {
    Perms { read: true, write: false, execute: true }
}

fn rw() -> Perms {
    Perms { read: true, write: true, execute: false }
}

fn small_image(entry: u64) -> Image {
    Image {
        entry,
        segments: vec![
            Segment { vstart: 0x1_0000, len: 6000, data: vec![1, 2, 3], perms: rx() },
            Segment { vstart: 0x4_0000, len: 4096, data: vec![], perms: rw() },
        ],
    }
}

fn fake_vspace_root() -> KernelObjectHandle {
    KernelObjectHandle { slot: 3, kind: ObjectKind::PageTable, size_bits: 12, base: 0 }
}

#[test]
fn fixed_allocation_matches_request_and_advances_cursor() {
    let mut alloc = one_region_allocator(24, 10);
    let h = alloc.allocate_fixed(ObjectKind::Notification).unwrap();
    assert_eq!(h.kind, ObjectKind::Notification);
    assert_eq!(h.size_bits, 4);
    assert_eq!(h.slot, 100);
    assert_eq!(h.base, 0x8000_0000);
    // The cursor advanced by exactly the rounded-up size: 0 aligned to 16 is
    // 0, plus 16 bytes.
    assert_eq!(alloc.regions[0].cursor, 16);
    // A frame next: the cursor rounds up to 4096 first.
    let f = alloc.allocate_fixed(ObjectKind::Frame).unwrap();
    assert_eq!(f.kind, ObjectKind::Frame);
    assert_eq!(f.size_bits, 12);
    assert_eq!(f.slot, 101);
    assert_eq!(f.base, 0x8000_0000 + 4096);
    assert_eq!(alloc.regions[0].cursor, 8192);
}

#[test]
fn variable_allocation_matches_request() {
    let mut alloc = one_region_allocator(24, 10);
    let h = alloc.allocate_variable(ObjectKind::CNode, 7).unwrap();
    assert_eq!(h.kind, ObjectKind::CNode);
    assert_eq!(h.size_bits, 7);
    assert_eq!(alloc.regions[0].cursor, 128);
}

#[test]
fn allocations_never_overlap_across_regions() {
    let r1 = UntypedRegion::new(0x1000_0000, 13, false);
    let r2 = UntypedRegion::new(0x2000_0000, 13, false);
    let mut alloc = ObjectAllocator::new(vec![r1, r2], 0, 10);
    // The first region holds exactly two frames; the third lands in the
    // second region.
    let a = alloc.allocate_fixed(ObjectKind::Frame).unwrap();
    let b = alloc.allocate_fixed(ObjectKind::Frame).unwrap();
    let c = alloc.allocate_fixed(ObjectKind::Frame).unwrap();
    assert_eq!(a.base, 0x1000_0000);
    assert_eq!(b.base, 0x1000_1000);
    assert_eq!(c.base, 0x2000_0000);
}

#[test]
fn too_large_request_fails_with_out_of_memory_and_no_side_effects() {
    let mut alloc = one_region_allocator(13, 10);
    alloc.allocate_fixed(ObjectKind::Frame).unwrap();
    let cursor_before = alloc.regions[0].cursor;
    let slot_before = alloc.next_slot;
    // 2^13 bytes total, 2^12 consumed: another 2^13 object cannot fit.
    let r = alloc.allocate_variable(ObjectKind::CNode, 13);
    assert_eq!(r.unwrap_err(), BootError::OutOfMemory);
    assert_eq!(alloc.regions[0].cursor, cursor_before);
    assert_eq!(alloc.next_slot, slot_before);
}

#[test]
fn device_regions_hold_no_objects() {
    let region = UntypedRegion::new(0x8000_0000, 24, true);
    let mut alloc = ObjectAllocator::new(vec![region], 0, 10);
    let r = alloc.allocate_fixed(ObjectKind::Notification);
    assert_eq!(r.unwrap_err(), BootError::OutOfMemory);
}

#[test]
fn undersized_cnode_request_is_invalid() {
    let mut alloc = one_region_allocator(24, 10);
    let r = alloc.allocate_variable(ObjectKind::CNode, 5);
    assert_eq!(r.unwrap_err(), BootError::InvalidSize);
    assert_eq!(alloc.regions[0].cursor, 0);
}

#[test]
fn exhausted_slot_range_is_reported() {
    let mut alloc = one_region_allocator(24, 0);
    let r = alloc.allocate_fixed(ObjectKind::Notification);
    assert_eq!(r.unwrap_err(), BootError::SlotExhausted);
}

#[test]
fn derive_narrows_rights_and_attaches_badge() {
    let source = Capability {
        object: 7,
        kind: ObjectKind::Notification,
        rights: Rights::all(),
        badge: 0,
    };
    let c = capboot::rights::derive(&source, Rights::write_only(), 0x1337).unwrap();
    assert_eq!(c.object, 7);
    assert_eq!(c.rights, Rights::write_only());
    assert_eq!(c.badge, 0x1337);
}

#[test]
fn derive_cannot_widen_rights() {
    let source = Capability {
        object: 7,
        kind: ObjectKind::Notification,
        rights: Rights::write_only(),
        badge: 0,
    };
    let r = capboot::rights::derive(&source, Rights::all(), 0);
    assert_eq!(r.unwrap_err(), BootError::RightsViolation);
    let r2 = capboot::rights::derive(&source, Rights::read_only(), 0);
    assert_eq!(r2.unwrap_err(), BootError::RightsViolation);
}

#[test]
fn write_only_capability_cannot_receive() {
    let mut alloc = one_region_allocator(24, 10);
    let (mut channel, root_cap) = Notification::create(&mut alloc).unwrap();
    let tx = capboot::rights::derive(&root_cap, Rights::write_only(), 5).unwrap();
    channel.signal(&tx).unwrap();
    let r = channel.wait(&tx);
    assert_eq!(r.unwrap_err(), BootError::RightsViolation);
}

#[test]
fn read_only_capability_cannot_send() {
    let mut alloc = one_region_allocator(24, 10);
    let (mut channel, root_cap) = Notification::create(&mut alloc).unwrap();
    let rx_cap = capboot::rights::derive(&root_cap, Rights::read_only(), 0).unwrap();
    let r = channel.signal(&rx_cap);
    assert_eq!(r.unwrap_err(), BootError::RightsViolation);
}

#[test]
fn foreign_capability_is_invalid_on_the_channel() {
    let mut alloc = one_region_allocator(24, 10);
    let (mut channel, root_cap) = Notification::create(&mut alloc).unwrap();
    let other = Capability { object: root_cap.object + 1, ..root_cap };
    assert_eq!(channel.signal(&other).unwrap_err(), BootError::InvalidCapability);
}

#[test]
fn badge_signalled_through_s1_is_observed_through_s2() {
    // Scenario: one notification; a write-only badge 0x1337 copy in slot 1 of
    // a table, a read-only unbadged copy in slot 2; signal, then wait.
    let mut alloc = one_region_allocator(24, 10);
    let (mut channel, root_cap) = Notification::create(&mut alloc).unwrap();
    let mut cnode = CNodeTable::create(&mut alloc, 2).unwrap();
    cnode.mint_into(1, &root_cap, Rights::write_only(), 0x1337).unwrap();
    cnode.mint_into(2, &root_cap, Rights::read_only(), 0).unwrap();
    let s1 = cnode.slots[1].unwrap();
    let s2 = cnode.slots[2].unwrap();
    channel.signal(&s1).unwrap();
    let badge = channel.wait(&s2).unwrap();
    assert_eq!(badge, 0x1337);
    assert!(!channel.pending);
}

#[test]
fn minting_into_an_occupied_slot_is_refused() {
    let mut alloc = one_region_allocator(24, 10);
    let (_channel, root_cap) = Notification::create(&mut alloc).unwrap();
    let mut cnode = CNodeTable::create(&mut alloc, 2).unwrap();
    cnode.mint_into(1, &root_cap, Rights::read_only(), 0).unwrap();
    let r = cnode.mint_into(1, &root_cap, Rights::read_only(), 0);
    assert_eq!(r.unwrap_err(), BootError::InvalidCapability);
    let out_of_range = cnode.mint_into(4, &root_cap, Rights::read_only(), 0);
    assert_eq!(out_of_range.unwrap_err(), BootError::InvalidCapability);
}

#[test]
fn built_address_space_shows_file_bytes_zero_tail_and_permissions() {
    let mut alloc = one_region_allocator(24, 64);
    let mut pool = AsidPool::new(1, 16);
    let image = small_image(0x1_0000);
    let root = fake_vspace_root();
    let scratch = ScratchPage::claim(0x9000);
    let (asp, ipc_addr, ipc_cap) =
        build_child_address_space(&mut alloc, &image, &root, scratch, &mut pool).unwrap();
    assert_eq!(asp.asid, 1);
    assert_eq!(ipc_addr, IPC_BUFFER_VADDR);
    assert_eq!(ipc_cap.kind, ObjectKind::Frame);
    // First segment: pages 0x10000 and 0x11000; bytes 1,2,3 then zeroes.
    assert_eq!(asp.mappings[0].vpage, 0x1_0000);
    assert_eq!(asp.mappings[0].perms, rx());
    assert_eq!(asp.mappings[0].content[0], 1);
    assert_eq!(asp.mappings[0].content[1], 2);
    assert_eq!(asp.mappings[0].content[2], 3);
    assert_eq!(asp.mappings[0].content[3], 0);
    assert_eq!(asp.mappings[0].content[4095], 0);
    assert_eq!(asp.mappings[1].vpage, 0x1_1000);
    assert_eq!(asp.mappings[1].perms, rx());
    assert_eq!(asp.mappings[1].content[0], 0);
    // Second segment: one zero page, read/write.
    assert_eq!(asp.mappings[2].vpage, 0x4_0000);
    assert_eq!(asp.mappings[2].perms, rw());
    assert_eq!(asp.mappings[2].content[0], 0);
    // The IPC buffer page comes last, read/write and zeroed.
    assert_eq!(asp.mappings[3].vpage, IPC_BUFFER_VADDR);
    assert_eq!(asp.mappings[3].perms, rw());
    assert_eq!(asp.mappings[3].content[0], 0);
    assert_eq!(asp.mappings.len(), 4);
}

#[test]
fn overlapping_segments_are_rejected() {
    let mut alloc = one_region_allocator(24, 64);
    let mut pool = AsidPool::new(1, 16);
    let image = Image {
        entry: 0x1_0000,
        segments: vec![
            Segment { vstart: 0x1_0000, len: 4096, data: vec![], perms: rx() },
            Segment { vstart: 0x1_0800, len: 4096, data: vec![], perms: rw() },
        ],
    };
    let root = fake_vspace_root();
    let scratch = ScratchPage::claim(0x9000);
    let r = build_child_address_space(&mut alloc, &image, &root, scratch, &mut pool);
    assert_eq!(r.unwrap_err(), BootError::OverlapError);
}

#[test]
fn empty_asid_pool_stops_construction_before_any_allocation() {
    let mut alloc = one_region_allocator(24, 64);
    let mut pool = AsidPool::new(1, 0);
    let image = small_image(0x1_0000);
    let root = fake_vspace_root();
    let scratch = ScratchPage::claim(0x9000);
    let slot_before = alloc.next_slot;
    let r = build_child_address_space(&mut alloc, &image, &root, scratch, &mut pool);
    assert_eq!(r.unwrap_err(), BootError::AsidPoolExhausted);
    assert_eq!(alloc.next_slot, slot_before);
    assert_eq!(alloc.regions[0].cursor, 0);
}

#[test]
fn bootstrap_launches_both_children_at_their_entry_points() {
    let mut alloc = one_region_allocator(26, 256);
    let mut pool = AsidPool::new(1, 16);
    let sender_image = small_image(0x1_0040);
    let receiver_image = small_image(0x1_0080);
    let root = fake_vspace_root();
    let out: BootOutcome = bootstrap_two_children(
        &mut alloc,
        &mut pool,
        &sender_image,
        &receiver_image,
        &root,
        ScratchPage::claim(0x9000),
        ScratchPage::claim(0xA000),
        0x1337,
    )
    .unwrap();
    assert_eq!(out.sender.state, ChildState::Running);
    assert_eq!(out.receiver.state, ChildState::Running);
    // Scenario: once resumed, the first instruction fetch is the entry point.
    assert_eq!(out.sender.pc, Some(0x1_0040));
    assert_eq!(out.receiver.pc, Some(0x1_0080));
    assert_eq!(out.sender.aspace.asid, 1);
    assert_eq!(out.receiver.aspace.asid, 2);
    // Asymmetric channel wiring.
    let tx = out.sender.cnode.slots[CHANNEL_SLOT as usize].unwrap();
    let rxc = out.receiver.cnode.slots[CHANNEL_SLOT as usize].unwrap();
    assert_eq!(tx.rights, Rights::write_only());
    assert_eq!(tx.badge, 0x1337);
    assert_eq!(rxc.rights, Rights::read_only());
    assert_eq!(rxc.badge, 0);
    // Each child got a full-rights capability to its own thread.
    let self1 = out.sender.cnode.slots[SELF_TCB_SLOT as usize].unwrap();
    assert_eq!(self1.rights, Rights::all());
    assert_eq!(self1.kind, ObjectKind::Tcb);
    // The wired channel really delivers the badge end to end.
    let mut channel = out.channel;
    channel.signal(&tx).unwrap();
    assert_eq!(channel.wait(&rxc).unwrap(), 0x1337);
}

#[test]
fn bootstrap_is_not_idempotent_the_second_run_fails() {
    // The same resource manifest feeds two runs: the first consumes the
    // identifiers and slots, the second must fail rather than succeed.
    let mut alloc = one_region_allocator(26, 256);
    let mut pool = AsidPool::new(1, 2);
    let sender_image = small_image(0x1_0040);
    let receiver_image = small_image(0x1_0080);
    let root = fake_vspace_root();
    let first = bootstrap_two_children(
        &mut alloc,
        &mut pool,
        &sender_image,
        &receiver_image,
        &root,
        ScratchPage::claim(0x9000),
        ScratchPage::claim(0xA000),
        0x1337,
    );
    assert!(first.is_ok());
    let second = bootstrap_two_children(
        &mut alloc,
        &mut pool,
        &sender_image,
        &receiver_image,
        &root,
        ScratchPage::claim(0x9000),
        ScratchPage::claim(0xA000),
        0x1337,
    );
    assert_eq!(second.unwrap_err(), BootError::AsidPoolExhausted);
}

#[test]
fn frame_index_within_own_image() {
    assert_eq!(user_image_frame_index(0x40_3000, 0x40_0000), 3);
    assert_eq!(user_image_frame_index(0x40_0000, 0x40_0000), 0);
}

#[test]
fn every_mapped_byte_reads_back_through_the_view() {
    let mut alloc = one_region_allocator(24, 64);
    let mut pool = AsidPool::new(1, 16);
    let image = small_image(0x1_0000);
    let root = fake_vspace_root();
    let scratch = ScratchPage::claim(0x9000);
    let (asp, _, _) =
        build_child_address_space(&mut alloc, &image, &root, scratch, &mut pool).unwrap();
    // File-backed bytes, then the zero tail, each with the segment's perms.
    assert_eq!(asp.read_at(0x1_0000), Some(1));
    assert_eq!(asp.read_at(0x1_0001), Some(2));
    assert_eq!(asp.read_at(0x1_0002), Some(3));
    assert_eq!(asp.read_at(0x1_0003), Some(0));
    assert_eq!(asp.read_at(0x1_1234), Some(0));
    assert_eq!(asp.perms_of(0x1_0002), Some(rx()));
    assert_eq!(asp.perms_of(0x4_0123), Some(rw()));
    // The IPC buffer page is mapped read/write and zeroed.
    assert_eq!(asp.read_at(IPC_BUFFER_VADDR + 8), Some(0));
    assert_eq!(asp.perms_of(IPC_BUFFER_VADDR), Some(rw()));
    // Nothing else is mapped.
    assert_eq!(asp.read_at(0x9_0000), None);
    assert_eq!(asp.perms_of(0x9_0000), None);
}

#[test]
fn badges_from_several_signals_accumulate_until_observed() {
    let mut alloc = one_region_allocator(24, 10);
    let (mut channel, root_cap) = Notification::create(&mut alloc).unwrap();
    let a = capboot::rights::derive(&root_cap, Rights::write_only(), 0x1).unwrap();
    let b = capboot::rights::derive(&root_cap, Rights::write_only(), 0x4).unwrap();
    let rx_cap = capboot::rights::derive(&root_cap, Rights::read_only(), 0).unwrap();
    channel.signal(&a).unwrap();
    channel.signal(&b).unwrap();
    assert_eq!(channel.wait(&rx_cap).unwrap(), 0x5);
}

#[test]
fn resumed_children_can_be_suspended_or_exit() {
    let mut alloc = one_region_allocator(26, 256);
    let mut pool = AsidPool::new(1, 16);
    let sender_image = small_image(0x1_0040);
    let receiver_image = small_image(0x1_0080);
    let root = fake_vspace_root();
    let mut out = bootstrap_two_children(
        &mut alloc,
        &mut pool,
        &sender_image,
        &receiver_image,
        &root,
        ScratchPage::claim(0x9000),
        ScratchPage::claim(0xA000),
        0x1337,
    )
    .unwrap();
    out.sender.suspend();
    assert_eq!(out.sender.state, ChildState::Suspended);
    out.receiver.exit();
    assert_eq!(out.receiver.state, ChildState::Exited);
}

#[test]
fn only_capability_tables_have_caller_chosen_sizes() {
    assert!(ObjectKind::Notification.has_fixed_size());
    assert!(ObjectKind::Tcb.has_fixed_size());
    assert!(ObjectKind::Frame.has_fixed_size());
    assert!(ObjectKind::PageTable.has_fixed_size());
    assert!(!ObjectKind::CNode.has_fixed_size());
    assert_eq!(ObjectKind::CNode.min_size_bits(), 6);
}
