//! The top-level launch protocol: build both children's address spaces,
//! create and wire the shared notification channel with asymmetric badged
//! rights, configure each child's thread, and resume both. Strictly
//! sequential and single-pass; the first failure aborts the whole bootstrap
//! and no partially wired child ever runs.

use vstd::prelude::*;

verus! {

use crate::rights::{spec_derive, Capability, Rights};
use crate::untyped::{
    lemma_can_allocate_after, lemma_can_allocate_implies_success, lemma_can_allocate_mono,
    KernelObjectHandle, ObjectAllocator, ObjectKind,
};
use crate::vspace::{
    build_child_address_space, image_loaded, lemma_segs_bound_nonneg, AsidPool, Image,
    ScratchPage, IPC_BUFFER_VADDR,
};
use crate::wiring::{
    ChildState, CNodeTable, Notification, ProcessDescriptor, CHANNEL_SLOT,
    CHILD_CNODE_SIZE_BITS, SELF_TCB_SLOT,
};
use crate::BootError;

/// Everything the bootstrap hands back: two running children and the channel
/// between them, plus the root's own full-rights channel capability kept for
/// supervision.
#[derive(Debug)]
pub struct BootOutcome {
    pub sender: ProcessDescriptor,
    pub receiver: ProcessDescriptor,
    pub channel: Notification,
    pub channel_cap: Capability,
}

/// Upper bound on the allocations the whole bootstrap makes: both address
/// spaces, one notification, two capability tables and two thread objects.
pub open spec fn spec_bootstrap_bound(sender_image: Image, receiver_image: Image) -> int {
    sender_image.spec_alloc_bound() + receiver_image.spec_alloc_bound() + 5
}

/// Run the whole ordered protocol for a sender/receiver pair: both address
/// spaces, the shared notification, each child's capability table with a
/// write-only badged channel capability on the sending side and a read-only
/// unbadged one on the receiving side, a full-rights self capability for
/// each child, thread configuration, registers, resume.
pub fn bootstrap_two_children(
    alloc: &mut ObjectAllocator,
    asid_pool: &mut AsidPool,
    sender_image: &Image,
    receiver_image: &Image,
    parent_vspace: &KernelObjectHandle,
    sender_scratch: ScratchPage,
    receiver_scratch: ScratchPage,
    sender_badge: u64,
) -> (r: Result<BootOutcome, BootError>)
    requires
        old(alloc).wf(),
        old(asid_pool).wf(),
    ensures
        final(alloc).wf(),
        final(asid_pool).wf(),
        old(asid_pool).remaining == 0 ==> r == Err::<BootOutcome, BootError>(
            BootError::AsidPoolExhausted,
        ),
        r == Err::<BootOutcome, BootError>(BootError::AsidPoolExhausted) ==> old(
            asid_pool,
        ).remaining < 2,
        r is Err ==> (r == Err::<BootOutcome, BootError>(BootError::AsidPoolExhausted) || r
            == Err::<BootOutcome, BootError>(BootError::OverlapError) || r == Err::<
            BootOutcome,
            BootError,
        >(BootError::OutOfMemory) || r == Err::<BootOutcome, BootError>(BootError::SlotExhausted)),
        r is Ok ==> final(asid_pool).remaining == old(asid_pool).remaining - 2,
        (old(asid_pool).remaining >= 2 && sender_image.spec_layout_ok()
            && receiver_image.spec_layout_ok() && old(alloc).can_allocate(
            spec_bootstrap_bound(*sender_image, *receiver_image),
        )) ==> r is Ok,
        r matches Ok(out) ==> {
            &&& out.sender.wf()
            &&& out.receiver.wf()
            &&& out.sender.state == ChildState::Running
            &&& out.receiver.state == ChildState::Running
            &&& out.sender.entry == sender_image.entry
            &&& out.receiver.entry == receiver_image.entry
            &&& out.sender.pc == Some(sender_image.entry)
            &&& out.receiver.pc == Some(receiver_image.entry)
            &&& image_loaded(out.sender.aspace, *sender_image)
            &&& image_loaded(out.receiver.aspace, *receiver_image)
            &&& out.sender.aspace.asid == old(asid_pool).next
            &&& out.receiver.aspace.asid == old(asid_pool).next + 1
            &&& out.sender.ipc_buffer_addr == IPC_BUFFER_VADDR
            &&& out.receiver.ipc_buffer_addr == IPC_BUFFER_VADDR
            &&& out.channel.word == 0
            &&& !out.channel.pending
            &&& out.channel_cap == (Capability {
                object: out.channel.object,
                kind: ObjectKind::Notification,
                rights: Rights::spec_all(),
                badge: 0u64,
            })
            &&& out.sender.cnode.slots@[CHANNEL_SLOT as int] == Some(
                Capability {
                    object: out.channel.object,
                    kind: ObjectKind::Notification,
                    rights: Rights::spec_write_only(),
                    badge: sender_badge,
                },
            )
            &&& out.receiver.cnode.slots@[CHANNEL_SLOT as int] == Some(
                Capability {
                    object: out.channel.object,
                    kind: ObjectKind::Notification,
                    rights: Rights::spec_read_only(),
                    badge: 0u64,
                },
            )
            &&& out.sender.tcb is Some
            &&& out.receiver.tcb is Some
            &&& out.sender.cnode.slots@[SELF_TCB_SLOT as int] == Some(
                Capability {
                    object: out.sender.tcb->Some_0.slot,
                    kind: ObjectKind::Tcb,
                    rights: Rights::spec_all(),
                    badge: 0u64,
                },
            )
            &&& out.receiver.cnode.slots@[SELF_TCB_SLOT as int] == Some(
                Capability {
                    object: out.receiver.tcb->Some_0.slot,
                    kind: ObjectKind::Tcb,
                    rights: Rights::spec_all(),
                    badge: 0u64,
                },
            )
        },
{
    let ghost alloc0 = *alloc;
    let ghost pool0 = *asid_pool;
    let ghost b1 = sender_image.spec_alloc_bound();
    let ghost b2 = receiver_image.spec_alloc_bound();
    let ghost bound = spec_bootstrap_bound(*sender_image, *receiver_image);
    let ghost premise = pool0.remaining >= 2 && sender_image.spec_layout_ok()
        && receiver_image.spec_layout_ok() && alloc0.can_allocate(bound);
    proof {
        if premise {
            lemma_segs_bound_nonneg(sender_image.segments@, 0);
            lemma_segs_bound_nonneg(receiver_image.segments@, 0);
        }
    }
    let (asp1, ipc_addr1, ipc_cap1) = match build_child_address_space(
        alloc,
        sender_image,
        parent_vspace,
        sender_scratch,
        asid_pool,
    ) {
        Ok(t) => t,
        Err(e) => {
            proof {
                if premise {
                    lemma_can_allocate_mono(alloc0, bound, b1);
                    assert(false);
                }
            }
            return Err(e);
        },
    };
    proof {
        if premise {
            assert(alloc.can_allocate(b2 + 5));
        }
    }
    let ghost alloc1 = *alloc;
    let (asp2, ipc_addr2, ipc_cap2) = match build_child_address_space(
        alloc,
        receiver_image,
        parent_vspace,
        receiver_scratch,
        asid_pool,
    ) {
        Ok(t) => t,
        Err(e) => {
            proof {
                if premise {
                    lemma_can_allocate_mono(alloc1, b2 + 5, b2);
                    assert(false);
                }
            }
            return Err(e);
        },
    };
    proof {
        if premise {
            assert(alloc.can_allocate(5));
        }
    }
    let ghost alloc2 = *alloc;
    let (channel, channel_cap) = match Notification::create(alloc) {
        Ok(t) => t,
        Err(e) => {
            proof {
                if premise {
                    lemma_can_allocate_mono(alloc2, 5, 1);
                    assert(false);
                }
            }
            return Err(e);
        },
    };
    let ghost alloc3 = *alloc;
    let cnode1 = match CNodeTable::create(alloc, CHILD_CNODE_SIZE_BITS) {
        Ok(c) => c,
        Err(e) => {
            proof {
                if premise {
                    assert(alloc3.can_allocate(4));
                    lemma_can_allocate_mono(alloc3, 4, 1);
                    assert(false);
                }
            }
            return Err(e);
        },
    };
    let ghost alloc4 = *alloc;
    let cnode2 = match CNodeTable::create(alloc, CHILD_CNODE_SIZE_BITS) {
        Ok(c) => c,
        Err(e) => {
            proof {
                if premise {
                    assert(alloc4.can_allocate(3));
                    lemma_can_allocate_mono(alloc4, 3, 1);
                    assert(false);
                }
            }
            return Err(e);
        },
    };
    let ghost alloc5 = *alloc;
    let tcb1 = match alloc.allocate_fixed(ObjectKind::Tcb) {
        Ok(h) => h,
        Err(e) => {
            proof {
                if premise {
                    assert(alloc5.can_allocate(2));
                    lemma_can_allocate_implies_success(alloc5, 11, 2);
                    assert(false);
                }
            }
            return Err(e);
        },
    };
    proof {
        if premise {
            lemma_can_allocate_after(alloc5, *alloc, ObjectKind::Tcb, 11, tcb1, 2);
        }
    }
    let ghost alloc6 = *alloc;
    let tcb2 = match alloc.allocate_fixed(ObjectKind::Tcb) {
        Ok(h) => h,
        Err(e) => {
            proof {
                if premise {
                    assert(alloc6.can_allocate(1));
                    lemma_can_allocate_implies_success(alloc6, 11, 1);
                    assert(false);
                }
            }
            return Err(e);
        },
    };
    // From here on the protocol is pure wiring; with four empty slots in each
    // fresh table, every step is sure to succeed.
    proof {
        vstd::arithmetic::power2::lemma2_to64();
    }
    let mut sender = ProcessDescriptor::new(cnode1, asp1, sender_image.entry, ipc_addr1, ipc_cap1);
    let mut receiver = ProcessDescriptor::new(
        cnode2,
        asp2,
        receiver_image.entry,
        ipc_addr2,
        ipc_cap2,
    );
    match sender.wire_channel(&channel_cap, Rights::write_only(), sender_badge) {
        Ok(()) => (),
        Err(e) => {
            proof {
                assert(false);
            }
            return Err(e);
        },
    }
    match receiver.wire_channel(&channel_cap, Rights::read_only(), 0) {
        Ok(()) => (),
        Err(e) => {
            proof {
                assert(false);
            }
            return Err(e);
        },
    }
    match sender.configure_thread(tcb1) {
        Ok(()) => (),
        Err(e) => {
            proof {
                assert(false);
            }
            return Err(e);
        },
    }
    match receiver.configure_thread(tcb2) {
        Ok(()) => (),
        Err(e) => {
            proof {
                assert(false);
            }
            return Err(e);
        },
    }
    match sender.grant_self_cap() {
        Ok(()) => (),
        Err(e) => {
            proof {
                assert(false);
            }
            return Err(e);
        },
    }
    match receiver.grant_self_cap() {
        Ok(()) => (),
        Err(e) => {
            proof {
                assert(false);
            }
            return Err(e);
        },
    }
    sender.write_registers();
    receiver.write_registers();
    match sender.resume() {
        Ok(()) => (),
        Err(e) => {
            proof {
                assert(false);
            }
            return Err(e);
        },
    }
    match receiver.resume() {
        Ok(()) => (),
        Err(e) => {
            proof {
                assert(false);
            }
            return Err(e);
        },
    }
    Ok(BootOutcome { sender, receiver, channel, channel_cap })
}

} // verus!
