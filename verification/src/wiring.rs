//! Capability wiring and launch: each child's private capability table, the
//! shared notification channel with deliberately asymmetric badged rights,
//! and the per-child thread state machine that only an explicit, fully
//! configured resume can bring to `Running`.

use vstd::prelude::*;

verus! {

use vstd::arithmetic::power2::pow2;
use crate::rights::{can_signal, can_wait, spec_derive, Capability, Rights};
use crate::untyped::{
    lemma_can_allocate_after, lemma_can_allocate_implies_success, KernelObjectHandle,
    ObjectAllocator, ObjectKind,
};
use crate::vspace::AddressSpace;
use crate::align::pow2_u64;
use crate::BootError;

/// Well-known slot, in each child's own capability table, of its channel
/// capability.
pub const CHANNEL_SLOT: u64 = 1;

/// Well-known slot of the child's full-rights capability to its own thread.
pub const SELF_TCB_SLOT: u64 = 2;

/// log2 of the number of slots in each child's capability table.
pub const CHILD_CNODE_SIZE_BITS: u64 = 2;

/// log2 of the bytes one capability slot occupies in a table object.
pub const CNODE_SLOT_BITS: u64 = 5;

/// Bits in a capability address.
pub const WORD_BITS: u64 = 64;

/// A child's private capability table: the kernel object and the model of
/// its slots.
#[derive(Debug)]
pub struct CNodeTable {
    pub handle: KernelObjectHandle,
    /// log2 of the slot count.
    pub size_bits: u64,
    pub slots: Vec<Option<Capability>>,
}

impl CNodeTable {
    pub open spec fn wf(self) -> bool {
        &&& self.handle.kind == ObjectKind::CNode
        &&& 1 <= self.size_bits <= 7
        &&& self.slots@.len() == pow2(self.size_bits as nat)
    }

    /// Allocate a capability table with `2^size_bits` empty slots.
    pub fn create(alloc: &mut ObjectAllocator, size_bits: u64) -> (r: Result<CNodeTable, BootError>)
        requires
            old(alloc).wf(),
            1 <= size_bits <= 7,
        ensures
            final(alloc).wf(),
            forall|n: int|
                old(alloc).can_allocate(n) && n >= 1 ==> final(alloc).can_allocate(n - 1),
            old(alloc).can_allocate(1) ==> r is Ok,
            r is Err ==> (r == Err::<CNodeTable, BootError>(BootError::OutOfMemory) || r == Err::<
                CNodeTable,
                BootError,
            >(BootError::SlotExhausted)),
            r matches Ok(c) ==> {
                &&& c.wf()
                &&& c.size_bits == size_bits
                &&& forall|i: int| 0 <= i < c.slots@.len() ==> c.slots@[i] is None
            },
    {
        let ghost alloc0 = *alloc;
        let handle = match alloc.allocate_variable(ObjectKind::CNode, size_bits + CNODE_SLOT_BITS) {
            Ok(h) => h,
            Err(e) => {
                proof {
                    if alloc0.can_allocate(1) {
                        lemma_can_allocate_implies_success(alloc0, (size_bits + 5) as u64, 1);
                    }
                }
                return Err(e);
            },
        };
        proof {
            assert forall|n: int| alloc0.can_allocate(n) && n >= 1 implies alloc.can_allocate(
                n - 1,
            ) by {
                lemma_can_allocate_after(
                    alloc0,
                    *alloc,
                    ObjectKind::CNode,
                    (size_bits + 5) as u64,
                    handle,
                    n,
                );
            }
        }
        let count: u64 = pow2_u64(size_bits);
        let mut slots: Vec<Option<Capability>> = Vec::new();
        let mut i: u64 = 0;
        while i < count
            invariant
                i <= count,
                slots@.len() == i,
                forall|k: int| 0 <= k < i ==> slots@[k] is None,
            decreases count - i,
        {
            slots.push(None);
            i = i + 1;
        }
        Ok(CNodeTable { handle, size_bits, slots })
    }

    /// Derive a copy of `source` with exactly `rights` and `badge`, and place
    /// it in slot `index` of this table, which must exist and be empty.
    pub fn mint_into(&mut self, index: u64, source: &Capability, rights: Rights, badge: u64) -> (r:
        Result<(), BootError>)
        requires
            old(self).wf(),
        ensures
            final(self).wf(),
            final(self).handle == old(self).handle,
            final(self).size_bits == old(self).size_bits,
            r is Err ==> *final(self) == *old(self),
            (r == Err::<(), BootError>(BootError::InvalidCapability)) <==> (index
                >= old(self).slots@.len() || old(self).slots@[index as int] is Some),
            (index < old(self).slots@.len() && old(self).slots@[index as int] is None) ==> ((r
                == Err::<(), BootError>(BootError::RightsViolation)) <==> !rights.subset_of(
                source.rights,
            )),
            r is Ok <==> (index < old(self).slots@.len() && old(self).slots@[index as int] is None
                && rights.subset_of(source.rights)),
            r is Ok ==> final(self).slots@ == old(self).slots@.update(
                index as int,
                spec_derive(*source, rights, badge),
            ),
    {
        if index >= self.slots.len() as u64 {
            return Err(BootError::InvalidCapability);
        }
        let occupied = self.slots[index as usize].is_some();
        if occupied {
            return Err(BootError::InvalidCapability);
        }
        let derived = match crate::rights::derive(source, rights, badge) {
            Ok(c) => c,
            Err(e) => {
                return Err(e);
            },
        };
        self.slots.set(index as usize, Some(derived));
        Ok(())
    }
}

/// The shared one-word notification channel: signalling a badged capability
/// ORs its badge into the word; a wait observes and clears it.
#[derive(Debug)]
pub struct Notification {
    /// Identity of the kernel object (its root-table slot).
    pub object: u64,
    /// Badge bits accumulated since the last wait.
    pub word: u64,
    /// Whether an unobserved signal is pending.
    pub pending: bool,
}

impl Notification {
    /// Allocate one notification object; the returned capability is the
    /// root's original, full-rights capability to it.
    pub fn create(alloc: &mut ObjectAllocator) -> (r: Result<(Notification, Capability), BootError>)
        requires
            old(alloc).wf(),
        ensures
            final(alloc).wf(),
            forall|n: int|
                old(alloc).can_allocate(n) && n >= 1 ==> final(alloc).can_allocate(n - 1),
            old(alloc).can_allocate(1) ==> r is Ok,
            r is Err ==> (r == Err::<(Notification, Capability), BootError>(BootError::OutOfMemory)
                || r == Err::<(Notification, Capability), BootError>(BootError::SlotExhausted)),
            r matches Ok(out) ==> {
                &&& out.0.object == old(alloc).next_slot
                &&& out.0.word == 0
                &&& !out.0.pending
                &&& out.1 == (Capability {
                    object: out.0.object,
                    kind: ObjectKind::Notification,
                    rights: Rights::spec_all(),
                    badge: 0u64,
                })
            },
    {
        let ghost alloc0 = *alloc;
        let handle = match alloc.allocate_fixed(ObjectKind::Notification) {
            Ok(h) => h,
            Err(e) => {
                proof {
                    if alloc0.can_allocate(1) {
                        lemma_can_allocate_implies_success(alloc0, 4, 1);
                    }
                }
                return Err(e);
            },
        };
        proof {
            assert forall|n: int| alloc0.can_allocate(n) && n >= 1 implies alloc.can_allocate(
                n - 1,
            ) by {
                lemma_can_allocate_after(alloc0, *alloc, ObjectKind::Notification, 4, handle, n);
            }
        }
        let notification = Notification { object: handle.slot, word: 0, pending: false };
        let cap = Capability {
            object: handle.slot,
            kind: ObjectKind::Notification,
            rights: Rights::all(),
            badge: 0,
        };
        Ok((notification, cap))
    }

    /// Assert a signal through `cap`: its badge is ORed into the word,
    /// atomically by kernel construction.
    pub fn signal(&mut self, cap: &Capability) -> (r: Result<(), BootError>)
        ensures
            r is Err ==> *final(self) == *old(self),
            (r == Err::<(), BootError>(BootError::InvalidCapability)) <==> (cap.kind
                != ObjectKind::Notification || cap.object != old(self).object),
            (cap.kind == ObjectKind::Notification && cap.object == old(self).object) ==> ((r
                == Err::<(), BootError>(BootError::RightsViolation)) <==> !can_signal(*cap)),
            r is Ok <==> (cap.kind == ObjectKind::Notification && cap.object == old(self).object
                && can_signal(*cap)),
            r is Ok ==> *final(self) == (Notification {
                object: old(self).object,
                word: old(self).word | cap.badge,
                pending: true,
            }),
    {
        if !matches!(cap.kind, ObjectKind::Notification) || cap.object != self.object {
            return Err(BootError::InvalidCapability);
        }
        if !cap.rights.write {
            return Err(BootError::RightsViolation);
        }
        self.word = self.word | cap.badge;
        self.pending = true;
        Ok(())
    }

    /// Observe a pending signal through `cap`: returns the accumulated badge
    /// word and clears it. A waiter with no signal pending would block
    /// indefinitely, so this models the moment the signal has arrived.
    pub fn wait(&mut self, cap: &Capability) -> (r: Result<u64, BootError>)
        requires
            old(self).pending,
        ensures
            r is Err ==> *final(self) == *old(self),
            (r == Err::<u64, BootError>(BootError::InvalidCapability)) <==> (cap.kind
                != ObjectKind::Notification || cap.object != old(self).object),
            (cap.kind == ObjectKind::Notification && cap.object == old(self).object) ==> ((r
                == Err::<u64, BootError>(BootError::RightsViolation)) <==> !can_wait(*cap)),
            r is Ok <==> (cap.kind == ObjectKind::Notification && cap.object == old(self).object
                && can_wait(*cap)),
            r matches Ok(badge) ==> badge == old(self).word && *final(self) == (Notification {
                object: old(self).object,
                word: 0u64,
                pending: false,
            }),
    {
        if !matches!(cap.kind, ObjectKind::Notification) || cap.object != self.object {
            return Err(BootError::InvalidCapability);
        }
        if !cap.rights.read {
            return Err(BootError::RightsViolation);
        }
        let badge = self.word;
        self.word = 0;
        self.pending = false;
        Ok(badge)
    }
}

/// Where a child stands in its bootstrap; the only way to `Running` is an
/// explicit `resume` of a fully configured thread, and the terminal states
/// are reachable only by explicit action afterwards.
#[derive(Clone, Copy, Debug, PartialEq, Eq, Structural)]
pub enum ChildState {
    Unconfigured,
    AddressSpaceReady,
    ChannelWired,
    ThreadConfigured,
    Running,
    Suspended,
    Exited,
}

/// Everything describing one bootstrapped child, from the moment its
/// capability table exists until it runs on its own.
#[derive(Debug)]
pub struct ProcessDescriptor {
    pub state: ChildState,
    /// The child's thread object, present once configured.
    pub tcb: Option<KernelObjectHandle>,
    pub cnode: CNodeTable,
    pub aspace: AddressSpace,
    /// Entry point of the child's image.
    pub entry: u64,
    pub ipc_buffer_addr: u64,
    pub ipc_buffer_cap: KernelObjectHandle,
    /// High bits of the capability-address space consumed by the table
    /// guard, so only the low `cnode.size_bits` bits remain significant.
    pub cspace_guard_bits: u64,
    /// Program counter written into the initial register context.
    pub pc: Option<u64>,
}

impl ProcessDescriptor {
    pub open spec fn wf(self) -> bool {
        &&& self.cnode.wf()
        &&& (self.pc is Some ==> self.pc == Some(self.entry))
        &&& ((self.state is ThreadConfigured || self.state is Running || self.state is Suspended
            || self.state is Exited) ==> (self.tcb is Some && self.tcb->Some_0.kind
            == ObjectKind::Tcb && self.cspace_guard_bits + self.cnode.size_bits == WORD_BITS))
        &&& ((self.state is Running || self.state is Suspended || self.state is Exited)
            ==> self.pc is Some)
    }

    /// A child whose address space is built and whose capability table
    /// exists, not yet wired or configured.
    pub fn new(
        cnode: CNodeTable,
        aspace: AddressSpace,
        entry: u64,
        ipc_buffer_addr: u64,
        ipc_buffer_cap: KernelObjectHandle,
    ) -> (d: ProcessDescriptor)
        requires
            cnode.wf(),
        ensures
            d.wf(),
            d.state == ChildState::AddressSpaceReady,
            d.tcb is None,
            d.cnode == cnode,
            d.aspace == aspace,
            d.entry == entry,
            d.ipc_buffer_addr == ipc_buffer_addr,
            d.ipc_buffer_cap == ipc_buffer_cap,
            d.pc is None,
    {
        ProcessDescriptor {
            state: ChildState::AddressSpaceReady,
            tcb: None,
            cnode,
            aspace,
            entry,
            ipc_buffer_addr,
            ipc_buffer_cap,
            cspace_guard_bits: 0,
            pc: None,
        }
    }

    /// Derive the child's channel capability from `source` with exactly
    /// `rights` and `badge` and place it in the well-known channel slot.
    pub fn wire_channel(&mut self, source: &Capability, rights: Rights, badge: u64) -> (r: Result<
        (),
        BootError,
    >)
        requires
            old(self).wf(),
            old(self).state == ChildState::AddressSpaceReady,
        ensures
            final(self).wf(),
            r is Err ==> *final(self) == *old(self),
            r is Ok <==> (CHANNEL_SLOT < old(self).cnode.slots@.len()
                && old(self).cnode.slots@[CHANNEL_SLOT as int] is None && rights.subset_of(
                source.rights,
            )),
            (CHANNEL_SLOT < old(self).cnode.slots@.len()
                && old(self).cnode.slots@[CHANNEL_SLOT as int] is None) ==> ((r == Err::<
                (),
                BootError,
            >(BootError::RightsViolation)) <==> !rights.subset_of(source.rights)),
            r is Ok ==> *final(self) == (ProcessDescriptor {
                state: ChildState::ChannelWired,
                cnode: CNodeTable {
                    slots: final(self).cnode.slots,
                    ..old(self).cnode
                },
                ..*old(self)
            }),
            r is Ok ==> final(self).cnode.slots@ == old(self).cnode.slots@.update(
                CHANNEL_SLOT as int,
                spec_derive(*source, rights, badge),
            ),
    {
        match self.cnode.mint_into(CHANNEL_SLOT, source, rights, badge) {
            Ok(()) => {
                self.state = ChildState::ChannelWired;
                Ok(())
            },
            Err(e) => Err(e),
        }
    }

    /// Configure the child's thread: no fault handler, capability-table root
    /// with a guard over the unused high bits, the child's address space,
    /// and its IPC buffer.
    pub fn configure_thread(&mut self, tcb: KernelObjectHandle) -> (r: Result<(), BootError>)
        requires
            old(self).wf(),
            old(self).state == ChildState::ChannelWired,
        ensures
            final(self).wf(),
            r is Err ==> *final(self) == *old(self),
            (r == Err::<(), BootError>(BootError::InvalidCapability)) <==> tcb.kind
                != ObjectKind::Tcb,
            r is Ok <==> tcb.kind == ObjectKind::Tcb,
            r is Ok ==> *final(self) == (ProcessDescriptor {
                state: ChildState::ThreadConfigured,
                tcb: Some(tcb),
                cspace_guard_bits: (WORD_BITS - old(self).cnode.size_bits) as u64,
                ..*old(self)
            }),
    {
        if !matches!(tcb.kind, ObjectKind::Tcb) {
            return Err(BootError::InvalidCapability);
        }
        self.tcb = Some(tcb);
        self.cspace_guard_bits = WORD_BITS - self.cnode.size_bits;
        self.state = ChildState::ThreadConfigured;
        Ok(())
    }

    /// Mint a full-rights copy of the child's own thread capability into its
    /// well-known self slot, so it can later suspend or exit itself without
    /// the root authority.
    pub fn grant_self_cap(&mut self) -> (r: Result<(), BootError>)
        requires
            old(self).wf(),
            old(self).state == ChildState::ThreadConfigured,
        ensures
            final(self).wf(),
            r is Err ==> *final(self) == *old(self),
            r is Ok <==> (SELF_TCB_SLOT < old(self).cnode.slots@.len()
                && old(self).cnode.slots@[SELF_TCB_SLOT as int] is None),
            r is Ok ==> *final(self) == (ProcessDescriptor {
                cnode: CNodeTable {
                    slots: final(self).cnode.slots,
                    ..old(self).cnode
                },
                ..*old(self)
            }),
            r is Ok ==> final(self).cnode.slots@ == old(self).cnode.slots@.update(
                SELF_TCB_SLOT as int,
                Some(
                    Capability {
                        object: old(self).tcb->Some_0.slot,
                        kind: ObjectKind::Tcb,
                        rights: Rights::spec_all(),
                        badge: 0u64,
                    },
                ),
            ),
    {
        let tcb = match &self.tcb {
            Some(t) => *t,
            None => {
                return Err(BootError::InvalidCapability);
            },
        };
        let source = Capability {
            object: tcb.slot,
            kind: ObjectKind::Tcb,
            rights: Rights::all(),
            badge: 0,
        };
        match self.cnode.mint_into(SELF_TCB_SLOT, &source, Rights::all(), 0) {
            Ok(()) => Ok(()),
            Err(e) => Err(e),
        }
    }

    /// Write the initial register context: program counter at the image's
    /// entry point, everything else at architecture reset values.
    pub fn write_registers(&mut self)
        requires
            old(self).wf(),
            old(self).state == ChildState::ThreadConfigured,
        ensures
            final(self).wf(),
            *final(self) == (ProcessDescriptor { pc: Some(old(self).entry), ..*old(self) }),
    {
        self.pc = Some(self.entry);
    }

    /// Start the thread. Only a fully configured child whose registers were
    /// written can reach `Running`; from here on the child schedules
    /// independently.
    pub fn resume(&mut self) -> (r: Result<(), BootError>)
        requires
            old(self).wf(),
            old(self).state == ChildState::ThreadConfigured,
        ensures
            final(self).wf(),
            r is Err ==> *final(self) == *old(self),
            (r == Err::<(), BootError>(BootError::InvalidCapability)) <==> old(self).pc is None,
            r is Ok <==> old(self).pc is Some,
            r is Ok ==> *final(self) == (ProcessDescriptor {
                state: ChildState::Running,
                ..*old(self)
            }),
            r is Ok ==> final(self).pc == Some(final(self).entry),
    {
        if self.pc.is_none() {
            return Err(BootError::InvalidCapability);
        }
        self.state = ChildState::Running;
        Ok(())
    }

    /// Stop a running child; whoever still holds its thread capability may
    /// do this.
    pub fn suspend(&mut self)
        requires
            old(self).wf(),
            old(self).state == ChildState::Running,
        ensures
            final(self).wf(),
            *final(self) == (ProcessDescriptor { state: ChildState::Suspended, ..*old(self) }),
    {
        self.state = ChildState::Suspended;
    }

    /// A running child leaves the system for good.
    pub fn exit(&mut self)
        requires
            old(self).wf(),
            old(self).state == ChildState::Running,
        ensures
            final(self).wf(),
            *final(self) == (ProcessDescriptor { state: ChildState::Exited, ..*old(self) }),
    {
        self.state = ChildState::Exited;
    }
}

/// A child that runs, or ran, was started at its image's entry point: in any
/// well-formed descriptor past `resume`, the program counter is the entry
/// point.
pub proof fn lemma_running_at_entry(d: ProcessDescriptor)
    requires
        d.wf(),
        d.state is Running || d.state is Suspended || d.state is Exited,
    ensures
        d.pc == Some(d.entry),
{
}

} // verus!
