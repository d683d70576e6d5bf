//! Single-shot untyped-memory allocator: turns a list of raw memory regions
//! into freshly-typed kernel objects by bump allocation, consuming one root
//! capability-table slot per object. Nothing is ever freed or reused.

use vstd::prelude::*;

verus! {

use vstd::arithmetic::power2::pow2;
use crate::align::{align_up, align_up_u64, lemma_align_up_bounds, lemma_pow2_within_47, pow2_u64};
use crate::BootError;

/// The largest object or region size this model admits: `2^47` bytes, so that
/// cursor arithmetic stays far from the machine-word limit.
pub const MAX_SIZE_BITS: u64 = 47;

/// The kinds of kernel object the bootstrap creates out of untyped memory.
#[derive(Clone, Copy, Debug, PartialEq, Eq, Structural)]
pub enum ObjectKind {
    Notification,
    Tcb,
    CNode,
    PageTable,
    Frame,
}

impl ObjectKind {
    /// Whether the kind alone determines the object's size. Only capability
    /// tables come in caller-chosen sizes.
    pub open spec fn spec_has_fixed_size(self) -> bool {
        !(self is CNode)
    }

    pub fn has_fixed_size(&self) -> (b: bool)
        ensures
            b == self.spec_has_fixed_size(),
    {
        !matches!(self, ObjectKind::CNode)
    }

    /// log2 of the object size of a fixed-size kind.
    pub open spec fn spec_fixed_size_bits(self) -> u64 {
        match self {
            ObjectKind::Notification => 4,
            ObjectKind::Tcb => 11,
            ObjectKind::CNode => 7,
            ObjectKind::PageTable => 12,
            ObjectKind::Frame => 12,
        }
    }

    pub fn fixed_size_bits(&self) -> (b: u64)
        ensures
            b == self.spec_fixed_size_bits(),
    {
        match self {
            ObjectKind::Notification => 4,
            ObjectKind::Tcb => 11,
            ObjectKind::CNode => 7,
            ObjectKind::PageTable => 12,
            ObjectKind::Frame => 12,
        }
    }

    /// The smallest size a variable-sized request for this kind may ask for.
    /// A capability table must at least cover one slot's worth of bytes.
    pub open spec fn spec_min_size_bits(self) -> u64 {
        match self {
            ObjectKind::CNode => 6,
            _ => self.spec_fixed_size_bits(),
        }
    }

    pub fn min_size_bits(&self) -> (b: u64)
        ensures
            b == self.spec_min_size_bits(),
    {
        match self {
            ObjectKind::CNode => 6,
            _ => self.fixed_size_bits(),
        }
    }
}

/// A capability to one contiguous block of raw, still-untyped memory, with a
/// monotonically advancing allocation cursor (an offset from `base`).
#[derive(Clone, Copy, Debug, PartialEq, Eq, Structural)]
pub struct UntypedRegion {
    /// Physical address of the first byte.
    pub base: u64,
    /// The region covers `2^size_bits` bytes.
    pub size_bits: u64,
    /// Device memory can hold no kernel objects.
    pub is_device: bool,
    /// Bytes below the cursor are consumed; the cursor never moves back.
    pub cursor: u64,
}

impl UntypedRegion {
    /// Byte length of the region.
    pub open spec fn spec_size(self) -> int {
        pow2(self.size_bits as nat) as int
    }

    pub open spec fn spec_end(self) -> int {
        self.base + self.spec_size()
    }

    pub open spec fn wf(self) -> bool {
        &&& self.size_bits <= MAX_SIZE_BITS
        &&& self.base + self.spec_size() <= u64::MAX
        &&& self.cursor <= self.spec_size()
    }

    /// A fresh, wholly unconsumed region.
    pub fn new(base: u64, size_bits: u64, is_device: bool) -> (r: UntypedRegion)
        requires
            size_bits <= MAX_SIZE_BITS,
            base + pow2(size_bits as nat) <= u64::MAX,
        ensures
            r == (UntypedRegion { base, size_bits, is_device, cursor: 0u64 }),
            r.wf(),
    {
        UntypedRegion { base, size_bits, is_device, cursor: 0 }
    }
}

/// Two regions occupy disjoint physical ranges.
pub open spec fn regions_disjoint(a: UntypedRegion, b: UntypedRegion) -> bool {
    a.spec_end() <= b.base || b.spec_end() <= a.base
}

/// A `(base, length)` pair of physical bytes handed out by the allocator.
pub open spec fn blocks_disjoint(a: (int, int), b: (int, int)) -> bool {
    a.0 + a.1 <= b.0 || b.0 + b.1 <= a.0
}

/// The block lies inside the consumed prefix of the region.
pub open spec fn block_in_region(b: (int, int), r: UntypedRegion) -> bool {
    r.base <= b.0 && b.0 + b.1 <= r.base + r.cursor
}

/// The region can satisfy a request for `2^size_bits` aligned bytes.
pub open spec fn region_fits(r: UntypedRegion, size_bits: u64) -> bool {
    &&& !r.is_device
    &&& align_up(r.cursor as int, pow2(size_bits as nat) as int) + pow2(size_bits as nat)
        <= r.spec_size()
}

/// `i` is the first region, in the fixed scan order, that fits the request.
pub open spec fn is_first_fit(regions: Seq<UntypedRegion>, size_bits: u64, i: int) -> bool {
    &&& 0 <= i < regions.len()
    &&& region_fits(regions[i], size_bits)
    &&& forall|j: int| 0 <= j < i ==> !region_fits(#[trigger] regions[j], size_bits)
}

/// A capability to a newly-typed kernel object, bound to a root-table slot.
/// Once created it is never moved or freed.
#[derive(Clone, Copy, Debug, PartialEq, Eq, Structural)]
pub struct KernelObjectHandle {
    /// Root capability-table slot holding the new capability.
    pub slot: u64,
    pub kind: ObjectKind,
    /// The object covers `2^size_bits` bytes.
    pub size_bits: u64,
    /// Physical address of the object.
    pub base: u64,
}

/// Satisfies requests for newly-typed kernel objects from a pool of untyped
/// regions and a range of empty root-table slots.
pub struct ObjectAllocator {
    pub regions: Vec<UntypedRegion>,
    /// Next empty root-table slot.
    pub next_slot: u64,
    /// One past the last usable root-table slot.
    pub slot_limit: u64,
    /// Every `(base, length)` block handed out so far, for the whole run.
    pub allocated: Ghost<Seq<(int, int)>>,
}

impl ObjectAllocator {
    pub open spec fn blocks(self) -> Seq<(int, int)> {
        self.allocated@
    }

    /// Some region's consumed prefix contains the block.
    pub open spec fn block_ok(self, b: (int, int)) -> bool {
        &&& b.1 > 0
        &&& exists|i: int|
            0 <= i < self.regions@.len() && block_in_region(b, #[trigger] self.regions@[i])
    }

    pub open spec fn wf(self) -> bool {
        &&& forall|i: int|
            0 <= i < self.regions@.len() ==> (#[trigger] self.regions@[i]).wf()
        &&& forall|i: int, j: int|
            0 <= i < j < self.regions@.len() ==> regions_disjoint(
                #[trigger] self.regions@[i],
                #[trigger] self.regions@[j],
            )
        &&& self.next_slot <= self.slot_limit
        &&& forall|k: int| 0 <= k < self.blocks().len() ==> self.block_ok(#[trigger] self.blocks()[k])
        &&& forall|k: int, l: int|
            0 <= k < l < self.blocks().len() ==> blocks_disjoint(
                #[trigger] self.blocks()[k],
                #[trigger] self.blocks()[l],
            )
    }

    /// A fresh allocator over `regions` and the empty slot range
    /// `[first_slot, slot_limit)`. The boot loader hands the regions over
    /// pairwise disjoint.
    pub fn new(regions: Vec<UntypedRegion>, first_slot: u64, slot_limit: u64) -> (a:
        ObjectAllocator)
        requires
            forall|i: int| 0 <= i < regions@.len() ==> (#[trigger] regions@[i]).wf(),
            forall|i: int, j: int|
                0 <= i < j < regions@.len() ==> regions_disjoint(
                    #[trigger] regions@[i],
                    #[trigger] regions@[j],
                ),
            first_slot <= slot_limit,
        ensures
            a.wf(),
            a.regions@ == regions@,
            a.next_slot == first_slot,
            a.slot_limit == slot_limit,
            a.blocks().len() == 0,
    {
        ObjectAllocator { regions, next_slot: first_slot, slot_limit, allocated: Ghost(Seq::empty()) }
    }

    /// Scan the regions in their fixed order for the first that fits.
    fn find_first_fit(&self, size_bits: u64) -> (r: Option<usize>)
        requires
            self.wf(),
            size_bits <= MAX_SIZE_BITS,
        ensures
            (r matches Some(i) ==> is_first_fit(self.regions@, size_bits, i as int)),
            r is None ==> forall|j: int|
                0 <= j < self.regions@.len() ==> !region_fits(#[trigger] self.regions@[j], size_bits),
    {
        let size: u64 = pow2_u64(size_bits);
        let mut i: usize = 0;
        while i < self.regions.len()
            invariant
                self.wf(),
                size_bits <= MAX_SIZE_BITS,
                size == pow2(size_bits as nat),
                size >= 1,
                i <= self.regions@.len(),
                forall|j: int| 0 <= j < i ==> !region_fits(#[trigger] self.regions@[j], size_bits),
            decreases self.regions@.len() - i,
        {
            let r = self.regions[i];
            assert(r.wf());
            if !r.is_device {
                let rsize: u64 = pow2_u64(r.size_bits);
                proof {
                    lemma_pow2_within_47(size_bits as nat);
                    lemma_pow2_within_47(r.size_bits as nat);
                    lemma_align_up_bounds(r.cursor as int, size as int);
                }
                let aligned: u64 = align_up_u64(r.cursor, size);
                if aligned <= rsize && rsize - aligned >= size {
                    assert(region_fits(self.regions@[i as int], size_bits));
                    return Some(i);
                }
                assert(!region_fits(self.regions@[i as int], size_bits));
            }
            i = i + 1;
        }
        None
    }

    /// Retype `2^size_bits` bytes of untyped memory into one object of
    /// `kind`, from the first region that fits, into the next empty slot.
    fn allocate_object(&mut self, kind: ObjectKind, size_bits: u64) -> (r: Result<
        KernelObjectHandle,
        BootError,
    >)
        requires
            old(self).wf(),
            size_bits <= MAX_SIZE_BITS,
        ensures
            final(self).wf(),
            r is Err ==> *final(self) == *old(self),
            r is Err ==> (r == Err::<KernelObjectHandle, BootError>(BootError::OutOfMemory) || r
                == Err::<KernelObjectHandle, BootError>(BootError::SlotExhausted)),
            (r == Err::<KernelObjectHandle, BootError>(BootError::OutOfMemory)) <==> (forall|j: int|
                0 <= j < old(self).regions@.len() ==> !region_fits(
                    #[trigger] old(self).regions@[j],
                    size_bits,
                )),
            (r == Err::<KernelObjectHandle, BootError>(BootError::SlotExhausted)) <==> ((exists|i: int|
                is_first_fit(old(self).regions@, size_bits, i)) && old(self).next_slot == old(
                self,
            ).slot_limit),
            r is Ok <==> ((exists|i: int| is_first_fit(old(self).regions@, size_bits, i))
                && old(self).next_slot < old(self).slot_limit),
            r matches Ok(h) ==> (exists|i: int|
                {
                    &&& is_first_fit(old(self).regions@, size_bits, i)
                    &&& h == (KernelObjectHandle {
                        slot: old(self).next_slot,
                        kind,
                        size_bits,
                        base: (old(self).regions@[i].base + align_up(
                            old(self).regions@[i].cursor as int,
                            pow2(size_bits as nat) as int,
                        )) as u64,
                    })
                    &&& final(self).regions@ == old(self).regions@.update(
                        i,
                        (UntypedRegion {
                            cursor: (align_up(
                                old(self).regions@[i].cursor as int,
                                pow2(size_bits as nat) as int,
                            ) + pow2(size_bits as nat)) as u64,
                            ..old(self).regions@[i]
                        }),
                    )
                }),
            r matches Ok(h) ==> {
                &&& h.kind == kind
                &&& h.size_bits == size_bits
                &&& final(self).next_slot == old(self).next_slot + 1
                &&& final(self).slot_limit == old(self).slot_limit
                &&& final(self).blocks() == old(self).blocks().push(
                    (h.base as int, pow2(size_bits as nat) as int),
                )
            },
    {
        let found = self.find_first_fit(size_bits);
        match found {
            None => Err(BootError::OutOfMemory),
            Some(i) => {
                assert(is_first_fit(self.regions@, size_bits, i as int));
                if self.next_slot == self.slot_limit {
                    return Err(BootError::SlotExhausted);
                }
                let size: u64 = pow2_u64(size_bits);
                let region = self.regions[i];
                assert(region.wf());
                proof {
                    lemma_pow2_within_47(size_bits as nat);
                    lemma_pow2_within_47(region.size_bits as nat);
                    lemma_align_up_bounds(region.cursor as int, size as int);
                }
                let aligned: u64 = align_up_u64(region.cursor, size);
                let new_cursor: u64 = aligned + size;
                let handle = KernelObjectHandle {
                    slot: self.next_slot,
                    kind,
                    size_bits,
                    base: region.base + aligned,
                };
                let mut updated = region;
                updated.cursor = new_cursor;
                self.regions.set(i, updated);
                self.next_slot = self.next_slot + 1;
                proof {
                    self.allocated@ = self.allocated@.push(
                        (handle.base as int, size as int),
                    );
                }
                proof {
                    self.lemma_alloc_preserves_wf(*old(self), i as int, size_bits, handle);
                }
                Ok(handle)
            },
        }
    }

    /// The bookkeeping above keeps the allocator well formed: the new block
    /// sits in the freshly consumed stretch of its region, above everything
    /// handed out before.
    proof fn lemma_alloc_preserves_wf(
        &self,
        prev: ObjectAllocator,
        i: int,
        size_bits: u64,
        handle: KernelObjectHandle,
    )
        requires
            prev.wf(),
            size_bits <= MAX_SIZE_BITS,
            is_first_fit(prev.regions@, size_bits, i),
            prev.next_slot < prev.slot_limit,
            handle.base == prev.regions@[i].base + align_up(
                prev.regions@[i].cursor as int,
                pow2(size_bits as nat) as int,
            ),
            self.regions@ == prev.regions@.update(
                i,
                (UntypedRegion {
                    cursor: (align_up(
                        prev.regions@[i].cursor as int,
                        pow2(size_bits as nat) as int,
                    ) + pow2(size_bits as nat)) as u64,
                    ..prev.regions@[i]
                }),
            ),
            self.next_slot == prev.next_slot + 1,
            self.slot_limit == prev.slot_limit,
            self.blocks() == prev.blocks().push(
                (handle.base as int, pow2(size_bits as nat) as int),
            ),
        ensures
            self.wf(),
    {
        let size = pow2(size_bits as nat) as int;
        let old_r = prev.regions@[i];
        let new_r = self.regions@[i];
        vstd::arithmetic::power2::lemma_pow2_pos(size_bits as nat);
        lemma_align_up_bounds(old_r.cursor as int, size);
        let nb = (handle.base as int, size);
        assert(new_r.wf());
        assert(block_in_region(nb, new_r));
        assert(forall|k: int|
            0 <= k < prev.blocks().len() ==> self.block_ok(#[trigger] self.blocks()[k])) by {
            assert forall|k: int|
                0 <= k < prev.blocks().len() implies self.block_ok(#[trigger] self.blocks()[k]) by {
                let b = prev.blocks()[k];
                let w = choose|w: int|
                    0 <= w < prev.regions@.len() && block_in_region(b, #[trigger] prev.regions@[w]);
                assert(block_in_region(b, prev.regions@[w]));
                if w == i {
                    assert(block_in_region(b, new_r));
                } else {
                    assert(self.regions@[w] == prev.regions@[w]);
                }
                assert(self.blocks()[k] == b);
            }
        }
        assert(self.block_ok(nb));
        assert forall|k: int, l: int|
            0 <= k < l < self.blocks().len() implies blocks_disjoint(
            #[trigger] self.blocks()[k],
            #[trigger] self.blocks()[l],
        ) by {
            if l < prev.blocks().len() {
                assert(blocks_disjoint(prev.blocks()[k], prev.blocks()[l]));
            } else {
                // The new block starts at or above the chosen region's old
                // cursor; every earlier block ends at or below it, or lies in
                // a disjoint region.
                let b = prev.blocks()[k];
                assert(prev.block_ok(b));
                let w = choose|w: int|
                    0 <= w < prev.regions@.len() && block_in_region(b, #[trigger] prev.regions@[w]);
                assert(block_in_region(b, prev.regions@[w]));
                if w == i {
                    assert(b.0 + b.1 <= old_r.base + old_r.cursor);
                    assert(old_r.cursor as int <= align_up(old_r.cursor as int, size));
                    assert(blocks_disjoint(b, nb));
                } else {
                    let wr = prev.regions@[w];
                    assert(wr.wf());
                    assert(regions_disjoint(wr, old_r) || regions_disjoint(old_r, wr));
                    assert(b.0 >= wr.base && b.0 + b.1 <= wr.spec_end());
                    assert(nb.0 >= old_r.base && nb.0 + nb.1 <= old_r.spec_end());
                    assert(blocks_disjoint(b, nb));
                }
            }
        }
    }

    /// Create one object whose size is fixed by its kind.
    pub fn allocate_fixed(&mut self, kind: ObjectKind) -> (r: Result<
        KernelObjectHandle,
        BootError,
    >)
        requires
            old(self).wf(),
            kind.spec_has_fixed_size(),
        ensures
            final(self).wf(),
            r is Err ==> *final(self) == *old(self),
            r is Err ==> (r == Err::<KernelObjectHandle, BootError>(BootError::OutOfMemory) || r
                == Err::<KernelObjectHandle, BootError>(BootError::SlotExhausted)),
            (r == Err::<KernelObjectHandle, BootError>(BootError::OutOfMemory)) <==> (forall|j: int|
                0 <= j < old(self).regions@.len() ==> !region_fits(
                    #[trigger] old(self).regions@[j],
                    kind.spec_fixed_size_bits(),
                )),
            (r == Err::<KernelObjectHandle, BootError>(BootError::SlotExhausted)) <==> ((exists|
                i: int,
            |
                is_first_fit(old(self).regions@, kind.spec_fixed_size_bits(), i)) && old(
                self,
            ).next_slot == old(self).slot_limit),
            r is Ok <==> ((exists|i: int|
                is_first_fit(old(self).regions@, kind.spec_fixed_size_bits(), i)) && old(
                self,
            ).next_slot < old(self).slot_limit),
            r matches Ok(h) ==> final(self).spec_alloc_outcome(*old(self), kind, kind.spec_fixed_size_bits(), h),
    {
        let size_bits = kind.fixed_size_bits();
        self.allocate_object(kind, size_bits)
    }

    /// Create one object of `2^size_bits` bytes, used for capability tables
    /// of a chosen fan-out.
    pub fn allocate_variable(&mut self, kind: ObjectKind, size_bits: u64) -> (r: Result<
        KernelObjectHandle,
        BootError,
    >)
        requires
            old(self).wf(),
            size_bits <= MAX_SIZE_BITS,
        ensures
            final(self).wf(),
            r is Err ==> *final(self) == *old(self),
            r is Err ==> (r == Err::<KernelObjectHandle, BootError>(BootError::InvalidSize) || r
                == Err::<KernelObjectHandle, BootError>(BootError::OutOfMemory) || r == Err::<
                KernelObjectHandle,
                BootError,
            >(BootError::SlotExhausted)),
            (r == Err::<KernelObjectHandle, BootError>(BootError::InvalidSize)) <==> size_bits
                < kind.spec_min_size_bits(),
            size_bits >= kind.spec_min_size_bits() ==> {
                &&& (r == Err::<KernelObjectHandle, BootError>(BootError::OutOfMemory)) <==> (forall|
                    j: int,
                |
                    0 <= j < old(self).regions@.len() ==> !region_fits(
                        #[trigger] old(self).regions@[j],
                        size_bits,
                    ))
                &&& (r == Err::<KernelObjectHandle, BootError>(BootError::SlotExhausted)) <==> ((
                exists|i: int| is_first_fit(old(self).regions@, size_bits, i)) && old(
                    self,
                ).next_slot == old(self).slot_limit)
                &&& (r is Ok <==> ((exists|i: int| is_first_fit(old(self).regions@, size_bits, i))
                    && old(self).next_slot < old(self).slot_limit))
            },
            r matches Ok(h) ==> final(self).spec_alloc_outcome(*old(self), kind, size_bits, h),
    {
        if size_bits < kind.min_size_bits() {
            return Err(BootError::InvalidSize);
        }
        self.allocate_object(kind, size_bits)
    }

    /// Everything a successful allocation of `2^size_bits` bytes did: the
    /// handle matches the request, the first fitting region's cursor advanced
    /// by exactly the rounded-up size, nothing else moved, one slot was
    /// consumed, and the block was appended to the run's allocation log.
    pub open spec fn spec_alloc_outcome(
        self,
        prev: ObjectAllocator,
        kind: ObjectKind,
        size_bits: u64,
        h: KernelObjectHandle,
    ) -> bool {
        &&& h.kind == kind
        &&& h.size_bits == size_bits
        &&& h.slot == prev.next_slot
        &&& exists|i: int|
            {
                &&& is_first_fit(prev.regions@, size_bits, i)
                &&& h.base == prev.regions@[i].base + align_up(
                    prev.regions@[i].cursor as int,
                    pow2(size_bits as nat) as int,
                )
                &&& self.regions@ == prev.regions@.update(
                    i,
                    (UntypedRegion {
                        cursor: (align_up(
                            prev.regions@[i].cursor as int,
                            pow2(size_bits as nat) as int,
                        ) + pow2(size_bits as nat)) as u64,
                        ..prev.regions@[i]
                    }),
                )
            }
        &&& self.next_slot == prev.next_slot + 1
        &&& self.slot_limit == prev.slot_limit
        &&& self.blocks() == prev.blocks().push((h.base as int, pow2(size_bits as nat) as int))
    }
}

/// The region can still serve `n` page-sized or smaller objects.
pub open spec fn region_room(r: UntypedRegion, n: int) -> bool {
    &&& !r.is_device
    &&& align_up(r.cursor as int, 4096) + n * 4096 <= r.spec_size()
}

impl ObjectAllocator {
    /// The allocator is sure to satisfy `n` more requests, each for an object
    /// of at most one page (`2^12` bytes): enough empty slots remain, and some
    /// single non-device region has room for all of them.
    pub open spec fn can_allocate(self, n: int) -> bool {
        &&& n >= 0
        &&& self.next_slot + n <= self.slot_limit
        &&& exists|i: int|
            0 <= i < self.regions@.len() && region_room(#[trigger] self.regions@[i], n)
    }
}

/// Guaranteed capacity only shrinks with the request count.
pub proof fn lemma_can_allocate_mono(a: ObjectAllocator, n: int, m: int)
    requires
        a.can_allocate(n),
        0 <= m <= n,
    ensures
        a.can_allocate(m),
{
    let i = choose|i: int| 0 <= i < a.regions@.len() && region_room(#[trigger] a.regions@[i], n);
    assert(m * 4096 <= n * 4096) by (nonlinear_arith)
        requires
            m <= n,
    ;
    assert(region_room(a.regions@[i], m));
}

/// Somewhere a region fits, so a first fitting region exists.
pub proof fn lemma_fit_somewhere_gives_first_fit(
    regions: Seq<UntypedRegion>,
    size_bits: u64,
    i: int,
)
    requires
        0 <= i < regions.len(),
        region_fits(regions[i], size_bits),
    ensures
        exists|j: int| is_first_fit(regions, size_bits, j),
    decreases i,
{
    if forall|j: int| 0 <= j < i ==> !region_fits(#[trigger] regions[j], size_bits) {
        assert(is_first_fit(regions, size_bits, i));
    } else {
        let w = choose|w: int| 0 <= w < i && region_fits(#[trigger] regions[w], size_bits);
        lemma_fit_somewhere_gives_first_fit(regions, size_bits, w);
    }
}

/// With guaranteed capacity for at least one request, an allocation of at
/// most a page is sure to succeed.
pub proof fn lemma_can_allocate_implies_success(a: ObjectAllocator, size_bits: u64, n: int)
    requires
        a.wf(),
        size_bits <= 12,
        n >= 1,
        a.can_allocate(n),
    ensures
        exists|j: int| is_first_fit(a.regions@, size_bits, j),
        a.next_slot < a.slot_limit,
{
    let i = choose|i: int| 0 <= i < a.regions@.len() && region_room(#[trigger] a.regions@[i], n);
    let r = a.regions@[i];
    let c = r.cursor as int;
    vstd::arithmetic::power2::lemma2_to64();
    crate::align::lemma_align_up_pow2_mono(c, size_bits as nat, 12);
    lemma_pow2_within_47(size_bits as nat);
    if size_bits < 12 {
        vstd::arithmetic::power2::lemma_pow2_strictly_increases(size_bits as nat, 12);
    }
    assert(n * 4096 >= 4096) by (nonlinear_arith)
        requires
            n >= 1,
    ;
    assert(region_fits(r, size_bits));
    lemma_fit_somewhere_gives_first_fit(a.regions@, size_bits, i);
}

/// A successful allocation of at most a page consumes at most one unit of
/// guaranteed capacity.
pub proof fn lemma_can_allocate_after(
    prev: ObjectAllocator,
    cur: ObjectAllocator,
    kind: ObjectKind,
    size_bits: u64,
    h: KernelObjectHandle,
    n: int,
)
    requires
        prev.wf(),
        size_bits <= 12,
        n >= 1,
        prev.can_allocate(n),
        cur.spec_alloc_outcome(prev, kind, size_bits, h),
    ensures
        cur.can_allocate(n - 1),
{
    let w = choose|i: int| 0 <= i < prev.regions@.len() && region_room(#[trigger] prev.regions@[i], n);
    let j = choose|i: int|
        {
            &&& is_first_fit(prev.regions@, size_bits, i)
            &&& h.base == prev.regions@[i].base + align_up(
                prev.regions@[i].cursor as int,
                pow2(size_bits as nat) as int,
            )
            &&& cur.regions@ == prev.regions@.update(
                i,
                (UntypedRegion {
                    cursor: (align_up(
                        prev.regions@[i].cursor as int,
                        pow2(size_bits as nat) as int,
                    ) + pow2(size_bits as nat)) as u64,
                    ..prev.regions@[i]
                }),
            )
        };
    assert((n - 1) * 4096 == n * 4096 - 4096) by (nonlinear_arith);
    if w != j {
        assert(cur.regions@[w] == prev.regions@[w]);
        assert(region_room(cur.regions@[w], n - 1));
    } else {
        let r = prev.regions@[w];
        let c = r.cursor as int;
        let sz = pow2(size_bits as nat) as int;
        vstd::arithmetic::power2::lemma2_to64();
        lemma_pow2_within_47(size_bits as nat);
        if size_bits < 12 {
            vstd::arithmetic::power2::lemma_pow2_strictly_increases(size_bits as nat, 12);
        }
        crate::align::lemma_align_up_pow2_mono(c, size_bits as nat, 12);
        lemma_align_up_bounds(c, sz);
        lemma_align_up_bounds(c, 4096);
        let c2 = align_up(c, sz) + sz;
        // The new cursor still rounds up to at most one page past the old
        // rounded cursor.
        assert((align_up(c, 4096) + 4096) % 4096 == 0) by {
            vstd::arithmetic::div_mod::lemma_mod_add_multiples_vanish(align_up(c, 4096), 4096);
        }
        crate::align::lemma_align_up_least(c2, 4096, align_up(c, 4096) + 4096);
        assert(region_room(cur.regions@[w], n - 1));
    }
}

/// No two allocations of the whole run ever overlap: the blocks the allocator
/// has handed out are pairwise disjoint.
pub proof fn lemma_allocations_never_overlap(a: ObjectAllocator, k: int, l: int)
    requires
        a.wf(),
        0 <= k < a.blocks().len(),
        0 <= l < a.blocks().len(),
        k != l,
    ensures
        blocks_disjoint(a.blocks()[k], a.blocks()[l]),
{
    if k < l {
        assert(blocks_disjoint(a.blocks()[k], a.blocks()[l]));
    } else {
        assert(blocks_disjoint(a.blocks()[l], a.blocks()[k]));
    }
}

} // verus!
