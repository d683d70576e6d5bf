//! Address-space construction: building the paging hierarchy for a child
//! process, copying each executable segment's bytes into freshly allocated
//! frames with the segment's own permissions, and mapping one extra page as
//! the child's IPC buffer.

use vstd::prelude::*;

verus! {

use vstd::arithmetic::div_mod::{
    lemma_div_by_multiple, lemma_div_is_ordered, lemma_fundamental_div_mod,
    lemma_mod_multiples_basic, lemma_mod_multiples_vanish, lemma_small_mod,
};
use vstd::arithmetic::mul::{lemma_mul_inequality, lemma_mul_is_commutative};
use crate::untyped::{
    lemma_can_allocate_after, lemma_can_allocate_implies_success, lemma_can_allocate_mono,
    KernelObjectHandle, ObjectAllocator, ObjectKind,
};
use crate::BootError;
use crate::PAGE_SIZE;

/// Each intermediate translation-table node covers this many bytes of
/// virtual address space (512 pages).
pub const TABLE_SPAN: u64 = 4096 * 512;

/// The architecture-reserved virtual address at which every child's IPC
/// buffer page is mapped.
pub const IPC_BUFFER_VADDR: u64 = 0x7FFF_FFDF_F000;

/// Virtual addresses live below `2^47`.
pub const MAX_VADDR: u64 = 0x8000_0000_0000;

/// Page permissions, translated 1:1 from a segment's flags.
#[derive(Clone, Copy, Debug, PartialEq, Eq, Structural)]
pub struct Perms {
    pub read: bool,
    pub write: bool,
    pub execute: bool,
}

/// The page-aligned address of the page containing `va`.
pub open spec fn page_of(va: int) -> int {
    va - (va % (PAGE_SIZE as int))
}

/// One loadable piece of the executable image.
#[derive(Debug)]
pub struct Segment {
    /// First virtual address of the segment.
    pub vstart: u64,
    /// Number of virtual bytes the segment covers.
    pub len: u64,
    /// File-backed content; any remainder up to `len` is zero-filled.
    pub data: Vec<u8>,
    pub perms: Perms,
}

impl Segment {
    pub open spec fn wf(self) -> bool {
        &&& self.vstart + self.len <= MAX_VADDR
        &&& self.data@.len() <= self.len
    }

    pub open spec fn spec_end(self) -> int {
        self.vstart + self.len
    }

    pub open spec fn contains(self, va: int) -> bool {
        self.vstart <= va < self.spec_end()
    }

    /// First page the segment touches.
    pub open spec fn first_page(self) -> int {
        page_of(self.vstart as int)
    }

    /// One past the last page the segment touches (equals `first_page` when
    /// the segment is empty).
    pub open spec fn end_page(self) -> int {
        if self.len == 0 {
            self.first_page()
        } else {
            page_of(self.spec_end() - 1) + PAGE_SIZE
        }
    }

    /// The byte the loaded child must observe at `va`: file content where the
    /// file backs it, zero for the uninitialized tail.
    pub open spec fn byte_at(self, va: int) -> u8 {
        if va - self.vstart < self.data@.len() {
            self.data@[va - self.vstart]
        } else {
            0
        }
    }
}

/// A parsed executable image: entry point and loadable segments in ascending
/// virtual-address order.
#[derive(Debug)]
pub struct Image {
    pub entry: u64,
    pub segments: Vec<Segment>,
}

impl Image {
    /// The image is loadable as handed over: each segment in bounds, segments
    /// in ascending order on disjoint pages, and none of them claiming the
    /// page reserved for the IPC buffer.
    pub open spec fn spec_layout_ok(self) -> bool {
        &&& forall|s: int|
            0 <= s < self.segments@.len() ==> (#[trigger] self.segments@[s]).wf()
        &&& forall|s: int, t: int|
            0 <= s < t < self.segments@.len() ==> (#[trigger] self.segments@[s]).end_page() <= (
            #[trigger] self.segments@[t]).first_page()
        &&& forall|s: int|
            0 <= s < self.segments@.len() ==> !((#[trigger] self.segments@[s]).first_page()
                <= IPC_BUFFER_VADDR < self.segments@[s].end_page())
    }
}

/// One leaf mapping: a frame, its content, and its permissions.
#[derive(Debug)]
pub struct PageMapping {
    /// Page-aligned virtual address the frame is mapped at.
    pub vpage: u64,
    /// The frame object backing the page.
    pub frame: KernelObjectHandle,
    pub perms: Perms,
    /// The bytes the frame holds, all `PAGE_SIZE` of them.
    pub content: Vec<u8>,
}

impl PageMapping {
    pub open spec fn wf(self) -> bool {
        &&& self.vpage % PAGE_SIZE == 0
        &&& self.vpage < MAX_VADDR
        &&& self.content@.len() == PAGE_SIZE
        &&& self.frame.kind == ObjectKind::Frame
    }
}

/// One intermediate translation-table node, covering a `TABLE_SPAN`-aligned
/// stretch of the virtual address space.
#[derive(Debug)]
pub struct TableNode {
    /// First virtual address the node covers.
    pub span_base: u64,
    pub table: KernelObjectHandle,
}

/// The span base of the intermediate table responsible for `va`.
pub open spec fn span_of(va: int) -> int {
    va - (va % (TABLE_SPAN as int))
}

/// A child's address space under construction: the root translation table,
/// its identifier, the intermediate nodes, and every leaf mapping.
#[derive(Debug)]
pub struct AddressSpace {
    pub root: KernelObjectHandle,
    /// Address-space identifier assigned from the pool.
    pub asid: u64,
    pub tables: Vec<TableNode>,
    pub mappings: Vec<PageMapping>,
}

impl AddressSpace {
    /// An intermediate node for `span` is present.
    pub open spec fn has_table(self, span: int) -> bool {
        exists|t: int| 0 <= t < self.tables@.len() && (#[trigger] self.tables@[t]).span_base == span
    }

    pub open spec fn wf(self) -> bool {
        &&& forall|i: int| 0 <= i < self.mappings@.len() ==> (#[trigger] self.mappings@[i]).wf()
        &&& forall|i: int, j: int|
            0 <= i < j < self.mappings@.len() ==> (#[trigger] self.mappings@[i]).vpage != (
            #[trigger] self.mappings@[j]).vpage
        &&& forall|i: int|
            0 <= i < self.mappings@.len() ==> self.has_table(
                span_of((#[trigger] self.mappings@[i]).vpage as int),
            )
    }

    /// Some frame is mapped at the page-aligned address `vpage`.
    pub open spec fn has_page(self, vpage: int) -> bool {
        exists|i: int|
            0 <= i < self.mappings@.len() && (#[trigger] self.mappings@[i]).vpage == vpage
    }

    /// The mapping at `vpage`; meaningful only when `has_page(vpage)`.
    pub open spec fn page_at(self, vpage: int) -> PageMapping {
        self.mappings@[choose|i: int|
            0 <= i < self.mappings@.len() && (#[trigger] self.mappings@[i]).vpage == vpage]
    }

    /// The byte readable through this address space at `va`, if any page is
    /// mapped there.
    pub open spec fn read_byte(self, va: int) -> Option<u8> {
        if self.has_page(page_of(va)) {
            Some(self.page_at(page_of(va)).content@[va - page_of(va)])
        } else {
            None
        }
    }

    /// The permissions governing `va`, if a page is mapped there.
    pub open spec fn perms_at(self, va: int) -> Option<Perms> {
        if self.has_page(page_of(va)) {
            Some(self.page_at(page_of(va)).perms)
        } else {
            None
        }
    }
}

impl AddressSpace {
    /// The byte readable at `va`, straight off the model: the content of the
    /// mapped frame, or nothing where no page is mapped.
    pub fn read_at(&self, va: u64) -> (r: Option<u8>)
        requires
            self.wf(),
        ensures
            r == self.read_byte(va as int),
    {
        let vpage: u64 = va - va % PAGE_SIZE;
        let offset: u64 = va % PAGE_SIZE;
        let mut i: usize = 0;
        while i < self.mappings.len()
            invariant
                self.wf(),
                i <= self.mappings@.len(),
                vpage == page_of(va as int),
                offset == va as int - page_of(va as int),
                forall|k: int| 0 <= k < i ==> (#[trigger] self.mappings@[k]).vpage != vpage,
            decreases self.mappings@.len() - i,
        {
            if self.mappings[i].vpage == vpage {
                proof {
                    lemma_page_lookup(*self, i as int);
                }
                return Some(self.mappings[i].content[offset as usize]);
            }
            i = i + 1;
        }
        proof {
            assert(!self.has_page(page_of(va as int)));
        }
        None
    }

    /// The permissions governing `va`, off the model.
    pub fn perms_of(&self, va: u64) -> (r: Option<Perms>)
        requires
            self.wf(),
        ensures
            r == self.perms_at(va as int),
    {
        let vpage: u64 = va - va % PAGE_SIZE;
        let mut i: usize = 0;
        while i < self.mappings.len()
            invariant
                self.wf(),
                i <= self.mappings@.len(),
                vpage == page_of(va as int),
                forall|k: int| 0 <= k < i ==> (#[trigger] self.mappings@[k]).vpage != vpage,
            decreases self.mappings@.len() - i,
        {
            if self.mappings[i].vpage == vpage {
                proof {
                    lemma_page_lookup(*self, i as int);
                }
                return Some(self.mappings[i].perms);
            }
            i = i + 1;
        }
        proof {
            assert(!self.has_page(page_of(va as int)));
        }
        None
    }
}

/// With pairwise-distinct pages, the lookup really returns mapping `i`.
pub proof fn lemma_page_lookup(asp: AddressSpace, i: int)
    requires
        asp.wf(),
        0 <= i < asp.mappings@.len(),
    ensures
        asp.has_page(asp.mappings@[i].vpage as int),
        asp.page_at(asp.mappings@[i].vpage as int) == asp.mappings@[i],
{
    let p = asp.mappings@[i].vpage as int;
    assert(asp.has_page(p));
    let j = choose|j: int| 0 <= j < asp.mappings@.len() && (#[trigger] asp.mappings@[j]).vpage == p;
    if i < j {
        assert(asp.mappings@[i].vpage != asp.mappings@[j].vpage);
    } else if j < i {
        assert(asp.mappings@[j].vpage != asp.mappings@[i].vpage);
    }
}

/// Adding a mapping at a fresh page leaves every other page's view untouched.
pub proof fn lemma_map_extends(prev: AddressSpace, cur: AddressSpace, m: PageMapping)
    requires
        prev.wf(),
        cur.wf(),
        !prev.has_page(m.vpage as int),
        cur.mappings@ == prev.mappings@.push(m),
    ensures
        cur.has_page(m.vpage as int),
        cur.page_at(m.vpage as int) == m,
        forall|p: int| p != m.vpage as int ==> cur.has_page(p) == prev.has_page(p),
        forall|p: int|
            p != m.vpage as int && prev.has_page(p) ==> cur.page_at(p) == prev.page_at(p),
{
    let n = prev.mappings@.len() as int;
    assert(cur.mappings@[n] == m);
    lemma_page_lookup(cur, n);
    assert forall|p: int| p != m.vpage as int implies cur.has_page(p) == prev.has_page(p) by {
        if prev.has_page(p) {
            let i = choose|i: int|
                0 <= i < prev.mappings@.len() && (#[trigger] prev.mappings@[i]).vpage == p;
            assert(cur.mappings@[i].vpage == p);
            assert(cur.has_page(p));
        }
        if cur.has_page(p) {
            let i = choose|i: int|
                0 <= i < cur.mappings@.len() && (#[trigger] cur.mappings@[i]).vpage == p;
            assert(i < n);
            assert(prev.mappings@[i].vpage == p);
            assert(prev.has_page(p));
        }
    }
    assert forall|p: int| p != m.vpage as int && prev.has_page(p) implies cur.page_at(p)
        == prev.page_at(p) by {
        let i = choose|i: int|
            0 <= i < prev.mappings@.len() && (#[trigger] prev.mappings@[i]).vpage == p;
        lemma_page_lookup(prev, i);
        lemma_page_lookup(cur, i);
    }
}

/// `page_of` lands on the page boundary at or below `va`.
pub proof fn lemma_page_of_bounds(va: int)
    requires
        va >= 0,
    ensures
        va - PAGE_SIZE < page_of(va) <= va,
        page_of(va) % (PAGE_SIZE as int) == 0,
{
    let p = PAGE_SIZE as int;
    lemma_fundamental_div_mod(va, p);
    lemma_mod_multiples_basic(va / p, p);
    lemma_mul_is_commutative(va / p, p);
}

/// `page_of` is monotone.
pub proof fn lemma_page_of_mono(a: int, b: int)
    requires
        0 <= a <= b,
    ensures
        page_of(a) <= page_of(b),
{
    let p = PAGE_SIZE as int;
    lemma_fundamental_div_mod(a, p);
    lemma_fundamental_div_mod(b, p);
    lemma_div_is_ordered(a, b, p);
    lemma_mul_inequality(a / p, b / p, p);
    lemma_mul_is_commutative(a / p, p);
    lemma_mul_is_commutative(b / p, p);
}

/// Every address within a page maps back to that page.
pub proof fn lemma_page_of_offset(vpage: int, o: int)
    requires
        vpage >= 0,
        vpage % (PAGE_SIZE as int) == 0,
        0 <= o < PAGE_SIZE,
    ensures
        page_of(vpage + o) == vpage,
{
    let p = PAGE_SIZE as int;
    lemma_fundamental_div_mod(vpage, p);
    lemma_mod_multiples_vanish(vpage / p, o, p);
    lemma_small_mod(o as nat, p as nat);
}

impl Segment {
    /// Number of pages the segment touches.
    pub open spec fn spec_page_count(self) -> int {
        (self.end_page() - self.first_page()) / (PAGE_SIZE as int)
    }

    /// First page the segment touches, as a machine word.
    fn first_page_x(&self) -> (p: u64)
        requires
            self.wf(),
        ensures
            p == self.first_page(),
    {
        self.vstart - self.vstart % PAGE_SIZE
    }

    /// One past the last page the segment touches, as a machine word.
    fn end_page_x(&self) -> (p: u64)
        requires
            self.wf(),
        ensures
            p == self.end_page(),
    {
        if self.len == 0 {
            self.first_page_x()
        } else {
            let last: u64 = self.vstart + self.len - 1;
            last - last % PAGE_SIZE + PAGE_SIZE
        }
    }
}

/// The basic geometry of a well-formed segment's page range.
pub proof fn lemma_segment_pages(seg: Segment)
    requires
        seg.wf(),
    ensures
        seg.first_page() % (PAGE_SIZE as int) == 0,
        seg.end_page() % (PAGE_SIZE as int) == 0,
        0 <= seg.first_page() <= seg.vstart,
        seg.first_page() <= seg.end_page() <= MAX_VADDR,
        seg.first_page() + seg.spec_page_count() * (PAGE_SIZE as int) == seg.end_page(),
        seg.spec_page_count() >= 0,
        forall|va: int|
            seg.contains(va) ==> seg.first_page() <= #[trigger] page_of(va) < seg.end_page(),
{
    let p = PAGE_SIZE as int;
    lemma_page_of_bounds(seg.vstart as int);
    if seg.len > 0 {
        lemma_page_of_bounds(seg.spec_end() - 1);
        lemma_page_of_mono(seg.vstart as int, seg.spec_end() - 1);
        lemma_page_of_mono(seg.spec_end() - 1, MAX_VADDR as int - 1);
        assert(page_of(MAX_VADDR as int - 1) == MAX_VADDR - PAGE_SIZE);
    }
    let d = seg.end_page() - seg.first_page();
    lemma_fundamental_div_mod(seg.first_page(), p);
    lemma_fundamental_div_mod(seg.end_page(), p);
    let q1 = seg.first_page() / p;
    let q2 = seg.end_page() / p;
    assert(d == p * (q2 - q1)) by (nonlinear_arith)
        requires
            seg.first_page() == p * q1,
            seg.end_page() == p * q2,
            d == seg.end_page() - seg.first_page(),
    ;
    lemma_mul_is_commutative(q2 - q1, p);
    lemma_div_by_multiple(q2 - q1, p);
    assert(seg.spec_page_count() == q2 - q1);
    lemma_mul_is_commutative(seg.spec_page_count(), p);
    assert forall|va: int| seg.contains(va) implies seg.first_page() <= #[trigger] page_of(va)
        < seg.end_page() by {
        lemma_page_of_mono(seg.vstart as int, va);
        lemma_page_of_mono(va, seg.spec_end() - 1);
        lemma_page_of_bounds(va);
    }
}

/// Every byte of the segment is visible, with the segment's own permissions,
/// through the address space: file-backed bytes equal the file's, the
/// uninitialized tail reads zero.
pub open spec fn segment_loaded(asp: AddressSpace, seg: Segment) -> bool {
    forall|va: int|
        seg.contains(va) ==> (#[trigger] asp.read_byte(va)) == Some(seg.byte_at(va))
            && asp.perms_at(va) == Some(seg.perms)
}

/// Every segment of the image is loaded.
pub open spec fn image_loaded(asp: AddressSpace, image: Image) -> bool {
    forall|s: int|
        0 <= s < image.segments@.len() ==> segment_loaded(asp, #[trigger] image.segments@[s])
}

/// Upper bound on the page-sized allocations needed to load segments `s..`:
/// a frame and at most one fresh table node per page.
pub open spec fn segs_alloc_bound(segs: Seq<Segment>, s: int) -> int
    decreases segs.len() - s,
{
    if s < 0 || s >= segs.len() {
        0
    } else {
        2 * segs[s].spec_page_count() + segs_alloc_bound(segs, s + 1)
    }
}

impl Image {
    /// Upper bound on the allocations `build_child_address_space` makes: the
    /// root table, the segments, and the IPC buffer page with its table node.
    pub open spec fn spec_alloc_bound(self) -> int {
        3 + segs_alloc_bound(self.segments@, 0)
    }
}

/// Check that the image is loadable: segments in bounds, ascending on
/// disjoint pages, and clear of the IPC buffer page.
fn check_image(image: &Image) -> (ok: bool)
    ensures
        ok == image.spec_layout_ok(),
{
    let n = image.segments.len();
    let mut s: usize = 0;
    while s < n
        invariant
            n == image.segments@.len(),
            s <= n,
            forall|t: int| 0 <= t < s ==> (#[trigger] image.segments@[t]).wf(),
        decreases n - s,
    {
        let seg = &image.segments[s];
        if !(seg.vstart <= MAX_VADDR && seg.len <= MAX_VADDR - seg.vstart && seg.data.len() as u64
            <= seg.len) {
            assert(!image.segments@[s as int].wf());
            return false;
        }
        s = s + 1;
    }
    let mut t: usize = 0;
    while t < n
        invariant
            n == image.segments@.len(),
            t <= n,
            forall|u: int| 0 <= u < n ==> (#[trigger] image.segments@[u]).wf(),
            forall|u: int, v: int|
                0 <= u < v < t ==> (#[trigger] image.segments@[u]).end_page() <= (
                #[trigger] image.segments@[v]).first_page(),
            forall|u: int|
                0 <= u < t ==> !((#[trigger] image.segments@[u]).first_page() <= IPC_BUFFER_VADDR
                    < image.segments@[u].end_page()),
        decreases n - t,
    {
        let seg = &image.segments[t];
        let first = seg.first_page_x();
        let end = seg.end_page_x();
        if first <= IPC_BUFFER_VADDR && IPC_BUFFER_VADDR < end {
            return false;
        }
        if t > 0 {
            let prev_end = image.segments[t - 1].end_page_x();
            if prev_end > first {
                return false;
            }
        }
        proof {
            assert forall|u: int, v: int|
                0 <= u < v < t + 1 implies (#[trigger] image.segments@[u]).end_page() <= (
            #[trigger] image.segments@[v]).first_page() by {
                if v == t && u < t - 1 {
                    lemma_segment_pages(image.segments@[t - 1]);
                    assert(image.segments@[u].end_page() <= image.segments@[t - 1].first_page());
                }
            }
        }
        t = t + 1;
    }
    true
}

/// An identifier pool for newly created address spaces.
#[derive(Clone, Copy, Debug, PartialEq, Eq, Structural)]
pub struct AsidPool {
    /// The identifier the next assignment hands out.
    pub next: u64,
    /// How many identifiers remain.
    pub remaining: u64,
}

impl AsidPool {
    pub open spec fn wf(self) -> bool {
        self.next + self.remaining <= u64::MAX
    }

    pub fn new(next: u64, remaining: u64) -> (p: AsidPool)
        requires
            next + remaining <= u64::MAX,
        ensures
            p == (AsidPool { next, remaining }),
            p.wf(),
    {
        AsidPool { next, remaining }
    }

    /// Hand out a fresh address-space identifier, if any remain.
    pub fn assign(&mut self) -> (r: Result<u64, BootError>)
        requires
            old(self).wf(),
        ensures
            final(self).wf(),
            r is Err <==> old(self).remaining == 0,
            r is Err ==> r == Err::<u64, BootError>(BootError::AsidPoolExhausted) && *final(self)
                == *old(self),
            r matches Ok(a) ==> a == old(self).next && *final(self) == (AsidPool {
                next: (old(self).next + 1) as u64,
                remaining: (old(self).remaining - 1) as u64,
            }),
    {
        if self.remaining == 0 {
            return Err(BootError::AsidPoolExhausted);
        }
        let a = self.next;
        self.next = self.next + 1;
        self.remaining = self.remaining - 1;
        Ok(a)
    }
}

/// Ownership of one free, page-aligned virtual page in the constructor's own
/// address space, used to stage segment bytes on their way into a child
/// frame. Acquired once at startup and consumed by one construction, instead
/// of sharing a mutable global placeholder.
pub struct ScratchPage {
    pub addr: u64,
}

impl ScratchPage {
    /// Take ownership of the page at `addr`, which the caller has unmapped
    /// from its own image.
    pub fn claim(addr: u64) -> (s: ScratchPage)
        requires
            addr % PAGE_SIZE == 0,
        ensures
            s.addr == addr,
    {
        ScratchPage { addr }
    }
}

/// Compute the bytes that must land in the frame backing `vpage`: the
/// segment's bytes where it covers the page, zeroes elsewhere.
fn fill_page(seg: &Segment, vpage: u64) -> (content: Vec<u8>)
    requires
        seg.wf(),
        vpage % PAGE_SIZE == 0,
        vpage < MAX_VADDR,
    ensures
        content@.len() == PAGE_SIZE,
        forall|o: int|
            0 <= o < PAGE_SIZE ==> content@[o] == (if seg.contains(vpage + o) {
                seg.byte_at(vpage + o)
            } else {
                0u8
            }),
{
    let mut content: Vec<u8> = Vec::new();
    let mut o: u64 = 0;
    while o < PAGE_SIZE
        invariant
            seg.wf(),
            vpage < MAX_VADDR,
            o <= PAGE_SIZE,
            content@.len() == o,
            forall|k: int|
                0 <= k < o ==> content@[k] == (if seg.contains(vpage + k) {
                    seg.byte_at(vpage + k)
                } else {
                    0u8
                }),
        decreases PAGE_SIZE - o,
    {
        let va: u64 = vpage + o;
        let b: u8 = if va >= seg.vstart && va - seg.vstart < seg.len {
            let off: u64 = va - seg.vstart;
            if off < seg.data.len() as u64 {
                seg.data[off as usize]
            } else {
                0
            }
        } else {
            0
        };
        content.push(b);
        o = o + 1;
    }
    content
}

/// Look for the intermediate node covering `span`.
fn find_table(asp: &AddressSpace, span: u64) -> (b: bool)
    ensures
        b == asp.has_table(span as int),
{
    let mut t: usize = 0;
    while t < asp.tables.len()
        invariant
            t <= asp.tables@.len(),
            forall|k: int| 0 <= k < t ==> (#[trigger] asp.tables@[k]).span_base != span,
        decreases asp.tables@.len() - t,
    {
        if asp.tables[t].span_base == span {
            assert(asp.has_table(span as int));
            return true;
        }
        t = t + 1;
    }
    false
}

/// Make sure the intermediate translation-table node covering `span` exists,
/// allocating and mapping it if it is still missing.
fn ensure_table(asp: &mut AddressSpace, alloc: &mut ObjectAllocator, span: u64) -> (r: Result<
    (),
    BootError,
>)
    requires
        old(asp).wf(),
        old(alloc).wf(),
    ensures
        final(asp).wf(),
        final(alloc).wf(),
        final(asp).mappings@ == old(asp).mappings@,
        final(asp).root == old(asp).root,
        final(asp).asid == old(asp).asid,
        forall|n: int|
            old(alloc).can_allocate(n) && n >= 1 ==> final(alloc).can_allocate(n - 1),
        old(alloc).can_allocate(1) ==> r is Ok,
        r is Ok ==> final(asp).has_table(span as int),
        r is Err ==> (r == Err::<(), BootError>(BootError::OutOfMemory) || r == Err::<
            (),
            BootError,
        >(BootError::SlotExhausted)),
        forall|s: int| old(asp).has_table(s) ==> final(asp).has_table(s),
{
    let ghost alloc0 = *alloc;
    if find_table(asp, span) {
        proof {
            assert forall|n: int| alloc0.can_allocate(n) && n >= 1 implies alloc.can_allocate(
                n - 1,
            ) by {
                lemma_can_allocate_mono(alloc0, n, n - 1);
            }
        }
        return Ok(());
    }
    let table = match alloc.allocate_fixed(ObjectKind::PageTable) {
        Ok(t) => t,
        Err(e) => {
            proof {
                if alloc0.can_allocate(1) {
                    lemma_can_allocate_implies_success(alloc0, 12, 1);
                }
            }
            return Err(e);
        },
    };
    proof {
        assert forall|n: int| alloc0.can_allocate(n) && n >= 1 implies alloc.can_allocate(
            n - 1,
        ) by {
            lemma_can_allocate_after(alloc0, *alloc, ObjectKind::PageTable, 12, table, n);
        }
    }
    let ghost asp0 = *asp;
    asp.tables.push(TableNode { span_base: span, table });
    proof {
        let nt = (asp.tables@.len() - 1) as int;
        assert(asp.tables@[nt].span_base == span);
        assert(asp.has_table(span as int));
        assert forall|s: int| asp0.has_table(s) implies asp.has_table(s) by {
            let t = choose|t: int|
                0 <= t < asp0.tables@.len() && (#[trigger] asp0.tables@[t]).span_base == s;
            assert(asp.tables@[t].span_base == s);
        }
        assert forall|i: int| 0 <= i < asp.mappings@.len() implies asp.has_table(
            span_of((#[trigger] asp.mappings@[i]).vpage as int),
        ) by {
            assert(asp0.has_table(span_of(asp.mappings@[i].vpage as int)));
        }
    }
    Ok(())
}

/// Map one freshly allocated frame at `vpage` with `content` and `perms`,
/// first allocating the intermediate translation-table node for its span if
/// it is still missing.
fn map_page(
    asp: &mut AddressSpace,
    alloc: &mut ObjectAllocator,
    vpage: u64,
    content: Vec<u8>,
    perms: Perms,
) -> (r: Result<KernelObjectHandle, BootError>)
    requires
        old(asp).wf(),
        old(alloc).wf(),
        vpage % PAGE_SIZE == 0,
        vpage < MAX_VADDR,
        !old(asp).has_page(vpage as int),
        content@.len() == PAGE_SIZE,
    ensures
        final(asp).wf(),
        final(alloc).wf(),
        forall|n: int|
            old(alloc).can_allocate(n) && n >= 2 ==> final(alloc).can_allocate(n - 2),
        old(alloc).can_allocate(2) ==> r is Ok,
        r is Err ==> (r == Err::<KernelObjectHandle, BootError>(BootError::OutOfMemory) || r
            == Err::<KernelObjectHandle, BootError>(BootError::SlotExhausted)),
        r is Err ==> final(asp).mappings@ == old(asp).mappings@,
        r matches Ok(frame) ==> (exists|m: PageMapping|
            {
                &&& m.vpage == vpage
                &&& m.frame == frame
                &&& m.perms == perms
                &&& m.content@ == content@
                &&& m.wf()
                &&& final(asp).mappings@ == old(asp).mappings@.push(m)
            }),
        r matches Ok(frame) ==> frame.kind == ObjectKind::Frame,
        final(asp).root == old(asp).root,
        final(asp).asid == old(asp).asid,
{
    let span: u64 = vpage - vpage % TABLE_SPAN;
    let ghost alloc0 = *alloc;
    match ensure_table(asp, alloc, span) {
        Ok(()) => (),
        Err(e) => {
            proof {
                if alloc0.can_allocate(2) {
                    lemma_can_allocate_mono(alloc0, 2, 1);
                }
            }
            return Err(e);
        },
    }
    let ghost alloc1 = *alloc;
    let frame = match alloc.allocate_fixed(ObjectKind::Frame) {
        Ok(f) => f,
        Err(e) => {
            proof {
                if alloc0.can_allocate(2) {
                    assert(alloc1.can_allocate(1));
                    lemma_can_allocate_implies_success(alloc1, 12, 1);
                }
            }
            return Err(e);
        },
    };
    proof {
        assert forall|n: int| alloc0.can_allocate(n) && n >= 2 implies alloc.can_allocate(
            n - 2,
        ) by {
            assert(alloc1.can_allocate(n - 1));
            lemma_can_allocate_after(alloc1, *alloc, ObjectKind::Frame, 12, frame, n - 1);
        }
    }
    let ghost asp0 = *asp;
    let m = PageMapping { vpage, frame, perms, content };
    asp.mappings.push(m);
    proof {
        assert(asp.mappings@ == asp0.mappings@.push(m));
        assert(m.wf());
        assert forall|i: int, j: int|
            0 <= i < j < asp.mappings@.len() implies (#[trigger] asp.mappings@[i]).vpage != (
        #[trigger] asp.mappings@[j]).vpage by {
            if j < asp.mappings@.len() - 1 {
                assert(asp0.mappings@[i].vpage != asp0.mappings@[j].vpage);
            } else {
                if asp0.mappings@[i].vpage == vpage {
                    assert(asp0.has_page(vpage as int));
                }
            }
        }
        assert(span as int == span_of(vpage as int));
        assert forall|i: int| 0 <= i < asp.mappings@.len() implies asp.has_table(
            span_of((#[trigger] asp.mappings@[i]).vpage as int),
        ) by {
            if i < asp.mappings@.len() - 1 {
                assert(asp0.has_table(span_of(asp0.mappings@[i].vpage as int)));
            } else {
                assert(asp.mappings@[i].vpage == vpage);
                assert(asp0.has_table(span as int));
            }
        }
    }
    Ok(frame)
}

/// The segment's page range contains page `p`.
pub open spec fn seg_covers_page(seg: Segment, p: int) -> bool {
    seg.first_page() <= p < seg.end_page()
}

/// The per-segment allocation bound never counts below zero.
pub proof fn lemma_segs_bound_nonneg(segs: Seq<Segment>, s: int)
    requires
        forall|t: int| 0 <= t < segs.len() ==> (#[trigger] segs[t]).wf(),
    ensures
        segs_alloc_bound(segs, s) >= 0,
    decreases segs.len() - s,
{
    if 0 <= s < segs.len() {
        lemma_segment_pages(segs[s]);
        lemma_segs_bound_nonneg(segs, s + 1);
    }
}

/// Build the full address space for one child: assign it a fresh identifier,
/// allocate and wire the paging hierarchy while copying every segment's
/// bytes into place with the segment's own permissions (staging them through
/// the owned scratch page mapped in `parent_vspace`), and map one extra
/// zero-filled page read/write at the reserved IPC buffer address.
///
/// Any failure aborts the construction; nothing already allocated is rolled
/// back, and no partially built address space is handed out.
#[allow(unused_variables)]
#[verifier::rlimit(60)]
pub fn build_child_address_space(
    alloc: &mut ObjectAllocator,
    image: &Image,
    parent_vspace: &KernelObjectHandle,
    scratch: ScratchPage,
    asid_pool: &mut AsidPool,
) -> (r: Result<(AddressSpace, u64, KernelObjectHandle), BootError>)
    requires
        old(alloc).wf(),
        old(asid_pool).wf(),
    ensures
        final(alloc).wf(),
        final(asid_pool).wf(),
        (r == Err::<(AddressSpace, u64, KernelObjectHandle), BootError>(
            BootError::AsidPoolExhausted,
        )) <==> old(asid_pool).remaining == 0,
        old(asid_pool).remaining == 0 ==> *final(alloc) == *old(alloc) && *final(asid_pool)
            == *old(asid_pool),
        old(asid_pool).remaining > 0 ==> *final(asid_pool) == (AsidPool {
            next: (old(asid_pool).next + 1) as u64,
            remaining: (old(asid_pool).remaining - 1) as u64,
        }),
        (r == Err::<(AddressSpace, u64, KernelObjectHandle), BootError>(BootError::OverlapError))
            <==> (old(asid_pool).remaining > 0 && !image.spec_layout_ok()),
        r == Err::<(AddressSpace, u64, KernelObjectHandle), BootError>(BootError::OverlapError)
            ==> *final(alloc) == *old(alloc),
        r is Err ==> (r == Err::<(AddressSpace, u64, KernelObjectHandle), BootError>(
            BootError::AsidPoolExhausted,
        ) || r == Err::<(AddressSpace, u64, KernelObjectHandle), BootError>(
            BootError::OverlapError,
        ) || r == Err::<(AddressSpace, u64, KernelObjectHandle), BootError>(
            BootError::OutOfMemory,
        ) || r == Err::<(AddressSpace, u64, KernelObjectHandle), BootError>(
            BootError::SlotExhausted,
        )),
        (old(asid_pool).remaining > 0 && image.spec_layout_ok() && old(alloc).can_allocate(
            image.spec_alloc_bound(),
        )) ==> r is Ok,
        r is Ok ==> (forall|n: int|
            old(alloc).can_allocate(n) && n >= image.spec_alloc_bound()
                ==> final(alloc).can_allocate(n - image.spec_alloc_bound())),
        r matches Ok(out) ==> {
            &&& out.0.wf()
            &&& image_loaded(out.0, *image)
            &&& out.0.asid == old(asid_pool).next
            &&& out.0.root.kind == ObjectKind::PageTable
            &&& out.1 == IPC_BUFFER_VADDR
            &&& out.2.kind == ObjectKind::Frame
            &&& out.0.has_page(IPC_BUFFER_VADDR as int)
            &&& out.0.page_at(IPC_BUFFER_VADDR as int).perms == (Perms {
                read: true,
                write: true,
                execute: false,
            })
            &&& out.0.page_at(IPC_BUFFER_VADDR as int).frame == out.2
            &&& (forall|o: int|
                0 <= o < PAGE_SIZE ==> out.0.page_at(IPC_BUFFER_VADDR as int).content@[o] == 0u8)
            &&& (forall|p: int|
                #[trigger] out.0.has_page(p) ==> (p == IPC_BUFFER_VADDR || exists|t: int|
                    0 <= t < image.segments@.len() && seg_covers_page(
                        #[trigger] image.segments@[t],
                        p,
                    )))
        },
{
    let ghost alloc0 = *alloc;
    let asid = match asid_pool.assign() {
        Ok(a) => a,
        Err(e) => {
            return Err(e);
        },
    };
    if !check_image(image) {
        return Err(BootError::OverlapError);
    }
    let ghost bound = image.spec_alloc_bound();
    proof {
        lemma_segs_bound_nonneg(image.segments@, 0);
    }
    let root = match alloc.allocate_fixed(ObjectKind::PageTable) {
        Ok(h) => h,
        Err(e) => {
            proof {
                if alloc0.can_allocate(bound) {
                    lemma_can_allocate_mono(alloc0, bound, 1);
                    lemma_can_allocate_implies_success(alloc0, 12, 1);
                }
            }
            return Err(e);
        },
    };
    proof {
        assert forall|n: int| alloc0.can_allocate(n) && n >= 1 implies alloc.can_allocate(
            n - 1,
        ) by {
            lemma_can_allocate_after(alloc0, *alloc, ObjectKind::PageTable, 12, root, n);
        }
    }
    let mut asp = AddressSpace { root, asid, tables: Vec::new(), mappings: Vec::new() };
    let ghost mut used: int = 1;
    let mut s: usize = 0;
    while s < image.segments.len()
        invariant
            old(alloc).wf(),
            alloc0 == *old(alloc),
            old(asid_pool).wf(),
            old(asid_pool).remaining > 0,
            asid_pool.wf(),
            *asid_pool == (AsidPool {
                next: (old(asid_pool).next + 1) as u64,
                remaining: (old(asid_pool).remaining - 1) as u64,
            }),
            asid == old(asid_pool).next,
            image.spec_layout_ok(),
            alloc.wf(),
            asp.wf(),
            asp.root == root,
            root.kind == ObjectKind::PageTable,
            asp.asid == asid,
            s <= image.segments@.len(),
            forall|p: int|
                #[trigger] asp.has_page(p) ==> exists|t: int|
                    0 <= t < s && seg_covers_page(#[trigger] image.segments@[t], p),
            forall|t: int| 0 <= t < s ==> segment_loaded(asp, #[trigger] image.segments@[t]),
            1 <= used,
            used + segs_alloc_bound(image.segments@, s as int) + 2 <= bound,
            bound == image.spec_alloc_bound(),
            forall|n: int|
                alloc0.can_allocate(n) && n >= used ==> alloc.can_allocate(n - used),
        decreases image.segments@.len() - s,
    {
        let seg = &image.segments[s];
        proof {
            lemma_segment_pages(*seg);
            lemma_segs_bound_nonneg(image.segments@, s as int + 1);
        }
        let first = seg.first_page_x();
        let end = seg.end_page_x();
        let mut vp: u64 = first;
        let ghost mut pages_left: int = seg.spec_page_count();
        while vp < end
            invariant
                old(alloc).wf(),
                alloc0 == *old(alloc),
                old(asid_pool).wf(),
                old(asid_pool).remaining > 0,
                asid_pool.wf(),
                *asid_pool == (AsidPool {
                    next: (old(asid_pool).next + 1) as u64,
                    remaining: (old(asid_pool).remaining - 1) as u64,
                }),
                asid == old(asid_pool).next,
                image.spec_layout_ok(),
                alloc.wf(),
                asp.wf(),
                asp.root == root,
                root.kind == ObjectKind::PageTable,
                asp.asid == asid,
                s < image.segments@.len(),
                seg == &image.segments@[s as int],
                first == seg.first_page(),
                end == seg.end_page(),
                vp as int % (PAGE_SIZE as int) == 0,
                first <= vp <= end,
                end <= MAX_VADDR,
                vp as int + pages_left * (PAGE_SIZE as int) == end as int,
                pages_left >= 0,
                forall|p: int|
                    #[trigger] asp.has_page(p) ==> (exists|t: int|
                        0 <= t < s && seg_covers_page(#[trigger] image.segments@[t], p)) || (
                    first <= p < vp),
                forall|t: int| 0 <= t < s ==> segment_loaded(asp, #[trigger] image.segments@[t]),
                forall|va: int|
                    #[trigger] seg.contains(va) && page_of(va) < vp ==> asp.read_byte(va) == Some(
                        seg.byte_at(va),
                    ) && asp.perms_at(va) == Some(seg.perms),
                1 <= used,
                used + 2 * pages_left + segs_alloc_bound(image.segments@, s as int + 1) + 2
                    <= bound,
                bound == image.spec_alloc_bound(),
                forall|n: int|
                    alloc0.can_allocate(n) && n >= used ==> alloc.can_allocate(n - used),
            decreases end - vp,
        {
            proof {
                lemma_segment_pages(*seg);
                assert(pages_left >= 1) by (nonlinear_arith)
                    requires
                        vp as int + pages_left * (PAGE_SIZE as int) == end as int,
                        vp < end,
                        pages_left >= 0,
                ;
                if asp.has_page(vp as int) {
                    let t = choose|t: int|
                        0 <= t < s && seg_covers_page(#[trigger] image.segments@[t], vp as int);
                    assert(image.segments@[t].end_page() <= image.segments@[s as int].first_page());
                }
            }
            let content = fill_page(seg, vp);
            let ghost prev_asp = asp;
            let ghost prev_alloc = *alloc;
            let frame = match map_page(&mut asp, alloc, vp, content, seg.perms) {
                Ok(f) => f,
                Err(e) => {
                    proof {
                        if alloc0.can_allocate(bound) {
                            lemma_segs_bound_nonneg(image.segments@, s as int + 1);
                            assert(prev_alloc.can_allocate(bound - used));
                            lemma_can_allocate_mono(prev_alloc, bound - used, 2);
                        }
                    }
                    return Err(e);
                },
            };
            proof {
                let m = choose|m: PageMapping|
                    {
                        &&& m.vpage == vp
                        &&& m.frame == frame
                        &&& m.perms == seg.perms
                        &&& m.content@ == content@
                        &&& m.wf()
                        &&& asp.mappings@ == prev_asp.mappings@.push(m)
                    };
                lemma_map_extends(prev_asp, asp, m);
                // Earlier segments stay loaded: their pages are all below
                // this segment's first page.
                assert forall|t: int| 0 <= t < s implies segment_loaded(
                    asp,
                    #[trigger] image.segments@[t],
                ) by {
                    let st = image.segments@[t];
                    assert(segment_loaded(prev_asp, st));
                    assert forall|va: int| st.contains(va) implies (#[trigger] asp.read_byte(va))
                        == Some(st.byte_at(va)) && asp.perms_at(va) == Some(st.perms) by {
                        lemma_segment_pages(st);
                        assert(st.end_page() <= image.segments@[s as int].first_page());
                        assert(page_of(va) != vp as int);
                        assert(prev_asp.read_byte(va) == Some(st.byte_at(va)));
                    }
                }
                // This segment's bytes so far, including the fresh page.
                assert forall|va: int|
                    #[trigger] seg.contains(va) && page_of(va) < vp + PAGE_SIZE implies
                    asp.read_byte(va) == Some(seg.byte_at(va)) && asp.perms_at(va) == Some(
                    seg.perms,
                ) by {
                    lemma_page_of_bounds(va);
                    if page_of(va) < vp {
                        assert(prev_asp.read_byte(va) == Some(seg.byte_at(va)));
                        assert(page_of(va) != vp as int);
                    } else {
                        assert(vp <= va);
                        lemma_page_of_offset(vp as int, va - vp);
                        assert(page_of(va) == vp as int);
                        assert(asp.page_at(vp as int) == m);
                        assert(m.content@[va - vp] == content@[va - vp]);
                        assert(content@[va - vp] == seg.byte_at(va));
                    }
                }
                // Coverage: the fresh page lies in this segment's range.
                assert forall|p: int| #[trigger] asp.has_page(p) implies (exists|t: int|
                    0 <= t < s && seg_covers_page(#[trigger] image.segments@[t], p)) || (first <= p
                    < vp + PAGE_SIZE) by {
                    if p != vp as int {
                        assert(prev_asp.has_page(p));
                    }
                }
                assert forall|n: int|
                    alloc0.can_allocate(n) && n >= used + 2 implies alloc.can_allocate(
                    n - (used + 2),
                ) by {
                    assert(prev_alloc.can_allocate(n - used));
                }
                used = used + 2;
                pages_left = pages_left - 1;
                assert((vp + PAGE_SIZE) as int % (PAGE_SIZE as int) == 0) by {
                    lemma_mod_multiples_vanish(1, vp as int, PAGE_SIZE as int);
                }
                assert(vp as int + PAGE_SIZE + pages_left * (PAGE_SIZE as int) == end as int)
                    by (nonlinear_arith)
                    requires
                        vp as int + (pages_left + 1) * (PAGE_SIZE as int) == end as int,
                ;
            }
            vp = vp + PAGE_SIZE;
        }
        proof {
            lemma_segment_pages(*seg);
            assert(vp == end);
            assert(segment_loaded(asp, image.segments@[s as int]));
            assert(2 * pages_left == 0) by (nonlinear_arith)
                requires
                    vp as int + pages_left * (PAGE_SIZE as int) == end as int,
                    vp == end,
            ;
            assert forall|p: int| #[trigger] asp.has_page(p) implies exists|t: int|
                0 <= t < s + 1 && seg_covers_page(#[trigger] image.segments@[t], p) by {
                if first <= p < vp {
                    assert(seg_covers_page(image.segments@[s as int], p));
                } else {
                    let t = choose|t: int|
                        0 <= t < s && seg_covers_page(#[trigger] image.segments@[t], p);
                    assert(seg_covers_page(image.segments@[t], p));
                }
            }
        }
        s = s + 1;
    }
    // The IPC buffer: one zero-filled page, read/write, at the reserved
    // address, which no segment claims.
    proof {
        if asp.has_page(IPC_BUFFER_VADDR as int) {
            let t = choose|t: int|
                0 <= t < s && seg_covers_page(#[trigger] image.segments@[t], IPC_BUFFER_VADDR as int);
            assert(!(image.segments@[t].first_page() <= IPC_BUFFER_VADDR
                < image.segments@[t].end_page()));
        }
    }
    let blank = Segment {
        vstart: 0,
        len: 0,
        data: Vec::new(),
        perms: Perms { read: true, write: true, execute: false },
    };
    let zero_content = fill_page(&blank, IPC_BUFFER_VADDR);
    let ghost prev_asp = asp;
    let ghost prev_alloc = *alloc;
    let ipc_cap = match map_page(
        &mut asp,
        alloc,
        IPC_BUFFER_VADDR,
        zero_content,
        Perms { read: true, write: true, execute: false },
    ) {
        Ok(f) => f,
        Err(e) => {
            proof {
                if alloc0.can_allocate(bound) {
                    assert(prev_alloc.can_allocate(bound - used));
                    lemma_can_allocate_mono(prev_alloc, bound - used, 2);
                }
            }
            return Err(e);
        },
    };
    proof {
        let m = choose|m: PageMapping|
            {
                &&& m.vpage == IPC_BUFFER_VADDR
                &&& m.frame == ipc_cap
                &&& m.perms == (Perms { read: true, write: true, execute: false })
                &&& m.content@ == zero_content@
                &&& m.wf()
                &&& asp.mappings@ == prev_asp.mappings@.push(m)
            };
        lemma_map_extends(prev_asp, asp, m);
        assert forall|t: int| 0 <= t < image.segments@.len() implies segment_loaded(
            asp,
            #[trigger] image.segments@[t],
        ) by {
            let st = image.segments@[t];
            assert(segment_loaded(prev_asp, st));
            assert forall|va: int| st.contains(va) implies (#[trigger] asp.read_byte(va)) == Some(
                st.byte_at(va),
            ) && asp.perms_at(va) == Some(st.perms) by {
                lemma_segment_pages(st);
                assert(!(st.first_page() <= IPC_BUFFER_VADDR < st.end_page()));
                assert(page_of(va) != IPC_BUFFER_VADDR as int);
                assert(prev_asp.read_byte(va) == Some(st.byte_at(va)));
            }
        }
        assert(asp.page_at(IPC_BUFFER_VADDR as int) == m);
        assert forall|o: int| 0 <= o < PAGE_SIZE implies asp.page_at(
            IPC_BUFFER_VADDR as int,
        ).content@[o] == 0u8 by {
            assert(zero_content@[o] == 0u8);
        }
        assert forall|n: int|
            alloc0.can_allocate(n) && n >= bound implies alloc.can_allocate(n - bound) by {
            assert(prev_alloc.can_allocate(n - used));
            assert(alloc.can_allocate(n - used - 2));
            lemma_can_allocate_mono(*alloc, n - used - 2, n - bound);
        }
        assert forall|p: int| #[trigger] asp.has_page(p) implies (p == IPC_BUFFER_VADDR || exists|
            t: int,
        | 0 <= t < image.segments@.len() && seg_covers_page(#[trigger] image.segments@[t], p)) by {
            if p != IPC_BUFFER_VADDR {
                assert(prev_asp.has_page(p));
            }
        }
    }
    Ok((asp, IPC_BUFFER_VADDR, ipc_cap))
}

} // verus!
