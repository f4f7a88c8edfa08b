use vstd::prelude::*;
use std::collections::HashMap;
use crate::memory::{FrameAllocator, FRAME_SIZE, allocation_step, is_usable_frame, frame_in_region};

verus! {

broadcast use vstd::std_specs::hash::group_hash_axioms;

/// The entry maps a frame.
pub const PRESENT: u64 = 1;

/// Writes through the entry are allowed.
pub const WRITABLE: u64 = 2;

/// Instruction fetches through the entry are refused.
pub const NO_EXECUTE: u64 = 0x8000_0000_0000_0000;

/// Bytes of virtual space covered by one entry of a table of the top level,
/// of the second and of the third level.
pub const LEVEL4_SPAN: u64 = 0x80_0000_0000;
pub const LEVEL3_SPAN: u64 = 0x4000_0000;
pub const LEVEL2_SPAN: u64 = 0x20_0000;

/// A leaf entry: the frame behind a page and the entry's protection flags.
#[derive(Debug, Clone, Copy, PartialEq, Eq, Structural)]
pub struct Mapping {
    pub frame: u64,
    pub flags: u64,
}

#[derive(Debug, Clone, Copy, PartialEq, Eq, Structural)]
pub enum MapError {
    /// The frame allocator ran out while tables or pages were still needed.
    FrameAllocationFailed,
    /// A page of the requested range was mapped already.
    PageAlreadyMapped,
}

/// `p` is the start of a page that overlaps `[start, start + length)`.
pub open spec fn page_in_range(start: int, length: int, p: int) -> bool {
    &&& p % (FRAME_SIZE as int) == 0
    &&& start < p + FRAME_SIZE
    &&& p < start + length
}

/// `after` came from `before` through zero or more allocations.
pub open spec fn alloc_advanced(before: FrameAllocator, after: FrameAllocator) -> bool {
    &&& after.wf()
    &&& after.regions() == before.regions()
    &&& before.handed_out().subset_of(after.handed_out())
    &&& before.cursor() <= after.cursor()
}

/// No usable frame is left at or above the allocator's cursor.
pub open spec fn exhausted(a: FrameAllocator) -> bool {
    forall|g: int| #[trigger] is_usable_frame(a.regions(), g) ==> g < a.cursor()
}

/// Maps outside `[start, start + length)` are left as they were.
pub open spec fn same_outside_range(
    before: Map<u64, Mapping>,
    after: Map<u64, Mapping>,
    start: int,
    length: int,
) -> bool {
    forall|q: u64|
        !page_in_range(start, length, q as int) ==> (#[trigger] after.contains_key(q)
            == before.contains_key(q) && (before.contains_key(q) ==> after[q] == before[q]))
}

/// `f` holds a table that `after` has and `before` had not.
pub open spec fn new_table_frame(before: AddressSpace, after: AddressSpace, f: u64) -> bool {
    exists|level: int, key: u64|
        1 <= level <= 3 && #[trigger] after.tables(level).contains_key(key) && !before.tables(
            level,
        ).contains_key(key) && after.tables(level)[key] == f
}

/// Tables present in `before` stay, holding the same frames.
pub open spec fn tables_grow(before: AddressSpace, after: AddressSpace) -> bool {
    forall|level: int, key: u64|
        1 <= level <= 3 && #[trigger] before.tables(level).contains_key(key) ==> after.tables(
            level,
        ).contains_key(key) && after.tables(level)[key] == before.tables(level)[key]
}

/// Every frame taken from the allocator between the two states holds a
/// table created in between or backs a page of `[start, start + length)`.
pub open spec fn frames_accounted(
    space_before: AddressSpace,
    space_after: AddressSpace,
    alloc_before: FrameAllocator,
    alloc_after: FrameAllocator,
    start: int,
    length: int,
) -> bool {
    forall|f: u64|
        #[trigger] alloc_after.handed_out().contains(f) && !alloc_before.handed_out().contains(f)
            ==> new_table_frame(space_before, space_after, f) || exists|p: u64|
            page_in_range(start, length, p as int) && #[trigger] space_after.mappings().contains_key(p)
                && space_after.mappings()[p].frame == f
}

/// A four-level page table tree rooted at the page-table base register.
/// Intermediate tables are identified by the part of the virtual address
/// above what one of their entries covers; every table and every mapped
/// page holds a frame taken from the frame allocator, written through the
/// fixed offset at which all physical memory is mapped.
pub struct AddressSpace {
    phys_offset: u64,
    level3: HashMap<u64, u64>,
    level2: HashMap<u64, u64>,
    level1: HashMap<u64, u64>,
    pages: HashMap<u64, Mapping>,
}

impl AddressSpace {
    /// Leaf entries, keyed by page address.
    pub closed spec fn mappings(self) -> Map<u64, Mapping> {
        self.pages@
    }

    /// The offset at which the kernel sees all of physical memory.
    pub closed spec fn offset(self) -> u64 {
        self.phys_offset
    }

    pub closed spec fn wf(self) -> bool {
        forall|p: u64| #[trigger]
            self.pages@.contains_key(p) ==> p % FRAME_SIZE == 0 && self.pages@[p].frame
                % FRAME_SIZE == 0
    }

    /// An empty tree whose tables the kernel reaches at `phys_offset`.
    pub fn new(phys_offset: u64) -> (r: Self)
        ensures
            r.wf(),
            r.mappings() == Map::<u64, Mapping>::empty(),
            r.offset() == phys_offset,
    {
        AddressSpace {
            phys_offset,
            level3: HashMap::new(),
            level2: HashMap::new(),
            level1: HashMap::new(),
            pages: HashMap::new(),
        }
    }

    /// The virtual address at which the kernel writes the table held in
    /// `frame`, or `None` where it falls outside the address space.
    pub fn table_address(&self, frame: u64) -> (r: Option<u64>)
        ensures
            r matches Some(a) ==> a == self.offset() + frame,
            r is None <==> self.offset() + frame > u64::MAX,
    {
        self.phys_offset.checked_add(frame)
    }

    /// Intermediate tables by level (3: below the root, then 2, then 1),
    /// keyed by the part of the virtual address above what one of their
    /// entries covers.
    pub closed spec fn tables(self, level: int) -> Map<u64, u64> {
        if level == 3 {
            self.level3@
        } else if level == 2 {
            self.level2@
        } else {
            self.level1@
        }
    }

    /// The frame holding the table of `level` on the path to `va`, if
    /// one was created.
    pub fn table_frame(&self, level: u8, va: u64) -> (r: Option<u64>)
        requires
            1 <= level <= 3,
        ensures
            ({
                let key = if level == 3 {
                    va / LEVEL4_SPAN
                } else if level == 2 {
                    va / LEVEL3_SPAN
                } else {
                    va / LEVEL2_SPAN
                };
                match r {
                    Some(f) => self.tables(level as int).contains_key(key) && f == self.tables(
                        level as int,
                    )[key],
                    None => !self.tables(level as int).contains_key(key),
                }
            }),
    {
        let found = if level == 3 {
            self.level3.get(&(va / LEVEL4_SPAN))
        } else if level == 2 {
            self.level2.get(&(va / LEVEL3_SPAN))
        } else {
            self.level1.get(&(va / LEVEL2_SPAN))
        };
        match found {
            Some(f) => Some(*f),
            None => None,
        }
    }

    /// The physical address behind `va`, if its page is mapped.
    pub fn translate(&self, va: u64) -> (r: Option<u64>)
        requires
            self.wf(),
        ensures
            ({
                let p = (va - va % FRAME_SIZE) as u64;
                match r {
                    Some(pa) => self.mappings().contains_key(p) && pa == self.mappings()[p].frame
                        + va % FRAME_SIZE,
                    None => !self.mappings().contains_key(p),
                }
            }),
    {
        let page = va - va % FRAME_SIZE;
        match self.pages.get(&page) {
            Some(m) => {
                assert(m.frame % FRAME_SIZE == 0);
                Some(m.frame + va % FRAME_SIZE)
            },
            None => None,
        }
    }

    /// Maps the page at `page` to a fresh frame with `flags` and the present
    /// bit, creating the intermediate tables it needs.
    pub fn map_page(&mut self, page: u64, flags: u64, alloc: &mut FrameAllocator) -> (r: Result<
        (),
        MapError,
    >)
        requires
            old(self).wf(),
            old(alloc).wf(),
            page % FRAME_SIZE == 0,
            !old(self).mappings().contains_key(page),
        ensures
            final(self).wf(),
            final(self).offset() == old(self).offset(),
            alloc_advanced(*old(alloc), *final(alloc)),
            tables_grow(*old(self), *final(self)),
            frames_accounted(*old(self), *final(self), *old(alloc), *final(alloc), page as int, 1),
            r is Ok ==> {
                let m = final(self).mappings()[page];
                &&& final(self).mappings() == old(self).mappings().insert(page, m)
                &&& m.flags == flags | PRESENT
                &&& !old(alloc).handed_out().contains(m.frame)
                &&& final(alloc).handed_out().contains(m.frame)
            },
            r is Err ==> r == Err::<(), MapError>(MapError::FrameAllocationFailed) && exhausted(
                *final(alloc),
            ) && final(self).mappings() == old(self).mappings(),
    {
        let ghost s0 = *self;
        let ghost a0 = *alloc;
        let r3 = ensure_table(&mut self.level3, page / LEVEL4_SPAN, alloc);
        let ghost s1 = *self;
        let ghost a1 = *alloc;
        proof {
            lemma_table_step(s0, s1, a0, a1, 3, page / LEVEL4_SPAN, r3);
        }
        if let Err(e) = r3 {
            return Err(e);
        }
        let r2 = ensure_table(&mut self.level2, page / LEVEL3_SPAN, alloc);
        let ghost s2 = *self;
        let ghost a2 = *alloc;
        proof {
            lemma_table_step(s1, s2, a1, a2, 2, page / LEVEL3_SPAN, r2);
            lemma_accounting_chain(s0, s1, s2, a0, a1, a2, page as int, 1);
        }
        if let Err(e) = r2 {
            return Err(e);
        }
        let r1 = ensure_table(&mut self.level1, page / LEVEL2_SPAN, alloc);
        let ghost s3 = *self;
        let ghost a3 = *alloc;
        proof {
            lemma_table_step(s2, s3, a2, a3, 1, page / LEVEL2_SPAN, r1);
            lemma_accounting_chain(s0, s2, s3, a0, a2, a3, page as int, 1);
        }
        if let Err(e) = r1 {
            return Err(e);
        }
        let ghost before = *alloc;
        match alloc.allocate_frame() {
            Some(frame) => {
                proof {
                    let regions = before.regions();
                    let j = choose|j: int|
                        0 <= j < regions.len() && #[trigger] frame_in_region(
                            regions[j],
                            frame as int,
                        );
                    assert(frame_in_region(regions[j], frame as int));
                }
                self.pages.insert(page, Mapping { frame, flags: flags | PRESENT });
                proof {
                    assert forall|f: u64|
                        #[trigger] alloc.handed_out().contains(f) && !a0.handed_out().contains(f)
                            implies new_table_frame(s0, *self, f) || exists|p: u64|
                        page_in_range(page as int, 1, p as int)
                            && #[trigger] self.mappings().contains_key(p)
                            && self.mappings()[p].frame == f by {
                        if f == frame {
                            assert(self.mappings().contains_key(page));
                            assert(page_in_range(page as int, 1, page as int));
                        } else {
                            assert(a3.handed_out().contains(f));
                            let (level, key) = choose|level: int, key: u64|
                                1 <= level <= 3 && #[trigger] s3.tables(level).contains_key(key)
                                    && !s0.tables(level).contains_key(key) && s3.tables(level)[key]
                                    == f;
                            assert(self.tables(level) == s3.tables(level));
                            assert(self.tables(level).contains_key(key));
                        }
                    }
                }
                Ok(())
            },
            None => Err(MapError::FrameAllocationFailed),
        }
    }

    /// Backs every page that overlaps `[start, start + length)` with a fresh
    /// frame, mapped with `flags` and the present bit. Nothing is changed
    /// when a page of the range is mapped already; when the frames run out
    /// midway, the pages mapped so far stay mapped.
    pub fn map_range(
        &mut self,
        start: u64,
        length: u64,
        flags: u64,
        alloc: &mut FrameAllocator,
    ) -> (r: Result<(), MapError>)
        requires
            old(self).wf(),
            old(alloc).wf(),
            start + length + FRAME_SIZE <= u64::MAX,
        ensures
            final(self).wf(),
            final(self).offset() == old(self).offset(),
            alloc_advanced(*old(alloc), *final(alloc)),
            (r == Err::<(), MapError>(MapError::PageAlreadyMapped)) == (exists|p: u64|
                page_in_range(start as int, length as int, p as int) && #[trigger] old(self).mappings().contains_key(p)),
            r == Err::<(), MapError>(MapError::PageAlreadyMapped) ==> final(self).mappings()
                == old(self).mappings() && *final(alloc) == *old(alloc),
            r == Err::<(), MapError>(MapError::FrameAllocationFailed) ==> exhausted(*final(alloc)),
            tables_grow(*old(self), *final(self)),
            frames_accounted(
                *old(self),
                *final(self),
                *old(alloc),
                *final(alloc),
                start as int,
                length as int,
            ),
            same_outside_range(old(self).mappings(), final(self).mappings(), start as int, length as int),
            r is Ok ==> forall|p: u64| #[trigger]
                page_in_range(start as int, length as int, p as int) ==> {
                    let m = final(self).mappings()[p];
                    &&& final(self).mappings().contains_key(p)
                    &&& m.flags == flags | PRESENT
                    &&& !old(alloc).handed_out().contains(m.frame)
                    &&& final(alloc).handed_out().contains(m.frame)
                },
            r is Ok ==> forall|p: u64, q: u64|
                page_in_range(start as int, length as int, p as int) && page_in_range(
                    start as int,
                    length as int,
                    q as int,
                ) && p != q ==> #[trigger] final(self).mappings()[p].frame
                    != #[trigger] final(self).mappings()[q].frame,
    {
        let first = start - start % FRAME_SIZE;
        let end = start + length;
        let mut p = first;
        while p < end
            invariant
                *self == *old(self),
                *alloc == *old(alloc),
                self.wf(),
                alloc.wf(),
                first == start - start % FRAME_SIZE,
                end == start + length,
                end + FRAME_SIZE <= u64::MAX,
                first <= p <= end + FRAME_SIZE,
                p % FRAME_SIZE == 0,
                forall|q: u64|
                    first <= q < p && q % FRAME_SIZE == 0 ==> !(
                    #[trigger] self.pages@.contains_key(q)),
            decreases end + FRAME_SIZE - p,
        {
            if self.pages.contains_key(&p) {
                assert(page_in_range(start as int, length as int, p as int));
                assert(old(self).mappings().contains_key(p));
                return Err(MapError::PageAlreadyMapped);
            }
            p = p + FRAME_SIZE;
        }
        assert forall|q: u64| #[trigger]
            page_in_range(start as int, length as int, q as int) implies first <= q < p by {
            lemma_first_page(start as int, q as int);
        }
        let ghost old_pages = self.pages@;
        let ghost old_alloc = *alloc;
        let mut p = first;
        while p < end
            invariant
                self.wf(),
                self.phys_offset == old(self).phys_offset,
                old_pages == old(self).pages@,
                old_alloc == *old(alloc),
                alloc.wf(),
                alloc_advanced(old_alloc, *alloc),
                tables_grow(*old(self), *self),
                frames_accounted(*old(self), *self, old_alloc, *alloc, start as int, length as int),
                first == start - start % FRAME_SIZE,
                end == start + length,
                end + FRAME_SIZE <= u64::MAX,
                first <= p <= end + FRAME_SIZE,
                p % FRAME_SIZE == 0,
                forall|q: u64| #[trigger]
                    page_in_range(start as int, length as int, q as int) ==> first <= q,
                forall|q: u64| #[trigger]
                    page_in_range(start as int, length as int, q as int) ==> !old_pages.contains_key(q),
                same_outside_range(old_pages, self.pages@, start as int, length as int),
                forall|q: u64|
                    page_in_range(start as int, length as int, q as int) && p <= q ==> !(
                    #[trigger] self.pages@.contains_key(q)),
                forall|q: u64| #[trigger]
                    page_in_range(start as int, length as int, q as int) && q < p ==> {
                        let m = self.pages@[q];
                        &&& self.pages@.contains_key(q)
                        &&& m.flags == flags | PRESENT
                        &&& !old_alloc.handed_out().contains(m.frame)
                        &&& alloc.handed_out().contains(m.frame)
                    },
                forall|a: u64, b: u64|
                    page_in_range(start as int, length as int, a as int) && page_in_range(
                        start as int,
                        length as int,
                        b as int,
                    ) && a < p && b < p && a != b ==> #[trigger] self.pages@[a].frame
                        != #[trigger] self.pages@[b].frame,
            decreases end + FRAME_SIZE - p,
        {
            assert(page_in_range(start as int, length as int, p as int));
            let ghost mid_alloc = *alloc;
            let ghost mid_pages = self.pages@;
            let ghost mid_self = *self;
            let step = self.map_page(p, flags, alloc);
            proof {
                lemma_accounting_page_step(
                    *old(self),
                    mid_self,
                    *self,
                    old_alloc,
                    mid_alloc,
                    *alloc,
                    start as int,
                    length as int,
                    p,
                );
            }
            match step {
                Ok(()) => {},
                Err(e) => {
                    return Err(e);
                },
            }
            assert forall|q: u64| #[trigger]
                page_in_range(start as int, length as int, q as int) && q < p + FRAME_SIZE implies {
                let m = self.pages@[q];
                &&& self.pages@.contains_key(q)
                &&& m.flags == flags | PRESENT
                &&& !old_alloc.handed_out().contains(m.frame)
                &&& alloc.handed_out().contains(m.frame)
            } by {
                if q < p {
                    assert(mid_pages.contains_key(q));
                    assert(mid_alloc.handed_out().contains(mid_pages[q].frame));
                }
            }
            assert forall|a: u64, b: u64|
                page_in_range(start as int, length as int, a as int) && page_in_range(
                    start as int,
                    length as int,
                    b as int,
                ) && a < p + FRAME_SIZE && b < p + FRAME_SIZE && a != b implies #[trigger] self.pages@[a].frame
                != #[trigger] self.pages@[b].frame by {
                if a < p {
                    assert(mid_alloc.handed_out().contains(mid_pages[a].frame));
                }
                if b < p {
                    assert(mid_alloc.handed_out().contains(mid_pages[b].frame));
                }
            }
            p = p + FRAME_SIZE;
        }
        Ok(())
    }
}

/// One call of `ensure_table` on the table of `level`, seen from the
/// whole tree: tables only grow, and a frame taken holds the new table.
proof fn lemma_table_step(
    s0: AddressSpace,
    s1: AddressSpace,
    a0: FrameAllocator,
    a1: FrameAllocator,
    level: int,
    key: u64,
    r: Result<(), MapError>,
)
    requires
        1 <= level <= 3,
        s1.pages@ == s0.pages@,
        forall|l: int| 1 <= l <= 3 && l != level ==> #[trigger] s1.tables(l) == s0.tables(l),
        r is Ok && s0.tables(level).contains_key(key) ==> s1.tables(level) == s0.tables(level)
            && a1 == a0,
        r is Ok && !s0.tables(level).contains_key(key) ==> s1.tables(level) == s0.tables(
            level,
        ).insert(key, s1.tables(level)[key]) && a1.handed_out() == a0.handed_out().insert(
            s1.tables(level)[key],
        ),
        r is Err ==> s1.tables(level) == s0.tables(level) && a1.handed_out() == a0.handed_out(),
    ensures
        tables_grow(s0, s1),
        forall|f: u64|
            #[trigger] a1.handed_out().contains(f) && !a0.handed_out().contains(f)
                ==> new_table_frame(s0, s1, f),
{
    assert forall|l: int, k: u64|
        1 <= l <= 3 && #[trigger] s0.tables(l).contains_key(k) implies s1.tables(l).contains_key(k)
        && s1.tables(l)[k] == s0.tables(l)[k] by {
        if l == level && r is Ok && !s0.tables(level).contains_key(key) {
            assert(k != key);
        }
    }
    assert forall|f: u64|
        #[trigger] a1.handed_out().contains(f) && !a0.handed_out().contains(f) implies new_table_frame(
        s0,
        s1,
        f,
    ) by {
        assert(s1.tables(level).contains_key(key));
    }
}

/// Accounting and growth compose along two steps.
proof fn lemma_accounting_chain(
    s0: AddressSpace,
    s1: AddressSpace,
    s2: AddressSpace,
    a0: FrameAllocator,
    a1: FrameAllocator,
    a2: FrameAllocator,
    start: int,
    length: int,
)
    requires
        tables_grow(s0, s1),
        tables_grow(s1, s2),
        s2.pages@ == s1.pages@,
        a0.handed_out().subset_of(a1.handed_out()),
        frames_accounted(s0, s1, a0, a1, start, length),
        forall|f: u64|
            #[trigger] a2.handed_out().contains(f) && !a1.handed_out().contains(f)
                ==> new_table_frame(s1, s2, f),
    ensures
        tables_grow(s0, s2),
        frames_accounted(s0, s2, a0, a2, start, length),
{
    assert forall|l: int, k: u64|
        1 <= l <= 3 && #[trigger] s0.tables(l).contains_key(k) implies s2.tables(l).contains_key(k)
        && s2.tables(l)[k] == s0.tables(l)[k] by {
        assert(s1.tables(l).contains_key(k));
    }
    assert forall|f: u64|
        #[trigger] a2.handed_out().contains(f) && !a0.handed_out().contains(f) implies new_table_frame(
        s0,
        s2,
        f,
    ) || exists|p: u64|
        page_in_range(start, length, p as int) && #[trigger] s2.mappings().contains_key(p)
            && s2.mappings()[p].frame == f by {
        if a1.handed_out().contains(f) {
            if new_table_frame(s0, s1, f) {
                let (level, key) = choose|level: int, key: u64|
                    1 <= level <= 3 && #[trigger] s1.tables(level).contains_key(key)
                        && !s0.tables(level).contains_key(key) && s1.tables(level)[key] == f;
                assert(s2.tables(level).contains_key(key));
            } else {
                let p = choose|p: u64|
                    page_in_range(start, length, p as int) && #[trigger] s1.mappings().contains_key(p)
                        && s1.mappings()[p].frame == f;
                assert(s2.mappings().contains_key(p));
            }
        } else {
            let (level, key) = choose|level: int, key: u64|
                1 <= level <= 3 && #[trigger] s2.tables(level).contains_key(key)
                    && !s1.tables(level).contains_key(key) && s2.tables(level)[key] == f;
            if s0.tables(level).contains_key(key) {
                assert(s1.tables(level).contains_key(key));
            }
            assert(s2.tables(level).contains_key(key));
        }
    }
}

/// Mapping one more page of the range keeps the range's accounting.
proof fn lemma_accounting_page_step(
    s0: AddressSpace,
    s1: AddressSpace,
    s2: AddressSpace,
    a0: FrameAllocator,
    a1: FrameAllocator,
    a2: FrameAllocator,
    start: int,
    length: int,
    page: u64,
)
    requires
        tables_grow(s0, s1),
        tables_grow(s1, s2),
        a0.handed_out().subset_of(a1.handed_out()),
        frames_accounted(s0, s1, a0, a1, start, length),
        frames_accounted(s1, s2, a1, a2, page as int, 1),
        page_in_range(start, length, page as int),
        !s1.mappings().contains_key(page),
        s2.mappings() == s1.mappings() || s2.mappings() == s1.mappings().insert(
            page,
            s2.mappings()[page],
        ),
    ensures
        tables_grow(s0, s2),
        frames_accounted(s0, s2, a0, a2, start, length),
{
    assert forall|l: int, k: u64|
        1 <= l <= 3 && #[trigger] s0.tables(l).contains_key(k) implies s2.tables(l).contains_key(k)
        && s2.tables(l)[k] == s0.tables(l)[k] by {
        assert(s1.tables(l).contains_key(k));
    }
    assert forall|f: u64|
        #[trigger] a2.handed_out().contains(f) && !a0.handed_out().contains(f) implies new_table_frame(
        s0,
        s2,
        f,
    ) || exists|q: u64|
        page_in_range(start, length, q as int) && #[trigger] s2.mappings().contains_key(q)
            && s2.mappings()[q].frame == f by {
        if a1.handed_out().contains(f) {
            if new_table_frame(s0, s1, f) {
                let (level, key) = choose|level: int, key: u64|
                    1 <= level <= 3 && #[trigger] s1.tables(level).contains_key(key)
                        && !s0.tables(level).contains_key(key) && s1.tables(level)[key] == f;
                assert(s2.tables(level).contains_key(key));
            } else {
                let q = choose|q: u64|
                    page_in_range(start, length, q as int) && #[trigger] s1.mappings().contains_key(q)
                        && s1.mappings()[q].frame == f;
                assert(q != page);
                assert(s2.mappings().contains_key(q));
            }
        } else {
            if new_table_frame(s1, s2, f) {
                let (level, key) = choose|level: int, key: u64|
                    1 <= level <= 3 && #[trigger] s2.tables(level).contains_key(key)
                        && !s1.tables(level).contains_key(key) && s2.tables(level)[key] == f;
                if s0.tables(level).contains_key(key) {
                    assert(s1.tables(level).contains_key(key));
                }
                assert(s2.tables(level).contains_key(key));
            } else {
                let q = choose|q: u64|
                    page_in_range(page as int, 1, q as int) && #[trigger] s2.mappings().contains_key(q)
                        && s2.mappings()[q].frame == f;
                assert(q == page);
                assert(page_in_range(start, length, page as int));
            }
        }
    }
}

/// The first page overlapping a range begins at the range's start rounded
/// down to a page boundary.
proof fn lemma_first_page(start: int, q: int)
    requires
        start >= 0,
        q % 4096 == 0,
        start < q + 4096,
    ensures
        start - start % 4096 <= q,
{
    assert(start - start % 4096 <= q) by (nonlinear_arith)
        requires
            start >= 0,
            q % 4096 == 0,
            start < q + 4096,
    {
        let a = q / 4096;
        let b = start / 4096;
        assert(q == 4096 * a);
        assert(start == 4096 * b + start % 4096);
        assert(b <= a);
    }
}

/// Makes sure the table keyed by `key` exists, taking a frame for it from
/// the allocator when it does not.
fn ensure_table(table: &mut HashMap<u64, u64>, key: u64, alloc: &mut FrameAllocator) -> (r: Result<
    (),
    MapError,
>)
    requires
        old(alloc).wf(),
    ensures
        alloc_advanced(*old(alloc), *final(alloc)),
        r is Ok ==> final(table)@.contains_key(key),
        r is Ok && old(table)@.contains_key(key) ==> final(table)@ == old(table)@ && *final(alloc)
            == *old(alloc),
        r is Ok && !old(table)@.contains_key(key) ==> final(table)@ == old(table)@.insert(
            key,
            final(table)@[key],
        ) && !old(alloc).handed_out().contains(final(table)@[key]) && final(alloc).handed_out()
            == old(alloc).handed_out().insert(final(table)@[key]),
        r is Err ==> r == Err::<(), MapError>(MapError::FrameAllocationFailed) && exhausted(
            *final(alloc),
        ) && final(table)@ == old(table)@ && final(alloc).handed_out() == old(alloc).handed_out(),
{
    if table.contains_key(&key) {
        return Ok(());
    }
    match alloc.allocate_frame() {
        Some(frame) => {
            table.insert(key, frame);
            Ok(())
        },
        None => Err(MapError::FrameAllocationFailed),
    }
}

} // verus!
