use vstd::prelude::*;
use crate::addr::{page_index, Frame, Page, ENTRY_COUNT, PAGE_SIZE};
use crate::allocator::FrameAllocator;
use crate::entry::{encode, frame_of, is_huge, is_present, Entry, ADDRESS_MASK, PRESENT, WRITABLE};
use crate::memory::PhysicalMemory;
use crate::table::{recursive_slot, Level1, Level2, Level3, Level4, Table, P4, RECURSIVE_INDEX};

verus! {

/// Why a mapping was not made.
#[derive(Clone, Copy, Debug, PartialEq, Eq, Structural)]
pub enum MapToError {
    /// The allocator had no frame for a missing table.
    FrameAllocationFailed,
    /// An entry on the way down maps a huge page.
    ParentEntryHugePage,
    /// The page is mapped already.
    PageAlreadyMapped,
    /// After the tables were built, the walk does not reach a leaf table
    /// apart from the tables above it (the allocator handed out a frame in
    /// use); the leaf entry is left unwritten.
    TableFrameReused,
}

/// Why a page was not unmapped.
#[derive(Clone, Copy, Debug, PartialEq, Eq, Structural)]
pub enum UnmapError {
    /// The page is not mapped.
    PageNotMapped,
    /// The page lies in a huge page.
    ParentEntryHugePage,
}

/// The frame of the leaf table that the walk for `page` reaches from the
/// top-level table in frame `p4`, or `None` where an entry above the leaf
/// level is absent or maps a huge page.
pub open spec fn p1_frame(mem: PhysicalMemory, p4: u64, page: Page) -> Option<u64> {
    match mem.child(p4, page_index(page.number, 4)) {
        None => None,
        Some(f3) => match mem.child(f3, page_index(page.number, 3)) {
            None => None,
            Some(f2) => mem.child(f2, page_index(page.number, 2)),
        },
    }
}

/// The frame that `page` is mapped to in the hierarchy whose top-level
/// table is in frame `p4`. A huge page above the leaf level ends the walk
/// early, and the frame is computed from the remaining indices.
pub open spec fn translate(mem: PhysicalMemory, p4: u64, page: Page) -> Option<Frame> {
    let n = page.number;
    match mem.child(p4, page_index(n, 4)) {
        None => None,
        Some(f3) => {
            let w3 = mem.word(f3, page_index(n, 3));
            if !is_present(w3) {
                None
            } else if is_huge(w3) {
                Some(Frame { number: (frame_of(w3) + page_index(n, 2) * 512 + page_index(n, 1)) as u64 })
            } else {
                let w2 = mem.word(frame_of(w3), page_index(n, 2));
                if !is_present(w2) {
                    None
                } else if is_huge(w2) {
                    Some(Frame { number: (frame_of(w2) + page_index(n, 1)) as u64 })
                } else {
                    let w1 = mem.word(frame_of(w2), page_index(n, 1));
                    if is_present(w1) {
                        Some(Frame { number: frame_of(w1) })
                    } else {
                        None
                    }
                }
            }
        },
    }
}

/// The leaf entry word of `page`, where the walk reaches a leaf table.
pub open spec fn leaf_word(mem: PhysicalMemory, p4: u64, page: Page) -> Option<u64> {
    match p1_frame(mem, p4, page) {
        None => None,
        Some(f1) => Some(mem.word(f1, page_index(page.number, 1))),
    }
}

/// The frames of the walk for `page`: the top-level table and each table
/// below it that the walk reaches.
pub open spec fn walk_frames(mem: PhysicalMemory, p4: u64, page: Page) -> Set<u64> {
    match mem.child(p4, page_index(page.number, 4)) {
        None => set![p4],
        Some(f3) => match mem.child(f3, page_index(page.number, 3)) {
            None => set![p4, f3],
            Some(f2) => match mem.child(f2, page_index(page.number, 2)) {
                None => set![p4, f3, f2],
                Some(f1) => set![p4, f3, f2, f1],
            },
        },
    }
}

/// How many tables below the top level the walk for `page` lacks.
pub open spec fn missing_tables(mem: PhysicalMemory, p4: u64, page: Page) -> nat {
    match mem.child(p4, page_index(page.number, 4)) {
        None => 3,
        Some(f3) => match mem.child(f3, page_index(page.number, 3)) {
            None => 2,
            Some(f2) => match mem.child(f2, page_index(page.number, 2)) {
                None => 1,
                Some(f1) => 0,
            },
        },
    }
}

/// No entry that the walk for `page` reads above the leaf level maps a
/// huge page.
pub open spec fn walk_free_of_huge(mem: PhysicalMemory, p4: u64, page: Page) -> bool {
    &&& !is_huge(mem.word(p4, page_index(page.number, 4)))
    &&& mem.child(p4, page_index(page.number, 4)) matches Some(f3) ==> {
        &&& !is_huge(mem.word(f3, page_index(page.number, 3)))
        &&& mem.child(f3, page_index(page.number, 3)) matches Some(f2) ==> !is_huge(
            mem.word(f2, page_index(page.number, 2)),
        )
    }
}

/// `m1` is `m0` with the leaf entry of `page` set to `w`.
pub open spec fn sets_leaf(m0: PhysicalMemory, m1: PhysicalMemory, p4: u64, page: Page, w: u64) -> bool {
    match p1_frame(m0, p4, page) {
        None => false,
        Some(f1) => {
            &&& m1.contents(f1) == m0.contents(f1).update(page_index(page.number, 1), w)
            &&& forall|g: u64| g != f1 ==> #[trigger] m1.contents(g) == m0.contents(g)
        },
    }
}

/// `m1` is `m0` with the leaf entry of `page` cleared.
pub open spec fn clears_leaf(m0: PhysicalMemory, m1: PhysicalMemory, p4: u64, page: Page) -> bool {
    match p1_frame(m0, p4, page) {
        None => false,
        Some(f1) => {
            &&& m1.contents(f1) == m0.contents(f1).update(page_index(page.number, 1), 0)
            &&& forall|g: u64| g != f1 ==> #[trigger] m1.contents(g) == m0.contents(g)
        },
    }
}

/// Word `i` of frame `f` is one that the walk for `page` reads.
pub open spec fn walk_reads(mem: PhysicalMemory, p4: u64, page: Page, f: u64, i: int) -> bool {
    let n = page.number;
    ||| f == p4 && i == page_index(n, 4)
    ||| match mem.child(p4, page_index(n, 4)) {
        None => false,
        Some(f3) => {
            ||| f == f3 && i == page_index(n, 3)
            ||| match mem.child(f3, page_index(n, 3)) {
                None => false,
                Some(f2) => {
                    ||| f == f2 && i == page_index(n, 2)
                    ||| match mem.child(f2, page_index(n, 2)) {
                        None => false,
                        Some(f1) => f == f1 && i == page_index(n, 1),
                    }
                },
            }
        },
    }
}

/// Once the leaf entry of a page is cleared, the page translates to
/// nothing.
pub proof fn lemma_cleared_page_unmapped(m0: PhysicalMemory, m1: PhysicalMemory, p4: u64, page: Page)
    requires
        m0.wf(),
        clears_leaf(m0, m1, p4, page),
    ensures
        translate(m1, p4, page) is None,
        leaf_word(m1, p4, page) is Some ==> leaf_word(m1, p4, page) == Some(0u64),
{
    assert(!is_present(0u64)) by (bit_vector);
    let f1 = p1_frame(m0, p4, page)->Some_0;
    m0.lemma_contents_len(f1);
}

/// A mapping stays as it is while memory changes only in a word that its
/// walk does not read: in particular when another page is mapped or
/// unmapped through a leaf entry apart from this walk.
pub proof fn lemma_translate_kept(m0: PhysicalMemory, m1: PhysicalMemory, p4: u64, page: Page, f: u64, i: int, w: u64)
    requires
        m0.wf(),
        0 <= i < 512,
        m1.contents(f) == m0.contents(f).update(i, w),
        forall|g: u64| g != f ==> #[trigger] m1.contents(g) == m0.contents(g),
        !walk_reads(m0, p4, page, f, i),
    ensures
        translate(m1, p4, page) == translate(m0, p4, page),
        leaf_word(m1, p4, page) == leaf_word(m0, p4, page),
{
    m0.lemma_contents_len(f);
}

/// Every page whose walk in `m0` does not read the leaf entry of `page`
/// translates in `m1` as it did in `m0`.
pub open spec fn others_kept(m0: PhysicalMemory, m1: PhysicalMemory, p4: u64, page: Page) -> bool {
    match p1_frame(m0, p4, page) {
        None => true,
        Some(f1) => forall|q: Page|
            !walk_reads(m0, p4, q, f1, page_index(page.number, 1)) ==> #[trigger] translate(m1, p4, q)
                == translate(m0, p4, q),
    }
}

/// A write to the leaf entry of one page leaves every page whose walk
/// does not read that entry as it was.
pub proof fn lemma_leaf_write_keeps_others(m0: PhysicalMemory, m1: PhysicalMemory, p4: u64, page: Page, w: u64)
    requires
        m0.wf(),
        sets_leaf(m0, m1, p4, page, w),
    ensures
        others_kept(m0, m1, p4, page),
{
    let f1 = p1_frame(m0, p4, page)->Some_0;
    let i1 = page_index(page.number, 1);
    assert(0 <= i1 < 512);
    assert forall|q: Page| !walk_reads(m0, p4, q, f1, i1) implies #[trigger] translate(m1, p4, q) == translate(
        m0,
        p4,
        q,
    ) by {
        lemma_translate_kept(m0, m1, p4, q, f1, i1, w);
    }
}

/// The leaf table reached for `page` is none of the tables above it on the
/// walk, so a write to the leaf entry leaves the walk as it was.
pub open spec fn leaf_table_apart(mem: PhysicalMemory, p4: u64, page: Page) -> bool {
    match mem.child(p4, page_index(page.number, 4)) {
        None => true,
        Some(f3) => match mem.child(f3, page_index(page.number, 3)) {
            None => true,
            Some(f2) => match mem.child(f2, page_index(page.number, 2)) {
                None => true,
                Some(f1) => f1 != p4 && f1 != f3 && f1 != f2,
            },
        },
    }
}

/// The handle on the loaded top-level table and the frames of its
/// hierarchy.
pub struct ActivePageTable {
    pub p4: Frame,
    pub memory: PhysicalMemory,
}

impl ActivePageTable {
    pub open spec fn wf(&self) -> bool {
        self.memory.wf() && self.p4.fits_entry()
    }

    /// The hierarchy stays in one place; the top-level table in `p4` is
    /// made to map itself in its recursive slot.
    pub fn new(p4: Frame, memory: PhysicalMemory) -> (r: ActivePageTable)
        requires
            memory.wf(),
            p4.fits_entry(),
        ensures
            r.wf(),
            r.p4 == p4,
            recursive_slot(r.memory, p4.number),
            r.memory.contents(p4.number) == memory.contents(p4.number).update(
                RECURSIVE_INDEX as int,
                encode(p4.number, PRESENT | WRITABLE),
            ),
            forall|g: u64| g != p4.number ==> #[trigger] r.memory.contents(g) == memory.contents(g),
    {
        let mut mem = memory;
        let mut entry = Entry(0);
        entry.set(p4, PRESENT | WRITABLE);
        proof {
            memory.lemma_contents_len(p4.number);
        }
        mem.write(p4.number, RECURSIVE_INDEX, entry.0);
        proof {
            crate::entry::lemma_encode(p4.number, PRESENT | WRITABLE);
            assert((PRESENT | WRITABLE) & 0x1 != 0 && (PRESENT | WRITABLE) & 0x80
                == 0) by (bit_vector);
            assert(mem.word(p4.number, RECURSIVE_INDEX as int) == encode(p4.number, PRESENT | WRITABLE));
        }
        ActivePageTable { p4, memory: mem }
    }

    /// The top-level table, at its recursive virtual address.
    pub fn p4_table(&self) -> (r: Table<Level4>)
        ensures
            r.frame == self.p4,
            r.address == P4,
    {
        Table::new(self.p4, P4)
    }

    /// The leaf table that the walk for `page` reaches.
    pub fn p1_table(&self, page: Page) -> (r: Option<Table<Level1>>)
        requires
            self.wf(),
        ensures
            r is Some <==> p1_frame(self.memory, self.p4.number, page) is Some,
            r matches Some(t) ==> p1_frame(self.memory, self.p4.number, page) == Some(t.frame.number),
    {
        let p4 = self.p4_table();
        match p4.next_table(&self.memory, page.p4_index()) {
            None => None,
            Some(p3) => match p3.next_table(&self.memory, page.p3_index()) {
                None => None,
                Some(p2) => p2.next_table(&self.memory, page.p2_index()),
            },
        }
    }

    /// The tables of the walk for `page` below the top level, where the
    /// walk reaches a leaf table.
    pub fn walk_tables(&self, page: Page) -> (r: Option<(Table<Level3>, Table<Level2>, Table<Level1>)>)
        requires
            self.wf(),
        ensures
            r is Some <==> p1_frame(self.memory, self.p4.number, page) is Some,
            r matches Some((t3, t2, t1)) ==> {
                &&& self.memory.child(self.p4.number, page_index(page.number, 4)) == Some(t3.frame.number)
                &&& self.memory.child(t3.frame.number, page_index(page.number, 3)) == Some(t2.frame.number)
                &&& self.memory.child(t2.frame.number, page_index(page.number, 2)) == Some(t1.frame.number)
            },
    {
        let p4 = self.p4_table();
        match p4.next_table(&self.memory, page.p4_index()) {
            None => None,
            Some(t3) => match t3.next_table(&self.memory, page.p3_index()) {
                None => None,
                Some(t2) => match t2.next_table(&self.memory, page.p2_index()) {
                    None => None,
                    Some(t1) => Some((t3, t2, t1)),
                },
            },
        }
    }

    /// The leaf entry of `page`, where the walk reaches a leaf table.
    pub fn leaf_entry(&self, page: Page) -> (r: Option<Entry>)
        requires
            self.wf(),
        ensures
            r is Some <==> leaf_word(self.memory, self.p4.number, page) is Some,
            r matches Some(e) ==> leaf_word(self.memory, self.p4.number, page) == Some(e.0),
    {
        match self.p1_table(page) {
            None => None,
            Some(p1) => Some(p1.index(&self.memory, page.p1_index())),
        }
    }

    /// Writes the leaf entry of `page` to map `frame` with `flags` and the
    /// present flag, where the walk reaches a leaf table that lies apart
    /// from the tables above it and the entry is unused.
    pub fn write_leaf(&mut self, page: Page, frame: Frame, flags: u64) -> (r: Result<(), MapToError>)
        requires
            old(self).wf(),
            frame.fits_entry(),
        ensures
            final(self).wf(),
            final(self).p4 == old(self).p4,
            r is Err ==> final(self).memory == old(self).memory,
            leaf_word(old(self).memory, old(self).p4.number, page) is None ==> r == Err::<(), MapToError>(
                MapToError::TableFrameReused,
            ),
            leaf_word(old(self).memory, old(self).p4.number, page) matches Some(w) ==> {
                &&& w != 0 ==> r == Err::<(), MapToError>(MapToError::PageAlreadyMapped)
                &&& w == 0 ==> (r is Ok <==> leaf_table_apart(old(self).memory, old(self).p4.number, page))
                &&& w == 0 && !leaf_table_apart(old(self).memory, old(self).p4.number, page) ==> r
                    == Err::<(), MapToError>(MapToError::TableFrameReused)
            },
            r is Ok ==> {
                &&& sets_leaf(
                    old(self).memory,
                    final(self).memory,
                    old(self).p4.number,
                    page,
                    encode(frame.number, flags | PRESENT),
                )
                &&& leaf_word(final(self).memory, old(self).p4.number, page) == Some(
                    encode(frame.number, flags | PRESENT),
                )
                &&& translate(final(self).memory, old(self).p4.number, page) == Some(frame)
                &&& leaf_table_apart(final(self).memory, old(self).p4.number, page)
                &&& others_kept(old(self).memory, final(self).memory, old(self).p4.number, page)
            },
    {
        let (t3, t2, t1) = match self.walk_tables(page) {
            None => return Err(MapToError::TableFrameReused),
            Some(w) => w,
        };
        if !t1.index(&self.memory, page.p1_index()).is_unused() {
            return Err(MapToError::PageAlreadyMapped);
        }
        if t1.frame.number == self.p4.number || t1.frame.number == t3.frame.number || t1.frame.number
            == t2.frame.number {
            return Err(MapToError::TableFrameReused);
        }
        let mut entry = Entry(0);
        entry.set(frame, flags | PRESENT);
        let ghost before = self.memory;
        proof {
            before.lemma_contents_len(t1.frame.number);
        }
        t1.set_index(&mut self.memory, page.p1_index(), entry);
        proof {
            lemma_leaf_write_keeps_others(before, self.memory, self.p4.number, page, entry.0);
            let enc = encode(frame.number, flags | PRESENT);
            crate::entry::lemma_encode(frame.number, flags | PRESENT);
            assert((flags | 1u64) & 0x1 != 0) by (bit_vector);
            assert(is_present(enc));
            assert(self.memory.contents(self.p4.number) == before.contents(self.p4.number));
            assert(self.memory.contents(t3.frame.number) == before.contents(t3.frame.number));
            assert(self.memory.contents(t2.frame.number) == before.contents(t2.frame.number));
        }
        Ok(())
    }

    /// Maps `page` to `frame` with `flags` and the present flag, creating
    /// the missing tables on the way down from frames of `allocator`.
    pub fn map_to<A: FrameAllocator>(&mut self, page: Page, frame: Frame, flags: u64, allocator: &mut A)
        -> (r: Result<(), MapToError>)
        requires
            old(self).wf(),
            old(allocator).inv(),
            frame.fits_entry(),
        ensures
            final(self).wf(),
            final(allocator).inv(),
            final(self).p4 == old(self).p4,
            r is Ok ==> leaf_word(final(self).memory, old(self).p4.number, page) == Some(
                encode(frame.number, flags | PRESENT),
            ),
            r is Ok ==> translate(final(self).memory, old(self).p4.number, page) == Some(frame),
            r is Ok ==> leaf_table_apart(final(self).memory, old(self).p4.number, page),
            is_huge(old(self).memory.word(old(self).p4.number, page_index(page.number, 4))) ==> {
                &&& r == Err::<(), MapToError>(MapToError::ParentEntryHugePage)
                &&& final(self).memory == old(self).memory
            },
            old(self).memory.child(old(self).p4.number, page_index(page.number, 4)) matches Some(f3) && is_huge(
                old(self).memory.word(f3, page_index(page.number, 3)),
            ) ==> {
                &&& r == Err::<(), MapToError>(MapToError::ParentEntryHugePage)
                &&& final(self).memory == old(self).memory
            },
            old(self).memory.child(old(self).p4.number, page_index(page.number, 4)) matches Some(f3)
                && old(self).memory.child(f3, page_index(page.number, 3)) matches Some(f2) && is_huge(
                old(self).memory.word(f2, page_index(page.number, 2)),
            ) ==> {
                &&& r == Err::<(), MapToError>(MapToError::ParentEntryHugePage)
                &&& final(self).memory == old(self).memory
            },
            leaf_word(old(self).memory, old(self).p4.number, page) matches Some(w) ==> {
                &&& *final(allocator) == *old(allocator)
                &&& r is Err ==> final(self).memory == old(self).memory
                &&& w != 0 ==> r == Err::<(), MapToError>(MapToError::PageAlreadyMapped)
                    && final(self).memory == old(self).memory
                &&& w == 0 && leaf_table_apart(old(self).memory, old(self).p4.number, page) ==> r is Ok
                &&& r is Ok ==> sets_leaf(
                    old(self).memory,
                    final(self).memory,
                    old(self).p4.number,
                    page,
                    encode(frame.number, flags | PRESENT),
                )
                &&& r is Ok ==> others_kept(old(self).memory, final(self).memory, old(self).p4.number, page)
            },
    {
        let p4 = self.p4_table();
        if p4.index(&self.memory, page.p4_index()).is_huge() {
            return Err(MapToError::ParentEntryHugePage);
        }
        let p3 = match p4.next_table_create(&mut self.memory, page.p4_index(), allocator) {
            None => return Err(MapToError::FrameAllocationFailed),
            Some(t) => t,
        };
        if p3.index(&self.memory, page.p3_index()).is_huge() {
            return Err(MapToError::ParentEntryHugePage);
        }
        let p2 = match p3.next_table_create(&mut self.memory, page.p3_index(), allocator) {
            None => return Err(MapToError::FrameAllocationFailed),
            Some(t) => t,
        };
        if p2.index(&self.memory, page.p2_index()).is_huge() {
            return Err(MapToError::ParentEntryHugePage);
        }
        let _p1 = match p2.next_table_create(&mut self.memory, page.p2_index(), allocator) {
            None => return Err(MapToError::FrameAllocationFailed),
            Some(t) => t,
        };
        self.write_leaf(page, frame, flags)
    }

    /// Maps `page` to a frame taken from `allocator`.
    pub fn map<A: FrameAllocator>(&mut self, page: Page, flags: u64, allocator: &mut A) -> (r: Result<(), MapToError>)
        requires
            old(self).wf(),
            old(allocator).inv(),
        ensures
            final(self).wf(),
            final(allocator).inv(),
            final(self).p4 == old(self).p4,
            r is Ok ==> translate(final(self).memory, old(self).p4.number, page) is Some,
            leaf_word(old(self).memory, old(self).p4.number, page) matches Some(w) && w != 0 ==> {
                &&& r is Err
                &&& final(self).memory == old(self).memory
            },
    {
        match allocator.allocate_frame() {
            None => Err(MapToError::FrameAllocationFailed),
            Some(frame) => self.map_to(page, frame, flags, allocator),
        }
    }

    /// Maps the page whose number is the frame's number to `frame`.
    pub fn identity_map<A: FrameAllocator>(&mut self, frame: Frame, flags: u64, allocator: &mut A)
        -> (r: Result<(), MapToError>)
        requires
            old(self).wf(),
            old(allocator).inv(),
            frame.number < 0x8_0000_0000,
        ensures
            final(self).wf(),
            final(allocator).inv(),
            final(self).p4 == old(self).p4,
            r is Ok ==> translate(final(self).memory, old(self).p4.number, Page { number: frame.number })
                == Some(frame),
            leaf_word(old(self).memory, old(self).p4.number, Page { number: frame.number }) matches Some(w) ==> {
                &&& w != 0 ==> r == Err::<(), MapToError>(MapToError::PageAlreadyMapped)
                    && final(self).memory == old(self).memory
                &&& w == 0 && leaf_table_apart(old(self).memory, old(self).p4.number, Page { number: frame.number })
                    ==> r is Ok
            },
    {
        let page = Page { number: frame.number };
        self.map_to(page, frame, flags, allocator)
    }

    /// Clears the leaf entry of `page` and returns the frame it mapped. The
    /// tables above it stay; the caller flushes the page's cached
    /// translation.
    pub fn unmap(&mut self, page: Page) -> (r: Result<Frame, UnmapError>)
        requires
            old(self).wf(),
        ensures
            final(self).wf(),
            final(self).p4 == old(self).p4,
            translate(old(self).memory, old(self).p4.number, page) is None <==> r == Err::<
                Frame,
                UnmapError,
            >(UnmapError::PageNotMapped),
            r is Ok <==> translate(old(self).memory, old(self).p4.number, page) is Some && p1_frame(
                old(self).memory,
                old(self).p4.number,
                page,
            ) is Some,
            r matches Ok(f) ==> translate(old(self).memory, old(self).p4.number, page) == Some(f),
            r is Ok ==> translate(final(self).memory, old(self).p4.number, page) is None,
            r is Err ==> final(self).memory == old(self).memory,
            r is Ok ==> clears_leaf(old(self).memory, final(self).memory, old(self).p4.number, page),
            r is Ok ==> others_kept(old(self).memory, final(self).memory, old(self).p4.number, page),
            r is Ok && leaf_table_apart(old(self).memory, old(self).p4.number, page) ==> {
                &&& leaf_table_apart(final(self).memory, old(self).p4.number, page)
                &&& leaf_word(final(self).memory, old(self).p4.number, page) == Some(0u64)
            },
    {
        match self.p1_table(page) {
            None => {
                match self.translate_page(page) {
                    None => Err(UnmapError::PageNotMapped),
                    Some(_) => Err(UnmapError::ParentEntryHugePage),
                }
            },
            Some(p1) => {
                let entry = p1.index(&self.memory, page.p1_index());
                match entry.pointed_frame() {
                    None => Err(UnmapError::PageNotMapped),
                    Some(frame) => {
                        let ghost before = self.memory;
                        proof {
                            before.lemma_contents_len(p1.frame.number);
                        }
                        p1.set_index(&mut self.memory, page.p1_index(), Entry(0));
                        proof {
                            lemma_leaf_write_keeps_others(before, self.memory, self.p4.number, page, 0);
                            assert(!is_present(0u64)) by (bit_vector);
                        }
                        Ok(frame)
                    },
                }
            },
        }
    }

    /// The physical address that virtual address `address` is mapped to.
    pub fn translate(&self, address: u64) -> (r: Option<u64>)
        requires
            self.wf(),
        ensures
            !crate::addr::is_canonical(address) ==> r is None,
            crate::addr::is_canonical(address) ==> r == match translate(
                self.memory,
                self.p4.number,
                Page { number: address / PAGE_SIZE },
            ) {
                None => None,
                Some(f) => Some((f.number * PAGE_SIZE + address % PAGE_SIZE) as u64),
            },
    {
        match Page::containing_address(address) {
            None => None,
            Some(page) => match self.translate_page(page) {
                None => None,
                Some(frame) => {
                    Some(frame.number * PAGE_SIZE + address % PAGE_SIZE)
                },
            },
        }
    }

    /// The frame that `page` is mapped to, or `None` where it is unmapped.
    pub fn translate_page(&self, page: Page) -> (r: Option<Frame>)
        requires
            self.wf(),
        ensures
            r == translate(self.memory, self.p4.number, page),
            r matches Some(f) ==> f.number < 0x100_0000_0000 + 0x4_0000,
    {
        let p4 = self.p4_table();
        let p3 = match p4.next_table(&self.memory, page.p4_index()) {
            None => return None,
            Some(t) => t,
        };
        let e3 = p3.index(&self.memory, page.p3_index());
        if !e3.is_present() {
            return None;
        }
        if e3.is_huge() {
            proof {
                crate::entry::lemma_pointed_fits(e3.0);
            }
            let start: u64 = (e3.0 & ADDRESS_MASK) >> 12;
            return Some(Frame { number: start + (page.p2_index() as u64) * 512 + page.p1_index() as u64 });
        }
        let p2 = match p3.next_table(&self.memory, page.p3_index()) {
            None => return None,
            Some(t) => t,
        };
        let e2 = p2.index(&self.memory, page.p2_index());
        if !e2.is_present() {
            return None;
        }
        if e2.is_huge() {
            proof {
                crate::entry::lemma_pointed_fits(e2.0);
            }
            let start: u64 = (e2.0 & ADDRESS_MASK) >> 12;
            return Some(Frame { number: start + page.p1_index() as u64 });
        }
        let p1 = match p2.next_table(&self.memory, page.p2_index()) {
            None => return None,
            Some(t) => t,
        };
        match p1.index(&self.memory, page.p1_index()).pointed_frame() {
            None => None,
            Some(f) => Some(f),
        }
    }
}

} // verus!
