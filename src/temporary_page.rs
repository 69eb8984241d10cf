use vstd::prelude::*;
use crate::addr::{page_index, Frame, Page, PAGE_SIZE};
use crate::allocator::{held, lemma_take_first_shape, take_first, FrameAllocator, TinyAllocator};
use crate::entry::{encode, Entry, PRESENT, WRITABLE};
use crate::memory::{zeroed_table, PhysicalMemory};
use crate::paging::{
    clears_leaf, leaf_table_apart, leaf_word, missing_tables, others_kept, p1_frame, sets_leaf, translate,
    walk_frames, walk_free_of_huge, ActivePageTable, MapToError, UnmapError,
};
use crate::table::{lemma_link_effect, links_fresh_table, Level1, Table, RECURSIVE_INDEX};

verus! {

/// Every frame that `slots` holds is outside `used`, and no two slots hold
/// the same frame.
pub open spec fn spares_fresh(slots: Seq<Option<Frame>>, used: Set<u64>) -> bool {
    &&& forall|k: int| 0 <= k < slots.len() ==> (#[trigger] slots[k] matches Some(g) ==> !used.contains(g.number))
    &&& forall|k: int, l: int|
        0 <= k < slots.len() && 0 <= l < slots.len() && k != l ==> (#[trigger] slots[k] matches Some(g) ==> (
        #[trigger] slots[l] matches Some(h) ==> g.number != h.number))
}

/// Mapping `page` with the spare frames `slots` is bound to succeed: the
/// walk already reaches an unused leaf entry in a leaf table apart from the
/// tables above it; or no entry on the walk maps a huge page, the spares
/// cover the missing tables, and they are distinct and off the walk.
pub open spec fn map_can_succeed(mem: PhysicalMemory, p4: u64, page: Page, slots: Seq<Option<Frame>>) -> bool {
    &&& missing_tables(mem, p4, page) == 0 ==> leaf_word(mem, p4, page) == Some(0u64) && leaf_table_apart(
        mem,
        p4,
        page,
    )
    &&& missing_tables(mem, p4, page) > 0 ==> {
        &&& walk_free_of_huge(mem, p4, page)
        &&& spares_fresh(slots, walk_frames(mem, p4, page))
        &&& held(slots) >= missing_tables(mem, p4, page)
    }
}

/// One step down the walk: the child of entry `i` of frame `f` is `c`,
/// either found, or the first spare frame zeroed and linked in.
pub open spec fn took_step(
    m0: PhysicalMemory,
    m1: PhysicalMemory,
    f: u64,
    i: int,
    s0: Seq<Option<Frame>>,
    s1: Seq<Option<Frame>>,
    c: u64,
) -> bool {
    match m0.child(f, i) {
        Some(x) => m1 == m0 && s1 == s0 && c == x,
        None => {
            &&& s1 == take_first(s0).0
            &&& take_first(s0).1 == Some(Frame { number: c })
            &&& links_fresh_table(m0, m1, f, i, c)
        },
    }
}

/// What a step keeps: a mapping bound to succeed stays so, the spares
/// taken match the tables added, and memory changes only on the walk.
pub open spec fn step_kept(
    m0: PhysicalMemory,
    m1: PhysicalMemory,
    p4: u64,
    page: Page,
    s0: Seq<Option<Frame>>,
    s1: Seq<Option<Frame>>,
) -> bool {
    &&& map_can_succeed(m0, p4, page, s0) ==> {
        &&& map_can_succeed(m1, p4, page, s1)
        &&& held(s1) + missing_tables(m0, p4, page) == held(s0) + missing_tables(m1, p4, page)
        &&& walk_frames(m0, p4, page).subset_of(walk_frames(m1, p4, page))
        &&& forall|g: u64| !walk_frames(m1, p4, page).contains(g) ==> #[trigger] m1.contents(g) == m0.contents(g)
    }
    &&& leaf_word(m0, p4, page) is Some ==> m1 == m0 && s1 == s0
}

proof fn lemma_fresh_after_take(s0: Seq<Option<Frame>>, used: Set<u64>, c: u64)
    requires
        spares_fresh(s0, used),
        take_first(s0).1 == Some(Frame { number: c }),
    ensures
        !used.contains(c),
        spares_fresh(take_first(s0).0, used.insert(c)),
        held(take_first(s0).0) + 1 == held(s0),
{
    lemma_take_first_shape(s0);
    let k = choose|k: int| 0 <= k < s0.len() && s0[k] == Some(Frame { number: c }) && take_first(s0).0 == s0.update(k, None);
    let s1 = take_first(s0).0;
    assert(s0[k] matches Some(g) ==> !used.contains(g.number));
    assert forall|l: int| 0 <= l < s1.len() implies (#[trigger] s1[l] matches Some(g) ==> !used.insert(c).contains(g.number)) by {
        if l != k {
            assert(s0[l] == s1[l]);
            assert(s0[l] matches Some(g) ==> !used.contains(g.number));
            assert(s0[l] matches Some(h) ==> h.number != c);
        }
    }
    assert forall|a: int, b: int| 0 <= a < s1.len() && 0 <= b < s1.len() && a != b implies (#[trigger] s1[a] matches Some(g) ==> (
        #[trigger] s1[b] matches Some(h) ==> g.number != h.number)) by {
        if a != k && b != k {
            assert(s0[a] == s1[a] && s0[b] == s1[b]);
            assert(s0[a] matches Some(g) ==> (s0[b] matches Some(h) ==> g.number != h.number));
        }
    }
}

/// Writing the leaf entry of a leaf table apart from the tables above it
/// leaves the walk's frames as they were.
proof fn lemma_leaf_write_keeps_walk(m0: PhysicalMemory, m1: PhysicalMemory, p4: u64, page: Page, w: u64)
    requires
        m0.wf(),
        leaf_table_apart(m0, p4, page),
        sets_leaf(m0, m1, p4, page, w),
    ensures
        walk_frames(m1, p4, page) == walk_frames(m0, p4, page),
{
    let f1 = p1_frame(m0, p4, page)->Some_0;
    m0.lemma_contents_len(f1);
}

proof fn lemma_zero_word()
    ensures
        !crate::entry::is_present(0u64),
        !crate::entry::is_huge(0u64),
{
    assert(!crate::entry::is_present(0u64) && !crate::entry::is_huge(0u64)) by (bit_vector);
}

/// The step from the top-level table.
proof fn lemma_step_top(
    m0: PhysicalMemory,
    m1: PhysicalMemory,
    p4: u64,
    page: Page,
    s0: Seq<Option<Frame>>,
    s1: Seq<Option<Frame>>,
    c: u64,
)
    requires
        m0.wf(),
        m1.wf(),
        c < crate::addr::FRAME_NUMBER_LIMIT,
        !crate::entry::is_huge(m0.word(p4, page_index(page.number, 4))),
        took_step(m0, m1, p4, page_index(page.number, 4), s0, s1, c),
    ensures
        m1.child(p4, page_index(page.number, 4)) == Some(c),
        step_kept(m0, m1, p4, page, s0, s1),
{
    lemma_zero_word();
    let (i4, i3) = (page_index(page.number, 4), page_index(page.number, 3));
    if m0.child(p4, i4) is None {
        lemma_link_effect(m0, m1, p4, i4, c);
        if map_can_succeed(m0, p4, page, s0) {
            lemma_fresh_after_take(s0, walk_frames(m0, p4, page), c);
            assert(walk_frames(m0, p4, page) == set![p4]);
            assert(m1.word(c, i3) == 0);
            assert(walk_frames(m1, p4, page) =~= set![p4, c]);
            assert(walk_frames(m0, p4, page).insert(c) =~= set![p4, c]);
            assert forall|g: u64| !walk_frames(m1, p4, page).contains(g) implies #[trigger] m1.contents(g)
                == m0.contents(g) by {
                assert(g != p4 && g != c);
            }
        }
    }
}

/// The step from the third-level table.
proof fn lemma_step_mid(
    m1: PhysicalMemory,
    m2: PhysicalMemory,
    p4: u64,
    page: Page,
    s1: Seq<Option<Frame>>,
    s2: Seq<Option<Frame>>,
    f3: u64,
    c: u64,
)
    requires
        m1.wf(),
        m2.wf(),
        c < crate::addr::FRAME_NUMBER_LIMIT,
        m1.child(p4, page_index(page.number, 4)) == Some(f3),
        !crate::entry::is_huge(m1.word(f3, page_index(page.number, 3))),
        took_step(m1, m2, f3, page_index(page.number, 3), s1, s2, c),
    ensures
        m2.child(f3, page_index(page.number, 3)) == Some(c),
        map_can_succeed(m1, p4, page, s1) || leaf_word(m1, p4, page) is Some ==> m2.child(
            p4,
            page_index(page.number, 4),
        ) == Some(f3),
        step_kept(m1, m2, p4, page, s1, s2),
{
    lemma_zero_word();
    let (i4, i3, i2) = (page_index(page.number, 4), page_index(page.number, 3), page_index(page.number, 2));
    if m1.child(f3, i3) is None {
        lemma_link_effect(m1, m2, f3, i3, c);
        if map_can_succeed(m1, p4, page, s1) {
            lemma_fresh_after_take(s1, walk_frames(m1, p4, page), c);
            assert(walk_frames(m1, p4, page) == set![p4, f3]);
            assert(m2.word(p4, i4) == m1.word(p4, i4));
            assert(m2.word(c, i2) == 0);
            assert(walk_frames(m2, p4, page) =~= set![p4, f3, c]);
            assert(walk_frames(m1, p4, page).insert(c) =~= set![p4, f3, c]);
            assert forall|g: u64| !walk_frames(m2, p4, page).contains(g) implies #[trigger] m2.contents(g)
                == m1.contents(g) by {
                assert(g != f3 && g != c);
            }
        }
    }
}

/// The step from the second-level table.
proof fn lemma_step_low(
    m2: PhysicalMemory,
    m3: PhysicalMemory,
    p4: u64,
    page: Page,
    s2: Seq<Option<Frame>>,
    s3: Seq<Option<Frame>>,
    f3: u64,
    f2: u64,
    c: u64,
)
    requires
        m2.wf(),
        m3.wf(),
        c < crate::addr::FRAME_NUMBER_LIMIT,
        m2.child(f3, page_index(page.number, 3)) == Some(f2),
        !crate::entry::is_huge(m2.word(f2, page_index(page.number, 2))),
        took_step(m2, m3, f2, page_index(page.number, 2), s2, s3, c),
    ensures
        m2.child(p4, page_index(page.number, 4)) == Some(f3) ==> {
            &&& map_can_succeed(m2, p4, page, s2) ==> missing_tables(m3, p4, page) == 0
            &&& step_kept(m2, m3, p4, page, s2, s3)
        },
{
    lemma_zero_word();
    let (i4, i3, i2, i1) = (
        page_index(page.number, 4),
        page_index(page.number, 3),
        page_index(page.number, 2),
        page_index(page.number, 1),
    );
    if m2.child(f2, i2) is None && m2.child(p4, i4) == Some(f3) {
        lemma_link_effect(m2, m3, f2, i2, c);
        if map_can_succeed(m2, p4, page, s2) {
            lemma_fresh_after_take(s2, walk_frames(m2, p4, page), c);
            assert(walk_frames(m2, p4, page) == set![p4, f3, f2]);
            assert(m3.word(p4, i4) == m2.word(p4, i4));
            assert(m3.word(f3, i3) == m2.word(f3, i3));
            assert(m3.word(c, i1) == 0);
            assert(walk_frames(m3, p4, page) =~= set![p4, f3, f2, c]);
            assert(walk_frames(m2, p4, page).insert(c) =~= set![p4, f3, f2, c]);
            assert forall|g: u64| !walk_frames(m3, p4, page).contains(g) implies #[trigger] m3.contents(g)
                == m2.contents(g) by {
                assert(g != f2 && g != c);
            }
        }
    }
}

/// One reserved virtual page that maps an arbitrary frame for a while, so
/// that a new table can be filled before it is linked in. The tables that
/// its own mapping needs come from a store of three frames.
pub struct TemporaryPage {
    pub page: Page,
    pub allocator: TinyAllocator,
}

impl TemporaryPage {
    pub closed spec fn wf(&self) -> bool {
        self.allocator.wf() && self.page.wf()
    }

    /// Reserves `page`, taking three frames from `allocator` for the
    /// tables its mapping may need.
    pub fn new<A: FrameAllocator>(page: Page, allocator: &mut A) -> (r: TemporaryPage)
        requires
            page.wf(),
            old(allocator).inv(),
        ensures
            r.wf(),
            r.page == page,
            r.allocator@.len() == 3,
            final(allocator).inv(),
    {
        TemporaryPage::from_store(page, TinyAllocator::new(allocator))
    }

    /// Reserves `page`, with `store` for the tables its mapping may need.
    pub fn from_store(page: Page, store: TinyAllocator) -> (r: TemporaryPage)
        requires
            page.wf(),
            store.wf(),
        ensures
            r.wf(),
            r.page == page,
            r.allocator == store,
    {
        TemporaryPage { page, allocator: store }
    }

    /// Maps the page to `frame` in `active_table`, writable, and returns
    /// the page's start address. Fails where the page is mapped already.
    pub fn map(&mut self, frame: Frame, active_table: &mut ActivePageTable) -> (r: Result<u64, MapToError>)
        requires
            old(self).wf(),
            old(active_table).wf(),
            frame.fits_entry(),
            translate(old(active_table).memory, old(active_table).p4.number, old(self).page) is None,
        ensures
            final(self).wf(),
            final(self).page == old(self).page,
            final(active_table).wf(),
            final(active_table).p4 == old(active_table).p4,
            r matches Ok(a) ==> a == old(self).page.number * PAGE_SIZE && translate(
                final(active_table).memory,
                old(active_table).p4.number,
                old(self).page,
            ) == Some(frame),
            r is Ok ==> leaf_word(final(active_table).memory, old(active_table).p4.number, old(self).page)
                == Some(encode(frame.number, WRITABLE | PRESENT)),
            r is Ok ==> leaf_table_apart(final(active_table).memory, old(active_table).p4.number, old(self).page),
            leaf_word(old(active_table).memory, old(active_table).p4.number, old(self).page) is Some ==> {
                &&& *final(self) == *old(self)
                &&& r is Err ==> final(active_table).memory == old(active_table).memory
                &&& r is Ok ==> sets_leaf(
                    old(active_table).memory,
                    final(active_table).memory,
                    old(active_table).p4.number,
                    old(self).page,
                    encode(frame.number, WRITABLE | PRESENT),
                )
                &&& r is Ok ==> others_kept(
                    old(active_table).memory,
                    final(active_table).memory,
                    old(active_table).p4.number,
                    old(self).page,
                )
            },
            leaf_word(old(active_table).memory, old(active_table).p4.number, old(self).page) == Some(0u64)
                && leaf_table_apart(old(active_table).memory, old(active_table).p4.number, old(self).page)
                ==> r is Ok,
            map_can_succeed(
                old(active_table).memory,
                old(active_table).p4.number,
                old(self).page,
                old(self).allocator@,
            ) ==> {
                &&& r is Ok
                &&& held(final(self).allocator@) + missing_tables(
                    old(active_table).memory,
                    old(active_table).p4.number,
                    old(self).page,
                ) == held(old(self).allocator@)
                &&& forall|g: u64|
                    !walk_frames(final(active_table).memory, old(active_table).p4.number, old(self).page).contains(g)
                        ==> #[trigger] final(active_table).memory.contents(g) == old(active_table).memory.contents(g)
            },
    {
        proof {
            assert(!crate::entry::is_present(0u64) && !crate::entry::is_huge(0u64)) by (bit_vector);
        }
        if active_table.translate_page(self.page).is_some() {
            return Err(MapToError::PageAlreadyMapped);
        }
        let ghost m0 = active_table.memory;
        let ghost s0 = self.allocator@;
        let ghost p4n = active_table.p4.number;
        let ghost n = self.page.number;
        let ghost can = map_can_succeed(m0, p4n, self.page, s0);
        proof {
            m0.lemma_contents_len(p4n);
            lemma_take_first_shape(s0);
        }
        let p4 = active_table.p4_table();
        if p4.index(&active_table.memory, self.page.p4_index()).is_huge() {
            return Err(MapToError::ParentEntryHugePage);
        }
        let p3 = match p4.next_table_take(&mut active_table.memory, self.page.p4_index(), &mut self.allocator) {
            None => return Err(MapToError::FrameAllocationFailed),
            Some(t) => t,
        };
        let ghost m1 = active_table.memory;
        let ghost s1 = self.allocator@;
        proof {
            lemma_step_top(m0, m1, p4n, self.page, s0, s1, p3.frame.number);
            lemma_take_first_shape(s1);
        }
        if p3.index(&active_table.memory, self.page.p3_index()).is_huge() {
            return Err(MapToError::ParentEntryHugePage);
        }
        let p2 = match p3.next_table_take(&mut active_table.memory, self.page.p3_index(), &mut self.allocator) {
            None => return Err(MapToError::FrameAllocationFailed),
            Some(t) => t,
        };
        let ghost m2 = active_table.memory;
        let ghost s2 = self.allocator@;
        proof {
            lemma_step_mid(m1, m2, p4n, self.page, s1, s2, p3.frame.number, p2.frame.number);
            lemma_take_first_shape(s2);
        }
        if p2.index(&active_table.memory, self.page.p2_index()).is_huge() {
            return Err(MapToError::ParentEntryHugePage);
        }
        let p1 = match p2.next_table_take(&mut active_table.memory, self.page.p2_index(), &mut self.allocator) {
            None => return Err(MapToError::FrameAllocationFailed),
            Some(t) => t,
        };
        let ghost m3 = active_table.memory;
        let ghost s3 = self.allocator@;
        proof {
            lemma_step_low(m2, m3, p4n, self.page, s2, s3, p3.frame.number, p2.frame.number, p1.frame.number);
        }
        let r = active_table.write_leaf(self.page, frame, WRITABLE);
        proof {
            if r is Ok {
                lemma_leaf_write_keeps_walk(m3, active_table.memory, p4n, self.page, encode(frame.number, WRITABLE | PRESENT));
            }
        }
        match r {
            Ok(()) => Ok(self.page.start_address()),
            Err(e) => Err(e),
        }
    }

    /// Unmaps the page in `active_table`.
    pub fn unmap(&mut self, active_table: &mut ActivePageTable) -> (r: Result<Frame, UnmapError>)
        requires
            old(self).wf(),
            old(active_table).wf(),
        ensures
            *final(self) == *old(self),
            final(active_table).wf(),
            final(active_table).p4 == old(active_table).p4,
            translate(old(active_table).memory, old(active_table).p4.number, old(self).page) is None
                <==> r == Err::<Frame, UnmapError>(UnmapError::PageNotMapped),
            r is Ok <==> translate(old(active_table).memory, old(active_table).p4.number, old(self).page) is Some
                && p1_frame(old(active_table).memory, old(active_table).p4.number, old(self).page) is Some,
            r is Ok && leaf_table_apart(old(active_table).memory, old(active_table).p4.number, old(self).page)
                ==> {
                &&& leaf_table_apart(final(active_table).memory, old(active_table).p4.number, old(self).page)
                &&& leaf_word(final(active_table).memory, old(active_table).p4.number, old(self).page)
                    == Some(0u64)
            },
            r matches Ok(f) ==> translate(old(active_table).memory, old(active_table).p4.number, old(self).page)
                == Some(f),
            r is Ok ==> translate(final(active_table).memory, old(active_table).p4.number, old(self).page)
                is None,
            r is Ok ==> clears_leaf(
                old(active_table).memory,
                final(active_table).memory,
                old(active_table).p4.number,
                old(self).page,
            ),
            r is Err ==> final(active_table).memory == old(active_table).memory,
            r is Ok ==> others_kept(
                old(active_table).memory,
                final(active_table).memory,
                old(active_table).p4.number,
                old(self).page,
            ),
    {
        active_table.unmap(self.page)
    }

    /// Maps the page to `frame` and shows it as a leaf-level table, to fill
    /// a new table before it is linked in.
    pub fn map_table_frame(&mut self, frame: Frame, active_table: &mut ActivePageTable) -> (r: Result<
        Table<Level1>,
        MapToError,
    >)
        requires
            old(self).wf(),
            old(active_table).wf(),
            frame.fits_entry(),
            translate(old(active_table).memory, old(active_table).p4.number, old(self).page) is None,
        ensures
            final(self).wf(),
            final(self).page == old(self).page,
            final(active_table).wf(),
            final(active_table).p4 == old(active_table).p4,
            r matches Ok(t) ==> t.frame == frame && t.address == old(self).page.number * PAGE_SIZE
                && translate(final(active_table).memory, old(active_table).p4.number, old(self).page)
                == Some(frame),
            r is Ok ==> leaf_word(final(active_table).memory, old(active_table).p4.number, old(self).page)
                == Some(encode(frame.number, WRITABLE | PRESENT)),
            leaf_word(old(active_table).memory, old(active_table).p4.number, old(self).page) is Some ==> {
                &&& *final(self) == *old(self)
                &&& r is Ok ==> sets_leaf(
                    old(active_table).memory,
                    final(active_table).memory,
                    old(active_table).p4.number,
                    old(self).page,
                    encode(frame.number, WRITABLE | PRESENT),
                )
                &&& r is Ok ==> others_kept(
                    old(active_table).memory,
                    final(active_table).memory,
                    old(active_table).p4.number,
                    old(self).page,
                )
                &&& r is Err ==> final(active_table).memory == old(active_table).memory
            },
            leaf_word(old(active_table).memory, old(active_table).p4.number, old(self).page) == Some(0u64)
                && leaf_table_apart(old(active_table).memory, old(active_table).p4.number, old(self).page)
                ==> r is Ok,
            map_can_succeed(
                old(active_table).memory,
                old(active_table).p4.number,
                old(self).page,
                old(self).allocator@,
            ) ==> {
                &&& r is Ok
                &&& held(final(self).allocator@) + missing_tables(
                    old(active_table).memory,
                    old(active_table).p4.number,
                    old(self).page,
                ) == held(old(self).allocator@)
                &&& forall|g: u64|
                    !walk_frames(final(active_table).memory, old(active_table).p4.number, old(self).page).contains(g)
                        ==> #[trigger] final(active_table).memory.contents(g) == old(active_table).memory.contents(g)
            },
    {
        match self.map(frame, active_table) {
            Ok(address) => Ok(Table::new(frame, address)),
            Err(e) => Err(e),
        }
    }
}

/// A top-level table that is not loaded: a hierarchy being built for
/// another address space.
pub struct InactivePageTable {
    pub p4_frame: Frame,
}

impl InactivePageTable {
    /// Makes `frame` an empty top-level table that maps itself in its
    /// recursive slot, filling it through `temporary_page`.
    pub fn new(frame: Frame, active_table: &mut ActivePageTable, temporary_page: &mut TemporaryPage) -> (r: Result<
        InactivePageTable,
        MapToError,
    >)
        requires
            old(temporary_page).wf(),
            old(active_table).wf(),
            frame.fits_entry(),
            translate(old(active_table).memory, old(active_table).p4.number, old(temporary_page).page) is None,
        ensures
            final(temporary_page).wf(),
            final(temporary_page).page == old(temporary_page).page,
            final(active_table).wf(),
            final(active_table).p4 == old(active_table).p4,
            leaf_word(old(active_table).memory, old(active_table).p4.number, old(temporary_page).page) == Some(
                0u64,
            ) && leaf_table_apart(old(active_table).memory, old(active_table).p4.number, old(temporary_page).page)
                ==> r is Ok,
            r matches Ok(t) ==> {
                &&& t.p4_frame == frame
                &&& forall|j: int|
                    0 <= j < 512 && j != RECURSIVE_INDEX ==> #[trigger] final(active_table).memory.word(
                        frame.number,
                        j,
                    ) == 0
                &&& page_index(old(temporary_page).page.number, 1) != RECURSIVE_INDEX
                    ==> final(active_table).memory.word(frame.number, RECURSIVE_INDEX as int)
                    == encode(frame.number, PRESENT | WRITABLE)
            },
            map_can_succeed(
                old(active_table).memory,
                old(active_table).p4.number,
                old(temporary_page).page,
                old(temporary_page).allocator@,
            ) ==> r is Ok,
    {
        let table = match temporary_page.map_table_frame(frame, active_table) {
            Ok(t) => t,
            Err(e) => return Err(e),
        };
        table.zero(&mut active_table.memory);
        let mut entry = Entry(0);
        entry.set(frame, PRESENT | WRITABLE);
        proof {
            active_table.memory.lemma_contents_len(frame.number);
        }
        table.set_index(&mut active_table.memory, RECURSIVE_INDEX, entry);
        let ghost mid = active_table.memory;
        assert(mid.contents(frame.number) == zeroed_table().update(RECURSIVE_INDEX as int, entry.0));
        let unmapped = temporary_page.unmap(active_table);
        proof {
            let fin = active_table.memory;
            let i1 = page_index(temporary_page.page.number, 1);
            mid.lemma_contents_len(frame.number);
            if unmapped is Ok {
                let f1 = p1_frame(mid, active_table.p4.number, temporary_page.page)->Some_0;
                if f1 == frame.number {
                    assert(fin.contents(frame.number) == mid.contents(frame.number).update(i1, 0));
                } else {
                    assert(fin.contents(frame.number) == mid.contents(frame.number));
                }
            }
            assert forall|j: int| 0 <= j < 512 && j != RECURSIVE_INDEX implies #[trigger] fin.word(frame.number, j)
                == 0 by {
                assert(mid.word(frame.number, j) == 0);
            }
            if i1 != RECURSIVE_INDEX {
                assert(fin.word(frame.number, RECURSIVE_INDEX as int) == mid.word(frame.number, RECURSIVE_INDEX as int));
            }
        }
        Ok(InactivePageTable { p4_frame: frame })
    }
}

} // verus!
