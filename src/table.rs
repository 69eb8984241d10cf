use vstd::prelude::*;
use core::marker::PhantomData;
use crate::addr::{Frame, ENTRY_COUNT};
use crate::allocator::{take_first, FrameAllocator, TinyAllocator};
use crate::entry::{encode, Entry, PRESENT, WRITABLE};
use crate::memory::{zeroed_table, PhysicalMemory};

verus! {

/// A level of the table hierarchy.
pub trait TableLevel {}

/// The top level.
pub struct Level4;

/// The level below the top.
pub struct Level3;

/// The level above the leaves.
pub struct Level2;

/// The leaf level.
pub struct Level1;

impl TableLevel for Level4 {}

impl TableLevel for Level3 {}

impl TableLevel for Level2 {}

impl TableLevel for Level1 {}

/// A level whose entries link to tables of the next finer level.
pub trait HierarchicalLevel: TableLevel {
    type NextLevel: TableLevel;
}

impl HierarchicalLevel for Level4 {
    type NextLevel = Level3;
}

impl HierarchicalLevel for Level3 {
    type NextLevel = Level2;
}

impl HierarchicalLevel for Level2 {
    type NextLevel = Level1;
}

/// The virtual address of the top-level table under the recursive mapping
/// in its last slot.
pub const P4: u64 = 0xffff_ffff_ffff_f000;

/// The slot of the top-level table that maps the table itself.
pub const RECURSIVE_INDEX: usize = 511;

/// The virtual address, under the recursive mapping, of the table that
/// entry `i` of the table at virtual address `a` links to.
pub open spec fn child_address(a: u64, i: u64) -> u64 {
    (a << 9u64) | (i << 12u64)
}

/// Word `i` of `m1` links a freshly zeroed frame `c` into the table in
/// frame `f` of `m0`; nothing else changed.
pub open spec fn links_fresh_table(m0: PhysicalMemory, m1: PhysicalMemory, f: u64, i: int, c: u64) -> bool {
    forall|g: u64|
        #[trigger] m1.contents(g) == if g == f {
            (if c == f {
                zeroed_table()
            } else {
                m0.contents(f)
            }).update(i, encode(c, PRESENT | WRITABLE))
        } else if g == c {
            zeroed_table()
        } else {
            m0.contents(g)
        }
}

/// The frame that the hardware walk of virtual address `vaddr` reaches
/// through four table levels from the top-level table in frame `p4`, or
/// `None` where an entry on the way is absent or maps a huge page.
pub open spec fn resolve(mem: PhysicalMemory, p4: u64, vaddr: u64) -> Option<u64> {
    match mem.child(p4, ((vaddr >> 39u64) & 511u64) as int) {
        None => None,
        Some(f3) => match mem.child(f3, ((vaddr >> 30u64) & 511u64) as int) {
            None => None,
            Some(f2) => match mem.child(f2, ((vaddr >> 21u64) & 511u64) as int) {
                None => None,
                Some(f1) => mem.child(f1, ((vaddr >> 12u64) & 511u64) as int),
            },
        },
    }
}

/// The top-level table in frame `p4` maps itself in its recursive slot.
pub open spec fn recursive_slot(mem: PhysicalMemory, p4: u64) -> bool {
    mem.child(p4, RECURSIVE_INDEX as int) == Some(p4)
}

/// Recursive-mapping arithmetic: where the table at virtual address `a`
/// (page aligned, and reached through the recursive slot, so its top index
/// is 511) is the one
/// in frame `t`, the address `(a << 9) | (i << 12)` reaches exactly the frame
/// that entry `i` of that table links to.
pub proof fn lemma_child_address_resolves(mem: PhysicalMemory, p4: u64, a: u64, i: u64, t: u64)
    requires
        recursive_slot(mem, p4),
        (a >> 39u64) & 511u64 == 511u64,
        a & 0xfffu64 == 0,
        resolve(mem, p4, a) == Some(t),
        i < 512,
    ensures
        resolve(mem, p4, child_address(a, i)) == mem.child(t, i as int),
{
    assert(((((a << 9u64) | (i << 12u64)) >> 39u64) & 511u64) == ((a >> 30u64) & 511u64))
        by (bit_vector)
        requires i < 512u64;
    assert(((((a << 9u64) | (i << 12u64)) >> 30u64) & 511u64) == ((a >> 21u64) & 511u64))
        by (bit_vector)
        requires i < 512u64;
    assert(((((a << 9u64) | (i << 12u64)) >> 21u64) & 511u64) == ((a >> 12u64) & 511u64))
        by (bit_vector)
        requires i < 512u64;
    assert(((((a << 9u64) | (i << 12u64)) >> 12u64) & 511u64) == i) by (bit_vector)
        requires
            i < 512u64,
            a & 0xfffu64 == 0,
    ;
}

/// Through the recursive slot, the fixed address `P4` reaches the
/// top-level table itself: the start of every recursive walk.
pub proof fn lemma_p4_resolves(mem: PhysicalMemory, p4: u64)
    requires
        recursive_slot(mem, p4),
    ensures
        resolve(mem, p4, P4) == Some(p4),
        (P4 >> 39u64) & 511u64 == 511u64,
        P4 & 0xfffu64 == 0,
{
    assert(((0xffff_ffff_ffff_f000u64 >> 39u64) & 511u64) == 511u64) by (bit_vector);
    assert(((0xffff_ffff_ffff_f000u64 >> 30u64) & 511u64) == 511u64) by (bit_vector);
    assert(((0xffff_ffff_ffff_f000u64 >> 21u64) & 511u64) == 511u64) by (bit_vector);
    assert(((0xffff_ffff_ffff_f000u64 >> 12u64) & 511u64) == 511u64) by (bit_vector);
    assert((0xffff_ffff_ffff_f000u64 & 0xfffu64) == 0) by (bit_vector);
}

/// Creating a child in a freshly zeroed table links a table whose 512
/// entries are all unused: the entry then leads to the new frame.
pub proof fn lemma_create_in_zeroed_table(m0: PhysicalMemory, m1: PhysicalMemory, f: u64, i: int, c: u64)
    requires
        m0.contents(f) == zeroed_table(),
        0 <= i < 512,
        c != f,
        c < crate::addr::FRAME_NUMBER_LIMIT,
        links_fresh_table(m0, m1, f, i, c),
    ensures
        m0.child(f, i) is None,
        m1.child(f, i) == Some(c),
        forall|j: int| 0 <= j < 512 ==> #[trigger] m1.word(c, j) == 0,
{
    crate::entry::lemma_encode(c, PRESENT | WRITABLE);
    assert((PRESENT | WRITABLE) & 0x1 != 0 && (PRESENT | WRITABLE) & 0x80 == 0) by (bit_vector);
    assert(m1.contents(f) == m0.contents(f).update(i, encode(c, PRESENT | WRITABLE)));
    assert(m1.contents(c) == zeroed_table());
    assert(crate::entry::frame_of(0) == 0 && !crate::entry::is_present(0)) by (bit_vector);
}

/// What linking a fresh table changes: the linking entry now leads to
/// the new frame, which reads as zeros elsewhere, and every other word
/// stays.
pub proof fn lemma_link_effect(m0: PhysicalMemory, m1: PhysicalMemory, f: u64, i: int, c: u64)
    requires
        m0.wf(),
        0 <= i < 512,
        c < crate::addr::FRAME_NUMBER_LIMIT,
        links_fresh_table(m0, m1, f, i, c),
    ensures
        m1.child(f, i) == Some(c),
        !crate::entry::is_huge(m1.word(f, i)),
        forall|j: int| 0 <= j < 512 && (c != f || j != i) ==> #[trigger] m1.word(c, j) == 0,
        forall|g: u64, j: int| 0 <= j < 512 && g != c && (g != f || j != i) ==> #[trigger] m1.word(g, j) == m0.word(g, j),
{
    crate::entry::lemma_encode(c, PRESENT | WRITABLE);
    assert((PRESENT | WRITABLE) & 0x1 != 0 && (PRESENT | WRITABLE) & 0x80 == 0) by (bit_vector);
    m0.lemma_contents_len(f);
    assert(m1.contents(f) == (if c == f { zeroed_table() } else { m0.contents(f) }).update(i, encode(c, PRESENT | WRITABLE)));
    assert forall|g: u64, j: int| 0 <= j < 512 && g != c && (g != f || j != i) implies #[trigger] m1.word(g, j) == m0.word(g, j) by {
        assert(m1.contents(g) == if g == f {
            m0.contents(f).update(i, encode(c, PRESENT | WRITABLE))
        } else {
            m0.contents(g)
        });
    }
    assert forall|j: int| 0 <= j < 512 && (c != f || j != i) implies #[trigger] m1.word(c, j) == 0 by {
        assert(m1.contents(c) == if c == f {
            zeroed_table().update(i, encode(c, PRESENT | WRITABLE))
        } else {
            zeroed_table()
        });
    }
}

/// A page table of level `L`: the frame that holds its 512 entries, and
/// the virtual address at which the recursive mapping shows it.
pub struct Table<L> {
    pub frame: Frame,
    pub address: u64,
    pub level: PhantomData<L>,
}

impl<L: TableLevel> Table<L> {
    /// The table in `frame`, seen at virtual address `address`.
    pub fn new(frame: Frame, address: u64) -> (r: Table<L>)
        ensures
            r.frame == frame,
            r.address == address,
    {
        Table { frame, address, level: PhantomData }
    }

    /// Marks every entry unused.
    pub fn zero(&self, mem: &mut PhysicalMemory)
        requires
            old(mem).wf(),
        ensures
            final(mem).wf(),
            final(mem).contents(self.frame.number) == zeroed_table(),
            forall|g: u64|
                g != self.frame.number ==> #[trigger] final(mem).contents(g) == old(mem).contents(g),
    {
        let f: u64 = self.frame.number;
        let mut i: usize = 0;
        proof {
            old(mem).lemma_contents_len(f);
        }
        while i < ENTRY_COUNT
            invariant
                i <= ENTRY_COUNT,
                mem.wf(),
                mem.contents(f).len() == 512,
                forall|j: int| 0 <= j < i ==> #[trigger] mem.contents(f)[j] == 0,
                forall|g: u64| g != f ==> #[trigger] mem.contents(g) == old(mem).contents(g),
            decreases ENTRY_COUNT - i,
        {
            mem.write(f, i, 0);
            i = i + 1;
        }
        assert(mem.contents(f) =~= zeroed_table());
    }

    /// Entry `index` of the table.
    pub fn index(&self, mem: &PhysicalMemory, index: usize) -> (r: Entry)
        requires
            mem.wf(),
            index < ENTRY_COUNT,
        ensures
            r.0 == mem.word(self.frame.number, index as int),
    {
        Entry(mem.read(self.frame.number, index))
    }

    /// Overwrites entry `index` of the table with `entry`.
    pub fn set_index(&self, mem: &mut PhysicalMemory, index: usize, entry: Entry)
        requires
            old(mem).wf(),
            index < ENTRY_COUNT,
        ensures
            final(mem).wf(),
            final(mem).contents(self.frame.number) == old(mem).contents(self.frame.number).update(
                index as int,
                entry.0,
            ),
            forall|g: u64|
                g != self.frame.number ==> #[trigger] final(mem).contents(g) == old(mem).contents(g),
    {
        mem.write(self.frame.number, index, entry.0);
    }
}

impl<L: HierarchicalLevel> Table<L> {
    /// The virtual address of the table that entry `index` links to, or
    /// `None` where the entry is absent or maps a huge page.
    pub fn next_table_address(&self, mem: &PhysicalMemory, index: usize) -> (r: Option<u64>)
        requires
            mem.wf(),
            index < ENTRY_COUNT,
        ensures
            r == (if mem.child(self.frame.number, index as int) is Some {
                Some(child_address(self.address, index as u64))
            } else {
                None
            }),
    {
        let entry = self.index(mem, index);
        if entry.is_present() && !entry.is_huge() {
            Some((self.address << 9) | ((index as u64) << 12))
        } else {
            None
        }
    }

    /// The table that entry `index` links to, or `None` where the entry is
    /// absent or maps a huge page.
    pub fn next_table(&self, mem: &PhysicalMemory, index: usize) -> (r: Option<Table<L::NextLevel>>)
        requires
            mem.wf(),
            index < ENTRY_COUNT,
        ensures
            r is Some <==> mem.child(self.frame.number, index as int) is Some,
            r matches Some(t) ==> Some(t.frame.number) == mem.child(self.frame.number, index as int)
                && t.address == child_address(self.address, index as u64),
    {
        match self.next_table_address(mem, index) {
            Some(address) => {
                let entry = self.index(mem, index);
                match entry.pointed_frame() {
                    Some(frame) => Some(Table::new(frame, address)),
                    None => None,
                }
            },
            None => None,
        }
    }

    /// The table that entry `index` links to, to be written through; `None`
    /// where the entry is absent or maps a huge page.
    pub fn next_table_mut(&self, mem: &mut PhysicalMemory, index: usize) -> (r: Option<Table<L::NextLevel>>)
        requires
            old(mem).wf(),
            index < ENTRY_COUNT,
        ensures
            *final(mem) == *old(mem),
            r is Some <==> old(mem).child(self.frame.number, index as int) is Some,
            r matches Some(t) ==> Some(t.frame.number) == old(mem).child(self.frame.number, index as int)
                && t.address == child_address(self.address, index as u64),
    {
        self.next_table(mem, index)
    }

    /// Zeroes `frame` and links it in as entry `index`, present and
    /// writable; returns the new child table.
    pub fn link_new_table(&self, mem: &mut PhysicalMemory, index: usize, frame: Frame) -> (r: Table<L::NextLevel>)
        requires
            old(mem).wf(),
            index < ENTRY_COUNT,
            frame.fits_entry(),
        ensures
            final(mem).wf(),
            r.frame == frame,
            r.address == child_address(self.address, index as u64),
            links_fresh_table(*old(mem), *final(mem), self.frame.number, index as int, frame.number),
    {
        let child: Table<L::NextLevel> = Table::new(frame, (self.address << 9) | ((index as u64) << 12));
        let ghost m0 = *mem;
        child.zero(mem);
        let mut entry = Entry(0);
        entry.set(frame, PRESENT | WRITABLE);
        let ghost m1 = *mem;
        self.set_index(mem, index, entry);
        proof {
            m0.lemma_contents_len(self.frame.number);
            assert forall|g: u64| #[trigger] mem.contents(g) == if g == self.frame.number {
                (if frame.number == self.frame.number {
                    zeroed_table()
                } else {
                    m0.contents(self.frame.number)
                }).update(index as int, encode(frame.number, PRESENT | WRITABLE))
            } else if g == frame.number {
                zeroed_table()
            } else {
                m0.contents(g)
            } by {
                if g != self.frame.number {
                    assert(mem.contents(g) == m1.contents(g));
                }
            }
        }
        child
    }

    /// The table that entry `index` links to. Where the entry is absent, the
    /// first frame that `store` holds is zeroed and linked in as present and
    /// writable; `None` where the store is empty.
    pub fn next_table_take(&self, mem: &mut PhysicalMemory, index: usize, store: &mut TinyAllocator) -> (r:
        Option<Table<L::NextLevel>>)
        requires
            old(mem).wf(),
            old(store).wf(),
            index < ENTRY_COUNT,
            !crate::entry::is_huge(old(mem).word(self.frame.number, index as int)),
        ensures
            final(mem).wf(),
            final(store).wf(),
            r matches Some(t) ==> t.address == child_address(self.address, index as u64)
                && t.frame.fits_entry(),
            old(mem).child(self.frame.number, index as int) matches Some(c) ==> {
                &&& *final(mem) == *old(mem)
                &&& *final(store) == *old(store)
                &&& r matches Some(t) && t.frame.number == c
            },
            old(mem).child(self.frame.number, index as int) is None ==> {
                &&& final(store)@ == take_first(old(store)@).0
                &&& take_first(old(store)@).1 is None ==> r is None && *final(mem) == *old(mem)
                &&& take_first(old(store)@).1 matches Some(c) ==> (r matches Some(t) && t.frame == c
                    && links_fresh_table(*old(mem), *final(mem), self.frame.number, index as int, c.number))
            },
    {
        match self.next_table(mem, index) {
            Some(t) => {
                proof {
                    crate::entry::lemma_pointed_fits(mem.word(self.frame.number, index as int));
                }
                Some(t)
            },
            None => match store.allocate_frame() {
                Some(frame) => Some(self.link_new_table(mem, index, frame)),
                None => None,
            },
        }
    }

    /// The table that entry `index` links to. Where the entry is absent, a
    /// frame from `allocator` is zeroed and linked in as present and
    /// writable; `None` where the allocator has no frame.
    pub fn next_table_create<A: FrameAllocator>(
        &self,
        mem: &mut PhysicalMemory,
        index: usize,
        allocator: &mut A,
    ) -> (r: Option<Table<L::NextLevel>>)
        requires
            old(mem).wf(),
            old(allocator).inv(),
            index < ENTRY_COUNT,
            !crate::entry::is_huge(old(mem).word(self.frame.number, index as int)),
        ensures
            final(mem).wf(),
            final(allocator).inv(),
            r matches Some(t) ==> t.address == child_address(self.address, index as u64)
                && t.frame.fits_entry(),
            old(mem).child(self.frame.number, index as int) matches Some(c) ==> {
                &&& *final(mem) == *old(mem)
                &&& *final(allocator) == *old(allocator)
                &&& r matches Some(t) && t.frame.number == c
            },
            old(mem).child(self.frame.number, index as int) is None ==> {
                &&& r is None ==> *final(mem) == *old(mem)
                &&& r matches Some(t) ==> links_fresh_table(
                    *old(mem),
                    *final(mem),
                    self.frame.number,
                    index as int,
                    t.frame.number,
                )
            },
    {
        match self.next_table(mem, index) {
            Some(t) => {
                let entry = self.index(mem, index);
                proof {
                    crate::entry::lemma_pointed_fits(entry.0);
                }
                Some(t)
            },
            None => {
                match allocator.allocate_frame() {
                    Some(frame) => Some(self.link_new_table(mem, index, frame)),
                    None => None,
                }
            },
        }
    }
}

} // verus!
