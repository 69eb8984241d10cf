use vstd::prelude::*;

verus! {

/// Bytes in one page or frame.
pub const PAGE_SIZE: u64 = 4096;

/// Entries in one page table.
pub const ENTRY_COUNT: usize = 512;

/// Frame numbers below this bound fit the 52-bit physical address field of
/// an entry.
pub const FRAME_NUMBER_LIMIT: u64 = 0x100_0000_0000;

/// A physical frame, named by its frame number (physical address / 4096).
#[derive(Clone, Copy, Debug, PartialEq, Eq, Structural, PartialOrd, Ord, Hash)]
pub struct Frame {
    pub number: u64,
}

impl Frame {
    /// The frame's number fits the frame field of a page-table entry.
    pub open spec fn fits_entry(self) -> bool {
        self.number < FRAME_NUMBER_LIMIT
    }

    /// The frame that holds the physical address `address`.
    pub fn containing_address(address: u64) -> (r: Frame)
        ensures
            r.number == address / PAGE_SIZE,
            r.fits_entry() <== address < 0x10_0000_0000_0000,
    {
        Frame { number: address / PAGE_SIZE }
    }

    /// The physical address of the frame's first byte.
    pub fn start_address(&self) -> (r: u64)
        requires
            self.number < 0x10_0000_0000_0000,
        ensures
            r == self.number * PAGE_SIZE,
    {
        self.number * PAGE_SIZE
    }
}

/// A virtual address is canonical when bits 47 to 63 are all equal.
pub open spec fn is_canonical(address: u64) -> bool {
    address < 0x0000_8000_0000_0000 || address >= 0xffff_8000_0000_0000
}

/// The 9-bit table index that the page number `number` selects at `level`
/// (1 is the leaf level, 4 the top level).
pub open spec fn page_index(number: u64, level: int) -> int {
    if level == 4 {
        (number / 0x800_0000) as int % 512
    } else if level == 3 {
        (number / 0x4_0000) as int % 512
    } else if level == 2 {
        (number / 0x200) as int % 512
    } else {
        number as int % 512
    }
}

/// A virtual page, named by its page number (virtual address / 4096).
#[derive(Clone, Copy, Debug, PartialEq, Eq, Structural, PartialOrd, Ord, Hash)]
pub struct Page {
    pub number: u64,
}

impl Page {
    /// The page starts at a canonical virtual address.
    pub open spec fn wf(self) -> bool {
        self.number < 0x10_0000_0000_0000 && is_canonical((self.number * 4096) as u64)
    }

    /// The page that holds the virtual address `address`, or `None` where
    /// the address is not canonical.
    pub fn containing_address(address: u64) -> (r: Option<Page>)
        ensures
            r is Some <==> is_canonical(address),
            r matches Some(p) ==> p.number == address / PAGE_SIZE && p.wf(),
    {
        if address < 0x0000_8000_0000_0000 || address >= 0xffff_8000_0000_0000 {
            let p = Page { number: address / PAGE_SIZE };
            assert(p.number * 4096 == address - address % 4096) by (nonlinear_arith)
                requires p.number == address / 4096;
            Some(p)
        } else {
            None
        }
    }

    /// The virtual address of the page's first byte.
    pub fn start_address(&self) -> (r: u64)
        requires
            self.number < 0x10_0000_0000_0000,
        ensures
            r == self.number * PAGE_SIZE,
    {
        self.number * PAGE_SIZE
    }

    /// Index into the top-level table.
    pub fn p4_index(&self) -> (r: usize)
        ensures
            r == page_index(self.number, 4),
    {
        ((self.number / 0x800_0000) % 512) as usize
    }

    /// Index into the third-level table.
    pub fn p3_index(&self) -> (r: usize)
        ensures
            r == page_index(self.number, 3),
    {
        ((self.number / 0x4_0000) % 512) as usize
    }

    /// Index into the second-level table.
    pub fn p2_index(&self) -> (r: usize)
        ensures
            r == page_index(self.number, 2),
    {
        ((self.number / 0x200) % 512) as usize
    }

    /// Index into the leaf table.
    pub fn p1_index(&self) -> (r: usize)
        ensures
            r == page_index(self.number, 1),
    {
        (self.number % 512) as usize
    }
}

} // verus!
