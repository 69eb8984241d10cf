use vstd::prelude::*;
use crate::addr::{Frame, FRAME_NUMBER_LIMIT};

verus! {

/// The entry maps a frame or a table.
pub const PRESENT: u64 = 0x1;
/// Writes through the entry are allowed.
pub const WRITABLE: u64 = 0x2;
/// Code at user privilege may use the entry.
pub const USER_ACCESSIBLE: u64 = 0x4;
/// Writes go straight to memory.
pub const WRITE_THROUGH: u64 = 0x8;
/// The mapped memory is not cached.
pub const NO_CACHE: u64 = 0x10;
/// Set by the processor on access.
pub const ACCESSED: u64 = 0x20;
/// Set by the processor on write.
pub const DIRTY: u64 = 0x40;
/// Above the leaf level: the entry maps a huge page, not a table.
pub const HUGE_PAGE: u64 = 0x80;
/// The translation survives an address-space switch.
pub const GLOBAL: u64 = 0x100;

/// Mask of the flag bits (bits 0 to 11).
pub const FLAG_MASK: u64 = 0xfff;
/// Mask of the frame field (bits 12 to 51).
pub const ADDRESS_MASK: u64 = 0x000f_ffff_ffff_f000;

/// The flag bits of an entry word.
pub open spec fn flags_of(word: u64) -> u64 {
    word & 0xfff
}

/// The entry word maps something.
pub open spec fn is_present(word: u64) -> bool {
    word & 0x1 != 0
}

/// The entry word carries the huge-page flag.
pub open spec fn is_huge(word: u64) -> bool {
    word & 0x80 != 0
}

/// The frame number that the entry word's frame field holds.
pub open spec fn frame_of(word: u64) -> u64 {
    (word & 0x000f_ffff_ffff_f000) >> 12u64
}

/// The entry word that maps frame number `number` with `flags`.
pub open spec fn encode(number: u64, flags: u64) -> u64 {
    (number << 12u64) | (flags & 0xfff)
}

/// The frame field of an encoded word gives the frame back, and its flag
/// bits are the flags given.
pub proof fn lemma_encode(number: u64, flags: u64)
    requires
        number < FRAME_NUMBER_LIMIT,
    ensures
        frame_of(encode(number, flags)) == number,
        flags_of(encode(number, flags)) == flags & 0xfff,
        is_present(encode(number, flags)) == (flags & 0x1 != 0),
        is_huge(encode(number, flags)) == (flags & 0x80 != 0),
{
    assert(((((number << 12u64) | (flags & 0xfff)) & 0x000f_ffff_ffff_f000) >> 12u64) == number)
        by (bit_vector)
        requires number < 0x100_0000_0000u64;
    assert((((number << 12u64) | (flags & 0xfff)) & 0xfff) == flags & 0xfff) by (bit_vector);
    assert(((((number << 12u64) | (flags & 0xfff)) & 0x1) != 0) == ((flags & 0x1) != 0))
        by (bit_vector);
    assert(((((number << 12u64) | (flags & 0xfff)) & 0x80) != 0) == ((flags & 0x80) != 0))
        by (bit_vector);
}

/// The frame field of any word fits an entry.
pub proof fn lemma_pointed_fits(word: u64)
    ensures
        frame_of(word) < FRAME_NUMBER_LIMIT,
{
    assert(((word & 0x000f_ffff_ffff_f000) >> 12u64) < 0x100_0000_0000u64) by (bit_vector);
}

/// One page-table entry: a raw 64-bit word.
#[derive(Clone, Copy, Debug, PartialEq, Eq, Structural)]
pub struct Entry(pub u64);

impl Entry {
    /// The entry maps nothing at all.
    pub fn is_unused(&self) -> (r: bool)
        ensures
            r == (self.0 == 0),
    {
        self.0 == 0
    }

    /// Clears the whole word.
    pub fn set_unused(&mut self)
        ensures
            final(self).0 == 0,
    {
        self.0 = 0;
    }

    /// The flag bits of the entry.
    pub fn flags(&self) -> (r: u64)
        ensures
            r == flags_of(self.0),
    {
        self.0 & FLAG_MASK
    }

    /// The present flag is set.
    pub fn is_present(&self) -> (r: bool)
        ensures
            r == is_present(self.0),
    {
        self.0 & PRESENT != 0
    }

    /// The huge-page flag is set.
    pub fn is_huge(&self) -> (r: bool)
        ensures
            r == is_huge(self.0),
    {
        self.0 & HUGE_PAGE != 0
    }

    /// The frame the entry maps, or `None` where it is not present.
    pub fn pointed_frame(&self) -> (r: Option<Frame>)
        ensures
            r == (if is_present(self.0) {
                Some(Frame { number: frame_of(self.0) })
            } else {
                None
            }),
            r matches Some(f) ==> f.fits_entry(),
    {
        if self.0 & PRESENT != 0 {
            let w: u64 = self.0;
            assert(((w & 0x000f_ffff_ffff_f000) >> 12u64) < 0x100_0000_0000u64) by (bit_vector);
            Some(Frame { number: (self.0 & ADDRESS_MASK) >> 12 })
        } else {
            None
        }
    }

    /// Points the entry at `frame` with `flags`; only the flag bits of
    /// `flags` are kept.
    pub fn set(&mut self, frame: Frame, flags: u64)
        requires
            frame.fits_entry(),
        ensures
            final(self).0 == encode(frame.number, flags),
            frame_of(final(self).0) == frame.number,
            flags_of(final(self).0) == flags & 0xfff,
    {
        proof {
            lemma_encode(frame.number, flags);
        }
        self.0 = (frame.number << 12) | (flags & FLAG_MASK);
    }
}

} // verus!
