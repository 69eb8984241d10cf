use vstd::prelude::*;
use crate::addr::ENTRY_COUNT;
use crate::entry::{frame_of, is_huge, is_present};

verus! {

/// The contents of a frame that was never written: 512 zero words.
pub open spec fn zeroed_table() -> Seq<u64> {
    Seq::new(512, |i: int| 0u64)
}

/// One frame of physical memory that has been written, as 512 words.
struct FrameWords {
    number: u64,
    words: Vec<u64>,
}

/// The physical frames that hold page tables. A frame that was never
/// written reads as all zeros.
pub struct PhysicalMemory {
    frames: Vec<FrameWords>,
    model: Ghost<Map<u64, Seq<u64>>>,
}

impl PhysicalMemory {
    /// The frames written so far, by frame number.
    pub closed spec fn view(&self) -> Map<u64, Seq<u64>> {
        self.model@
    }

    pub closed spec fn wf(&self) -> bool {
        &&& forall|k: int|
            0 <= k < self.frames.len() ==> {
                &&& #[trigger] self.frames[k].words@.len() == 512
                &&& self.model@.contains_key(self.frames[k].number)
                &&& self.model@[self.frames[k].number] == self.frames[k].words@
            }
        &&& forall|k: int, l: int|
            0 <= k < self.frames.len() && 0 <= l < self.frames.len() && k != l
                ==> #[trigger] self.frames[k].number != #[trigger] self.frames[l].number
        &&& forall|f: u64| #[trigger] self.model@.contains_key(f) ==> self.model@[f].len() == 512
        &&& forall|f: u64|
            #[trigger] self.model@.contains_key(f) ==> exists|k: int|
                0 <= k < self.frames.len() && #[trigger] self.frames[k].number == f
    }

    /// The 512 words of frame `f`.
    pub open spec fn contents(&self, f: u64) -> Seq<u64> {
        if self@.contains_key(f) {
            self@[f]
        } else {
            zeroed_table()
        }
    }

    /// Word `i` of frame `f`.
    pub open spec fn word(&self, f: u64, i: int) -> u64 {
        self.contents(f)[i]
    }

    /// Every frame holds 512 words.
    pub proof fn lemma_contents_len(&self, f: u64)
        requires
            self.wf(),
        ensures
            self.contents(f).len() == 512,
    {
    }

    /// The frame of the table that entry `i` of the table in frame `f`
    /// links to: `None` where the entry is absent or maps a huge page.
    pub open spec fn child(&self, f: u64, i: int) -> Option<u64> {
        let w = self.word(f, i);
        if is_present(w) && !is_huge(w) {
            Some(frame_of(w))
        } else {
            None
        }
    }

    /// A memory in which every frame reads as zeros.
    pub fn new() -> (r: PhysicalMemory)
        ensures
            r.wf(),
            forall|f: u64| #[trigger] r.contents(f) == zeroed_table(),
    {
        PhysicalMemory { frames: Vec::new(), model: Ghost(Map::empty()) }
    }

    fn find(&self, f: u64) -> (r: Option<usize>)
        requires
            self.wf(),
        ensures
            r matches Some(k) ==> k < self.frames.len() && self.frames[k as int].number == f,
            r is None ==> !self@.contains_key(f),
    {
        let mut k: usize = 0;
        while k < self.frames.len()
            invariant
                k <= self.frames.len(),
                forall|j: int| 0 <= j < k ==> #[trigger] self.frames[j].number != f,
            decreases self.frames.len() - k,
        {
            if self.frames[k].number == f {
                return Some(k);
            }
            k = k + 1;
        }
        None
    }

    /// Reads word `i` of frame `f`.
    pub fn read(&self, f: u64, i: usize) -> (r: u64)
        requires
            self.wf(),
            i < ENTRY_COUNT,
        ensures
            r == self.word(f, i as int),
    {
        match self.find(f) {
            Some(k) => {
                assert(self.frames[k as int].words@.len() == 512);
                self.frames[k].words[i]
            },
            None => 0,
        }
    }

    /// Writes `w` to word `i` of frame `f`.
    pub fn write(&mut self, f: u64, i: usize, w: u64)
        requires
            old(self).wf(),
            i < ENTRY_COUNT,
        ensures
            final(self).wf(),
            final(self).contents(f) == old(self).contents(f).update(i as int, w),
            forall|g: u64| g != f ==> #[trigger] final(self).contents(g) == old(self).contents(g),
    {
        match self.find(f) {
            Some(k) => {
                let ghost before = self.frames[k as int].words@;
                assert(old(self).frames[k as int].words@.len() == 512);
                let mut fw = FrameWords { number: 0, words: Vec::new() };
                std::mem::swap(&mut fw, &mut self.frames[k]);
                fw.words.set(i, w);
                std::mem::swap(&mut fw, &mut self.frames[k]);
                self.model = Ghost(self.model@.insert(f, before.update(i as int, w)));
                assert(self.frames@ == old(self).frames@.update(k as int, self.frames[k as int]));
                assert(self.frames[k as int].words@ == before.update(i as int, w));
                assert forall|k2: int| 0 <= k2 < self.frames.len() implies {
                    &&& #[trigger] self.frames[k2].words@.len() == 512
                    &&& self.model@.contains_key(self.frames[k2].number)
                    &&& self.model@[self.frames[k2].number] == self.frames[k2].words@
                } by {
                    if k2 != k {
                        assert(old(self).frames[k2].words@.len() == 512);
                        assert(old(self).frames[k2].number != f);
                    }
                }
                assert forall|f2: u64| #[trigger] self.model@.contains_key(f2) implies exists|k2: int|
                    0 <= k2 < self.frames.len() && #[trigger] self.frames[k2].number == f2 by {
                    if f2 != f {
                        assert(old(self).model@.contains_key(f2));
                        let k2 = choose|k2: int|
                            0 <= k2 < old(self).frames.len() && #[trigger] old(self).frames[k2].number == f2;
                        assert(self.frames[k2].number == f2);
                    } else {
                        assert(self.frames[k as int].number == f2);
                    }
                }
            },
            None => {
                let mut words: Vec<u64> = Vec::new();
                let mut j: usize = 0;
                while j < ENTRY_COUNT
                    invariant
                        j <= ENTRY_COUNT,
                        words@ =~= Seq::new(j as nat, |x: int| 0u64),
                    decreases ENTRY_COUNT - j,
                {
                    words.push(0);
                    j = j + 1;
                }
                assert(words@ =~= zeroed_table());
                words.set(i, w);
                self.frames.push(FrameWords { number: f, words });
                self.model = Ghost(self.model@.insert(f, zeroed_table().update(i as int, w)));
                let ghost n = old(self).frames.len() as int;
                assert forall|k2: int| 0 <= k2 < self.frames.len() implies {
                    &&& #[trigger] self.frames[k2].words@.len() == 512
                    &&& self.model@.contains_key(self.frames[k2].number)
                    &&& self.model@[self.frames[k2].number] == self.frames[k2].words@
                } by {
                    if k2 != n {
                        assert(self.frames[k2] == old(self).frames[k2]);
                        assert(old(self).frames[k2].words@.len() == 512);
                    }
                }
                assert forall|k2: int, l2: int|
                    0 <= k2 < self.frames.len() && 0 <= l2 < self.frames.len() && k2 != l2
                        implies #[trigger] self.frames[k2].number != #[trigger] self.frames[l2].number by {
                    if k2 != n {
                        assert(old(self).frames[k2].words@.len() == 512);
                    }
                    if l2 != n {
                        assert(old(self).frames[l2].words@.len() == 512);
                    }
                }
                assert forall|f2: u64| #[trigger] self.model@.contains_key(f2) implies exists|k2: int|
                    0 <= k2 < self.frames.len() && #[trigger] self.frames[k2].number == f2 by {
                    if f2 != f {
                        assert(old(self).model@.contains_key(f2));
                        let k2 = choose|k2: int|
                            0 <= k2 < old(self).frames.len() && #[trigger] old(self).frames[k2].number == f2;
                        assert(self.frames[k2].number == f2);
                    } else {
                        assert(self.frames[self.frames.len() - 1].number == f2);
                    }
                }
            },
        }
    }
}

} // verus!
