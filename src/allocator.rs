use vstd::prelude::*;
use crate::addr::Frame;

verus! {

/// A source of physical frames. The policy that tracks free frames
/// belongs to the implementor.
pub trait FrameAllocator {
    /// The allocator's own invariant.
    spec fn inv(&self) -> bool;

    /// The allocator can take back one more frame.
    spec fn has_room(&self) -> bool;

    /// Hands out a frame, or `None` where none is left.
    fn allocate_frame(&mut self) -> (r: Option<Frame>)
        requires
            old(self).inv(),
        ensures
            final(self).inv(),
            r matches Some(f) ==> f.fits_entry(),
    ;

    /// Takes a frame back.
    fn deallocate_frame(&mut self, frame: Frame)
        requires
            old(self).inv(),
            old(self).has_room(),
            frame.fits_entry(),
        ensures
            final(self).inv(),
    ;
}

/// The slots after taking the first held frame, and that frame.
pub open spec fn take_first(slots: Seq<Option<Frame>>) -> (Seq<Option<Frame>>, Option<Frame>)
    decreases slots.len(),
{
    if slots.len() == 0 {
        (slots, None)
    } else if slots[0] is Some {
        (slots.update(0, None), slots[0])
    } else {
        let (rest, f) = take_first(slots.drop_first());
        (seq![slots[0]].add(rest), f)
    }
}

/// The slots after putting `frame` in the first empty one.
pub open spec fn put_first(slots: Seq<Option<Frame>>, frame: Frame) -> Seq<Option<Frame>>
    decreases slots.len(),
{
    if slots.len() == 0 {
        slots
    } else if slots[0] is None {
        slots.update(0, Some(frame))
    } else {
        seq![slots[0]].add(put_first(slots.drop_first(), frame))
    }
}

/// The number of slots that hold a frame.
pub open spec fn held(slots: Seq<Option<Frame>>) -> nat
    decreases slots.len(),
{
    if slots.len() == 0 {
        0
    } else {
        (if slots[0] is Some {
            1nat
        } else {
            0nat
        }) + held(slots.drop_first())
    }
}

/// Taking from the slots empties the first slot that holds a frame and
/// gives that frame; where none holds one, nothing changes.
pub proof fn lemma_take_first_shape(slots: Seq<Option<Frame>>)
    ensures
        take_first(slots).0.len() == slots.len(),
        take_first(slots).1 is None ==> take_first(slots).0 == slots && held(slots) == 0,
        take_first(slots).1 matches Some(f) ==> exists|k: int|
            0 <= k < slots.len() && slots[k] == Some(f) && take_first(slots).0 == slots.update(k, None),
        take_first(slots).1 is Some ==> held(take_first(slots).0) + 1 == held(slots),
    decreases slots.len(),
{
    if slots.len() == 0 {
    } else if slots[0] is Some {
        assert(slots.update(0, None).drop_first() =~= slots.drop_first());
    } else {
        let rest = slots.drop_first();
        lemma_take_first_shape(rest);
        let (rest1, f) = take_first(rest);
        let out = seq![slots[0]].add(rest1);
        assert(out.drop_first() =~= rest1);
        if f is None {
            assert(out =~= slots);
        } else {
            let k = choose|k: int| 0 <= k < rest.len() && rest[k] == f && rest1 == rest.update(k, None);
            assert(out =~= slots.update(k + 1, None));
            assert(slots[k + 1] == f);
        }
    }
}

/// Some slot is empty.
pub open spec fn has_empty_slot(slots: Seq<Option<Frame>>) -> bool {
    exists|k: int| 0 <= k < slots.len() && #[trigger] slots[k] is None
}

/// A store filled with three frames hands out exactly three, then none;
/// an empty store takes back exactly three, then has no room.
pub proof fn lemma_tiny_capacity(a: Frame, b: Frame, c: Frame)
    ensures
        ({
            let (s1, r1) = take_first(seq![Some(a), Some(b), Some(c)]);
            let (s2, r2) = take_first(s1);
            let (s3, r3) = take_first(s2);
            let (s4, r4) = take_first(s3);
            r1 == Some(a) && r2 == Some(b) && r3 == Some(c) && r4 is None
        }),
        ({
            let e: Seq<Option<Frame>> = seq![None, None, None];
            let full = put_first(put_first(put_first(e, a), b), c);
            has_empty_slot(e) && has_empty_slot(put_first(e, a)) && has_empty_slot(put_first(put_first(e, a), b))
                && full == seq![Some(a), Some(b), Some(c)] && !has_empty_slot(full)
        }),
{
    let s0: Seq<Option<Frame>> = seq![Some(a), Some(b), Some(c)];
    lemma_take_first_at(s0, 0);
    let s1 = s0.update(0, None);
    assert(s1[0] is None);
    lemma_take_first_at(s1, 1);
    let s2 = s1.update(1, None);
    assert(s2[0] is None && s2[1] is None);
    lemma_take_first_at(s2, 2);
    let s3 = s2.update(2, None);
    assert(s3[0] is None && s3[1] is None && s3[2] is None);
    lemma_take_first_at(s3, 3);
    let e: Seq<Option<Frame>> = seq![None, None, None];
    assert(e[0] is None);
    lemma_put_first_at(e, a, 0);
    let e1 = e.update(0, Some(a));
    assert(e1[0] is Some && e1[1] is None);
    lemma_put_first_at(e1, b, 1);
    let e2 = e1.update(1, Some(b));
    assert(e2[0] is Some && e2[1] is Some && e2[2] is None);
    lemma_put_first_at(e2, c, 2);
    let e3 = e2.update(2, Some(c));
    assert(e3 =~= seq![Some(a), Some(b), Some(c)]);
    assert(e1[1] is None);
    assert(e2[2] is None);
    assert(!has_empty_slot(e3)) by {
        assert forall|k: int| 0 <= k < e3.len() implies !(#[trigger] e3[k] is None) by {}
    }
}

/// A fixed store of three frames, handed out and taken back again.
pub struct TinyAllocator {
    slots: [Option<Frame>; 3],
}

impl TinyAllocator {
    /// The three slots in order.
    pub closed spec fn view(&self) -> Seq<Option<Frame>> {
        self.slots@
    }

    pub closed spec fn wf(&self) -> bool {
        forall|k: int| 0 <= k < 3 ==> (#[trigger] self.slots@[k] matches Some(f) ==> f.fits_entry())
    }

    /// The store has three slots.
    pub proof fn lemma_len(&self)
        ensures
            self@.len() == 3,
    {
    }

    /// Takes three frames from `allocator`; a slot stays empty where it
    /// had none left.
    pub fn new<A: FrameAllocator>(allocator: &mut A) -> (r: TinyAllocator)
        requires
            old(allocator).inv(),
        ensures
            final(allocator).inv(),
            r.wf(),
            r@.len() == 3,
    {
        let a = allocator.allocate_frame();
        let b = allocator.allocate_frame();
        let c = allocator.allocate_frame();
        TinyAllocator::from_frames(a, b, c)
    }

    /// A store whose three slots hold `a`, `b` and `c`, in that order.
    pub fn from_frames(a: Option<Frame>, b: Option<Frame>, c: Option<Frame>) -> (r: TinyAllocator)
        requires
            a matches Some(f) ==> f.fits_entry(),
            b matches Some(f) ==> f.fits_entry(),
            c matches Some(f) ==> f.fits_entry(),
        ensures
            r.wf(),
            r@ == seq![a, b, c],
    {
        let r = TinyAllocator { slots: [a, b, c] };
        assert(r.slots@ =~= seq![a, b, c]);
        r
    }
}

impl FrameAllocator for TinyAllocator {
    open spec fn inv(&self) -> bool {
        self.wf()
    }

    open spec fn has_room(&self) -> bool {
        has_empty_slot(self@)
    }

    /// Takes the frame out of the first slot that holds one.
    fn allocate_frame(&mut self) -> (r: Option<Frame>)
        ensures
            (final(self)@, r) == take_first(old(self)@),
    {
        let mut k: usize = 0;
        while k < 3
            invariant
                k <= 3,
                self.slots@ == old(self).slots@,
                old(self).wf(),
                forall|j: int| 0 <= j < k ==> #[trigger] self.slots@[j] is None,
            decreases 3 - k,
        {
            if self.slots[k].is_some() {
                let f = self.slots[k];
                self.slots[k] = None;
                proof {
                    lemma_take_first_at(old(self)@, k as int);
                    assert(self.slots@ =~= old(self).slots@.update(k as int, None));
                    assert(old(self).slots@[k as int] matches Some(g) ==> g.fits_entry());
                    assert forall|j: int| 0 <= j < 3 implies (#[trigger] self.slots@[j] matches Some(g)
                        ==> g.fits_entry()) by {
                        assert(old(self).slots@[j] matches Some(g) ==> g.fits_entry());
                    }
                }
                return f;
            }
            k = k + 1;
        }
        proof {
            lemma_take_first_at(old(self)@, 3);
        }
        None
    }

    /// Puts the frame in the first empty slot.
    fn deallocate_frame(&mut self, frame: Frame)
        ensures
            final(self)@ == put_first(old(self)@, frame),
    {
        let mut k: usize = 0;
        while k < 3
            invariant
                k <= 3,
                self.slots@ == old(self).slots@,
                old(self).wf(),
                frame.fits_entry(),
                forall|j: int| 0 <= j < k ==> #[trigger] self.slots@[j] is Some,
            decreases 3 - k,
        {
            if self.slots[k].is_none() {
                self.slots[k] = Some(frame);
                proof {
                    lemma_put_first_at(old(self)@, frame, k as int);
                    assert(self.slots@ =~= old(self).slots@.update(k as int, Some(frame)));
                    assert forall|j: int| 0 <= j < 3 implies (#[trigger] self.slots@[j] matches Some(g)
                        ==> g.fits_entry()) by {
                        assert(old(self).slots@[j] matches Some(g) ==> g.fits_entry());
                    }
                }
                return;
            }
            k = k + 1;
        }
    }
}

/// Taking from slots whose first `k` are empty takes slot `k`.
proof fn lemma_take_first_at(slots: Seq<Option<Frame>>, k: int)
    requires
        0 <= k <= slots.len(),
        forall|j: int| 0 <= j < k ==> #[trigger] slots[j] is None,
        k < slots.len() ==> slots[k] is Some,
    ensures
        take_first(slots) == (if k < slots.len() {
            (slots.update(k, None), slots[k])
        } else {
            (slots, None)
        }),
    decreases slots.len(),
{
    if slots.len() > 0 && k > 0 {
        let rest = slots.drop_first();
        assert forall|j: int| 0 <= j < k - 1 implies #[trigger] rest[j] is None by {
            assert(slots[j + 1] is None);
        }
        lemma_take_first_at(rest, k - 1);
        assert(slots[0] is None);
        if k < slots.len() {
            assert(seq![slots[0]].add(rest.update(k - 1, None)) =~= slots.update(k, None));
        } else {
            assert(seq![slots[0]].add(rest) =~= slots);
        }
    }
}

/// Putting into slots whose first `k` are full fills slot `k`.
proof fn lemma_put_first_at(slots: Seq<Option<Frame>>, frame: Frame, k: int)
    requires
        0 <= k < slots.len(),
        forall|j: int| 0 <= j < k ==> #[trigger] slots[j] is Some,
        slots[k] is None,
    ensures
        put_first(slots, frame) == slots.update(k, Some(frame)),
    decreases slots.len(),
{
    if k > 0 {
        let rest = slots.drop_first();
        assert forall|j: int| 0 <= j < k - 1 implies #[trigger] rest[j] is Some by {
            assert(slots[j + 1] is Some);
        }
        lemma_put_first_at(rest, frame, k - 1);
        assert(slots[0] is Some);
        assert(seq![slots[0]].add(rest.update(k - 1, Some(frame))) =~= slots.update(k, Some(frame)));
    }
}

} // verus!
