use vstd::prelude::*;
use crate::FRAME_LEN;

verus! {

/// Accumulates normalized samples and yields fixed-size frames in strict
/// arrival order. Leftover partial data persists across calls; no sample is
/// ever dropped, duplicated or reordered.
pub struct FrameBuffer {
    samples: Vec<i16>,
}

impl View for FrameBuffer {
    type V = Seq<i16>;

    /// The samples queued and not yet taken, oldest first.
    closed spec fn view(&self) -> Seq<i16> {
        self.samples@
    }
}

impl FrameBuffer {
    /// An empty buffer.
    pub fn new() -> (r: FrameBuffer)
        ensures
            r@ == Seq::<i16>::empty(),
    {
        FrameBuffer { samples: Vec::new() }
    }

    /// How many samples are queued.
    pub fn buffered(&self) -> (n: usize)
        ensures
            n == self@.len(),
    {
        self.samples.len()
    }

    /// Appends a block of samples behind everything already queued.
    pub fn push(&mut self, block: &[i16])
        ensures
            final(self)@ == old(self)@ + block@,
    {
        let mut i: usize = 0;
        while i < block.len()
            invariant
                i <= block.len(),
                self.samples@ == old(self)@ + block@.take(i as int),
            decreases block.len() - i,
        {
            self.samples.push(block[i]);
            proof {
                assert(block@.take(i + 1) =~= block@.take(i as int).push(block@[i as int]));
            }
            i = i + 1;
        }
        proof {
            assert(block@.take(block.len() as int) =~= block@);
        }
    }

    /// Removes and returns the oldest `FRAME_LEN` samples if at least that
    /// many are queued, else returns nothing and leaves the queue unchanged.
    /// A returned frame is exactly the front of the queue, so frames come out
    /// in strict first-in, first-out order and concatenating every frame taken
    /// with what remains queued gives back every sample ever pushed, in order.
    pub fn try_take_frame(&mut self) -> (r: Option<Vec<i16>>)
        ensures
            old(self)@.len() >= FRAME_LEN ==> {
                &&& r matches Some(frame)
                &&& frame@.len() == FRAME_LEN
                &&& frame@ == old(self)@.take(FRAME_LEN as int)
                &&& final(self)@ == old(self)@.skip(FRAME_LEN as int)
                &&& frame@ + final(self)@ == old(self)@
            },
            old(self)@.len() < FRAME_LEN ==> r is None && final(self)@ == old(self)@,
    {
        if self.samples.len() < FRAME_LEN {
            return None;
        }
        let rest = self.samples.split_off(FRAME_LEN);
        let mut frame = rest;
        core::mem::swap(&mut self.samples, &mut frame);
        proof {
            assert(frame@ + self.samples@ =~= old(self)@);
        }
        Some(frame)
    }
}

/// The frames that draining a queue yields, in order: the front block of
/// `FRAME_LEN` samples, then the frames of what follows it.
pub open spec fn frames_of(s: Seq<i16>) -> Seq<Seq<i16>>
    decreases s.len(),
{
    if s.len() < FRAME_LEN {
        Seq::<Seq<i16>>::empty()
    } else {
        seq![s.take(FRAME_LEN as int)] + frames_of(s.skip(FRAME_LEN as int))
    }
}

/// The partial data left queued once no whole frame remains.
pub open spec fn remainder_of(s: Seq<i16>) -> Seq<i16>
    decreases s.len(),
{
    if s.len() < FRAME_LEN {
        s
    } else {
        remainder_of(s.skip(FRAME_LEN as int))
    }
}

/// All the frames' samples, concatenated in order.
pub open spec fn concat_all(frames: Seq<Seq<i16>>) -> Seq<i16>
    decreases frames.len(),
{
    if frames.len() == 0 {
        Seq::<i16>::empty()
    } else {
        frames[0] + concat_all(frames.skip(1))
    }
}

/// Every frame drained from a queue is exactly `FRAME_LEN` samples long, and
/// concatenating all of them, followed by the leftover partial data, gives
/// back every queued sample in arrival order: nothing dropped, nothing
/// duplicated, nothing reordered.
pub proof fn lemma_frames_cover_samples(s: Seq<i16>)
    ensures
        forall|i: int| 0 <= i < frames_of(s).len() ==> (#[trigger] frames_of(s)[i]).len()
            == FRAME_LEN,
        concat_all(frames_of(s)) + remainder_of(s) == s,
        remainder_of(s).len() < FRAME_LEN,
    decreases s.len(),
{
    if s.len() < FRAME_LEN {
        assert(concat_all(frames_of(s)) + remainder_of(s) =~= s);
    } else {
        let head = s.take(FRAME_LEN as int);
        let tail = s.skip(FRAME_LEN as int);
        lemma_frames_cover_samples(tail);
        assert(frames_of(s)[0] == head);
        assert(frames_of(s).skip(1) =~= frames_of(tail));
        assert(concat_all(frames_of(s)) == head + concat_all(frames_of(tail)));
        assert((head + concat_all(frames_of(tail))) + remainder_of(tail) =~= head + (concat_all(
            frames_of(tail),
        ) + remainder_of(tail)));
        assert(head + tail =~= s);
        assert forall|i: int| 0 <= i < frames_of(s).len() implies (#[trigger] frames_of(s)[i]).len()
            == FRAME_LEN by {
            if i > 0 {
                assert(frames_of(s)[i] == frames_of(tail)[i - 1]);
            }
        }
    }
}

} // verus!
