use vstd::prelude::*;
use crate::score::END_THRESHOLD;
use crate::score::START_THRESHOLD;
use crate::score::SpeechScore;

verus! {

/// State of the segmentation machine: no open segment, or exactly one open
/// segment being appended to.
#[derive(Clone, Copy, Debug, PartialEq, Eq, Structural)]
pub enum VadState {
    Idle,
    Speaking,
}

/// The contiguous run of conditioned frames between a start and an end
/// boundary, keyed by the millisecond timestamp at which it was opened.
pub struct Segment {
    /// Millisecond timestamp used as the segment's identity, from which its
    /// file name is derived.
    pub key: i64,
    /// Every sample appended between the boundaries, in arrival order.
    pub samples: Vec<i16>,
}

/// What one step of the machine decided, for its surroundings to carry out.
pub struct StepOutcome {
    /// A start-of-speech boundary fired: emit one start-of-speech
    /// notification and open one output file keyed by this timestamp.
    pub started: Option<i64>,
    /// The frame belongs to the open segment: its samples go to the file.
    pub appended: bool,
    /// An end-of-speech boundary fired: this finalized segment holds every
    /// sample appended since its start boundary. Close its file durably, then
    /// announce the saved audio and the end of speech, in that order.
    pub finished: Option<Segment>,
}

/// Mathematical model of the machine between steps: whether a segment is
/// open, its key, and every sample appended to it so far.
pub struct SegmenterModel {
    pub speaking: bool,
    pub key: int,
    pub samples: Seq<i16>,
}

/// A start boundary fires exactly when an idle machine sees a score above the
/// start threshold.
pub open spec fn spec_started(m: SegmenterModel, score: int) -> bool {
    !m.speaking && score > START_THRESHOLD as int
}

/// A frame is appended exactly when the machine is speaking after its score
/// is taken into account: every frame from the one that opens a segment to
/// the one that closes it, both included.
pub open spec fn spec_appended(m: SegmenterModel, score: int) -> bool {
    m.speaking || spec_started(m, score)
}

/// An end boundary fires exactly when a speaking machine sees a score below
/// the end threshold.
pub open spec fn spec_finished(m: SegmenterModel, score: int) -> bool {
    m.speaking && score < END_THRESHOLD as int
}

/// The machine after one score: hysteresis with a high start threshold and a
/// lower end threshold; scores between the two leave the state unchanged.
pub open spec fn spec_step(m: SegmenterModel, score: int, frame: Seq<i16>, now: int) -> SegmenterModel {
    if spec_started(m, score) {
        SegmenterModel { speaking: true, key: now, samples: frame }
    } else if spec_finished(m, score) {
        SegmenterModel { speaking: false, key: m.key, samples: Seq::empty() }
    } else if m.speaking {
        SegmenterModel { speaking: m.speaking, key: m.key, samples: m.samples + frame }
    } else {
        m
    }
}

/// Everything one step promises: the machine follows `spec_step`, a start
/// carries the key of the newly opened segment, and a finished segment holds
/// the key and every appended sample of the segment it closes.
pub open spec fn step_post(
    pre: SegmenterModel,
    post: SegmenterModel,
    out: StepOutcome,
    score: int,
    frame: Seq<i16>,
    now: i64,
) -> bool {
    &&& post == spec_step(pre, score, frame, now as int)
    &&& (out.started is Some <==> spec_started(pre, score))
    &&& (out.started matches Some(k) ==> k == now)
    &&& out.appended == spec_appended(pre, score)
    &&& (out.finished is Some <==> spec_finished(pre, score))
    &&& (out.finished matches Some(seg) ==> seg.key as int == pre.key && seg.samples@ == pre.samples
        + frame)
}

/// Appends every sample of `src` behind `dst`, in order.
fn append_samples(dst: &mut Vec<i16>, src: &Vec<i16>)
    ensures
        final(dst)@ == old(dst)@ + src@,
{
    let mut i: usize = 0;
    while i < src.len()
        invariant
            i <= src.len(),
            dst@ == old(dst)@ + src@.take(i as int),
        decreases src.len() - i,
    {
        dst.push(src[i]);
        proof {
            assert(src@.take(i + 1) =~= src@.take(i as int).push(src@[i as int]));
        }
        i = i + 1;
    }
    proof {
        assert(src@.take(src.len() as int) =~= src@);
    }
}

/// Relies on chrono's `Utc::now` and `DateTime::timestamp_millis`: the
/// current wall-clock time as milliseconds since the Unix epoch. The result
/// depends on the clock alone, so nothing is promised of it.
#[verifier::external_body]
fn now_millis() -> i64 {
    chrono::Utc::now().timestamp_millis()
}

/// Hysteresis logic turning a stream of speech scores into discrete
/// speech-segment boundaries, holding the one open segment while it speaks.
pub struct Segmenter {
    state: VadState,
    key: i64,
    samples: Vec<i16>,
}

impl View for Segmenter {
    type V = SegmenterModel;

    closed spec fn view(&self) -> SegmenterModel {
        SegmenterModel {
            speaking: self.state is Speaking,
            key: self.key as int,
            samples: self.samples@,
        }
    }
}

impl Segmenter {
    /// A machine in its initial state: idle, with no open segment.
    pub fn new() -> (r: Segmenter)
        ensures
            !r@.speaking,
            r@.key == 0,
            r@.samples == Seq::<i16>::empty(),
    {
        Segmenter { state: VadState::Idle, key: 0, samples: Vec::new() }
    }

    /// Whether a segment is open.
    pub fn is_speaking(&self) -> (b: bool)
        ensures
            b == self@.speaking,
    {
        match self.state {
            VadState::Speaking => true,
            VadState::Idle => false,
        }
    }

    /// Consumes one conditioned frame and its speech score, keying a newly
    /// opened segment by `now`. The outcome says which boundaries fired and
    /// hands out the finalized segment when an end boundary fired.
    pub fn step(&mut self, frame: &Vec<i16>, score: SpeechScore, now: i64) -> (out: StepOutcome)
        ensures
            step_post(old(self)@, final(self)@, out, score.value_permille(), frame@, now),
    {
        let p = score.permille();
        let mut out = StepOutcome { started: None, appended: false, finished: None };
        match self.state {
            VadState::Idle => {
                if p > START_THRESHOLD {
                    self.state = VadState::Speaking;
                    self.key = now;
                    let mut opened: Vec<i16> = Vec::new();
                    append_samples(&mut opened, frame);
                    self.samples = opened;
                    out.started = Some(now);
                    out.appended = true;
                }
            },
            VadState::Speaking => {
                append_samples(&mut self.samples, frame);
                out.appended = true;
                if p < END_THRESHOLD {
                    let mut taken: Vec<i16> = Vec::new();
                    core::mem::swap(&mut self.samples, &mut taken);
                    self.state = VadState::Idle;
                    out.finished = Some(Segment { key: self.key, samples: taken });
                }
            },
        }
        out
    }

    /// Consumes one conditioned frame and its speech score, keying a newly
    /// opened segment by the wall clock's current millisecond timestamp.
    pub fn step_now(&mut self, frame: &Vec<i16>, score: SpeechScore) -> (out: StepOutcome)
        ensures
            exists|now: i64|
                step_post(old(self)@, final(self)@, out, score.value_permille(), frame@, now),
    {
        let now = now_millis();
        let out = self.step(frame, score, now);
        proof {
            assert(step_post(old(self)@, self@, out, score.value_permille(), frame@, now));
        }
        out
    }
}

} // verus!
