use vstd::prelude::*;
use crate::score::END_THRESHOLD;
use crate::score::START_THRESHOLD;
use crate::segmenter::SegmenterModel;
use crate::segmenter::spec_finished;
use crate::segmenter::spec_started;
use crate::segmenter::spec_step;

verus! {

/// One input to the segmentation machine: a score in thousandths, the
/// conditioned frame it belongs to, and the timestamp a newly opened segment
/// would be keyed by.
pub struct StepInput {
    pub score: int,
    pub frame: Seq<i16>,
    pub now: int,
}

/// The machine after one input.
pub open spec fn step_of(m: SegmenterModel, input: StepInput) -> SegmenterModel {
    spec_step(m, input.score, input.frame, input.now)
}

/// The machine after a whole run of inputs, consumed in order.
pub open spec fn run_states(m: SegmenterModel, inputs: Seq<StepInput>) -> SegmenterModel
    decreases inputs.len(),
{
    if inputs.len() == 0 {
        m
    } else {
        run_states(step_of(m, inputs[0]), inputs.skip(1))
    }
}

/// All the inputs' frames, concatenated in arrival order.
pub open spec fn concat_frames(inputs: Seq<StepInput>) -> Seq<i16>
    decreases inputs.len(),
{
    if inputs.len() == 0 {
        Seq::<i16>::empty()
    } else {
        inputs[0].frame + concat_frames(inputs.skip(1))
    }
}

/// Once a score above the start threshold arrives while idle, that very step
/// fires a start and no end: the machine is speaking before any further input
/// is consumed, with the step's frame as the open segment's first samples and
/// the step's timestamp as its key.
pub proof fn lemma_start_fires_at_once(m: SegmenterModel, score: int, frame: Seq<i16>, now: int)
    requires
        !m.speaking,
        score > START_THRESHOLD as int,
    ensures
        spec_started(m, score),
        !spec_finished(m, score),
        spec_step(m, score, frame, now).speaking,
        spec_step(m, score, frame, now).key == now,
        spec_step(m, score, frame, now).samples == frame,
{
}

/// While speaking, the machine stays speaking through every score at or above
/// the end threshold: no end fires, so no second start can fire either — a
/// start fires only while idle — and every frame accumulates onto the open
/// segment in arrival order, under the segment's unchanged key.
pub proof fn lemma_speaking_run(m: SegmenterModel, inputs: Seq<StepInput>)
    requires
        m.speaking,
        forall|i: int| 0 <= i < inputs.len() ==> #[trigger] inputs[i].score >= END_THRESHOLD as int,
    ensures
        run_states(m, inputs).speaking,
        run_states(m, inputs).key == m.key,
        run_states(m, inputs).samples == m.samples + concat_frames(inputs),
        forall|i: int|
            0 <= i < inputs.len() ==> !spec_started(
                #[trigger] run_states(m, inputs.take(i)),
                inputs[i].score,
            ),
        forall|i: int|
            0 <= i < inputs.len() ==> !spec_finished(
                #[trigger] run_states(m, inputs.take(i)),
                inputs[i].score,
            ),
        forall|i: int| 0 <= i <= inputs.len() ==> #[trigger] run_states(m, inputs.take(i)).speaking,
    decreases inputs.len(),
{
    if inputs.len() == 0 {
        assert(m.samples + concat_frames(inputs) =~= m.samples);
        assert forall|i: int| 0 <= i <= inputs.len() implies #[trigger] run_states(
            m,
            inputs.take(i),
        ).speaking by {
            assert(inputs.take(i).len() == 0);
        }
    } else {
        let m1 = step_of(m, inputs[0]);
        assert(inputs[0].score >= END_THRESHOLD as int);
        assert(m1.speaking);
        assert(m1.key == m.key);
        assert(m1.samples == m.samples + inputs[0].frame);
        let rest = inputs.skip(1);
        assert forall|i: int| 0 <= i < rest.len() implies #[trigger] rest[i].score
            >= END_THRESHOLD as int by {
            assert(rest[i] == inputs[i + 1]);
        }
        lemma_speaking_run(m1, rest);
        assert(run_states(m, inputs) == run_states(m1, rest));
        assert((m.samples + inputs[0].frame) + concat_frames(rest) =~= m.samples + (
        inputs[0].frame + concat_frames(rest)));
        assert forall|i: int| 0 <= i <= inputs.len() implies #[trigger] run_states(
            m,
            inputs.take(i),
        ).speaking by {
            if i == 0 {
                assert(inputs.take(0).len() == 0);
            } else {
                assert(inputs.take(i)[0] == inputs[0]);
                assert(inputs.take(i).skip(1) =~= rest.take(i - 1));
                assert(run_states(m, inputs.take(i)) == run_states(m1, rest.take(i - 1)));
            }
        }
        assert forall|i: int| 0 <= i < inputs.len() implies {
            &&& !spec_started(#[trigger] run_states(m, inputs.take(i)), inputs[i].score)
            &&& !spec_finished(run_states(m, inputs.take(i)), inputs[i].score)
        } by {
            assert(run_states(m, inputs.take(i)).speaking);
            assert(inputs[i].score >= END_THRESHOLD as int);
        }
    }
}

/// Running one more input equals running the rest and then stepping once.
proof fn lemma_run_snoc(m: SegmenterModel, inputs: Seq<StepInput>, last: StepInput)
    ensures
        run_states(m, inputs.push(last)) == step_of(run_states(m, inputs), last),
    decreases inputs.len(),
{
    reveal_with_fuel(run_states, 3);
    if inputs.len() == 0 {
        assert(inputs.push(last)[0] == last);
        assert(inputs.push(last).skip(1) =~= Seq::<StepInput>::empty());
    } else {
        assert(inputs.push(last)[0] == inputs[0]);
        assert(inputs.push(last).skip(1) =~= inputs.skip(1).push(last));
        lemma_run_snoc(step_of(m, inputs[0]), inputs.skip(1), last);
        assert(run_states(m, inputs.push(last)) == run_states(
            step_of(m, inputs[0]),
            inputs.skip(1).push(last),
        ));
        assert(run_states(m, inputs) == run_states(step_of(m, inputs[0]), inputs.skip(1)));
    }
}

/// No double open, for arbitrary score fluctuations: while speaking, as long
/// as no step has fired an end boundary yet, the machine is still speaking,
/// so the next step cannot fire a start — a second start can only come after
/// an end has fired first.
pub proof fn lemma_no_start_before_end(m: SegmenterModel, inputs: Seq<StepInput>, i: int)
    requires
        m.speaking,
        0 <= i < inputs.len(),
        forall|j: int|
            0 <= j < i ==> !spec_finished(
                #[trigger] run_states(m, inputs.take(j)),
                inputs[j].score,
            ),
    ensures
        run_states(m, inputs.take(i)).speaking,
        !spec_started(run_states(m, inputs.take(i)), inputs[i].score),
    decreases i,
{
    if i == 0 {
        assert(inputs.take(0).len() == 0);
    } else {
        lemma_no_start_before_end(m, inputs, i - 1);
        let before = run_states(m, inputs.take(i - 1));
        assert(!spec_finished(before, inputs[i - 1].score));
        assert(inputs.take(i) =~= inputs.take(i - 1).push(inputs[i - 1]));
        lemma_run_snoc(m, inputs.take(i - 1), inputs[i - 1]);
        assert(run_states(m, inputs.take(i)) == step_of(before, inputs[i - 1]));
    }
}

/// Round trip over one whole segment. From idle: a score above the start
/// threshold opens a segment holding its frame; scores at or above the end
/// threshold keep it open while their frames accumulate; the first score
/// below the end threshold then fires the end boundary, and the segment it
/// finalizes — its accumulated samples followed by the closing step's frame —
/// holds exactly the concatenation of every frame appended between the start
/// and end boundaries, in order, under the key of the opening step.
pub proof fn lemma_segment_round_trip(
    m: SegmenterModel,
    opening: StepInput,
    middle: Seq<StepInput>,
    closing: StepInput,
)
    requires
        !m.speaking,
        opening.score > START_THRESHOLD as int,
        forall|i: int| 0 <= i < middle.len() ==> #[trigger] middle[i].score >= END_THRESHOLD as int,
        closing.score < END_THRESHOLD as int,
    ensures
        ({
            let opened = step_of(m, opening);
            let before_close = run_states(opened, middle);
            &&& spec_finished(before_close, closing.score)
            &&& before_close.key == opening.now
            &&& before_close.samples + closing.frame == opening.frame + concat_frames(middle)
                + closing.frame
            &&& !step_of(before_close, closing).speaking
        }),
{
    let opened = step_of(m, opening);
    assert(spec_started(m, opening.score));
    assert(opened.speaking && opened.key == opening.now && opened.samples == opening.frame);
    lemma_speaking_run(opened, middle);
}

} // verus!
