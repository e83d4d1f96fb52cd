use vstd::prelude::*;
use vstd::arithmetic::div_mod::lemma_div_is_ordered;
use vstd::arithmetic::div_mod::lemma_div_pos_is_pos;
use vstd::arithmetic::div_mod::lemma_fundamental_div_mod_converse_div;

verus! {

/// Magnitude of a 16-bit sample, wide enough to hold 32768.
pub open spec fn abs_i16(s: i16) -> int {
    if s < 0 {
        -(s as int)
    } else {
        s as int
    }
}

/// The frame's peak: the largest sample magnitude, 0 for an empty frame.
pub open spec fn seq_peak(s: Seq<i16>) -> int
    decreases s.len(),
{
    if s.len() == 0 {
        0
    } else {
        let p = seq_peak(s.drop_last());
        let a = abs_i16(s.last());
        if a > p {
            a
        } else {
            p
        }
    }
}

/// Integer division rounding toward zero, as the hardware divides.
pub open spec fn div_toward_zero(a: int, b: int) -> int {
    if a >= 0 {
        a / b
    } else {
        -((-a) / b)
    }
}

/// Clamping into the signed 16-bit range.
pub open spec fn clamp_i16(v: int) -> int {
    if v < -32768 {
        -32768
    } else if v > 32767 {
        32767
    } else {
        v
    }
}

/// One conditioned sample. `x` is the sample, `last` its unfiltered
/// predecessor (0 at the start of a frame), `peak` the frame's peak.
/// The pre-emphasis difference `x - 0.97 * last` is held in hundredths as
/// `100 * x - 97 * last`; the gain is `(0.1 * 32767) / peak` when the frame is
/// not silent, so the scaled value is the difference times `32767 / (10 * peak)`,
/// and a unit gain otherwise. The result is clamped to the 16-bit range.
pub open spec fn cond_sample(x: int, last: int, peak: int) -> int {
    let hundredths = 100 * x - 97 * last;
    let scaled = if peak > 0 {
        div_toward_zero(hundredths * 32767, 1000 * peak)
    } else {
        div_toward_zero(hundredths, 100)
    };
    clamp_i16(scaled)
}

/// The whole conditioned frame: per-sample pre-emphasis against the previous
/// unfiltered sample, with filter memory starting at 0 at the frame boundary,
/// then gain, then clamping.
pub open spec fn cond_seq(s: Seq<i16>, peak: int) -> Seq<i16> {
    Seq::new(
        s.len(),
        |i: int|
            cond_sample(
                s[i] as int,
                if i == 0 {
                    0
                } else {
                    s[i - 1] as int
                },
                peak,
            ) as i16,
    )
}

/// The peak is never negative and bounds every sample's magnitude.
pub proof fn lemma_peak_bounds(s: Seq<i16>)
    ensures
        0 <= seq_peak(s) <= 32768,
        forall|i: int| 0 <= i < s.len() ==> abs_i16(s[i]) <= seq_peak(s),
    decreases s.len(),
{
    if s.len() > 0 {
        lemma_peak_bounds(s.drop_last());
        assert forall|i: int| 0 <= i < s.len() implies abs_i16(s[i]) <= seq_peak(s) by {
            if i < s.len() - 1 {
                assert(s.drop_last()[i] == s[i]);
            }
        }
    }
}

/// Computes the frame's peak sample magnitude.
pub fn frame_peak(frame: &Vec<i16>) -> (p: u32)
    ensures
        p as int == seq_peak(frame@),
{
    let mut p: u32 = 0;
    let mut i: usize = 0;
    proof {
        lemma_peak_bounds(frame@);
        assert(frame@.take(0int) =~= Seq::<i16>::empty());
    }
    while i < frame.len()
        invariant
            i <= frame.len(),
            p as int == seq_peak(frame@.take(i as int)),
            p <= 32768,
        decreases frame.len() - i,
    {
        let s = frame[i];
        let a: u32 = if s < 0 {
            (-(s as i32)) as u32
        } else {
            s as u32
        };
        proof {
            assert(frame@.take(i + 1).drop_last() =~= frame@.take(i as int));
            assert(frame@.take(i + 1).last() == frame@[i as int]);
        }
        if a > p {
            p = a;
        }
        i = i + 1;
    }
    proof {
        assert(frame@.take(frame.len() as int) =~= frame@);
    }
    p
}

/// Conditions one frame: normalizes its peak amplitude toward a tenth of full
/// scale and applies first-order pre-emphasis whose memory resets at the frame
/// boundary, clamping each result into the 16-bit range. A frame of pure
/// silence comes out as pure silence, with no division performed.
pub fn condition(frame: &Vec<i16>) -> (out: Vec<i16>)
    ensures
        out@.len() == frame@.len(),
        out@ == cond_seq(frame@, seq_peak(frame@)),
{
    let peak: u32 = frame_peak(frame);
    proof {
        lemma_peak_bounds(frame@);
    }
    let mut out: Vec<i16> = Vec::new();
    let mut i: usize = 0;
    while i < frame.len()
        invariant
            i <= frame.len(),
            out@.len() == i,
            peak as int == seq_peak(frame@),
            peak <= 32768,
            forall|j: int| 0 <= j < i ==> out@[j] == cond_seq(frame@, seq_peak(frame@))[j],
        decreases frame.len() - i,
    {
        let x: i64 = frame[i] as i64;
        let last: i64 = if i == 0 {
            0
        } else {
            frame[i - 1] as i64
        };
        let hundredths: i64 = 100 * x - 97 * last;
        let scaled: i64 = if peak > 0 {
            let den: u64 = 1000 * (peak as u64);
            if hundredths >= 0 {
                (((hundredths as u64) * 32767) / den) as i64
            } else {
                -(((((-hundredths) as u64)) * 32767 / den) as i64)
            }
        } else {
            if hundredths >= 0 {
                ((hundredths as u64) / 100) as i64
            } else {
                -((((-hundredths) as u64) / 100) as i64)
            }
        };
        let clamped: i16 = if scaled < -32768 {
            -32768
        } else if scaled > 32767 {
            32767
        } else {
            scaled as i16
        };
        proof {
            assert(clamped as int == cond_seq(frame@, seq_peak(frame@))[i as int]);
        }
        out.push(clamped);
        i = i + 1;
    }
    proof {
        assert(out@ =~= cond_seq(frame@, seq_peak(frame@)));
    }
    out
}

/// Dividing `(q * 1000 + r) * peak` by `1000 * peak` gives exactly `q` when
/// `r` is below 1000: the peak cancels out of the scaled gain.
proof fn lemma_gain_cancels_peak(q: int, r: int, peak: int)
    requires
        peak > 0,
        0 <= r < 1000,
    ensures
        ((q * 1000 + r) * peak) / (1000 * peak) == q,
{
    assert((q * 1000 + r) * peak == q * (1000 * peak) + r * peak) by (nonlinear_arith);
    assert(0 <= r * peak < 1000 * peak) by (nonlinear_arith)
        requires
            peak > 0,
            0 <= r < 1000,
    ;
    lemma_fundamental_div_mod_converse_div((q * 1000 + r) * peak, 1000 * peak, q, r * peak);
}

/// Gain normalization, stated exactly where it is exact: when a frame's first
/// sample attains its nonzero peak, that sample's pre-emphasis difference is
/// the full peak, so the first conditioned sample's magnitude is exactly
/// a tenth of full scale rounded toward zero, 32767 / 10 == 3276.
pub proof fn lemma_first_sample_normalized(s: Seq<i16>)
    requires
        s.len() > 0,
        seq_peak(s) > 0,
        abs_i16(s[0]) == seq_peak(s),
    ensures
        abs_i16(cond_seq(s, seq_peak(s))[0]) == 3276,
{
    let peak = seq_peak(s);
    let x = s[0] as int;
    let hundredths = 100 * x - 97 * 0;
    if x >= 0 {
        assert(hundredths * 32767 == 3276700 * peak);
        lemma_gain_cancels_peak(3276, 700, peak);
        assert(cond_sample(x, 0, peak) == 3276);
    } else {
        assert(hundredths * 32767 == -(3276700 * peak));
        lemma_gain_cancels_peak(3276, 700, peak);
        assert(cond_sample(x, 0, peak) == -3276);
    }
}

/// Amplitude after conditioning, bounded for every frame with a nonzero peak:
/// the pre-emphasis difference is at most 1.97 times the peak, the gain scales
/// the peak itself to 3276.7, so no conditioned sample's magnitude can pass
/// 197 * 32767 / 1000 == 6455, well inside the clamping range.
pub proof fn lemma_conditioned_amplitude_bound(s: Seq<i16>)
    requires
        seq_peak(s) > 0,
    ensures
        forall|i: int| 0 <= i < s.len() ==> abs_i16(cond_seq(s, seq_peak(s))[i]) <= 6455,
{
    let peak = seq_peak(s);
    lemma_peak_bounds(s);
    assert forall|i: int| 0 <= i < s.len() implies abs_i16(
        cond_seq(s, seq_peak(s))[i],
    ) <= 6455 by {
        let x = s[i] as int;
        let last = if i == 0 {
            0
        } else {
            s[i - 1] as int
        };
        let hundredths = 100 * x - 97 * last;
        assert(abs_i16(s[i]) <= peak);
        if i > 0 {
            assert(abs_i16(s[i - 1]) <= peak);
        }
        assert(-(197 * peak) <= hundredths <= 197 * peak);
        let num = hundredths * 32767;
        assert(-(6455099 * peak) <= num <= 6455099 * peak) by (nonlinear_arith)
            requires
                -(197 * peak) <= hundredths <= 197 * peak,
                num == hundredths * 32767,
                peak > 0,
        ;
        lemma_gain_cancels_peak(6455, 99, peak);
        assert((6455099 * peak) / (1000 * peak) == 6455);
        assert(1000 * peak > 0) by (nonlinear_arith)
            requires
                peak > 0,
        ;
        if num >= 0 {
            lemma_div_pos_is_pos(num, 1000 * peak);
            lemma_div_is_ordered(num, 6455099 * peak, 1000 * peak);
        } else {
            lemma_div_pos_is_pos(-num, 1000 * peak);
            lemma_div_is_ordered(-num, 6455099 * peak, 1000 * peak);
        }
        assert(-6455 <= div_toward_zero(num, 1000 * peak) <= 6455);
    }
}

/// A silent frame conditions to silence: when the peak is 0 every sample is 0,
/// the unit-gain path applies, and every conditioned sample is exactly 0.
pub proof fn lemma_silence_conditions_to_silence(s: Seq<i16>)
    requires
        seq_peak(s) == 0,
    ensures
        forall|i: int| 0 <= i < s.len() ==> cond_seq(s, seq_peak(s))[i] == 0i16,
{
    lemma_peak_bounds(s);
    assert forall|i: int| 0 <= i < s.len() implies cond_seq(s, seq_peak(s))[i] == 0i16 by {
        assert(abs_i16(s[i]) <= 0);
        assert(s[i] as int == 0);
        if i > 0 {
            assert(abs_i16(s[i - 1]) <= 0);
            assert(s[i - 1] as int == 0);
        }
        assert(cond_sample(0, 0, 0) == clamp_i16(div_toward_zero(0, 100)));
        assert(div_toward_zero(0, 100) == 0);
    }
}

} // verus!
