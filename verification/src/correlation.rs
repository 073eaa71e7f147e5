//! Time alignment of two audio sources: the correlator types and the frame
//! arithmetic that every correlator shares.

use vstd::prelude::*;
use vstd::arithmetic::power2::*;

verus! {

/// A correlator that never shifts anything.
#[derive(Debug, PartialEq, Eq)]
pub struct NoCorrelator {}

impl NoCorrelator {
    pub fn new() -> (c: Self)
        ensures
            c == (NoCorrelator {}),
    {
        NoCorrelator {}
    }
}

/// Time-domain cross-correlation on the mono mix of both sources.
#[derive(Debug, PartialEq, Eq)]
pub struct SimpleCorrelator {
    pub debug: bool,
}

impl SimpleCorrelator {
    pub fn new(debug: bool) -> (c: Self)
        ensures
            c.debug == debug,
    {
        SimpleCorrelator { debug }
    }
}

/// Generalized cross-correlation with phase transform.
#[derive(Debug, PartialEq, Eq)]
pub struct GccPhatCorrelator {
    pub debug: bool,
}

/// `p` is a power of two.
pub open spec fn is_power_of_two(p: int) -> bool {
    exists|e: nat| pow2(e) == p
}

impl GccPhatCorrelator {
    pub fn new(debug: bool) -> (c: Self)
        ensures
            c.debug == debug,
    {
        GccPhatCorrelator { debug }
    }

    /// The smallest power of two that is not below `n` (the FFT size).
    pub fn next_power_of_2(n: usize) -> (p: usize)
        requires
            n <= usize::MAX / 2 + 1,
        ensures
            is_power_of_two(p as int),
            p >= n,
            forall|e: nat| #[trigger] pow2(e) >= n ==> p <= pow2(e),
    {
        let mut p: usize = 1;
        let ghost mut k: nat = 0;
        proof {
            lemma_pow2_unfold_zero();
        }
        while p < n
            invariant
                p as int == pow2(k),
                p >= 1,
                k == 0 || pow2((k - 1) as nat) < n,
                n <= usize::MAX / 2 + 1,
            decreases usize::MAX - p,
        {
            proof {
                lemma_pow2_unfold(k + 1);
            }
            p = p * 2;
            proof {
                k = k + 1;
            }
        }
        assert forall|e: nat| #[trigger] pow2(e) >= n implies p <= pow2(e) by {
            if e < k {
                if e + 1 < k {
                    lemma_pow2_strictly_increases(e, (k - 1) as nat);
                }
            } else if e > k {
                lemma_pow2_strictly_increases(k, e);
            }
        }
        p
    }
}

/// Magnitude of a shift, in samples.
pub open spec fn shift_magnitude(shift: int) -> nat {
    if shift < 0 { (-shift) as nat } else { shift as nat }
}

/// A shift of `magnitude` samples, rounded down to whole frames of `channels` samples.
pub open spec fn frame_aligned(magnitude: nat, channels: nat) -> nat {
    (magnitude / channels * channels) as nat
}

/// `n` copies of `silence`.
pub open spec fn silence_of<T>(n: nat, silence: T) -> Seq<T> {
    Seq::new(n, |i: int| silence)
}

/// What shifting `samples` by `shift` samples gives: a positive shift delays
/// the audio by prepending silence, a negative shift advances it by trimming
/// its beginning (all silence when the trim covers everything); both are
/// rounded down to whole frames.
pub open spec fn shifted<T>(samples: Seq<T>, shift: int, channels: nat, silence: T) -> Seq<T> {
    let frame_shift = frame_aligned(shift_magnitude(shift), channels);
    if shift == 0 {
        samples
    } else if shift > 0 {
        silence_of(frame_shift, silence) + samples
    } else if frame_shift >= samples.len() {
        silence_of(samples.len(), silence)
    } else {
        samples.skip(frame_shift as int)
    }
}

/// Apply a shift to interleaved audio samples by adding silence or trimming.
/// A positive shift delays the audio (silence at the beginning), a negative
/// shift advances it (trims from the beginning); the shift is rounded down
/// to whole frames of `channels` samples.
pub fn apply_shift<T: Copy>(samples: &[T], shift: i32, channels: usize, silence: T) -> (out: Vec<T>)
    requires
        shift != 0 ==> channels > 0,
        shift != i32::MIN,
        shift > 0 ==> samples@.len() + shift <= usize::MAX,
    ensures
        out@ == shifted(samples@, shift as int, channels as nat, silence),
{
    let mut out: Vec<T> = Vec::new();
    if shift == 0 {
        let mut i: usize = 0;
        while i < samples.len()
            invariant
                i <= samples@.len(),
                out@ == samples@.take(i as int),
            decreases samples@.len() - i,
        {
            out.push(samples[i]);
            i = i + 1;
            assert(out@ =~= samples@.take(i as int));
        }
        assert(samples@.take(samples@.len() as int) =~= samples@);
        return out;
    }
    let magnitude: usize = if shift > 0 { shift as usize } else { (-shift) as usize };
    assert(magnitude as nat == shift_magnitude(shift as int));
    proof {
        vstd::arithmetic::div_mod::lemma_mod_decreases(magnitude as nat, channels as nat);
    }
    let frame_shift: usize = magnitude - magnitude % channels;
    proof {
        vstd::arithmetic::div_mod::lemma_fundamental_div_mod(magnitude as int, channels as int);
        vstd::arithmetic::mul::lemma_mul_is_commutative(channels as int, magnitude as int / channels as int);
    }
    assert(frame_shift as nat == frame_aligned(shift_magnitude(shift as int), channels as nat));
    if shift > 0 {
        let mut i: usize = 0;
        while i < frame_shift
            invariant
                i <= frame_shift,
                out@ == silence_of(i as nat, silence),
            decreases frame_shift - i,
        {
            out.push(silence);
            i = i + 1;
            assert(out@ =~= silence_of(i as nat, silence));
        }
        let mut j: usize = 0;
        while j < samples.len()
            invariant
                j <= samples@.len(),
                out@ == silence_of(frame_shift as nat, silence) + samples@.take(j as int),
            decreases samples@.len() - j,
        {
            out.push(samples[j]);
            j = j + 1;
            assert(out@ =~= silence_of(frame_shift as nat, silence) + samples@.take(j as int));
        }
        assert(samples@.take(samples@.len() as int) =~= samples@);
        out
    } else if frame_shift >= samples.len() {
        let mut i: usize = 0;
        while i < samples.len()
            invariant
                i <= samples@.len(),
                out@ == silence_of(i as nat, silence),
            decreases samples@.len() - i,
        {
            out.push(silence);
            i = i + 1;
            assert(out@ =~= silence_of(i as nat, silence));
        }
        out
    } else {
        let mut j: usize = frame_shift;
        while j < samples.len()
            invariant
                frame_shift <= j <= samples@.len(),
                out@ == samples@.subrange(frame_shift as int, j as int),
            decreases samples@.len() - j,
        {
            out.push(samples[j]);
            j = j + 1;
            assert(out@ =~= samples@.subrange(frame_shift as int, j as int));
        }
        out
    }
}

/// Position of sample `channel` of frame `frame` in interleaved audio.
pub open spec fn interleaved_index(frame: int, channel: int, channels: int) -> int {
    frame * channels + channel
}

/// How many leading frames of each source the correlators compare.
pub const COMPARE_FRAMES: usize = 10000;

/// The number of frames compared: the frames of the shorter source, at most
/// `COMPARE_FRAMES`.
pub open spec fn spec_compare_frames(len1: nat, len2: nat, channels: nat) -> nat {
    let shorter = if len1 < len2 { len1 } else { len2 };
    let frames = shorter / channels;
    if frames < COMPARE_FRAMES { frames } else { COMPARE_FRAMES as nat }
}

/// Number of frames that the mono mixes of two interleaved sources of
/// `len1` and `len2` samples hold; every sample that the mix reads lies in
/// both sources.
pub fn compare_frames(len1: usize, len2: usize, channels: usize) -> (n: usize)
    requires
        channels > 0,
    ensures
        n == spec_compare_frames(len1 as nat, len2 as nat, channels as nat),
        n <= COMPARE_FRAMES,
        forall|f: int, c: int|
            0 <= f < n && 0 <= c < channels ==> #[trigger] interleaved_index(f, c, channels as int) < len1
                && interleaved_index(f, c, channels as int) < len2,
{
    let shorter: usize = if len1 < len2 { len1 } else { len2 };
    let frames: usize = shorter / channels;
    let n: usize = if frames < COMPARE_FRAMES { frames } else { COMPARE_FRAMES };
    assert forall|f: int, c: int|
        0 <= f < n && 0 <= c < channels implies #[trigger] interleaved_index(f, c, channels as int) < len1
            && interleaved_index(f, c, channels as int) < len2 by {
        assert(f * channels + c < shorter) by (nonlinear_arith)
            requires
                0 <= f < n,
                0 <= c < channels,
                n <= shorter / channels,
                channels > 0,
        {
            assert(f + 1 <= shorter / channels);
            assert((f + 1) * channels <= (shorter / channels) * channels);
            assert((shorter / channels) * channels <= shorter);
        }
    }
    n
}

/// Index `i` of a source of `len1` frames has a partner `i + shift` in a
/// source of `len2` frames.
pub open spec fn has_partner(i: int, len1: int, len2: int, shift: int) -> bool {
    0 <= i < len1 && 0 <= i + shift < len2
}

/// The indices `i` of the first source whose partner `i + shift` in the
/// second source exists: the overlap of the two sources at that shift, as a
/// half-open range.
pub fn overlap_range(len1: usize, len2: usize, shift: i32) -> (r: (usize, usize))
    ensures
        r.0 <= r.1 <= len1,
        forall|i: int| r.0 <= i < r.1 <==> #[trigger] has_partner(i, len1 as int, len2 as int, shift as int),
{
    if shift >= 0 {
        let s: usize = shift as usize;
        if s < len2 {
            let room: usize = len2 - s;
            let end: usize = if room < len1 { room } else { len1 };
            (0, end)
        } else {
            (0, 0)
        }
    } else {
        let a: usize = (-(shift as i64)) as usize;
        let start: usize = if a < len1 { a } else { len1 };
        let end: usize = if a >= len1 {
            len1
        } else if len2 >= len1 - a {
            len1
        } else {
            len2 + a
        };
        (start, end)
    }
}

/// The shift that undoes a measured lag: when the second source lags the
/// first by `lag_frames` frames (its sample `i + lag` matches sample `i` of
/// the first), it is advanced by that many frames, and the reverse for a
/// negative lag.
pub open spec fn spec_correction(lag_frames: int, channels: nat) -> int {
    -(lag_frames * channels)
}

/// The shift, in samples, that `apply_shift` needs to undo a lag of
/// `lag_frames` frames.
pub fn correction_for_lag(lag_frames: i32, channels: usize) -> (c: i32)
    requires
        -(i32::MAX as int) <= lag_frames * channels <= i32::MAX,
    ensures
        c == spec_correction(lag_frames as int, channels as nat),
        c != i32::MIN,
{
    if lag_frames == 0 {
        assert(lag_frames * channels == 0);
        return 0;
    }
    assert(channels <= i32::MAX) by (nonlinear_arith)
        requires
            lag_frames != 0,
            -(i32::MAX as int) <= lag_frames * channels <= i32::MAX,
    {
        if lag_frames > 0 {
            assert(lag_frames * channels >= channels);
        } else {
            assert(lag_frames * channels <= -(channels as int));
        }
    }
    let ch: i32 = channels as i32;
    -(lag_frames * ch)
}

/// The FFT size of the GCC-PHAT correlator: room for the compared frames
/// and the shifts on both sides, rounded up to a power of two.
pub fn fft_size(num_frames: usize, max_shift_frames: usize) -> (size: usize)
    requires
        num_frames + 2 * max_shift_frames <= usize::MAX / 2 + 1,
    ensures
        is_power_of_two(size as int),
        size >= num_frames + 2 * max_shift_frames,
        forall|e: nat| #[trigger] pow2(e) >= num_frames + 2 * max_shift_frames ==> size <= pow2(e),
{
    GccPhatCorrelator::next_power_of_2(num_frames + max_shift_frames * 2)
}

/// The largest shift, in frames, that the GCC-PHAT search tries in either
/// direction: the requested one, but no more than half the FFT size.
pub fn fft_search_limit(max_shift_frames: usize, fft_size: usize) -> (m: usize)
    ensures
        m == if max_shift_frames < fft_size / 2 { max_shift_frames } else { fft_size / 2 },
{
    let half: usize = fft_size / 2;
    if max_shift_frames < half { max_shift_frames } else { half }
}

/// A delay by any positive `shift`, followed by an advance of the same size,
/// gives back the samples (when there are any).
pub proof fn lemma_advance_undoes_delay<T>(samples: Seq<T>, shift: int, channels: nat, silence: T)
    requires
        channels > 0,
        shift > 0,
        samples.len() > 0,
    ensures
        shifted(shifted(samples, shift, channels, silence), -shift, channels, silence) == samples,
{
    let fs = frame_aligned(shift_magnitude(shift), channels);
    let delayed = shifted(samples, shift, channels, silence);
    assert(delayed == silence_of(fs, silence) + samples);
    assert(shift_magnitude(-shift) == shift_magnitude(shift));
    assert(delayed.skip(fs as int) =~= samples);
}

/// A source that lags by whole frames, corrected with `apply_shift` and the
/// correction for that lag, gives back the undelayed source.
pub proof fn lemma_correction_undoes_delay<T>(samples: Seq<T>, lag_frames: nat, channels: nat, silence: T)
    requires
        channels > 0,
        samples.len() > 0,
    ensures
        shifted(
            silence_of(lag_frames * channels, silence) + samples,
            spec_correction(lag_frames as int, channels),
            channels,
            silence,
        ) == samples,
{
    let delayed = silence_of(lag_frames * channels, silence) + samples;
    let shift = spec_correction(lag_frames as int, channels);
    if lag_frames == 0 {
        assert(lag_frames * channels == 0) by (nonlinear_arith)
            requires lag_frames == 0;
        assert(shift == 0);
        assert(delayed =~= samples);
    } else {
        assert(lag_frames * channels > 0) by (nonlinear_arith)
            requires lag_frames > 0, channels > 0;
        vstd::arithmetic::div_mod::lemma_div_multiples_vanish(lag_frames as int, channels as int);
        vstd::arithmetic::mul::lemma_mul_is_commutative(lag_frames as int, channels as int);
        assert(shift_magnitude(shift) == lag_frames * channels);
        assert(frame_aligned(shift_magnitude(shift), channels) == lag_frames * channels);
        assert(delayed.skip((lag_frames * channels) as int) =~= samples);
    }
}

/// A source that leads by whole frames (it lost its first `lead_frames`
/// frames), corrected with `apply_shift` and the correction for that lag,
/// is realigned: everything after the lost frames is back in place, and the
/// lost frames are silence.
pub proof fn lemma_correction_undoes_advance<T>(samples: Seq<T>, lead_frames: nat, channels: nat, silence: T)
    requires
        channels > 0,
        lead_frames * channels <= samples.len(),
    ensures
        ({
            let fixed = shifted(
                samples.skip((lead_frames * channels) as int),
                spec_correction(-(lead_frames as int), channels),
                channels,
                silence,
            );
            &&& fixed.len() == samples.len()
            &&& fixed.take((lead_frames * channels) as int) == silence_of(lead_frames * channels, silence)
            &&& fixed.skip((lead_frames * channels) as int) == samples.skip((lead_frames * channels) as int)
        }),
{
    let k = lead_frames * channels;
    let shift = spec_correction(-(lead_frames as int), channels);
    assert(shift == k) by (nonlinear_arith)
        requires shift == -((-(lead_frames as int)) * channels), k == lead_frames * channels;
    vstd::arithmetic::div_mod::lemma_div_multiples_vanish(lead_frames as int, channels as int);
    vstd::arithmetic::mul::lemma_mul_is_commutative(lead_frames as int, channels as int);
    let fixed = shifted(samples.skip(k as int), shift, channels, silence);
    if k == 0 {
        assert(fixed =~= samples.skip(0));
        assert(fixed.take(0) =~= silence_of(0, silence));
        assert(fixed.skip(0) =~= fixed);
    } else {
        assert(frame_aligned(shift_magnitude(shift), channels) == k);
        assert(fixed =~= silence_of(k, silence) + samples.skip(k as int));
        assert(fixed.take(k as int) =~= silence_of(k, silence));
        assert(fixed.skip(k as int) =~= samples.skip(k as int));
    }
}

proof fn lemma_pow2_unfold_zero()
    ensures
        pow2(0) == 1,
{
    lemma_pow2(0);
    vstd::arithmetic::power::lemma_pow0(2);
}

} // verus!
