//! Level processing of audio sources: the processor type and the channel
//! layout conversions that resampling works on.

use vstd::prelude::*;
use crate::correlation::interleaved_index;

verus! {

/// Holds the level and resampling operations on audio samples.
#[derive(Debug, PartialEq, Eq)]
pub struct Processor {}

impl Processor {
    pub fn new() -> (p: Self)
        ensures
            p == (Processor {}),
    {
        Processor {}
    }
}

/// How many of `len` interleaved samples belong to channel `channel` of
/// `channels`: those at positions `channel`, `channel + channels`, ...
pub open spec fn channel_len(len: nat, channels: nat, channel: nat) -> nat {
    if channel >= len {
        0
    } else {
        ((len - channel - 1) as nat / channels + 1) as nat
    }
}

/// Channel `channel` of interleaved audio: every sample whose position
/// leaves remainder `channel` when divided by `channels`, in order.
pub open spec fn spec_channel<T>(samples: Seq<T>, channels: nat, channel: nat) -> Seq<T> {
    Seq::new(
        channel_len(samples.len(), channels, channel),
        |f: int| samples[interleaved_index(f, channel as int, channels as int)],
    )
}

/// Interleaved audio split into one sequence per channel.
pub open spec fn spec_deinterleave<T>(samples: Seq<T>, channels: nat) -> Seq<Seq<T>> {
    Seq::new(channels, |c: int| spec_channel(samples, channels, c as nat))
}

/// Per-channel audio interleaved frame by frame; as many frames as the
/// first channel holds.
pub open spec fn spec_interleave<T>(channel_data: Seq<Seq<T>>) -> Seq<T> {
    let n = channel_data.len();
    let frames = channel_data[0].len();
    Seq::new(frames * n, |i: int| channel_data[i % (n as int)][i / (n as int)])
}

/// Every channel holds at least `frames` samples.
pub open spec fn channels_cover<T>(channel_data: Seq<Seq<T>>, frames: nat) -> bool {
    forall|c: int| 0 <= c < channel_data.len() ==> #[trigger] channel_data[c].len() >= frames
}

proof fn lemma_channel_index_in_bounds(len: nat, channels: nat, channel: nat, f: int)
    requires
        channels > 0,
        channel < channels,
        0 <= f < channel_len(len, channels, channel),
    ensures
        0 <= interleaved_index(f, channel as int, channels as int) < len,
{
    let q = (len - channel - 1) as nat / channels;
    assert(f <= q);
    assert(f * channels <= q * channels) by (nonlinear_arith)
        requires f <= q, channels > 0;
    vstd::arithmetic::div_mod::lemma_fundamental_div_mod((len - channel - 1) as int, channels as int);
    vstd::arithmetic::mul::lemma_mul_is_commutative(q as int, channels as int);
    assert(f * channels >= 0) by (nonlinear_arith)
        requires f >= 0, channels > 0;
}

/// Split interleaved samples into one vector per channel (sample `i` goes
/// to channel `i % channels`).
pub fn deinterleave<T: Copy>(samples: &[T], channels: usize) -> (out: Vec<Vec<T>>)
    requires
        channels > 0 || samples@.len() == 0,
    ensures
        out@.len() == channels,
        forall|c: int| 0 <= c < channels ==> (#[trigger] out@[c])@ == spec_channel(samples@, channels as nat, c as nat),
{
    let len = samples.len();
    let mut out: Vec<Vec<T>> = Vec::new();
    let mut c: usize = 0;
    while c < channels
        invariant
            c <= channels,
            len == samples@.len(),
            out@.len() == c,
            forall|k: int| 0 <= k < c ==> (#[trigger] out@[k])@ == spec_channel(samples@, channels as nat, k as nat),
        decreases channels - c,
    {
        let count: usize = if c >= len { 0 } else { (len - c - 1) / channels + 1 };
        assert(count == channel_len(len as nat, channels as nat, c as nat));
        let mut data: Vec<T> = Vec::new();
        let mut f: usize = 0;
        while f < count
            invariant
                f <= count,
                c < channels,
                len == samples@.len(),
                count == channel_len(len as nat, channels as nat, c as nat),
                data@ == spec_channel(samples@, channels as nat, c as nat).take(f as int),
            decreases count - f,
        {
            proof {
                lemma_channel_index_in_bounds(len as nat, channels as nat, c as nat, f as int);
            }
            let idx: usize = f * channels + c;
            data.push(samples[idx]);
            f = f + 1;
            assert(data@ =~= spec_channel(samples@, channels as nat, c as nat).take(f as int));
        }
        assert(data@ =~= spec_channel(samples@, channels as nat, c as nat));
        out.push(data);
        c = c + 1;
    }
    out
}

/// Interleave per-channel samples frame by frame, taking as many frames as
/// the first channel holds.
pub fn interleave<T: Copy>(channel_data: &Vec<Vec<T>>) -> (out: Vec<T>)
    requires
        channel_data@.len() > 0,
        channels_cover(channel_data@.map_values(|v: Vec<T>| v@), channel_data@[0]@.len()),
        channel_data@[0]@.len() * channel_data@.len() <= usize::MAX,
    ensures
        out@ == spec_interleave(channel_data@.map_values(|v: Vec<T>| v@)),
{
    let ghost data = channel_data@.map_values(|v: Vec<T>| v@);
    let n = channel_data.len();
    let frames = channel_data[0].len();
    let mut out: Vec<T> = Vec::new();
    let mut f: usize = 0;
    while f < frames
        invariant
            f <= frames,
            n == channel_data@.len(),
            n > 0,
            frames == data[0].len(),
            frames * n <= usize::MAX,
            data == channel_data@.map_values(|v: Vec<T>| v@),
            channels_cover(data, frames as nat),
            out@ == spec_interleave(data).take(f * n),
        decreases frames - f,
    {
        let mut c: usize = 0;
        while c < n
            invariant
                c <= n,
                f < frames,
                n == channel_data@.len(),
                n > 0,
                frames == data[0].len(),
                frames * n <= usize::MAX,
                data == channel_data@.map_values(|v: Vec<T>| v@),
                channels_cover(data, frames as nat),
                out@ == spec_interleave(data).take(f * n + c),
            decreases n - c,
        {
            assert(f * n + c < frames * n) by (nonlinear_arith)
                requires f < frames, c < n;
            assert(data[c as int].len() >= frames);
            out.push(channel_data[c][f]);
            proof {
                let i = f * n + c;
                vstd::arithmetic::div_mod::lemma_fundamental_div_mod_converse(i as int, n as int, f as int, c as int);
                vstd::arithmetic::mul::lemma_mul_is_commutative(n as int, f as int);
            }
            c = c + 1;
            assert(out@ =~= spec_interleave(data).take(f * n + c));
        }
        assert((f + 1) * n == f * n + n) by (nonlinear_arith);
        f = f + 1;
    }
    assert(spec_interleave(data).take(frames * n) =~= spec_interleave(data));
    out
}

/// What to do with a source whose sample rate is `from_rate` when the
/// playback runs at `to_rate`.
#[derive(Debug, Clone, Copy, PartialEq, Eq, Structural)]
pub enum RatePlan {
    /// The rates match: use the samples as they are.
    Keep,
    /// Convert the samples to the playback rate.
    Resample,
    /// The rates differ and resampling was not allowed.
    Refuse,
}

/// Sample rate conversion happens only when the rates differ and it was
/// allowed.
pub fn rate_plan(from_rate: u32, to_rate: u32, allow_resample: bool) -> (plan: RatePlan)
    ensures
        from_rate == to_rate ==> plan == RatePlan::Keep,
        from_rate != to_rate && allow_resample ==> plan == RatePlan::Resample,
        from_rate != to_rate && !allow_resample ==> plan == RatePlan::Refuse,
{
    if from_rate == to_rate {
        RatePlan::Keep
    } else if allow_resample {
        RatePlan::Resample
    } else {
        RatePlan::Refuse
    }
}

/// Interleaving the channels of whole-frame audio gives the audio back.
pub proof fn lemma_interleave_deinterleave<T>(samples: Seq<T>, channels: nat)
    requires
        channels > 0,
        samples.len() % channels == 0,
    ensures
        spec_interleave(spec_deinterleave(samples, channels)) == samples,
{
    let split = spec_deinterleave(samples, channels);
    let len = samples.len();
    let frames = len / channels;
    vstd::arithmetic::div_mod::lemma_fundamental_div_mod(len as int, channels as int);
    vstd::arithmetic::mul::lemma_mul_is_commutative(channels as int, frames as int);
    assert(frames * channels == len);
    assert(split[0].len() == frames) by {
        if len > 0 {
            assert(frames >= 1) by (nonlinear_arith)
                requires frames * channels == len, len > 0, channels > 0;
            assert((len - 1) as int == (frames - 1) * channels + (channels - 1)) by (nonlinear_arith)
                requires frames * channels == len, frames >= 1;
            vstd::arithmetic::div_mod::lemma_fundamental_div_mod_converse(
                (len - 1) as int, channels as int, frames - 1, channels - 1);
        }
    }
    let joined = spec_interleave(split);
    assert(joined.len() == len);
    assert forall|i: int| 0 <= i < len implies joined[i] == samples[i] by {
        let f = i / (channels as int);
        let c = i % (channels as int);
        vstd::arithmetic::div_mod::lemma_fundamental_div_mod(i, channels as int);
        vstd::arithmetic::mul::lemma_mul_is_commutative(channels as int, f);
        assert(0 <= c < channels);
        assert(0 <= f < frames) by (nonlinear_arith)
            requires i == f * channels + c, 0 <= c < channels, 0 <= i < len, frames * channels == len, channels > 0;
        lemma_frame_in_channel(len, channels, c as nat, f);
        assert(interleaved_index(f, c, channels as int) == i);
    }
    assert(joined =~= samples);
}

/// Splitting interleaved equal-length channels gives the channels back.
pub proof fn lemma_deinterleave_interleave<T>(channel_data: Seq<Seq<T>>, frames: nat)
    requires
        channel_data.len() > 0,
        forall|c: int| 0 <= c < channel_data.len() ==> #[trigger] channel_data[c].len() == frames,
    ensures
        spec_deinterleave(spec_interleave(channel_data), channel_data.len()) == channel_data,
{
    let n = channel_data.len();
    let joined = spec_interleave(channel_data);
    assert(joined.len() == frames * n);
    let split = spec_deinterleave(joined, n);
    assert forall|c: int| 0 <= c < n implies #[trigger] split[c] == channel_data[c] by {
        let ch = split[c];
        if frames == 0 {
            assert(frames * n == 0) by (nonlinear_arith) requires frames == 0;
            assert(ch.len() == 0);
        } else {
            assert(frames * n >= 1) by (nonlinear_arith) requires frames >= 1, n >= 1;
            assert((frames * n - c - 1) as int == (frames - 1) * n + (n - c - 1)) by (nonlinear_arith)
                requires 0 <= c < n, frames >= 1;
            vstd::arithmetic::div_mod::lemma_fundamental_div_mod_converse(
                (frames * n - c - 1) as int, n as int, frames - 1, n - c - 1);
            assert(ch.len() == frames);
        }
        assert forall|f: int| 0 <= f < frames implies ch[f] == channel_data[c][f] by {
            let i = interleaved_index(f, c, n as int);
            vstd::arithmetic::div_mod::lemma_fundamental_div_mod_converse(i, n as int, f, c);
            vstd::arithmetic::mul::lemma_mul_is_commutative(n as int, f);
            assert(0 <= i < frames * n) by (nonlinear_arith)
                requires i == f * n + c, 0 <= f < frames, 0 <= c < n;
        }
        assert(ch =~= channel_data[c]);
    }
    assert(split =~= channel_data);
}

/// Frame `f` of whole-frame audio lies in every channel.
proof fn lemma_frame_in_channel(len: nat, channels: nat, channel: nat, f: int)
    requires
        channels > 0,
        channel < channels,
        len % channels == 0,
        0 <= f < len / channels,
    ensures
        f < channel_len(len, channels, channel),
{
    let frames = len / channels;
    vstd::arithmetic::div_mod::lemma_fundamental_div_mod(len as int, channels as int);
    vstd::arithmetic::mul::lemma_mul_is_commutative(channels as int, frames as int);
    assert(channel < len) by (nonlinear_arith)
        requires frames * channels == len, frames >= 1, channel < channels;
    assert((len - channel - 1) as int == (frames - 1) * channels + (channels - channel - 1)) by (nonlinear_arith)
        requires frames * channels == len, frames >= 1, channel < channels;
    vstd::arithmetic::div_mod::lemma_fundamental_div_mod_converse(
        (len - channel - 1) as int, channels as int, frames - 1, channels - channel - 1);
}

} // verus!
