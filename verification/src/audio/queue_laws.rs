//! What goes into the queues of the player comes out of them, sample by sample.

use crate::arith::clamp_i64;
use crate::audio::clock::ClockView;
use crate::audio::decode::{opus_rate, webcodecs_timestamp, DecodedAudio};
use crate::audio::output::{asked_format, offered, output_format, SinkFormat, SupportedFormats};
use crate::audio::resampler::{interleaved, plane};
use crate::audio::ring::{frames_of, SampleRing};
use crate::audio::sink_ring::Ring;
use vstd::prelude::*;

verus! {

proof fn lemma_frame_sample<S>(samples: Seq<S>, channels: nat, f: int, c: int)
    requires
        channels > 0,
        0 <= f < samples.len() / channels,
        0 <= c < channels,
    ensures
        0 <= f * channels + c < samples.len(),
        frames_of(samples, channels).len() == samples.len() / channels,
        frames_of(samples, channels)[f].len() == channels,
        frames_of(samples, channels)[f][c] == samples[f * channels + c],
{
    let len = samples.len() as int;
    let n = channels as int;
    assert(0 <= f * n && f * n + n <= len) by (nonlinear_arith)
        requires
            n > 0,
            0 <= f < len / n,
            len >= 0,
    ;
}

/// Interleaved samples are cut into frames of one sample per channel: sample `c` of frame `f`
/// stands at `f * channels + c`, and as many frames come of them as are whole.
pub proof fn frames_are_cut_in_order<S>(samples: Seq<S>, channels: nat)
    requires
        channels > 0,
    ensures
        frames_of(samples, channels).len() == samples.len() / channels,
        forall|f: int, c: int|
            0 <= f < frames_of(samples, channels).len() && 0 <= c < channels ==> #[trigger]
            frames_of(samples, channels)[f][c] == samples[f * channels + c],
        forall|f: int|
            0 <= f < frames_of(samples, channels).len() ==> (#[trigger] frames_of(
                samples,
                channels,
            )[f]).len() == channels,
{
    assert forall|f: int, c: int|
        0 <= f < frames_of(samples, channels).len() && 0 <= c < channels implies #[trigger]
    frames_of(samples, channels)[f][c] == samples[f * channels + c] by {
        lemma_frame_sample(samples, channels, f, c);
    }
    assert forall|f: int| 0 <= f < frames_of(samples, channels).len() implies (#[trigger] frames_of(
        samples,
        channels,
    )[f]).len() == channels by {
        lemma_frame_sample(samples, channels, f, 0);
    }
}

/// Writing to the queue of a player adds the whole frames of the input behind what is queued, as
/// many as there is room for, sample by sample.
pub proof fn writing_adds_behind<S: Copy>()
    ensures
        forall|ring: &mut SampleRing<S>, data: &[S], n: usize|
            ring.wf() && #[trigger] call_ensures(SampleRing::<S>::write, (ring, data), n) ==> {
                let before = ring@;
                let after = final(ring)@;
                let channels = ring.frame_len();
                &&& after.len() == before.len() + n
                &&& n == data@.len() / channels || after.len() == ring.capacity()
                &&& n <= data@.len() / channels
                &&& after.len() <= ring.capacity()
                &&& forall|f: int| 0 <= f < before.len() ==> #[trigger] after[f] == before[f]
                &&& forall|f: int, c: int|
                    before.len() <= f < after.len() && 0 <= c < channels ==> #[trigger] after[f][c]
                        == data@[(f - before.len()) * channels + c]
            },
{
    assert forall|ring: &mut SampleRing<S>, data: &[S], n: usize|
        ring.wf() && #[trigger] call_ensures(SampleRing::<S>::write, (ring, data), n) implies {
        let before = ring@;
        let after = final(ring)@;
        let channels = ring.frame_len();
        &&& after.len() == before.len() + n
        &&& n == data@.len() / channels || after.len() == ring.capacity()
        &&& n <= data@.len() / channels
        &&& after.len() <= ring.capacity()
        &&& forall|f: int| 0 <= f < before.len() ==> #[trigger] after[f] == before[f]
        &&& forall|f: int, c: int|
            before.len() <= f < after.len() && 0 <= c < channels ==> #[trigger] after[f][c]
                == data@[(f - before.len()) * channels + c]
    } by {
        let before = ring@;
        let after = final(ring)@;
        let channels = ring.frame_len();
        ring.lemma_wf();
        frames_are_cut_in_order(data@, channels);
        assert forall|f: int, c: int|
            before.len() <= f < after.len() && 0 <= c < channels implies #[trigger] after[f][c]
            == data@[(f - before.len()) * channels + c] by {
            assert(after[f] == frames_of(data@, channels)[f - before.len()]);
            lemma_frame_sample(data@, channels, f - before.len(), c);
        }
    }
}

/// Draining the queue of a player hands out its first frames, sample by sample, as many as there
/// is room for, and leaves the others; where the queue runs out, the rest is silence.
pub proof fn draining_takes_from_the_front<S: Copy>()
    ensures
        forall|ring: &mut SampleRing<S>, out: &mut [S], n: usize|
            ring.wf() && #[trigger] call_ensures(SampleRing::<S>::drain_into, (ring, out), n)
                ==> {
                let before = ring@;
                let after = final(ring)@;
                let channels = ring.frame_len();
                &&& n <= before.len()
                &&& n == before.len() || n == out@.len() / channels
                &&& n <= out@.len() / channels
                &&& after.len() == before.len() - n
                &&& forall|f: int| 0 <= f < after.len() ==> #[trigger] after[f] == before[f + n]
                &&& forall|f: int, c: int|
                    0 <= f < n && 0 <= c < channels ==> #[trigger] before[f][c]
                        == final(out)@[f * channels + c]
                &&& n < out@.len() / channels ==> forall|i: int|
                    n * channels <= i < out@.len() ==> #[trigger] final(out)@[i] == ring.silent()
            },
{
    assert forall|ring: &mut SampleRing<S>, out: &mut [S], n: usize|
        ring.wf() && #[trigger] call_ensures(
            SampleRing::<S>::drain_into,
            (ring, out),
            n,
        ) implies {
        let before = ring@;
        let after = final(ring)@;
        let channels = ring.frame_len();
        &&& n <= before.len()
        &&& n == before.len() || n == out@.len() / channels
        &&& n <= out@.len() / channels
        &&& after.len() == before.len() - n
        &&& forall|f: int| 0 <= f < after.len() ==> #[trigger] after[f] == before[f + n]
        &&& forall|f: int, c: int|
            0 <= f < n && 0 <= c < channels ==> #[trigger] before[f][c] == final(out)@[f * channels
                + c]
        &&& n < out@.len() / channels ==> forall|i: int|
            n * channels <= i < out@.len() ==> #[trigger] final(out)@[i] == ring.silent()
    } by {
        let before = ring@;
        let channels = ring.frame_len();
        let handed = final(out)@;
        ring.lemma_wf();
        assert(handed.len() == out@.len());
        assert forall|f: int, c: int| 0 <= f < n && 0 <= c < channels implies #[trigger] before[f][c]
            == handed[f * channels + c] by {
            lemma_frame_sample(handed, channels, f, c);
            assert(frames_of(handed, channels).take(n as int)[f] == before.take(n as int)[f]);
        }
    }
}

/// The queue of a device takes samples behind those that it holds, as many as there is room for,
/// and hands them out from the front; what it cannot fill is silence.
pub proof fn devices_hear_samples_in_order<S: Copy>()
    ensures
        forall|ring: &mut Ring<S>, data: &[S], n: usize|
            ring.wf() && #[trigger] call_ensures(Ring::<S>::push, (ring, data), n) ==> {
                &&& n <= data@.len()
                &&& final(ring)@.len() == ring@.len() + n
                &&& n == data@.len() || final(ring)@.len() == ring.capacity()
                &&& forall|i: int| 0 <= i < ring@.len() ==> #[trigger] final(ring)@[i] == ring@[i]
                &&& forall|i: int|
                    0 <= i < n ==> final(ring)@[ring@.len() + i] == #[trigger] data@[i]
            },
        forall|ring: &mut Ring<S>, out: &mut [S], silence: S|
            ring.wf() && #[trigger] call_ensures(Ring::<S>::fill, (ring, out, silence), ()) ==> {
                &&& final(out)@.len() == out@.len()
                &&& forall|i: int|
                    0 <= i < out@.len() ==> #[trigger] final(out)@[i] == (if i < ring@.len() {
                        ring@[i]
                    } else {
                        silence
                    })
                &&& forall|i: int|
                    0 <= i < final(ring)@.len() ==> #[trigger] final(ring)@[i] == ring@[i
                        + out@.len()]
                &&& final(ring)@.len() == (if ring@.len() <= out@.len() {
                    0
                } else {
                    ring@.len() - out@.len()
                })
            },
        forall|ring: &mut Ring<S>, out: &mut [S], n: usize|
            ring.wf() && #[trigger] call_ensures(Ring::<S>::pop_into, (ring, out), n) ==> {
                &&& n <= ring@.len()
                &&& n <= out@.len()
                &&& n == ring@.len() || n == out@.len()
                &&& final(ring)@.len() == ring@.len() - n
                &&& forall|i: int|
                    0 <= i < final(ring)@.len() ==> #[trigger] final(ring)@[i] == ring@[i + n]
                &&& final(out)@.len() == out@.len()
                &&& forall|i: int|
                    0 <= i < out@.len() ==> #[trigger] final(out)@[i] == (if i < n {
                        ring@[i]
                    } else {
                        out@[i]
                    })
            },
{
    assert forall|ring: &mut Ring<S>, data: &[S], n: usize|
        ring.wf() && #[trigger] call_ensures(Ring::<S>::push, (ring, data), n) implies {
        &&& n <= data@.len()
        &&& final(ring)@.len() == ring@.len() + n
        &&& n == data@.len() || final(ring)@.len() == ring.capacity()
        &&& forall|i: int| 0 <= i < ring@.len() ==> #[trigger] final(ring)@[i] == ring@[i]
        &&& forall|i: int| 0 <= i < n ==> final(ring)@[ring@.len() + i] == #[trigger] data@[i]
    } by {
        ring.lemma_wf();
    }
}

/// Interleaved PCM and planes hold the same samples: frame `f` of channel `c` stands at
/// `f * channels + c`.
pub proof fn planes_hold_their_channel<S>(pcm: Seq<S>, channels: int, c: int, f: int)
    requires
        channels > 0,
        0 <= c < channels,
        0 <= f < pcm.len() as int / channels,
    ensures
        plane(pcm, channels, c).len() == pcm.len() as int / channels,
        plane(pcm, channels, c)[f] == pcm[f * channels + c],
{
    let len = pcm.len() as int;
    assert(0 <= len / channels) by (nonlinear_arith)
        requires
            len >= 0,
            channels > 0,
    ;
}

/// Interleaving puts frame `f` of plane `c` at `f * planes + c`.
pub proof fn interleaving_alternates_planes<S>(planes: Seq<Seq<S>>, frames: nat, f: int, c: int)
    requires
        0 <= f < frames,
        0 <= c < planes.len(),
    ensures
        interleaved(planes, frames).len() == frames * planes.len(),
        0 <= f * planes.len() + c < frames * planes.len(),
        interleaved(planes, frames)[f * planes.len() + c] == planes[c][f],
    decreases frames,
{
    let n = planes.len() as int;
    let m = (frames - 1) as nat;
    assert(m * n + n == frames * n) by (nonlinear_arith)
        requires
            m == frames - 1,
    ;
    if m > 0 {
        interleaving_alternates_planes(planes, m, 0, 0);
    } else {
        assert(m * n == 0) by (nonlinear_arith)
            requires
                m == 0,
        ;
        assert(interleaved(planes, m) =~= Seq::<S>::empty());
    }
    assert(interleaved(planes, m).len() == m * n);
    if f < m {
        interleaving_alternates_planes(planes, m, f, c);
        assert(f * n + c < m * n);
    } else {
        assert(f == m);
    }
}

/// The clock tells the time at which it began and as long as all frames since then last, in
/// whatever runs they came, as long as that can be told.
pub proof fn the_clock_tells_all_frames(clock: ClockView, base_ns: i64, counts: Seq<u64>)
    requires
        clock.rate > 0,
        counts.fold_left(0int, |n: int, c: u64| n + c) <= u128::MAX,
    ensures
        counts.fold_left(
            clock.realigned(base_ns),
            |k: ClockView, c: u64| k.advanced(c),
        ).now() == clamp_i64(
            base_ns + counts.fold_left(0int, |n: int, c: u64| n + c) * 1_000_000_000
                / clock.rate as int,
        ),
{
    lemma_clock(clock, base_ns, counts);
}

proof fn lemma_clock(clock: ClockView, base_ns: i64, counts: Seq<u64>)
    requires
        counts.fold_left(0int, |n: int, c: u64| n + c) <= u128::MAX,
    ensures
        0 <= counts.fold_left(0int, |n: int, c: u64| n + c),
        counts.fold_left(clock.realigned(base_ns), |k: ClockView, c: u64| k.advanced(c)) == (
        ClockView {
            rate: clock.rate,
            base_ns,
            frames: counts.fold_left(0int, |n: int, c: u64| n + c) as nat,
        }),
    decreases counts.len(),
{
    if counts.len() > 0 {
        lemma_clock(clock, base_ns, counts.drop_last());
    }
}

/// Opus decodes to the rates of which 48 kHz is once, twice, three, four or six times as much.
pub proof fn opus_rates_divide_48_khz(rate: u32)
    ensures
        opus_rate(rate) <==> rate == 48_000 || 2 * rate == 48_000 || 3 * rate == 48_000 || 4 * rate
            == 48_000 || 6 * rate == 48_000,
{
}

/// A block of whole frames has one sample for each channel in each of its frames.
pub proof fn blocks_count_whole_frames<S>(audio: DecodedAudio<S>)
    requires
        audio.channels > 0,
    ensures
        audio.frames() * audio.channels <= audio.samples@.len(),
        audio.samples@.len() < (audio.frames() + 1) * audio.channels,
{
    let len = audio.samples@.len() as int;
    let c = audio.channels as int;
    assert(len / c * c <= len < (len / c + 1) * c) by (nonlinear_arith)
        requires
            len >= 0,
            c > 0,
    ;
}

/// A time stamp in the browser is the time in microseconds, rounded toward zero, as far as it
/// fits; later times have no earlier stamps.
pub proof fn browser_time_stamps_follow_time(a: i64, b: i64, stamp_a: i32, stamp_b: i32)
    requires
        call_ensures(webcodecs_timestamp, (a,), stamp_a),
        call_ensures(webcodecs_timestamp, (b,), stamp_b),
        a <= b,
    ensures
        stamp_a <= stamp_b,
        0 <= a <= 2_147_483_647_000 ==> stamp_a * 1_000 <= a < stamp_a * 1_000 + 1_000,
        -2_147_483_648_000 <= a <= 0 ==> stamp_a * 1_000 - 1_000 < a <= stamp_a * 1_000,
{
}

/// A device is opened with what was asked for where one of the supported formats has the channels
/// and reaches over the rate, and with its default otherwise. What was left open is as in the
/// default.
pub proof fn devices_open_with_hints_they_support(
    rate: Option<u32>,
    channels: Option<u16>,
    default: SinkFormat,
    supported: &Vec<SupportedFormats>,
    r: SinkFormat,
    wanted: SinkFormat,
)
    requires
        call_ensures(output_format, (rate, channels, default, supported), r),
        rate is Some ==> wanted.sample_rate == rate->0,
        rate is None ==> wanted.sample_rate == default.sample_rate,
        channels is Some ==> wanted.channels == channels->0,
        channels is None ==> wanted.channels == default.channels,
    ensures
        forall|i: int|
            0 <= i < supported@.len() && (#[trigger] supported@[i]).channels == wanted.channels
                && supported@[i].min_sample_rate <= wanted.sample_rate && wanted.sample_rate
                <= supported@[i].max_sample_rate ==> r == wanted,
        (forall|i: int|
            0 <= i < supported@.len() ==> (#[trigger] supported@[i]).channels != wanted.channels
                || supported@[i].min_sample_rate > wanted.sample_rate || wanted.sample_rate
                > supported@[i].max_sample_rate) ==> r == default,
{
    assert(wanted == asked_format(rate, channels, default));
    assert forall|i: int|
        0 <= i < supported@.len() && (#[trigger] supported@[i]).channels == wanted.channels
            && supported@[i].min_sample_rate <= wanted.sample_rate && wanted.sample_rate
            <= supported@[i].max_sample_rate implies r == wanted by {
        assert(supported@[i].has(wanted));
        assert(offered(supported@, wanted));
    }
}

} // verus!
