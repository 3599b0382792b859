//! The decoder's position in media time.

use crate::arith::clamp_i64;
use vstd::prelude::*;

verus! {

/// How long `n` frames last at `rate` frames per second, in whole nanoseconds.
pub open spec fn frames_ns(n: int, rate: int) -> int {
    n * 1_000_000_000 / rate
}

/// Counts the frames that the decoder has produced since it last began somewhere.
#[derive(Debug, Clone, Copy)]
pub struct MediaClock {
    sample_rate: u32,
    /// Time of the sample at which counting began.
    base_ns: i64,
    /// Frames since then.
    frames: u128,
}

/// What a clock has counted.
#[verifier::ext_equal]
pub struct ClockView {
    /// Frames per second.
    pub rate: u32,
    /// Time of the sample at which counting began.
    pub base_ns: i64,
    /// Frames since then.
    pub frames: nat,
}

impl ClockView {
    /// The position: the time of the next sample that the decoder will emit. Without a rate it
    /// stays where counting began.
    pub open spec fn now(self) -> i64 {
        if self.rate == 0 {
            self.base_ns
        } else {
            clamp_i64(self.base_ns + frames_ns(self.frames as int, self.rate as int))
        }
    }

    /// The clock after `n` more frames.
    pub open spec fn advanced(self, n: u64) -> ClockView {
        ClockView { frames: counted(self.frames, n), ..self }
    }

    /// The clock when counting begins anew at `base_ns`.
    pub open spec fn realigned(self, base_ns: i64) -> ClockView {
        ClockView { base_ns, frames: 0, ..self }
    }
}

/// The number of frames after `n` more, as far as it can be counted.
pub open spec fn counted(frames: nat, n: u64) -> nat {
    if frames + n <= u128::MAX {
        (frames + n) as nat
    } else {
        u128::MAX as nat
    }
}

/// So many frames last longer than the range of `i64`, at any rate.
const BEYOND_TIME: u128 = 79_228_162_514_264_337_593_543_950_336;

impl View for MediaClock {
    type V = ClockView;

    closed spec fn view(&self) -> ClockView {
        ClockView { rate: self.sample_rate, base_ns: self.base_ns, frames: self.frames as nat }
    }
}

impl MediaClock {
    /// A clock at the start of a stream.
    pub fn new(sample_rate: u32) -> (r: Self)
        ensures
            r@ == (ClockView { rate: sample_rate, base_ns: 0, frames: 0 }),
            r@.now() == 0,
    {
        let r = MediaClock { sample_rate, base_ns: 0, frames: 0 };
        proof {
            if sample_rate > 0 {
                lemma_no_frames(sample_rate as int);
            }
        }
        r
    }

    /// The position, in nanoseconds.
    pub fn pts_ns(&self) -> (r: i64)
        ensures
            r == self@.now(),
    {
        if self.sample_rate == 0 {
            return self.base_ns;
        }
        let rate: u128 = self.sample_rate as u128;
        if self.frames >= BEYOND_TIME {
            proof {
                lemma_beyond_time(self.frames as int, rate as int);
            }
            return i64::MAX;
        }
        let scaled: u128 = self.frames * 1_000_000_000;
        let offset: u128 = scaled / rate;
        assert(offset == frames_ns(self.frames as int, rate as int));
        if offset > u64::MAX as u128 {
            return i64::MAX;
        }
        let sum: i128 = self.base_ns as i128 + offset as i128;
        if sum > i64::MAX as i128 {
            i64::MAX
        } else {
            sum as i64
        }
    }

    /// Moves the position to `target_pts_ns`, as after a seek. The playhead only gives context.
    pub fn realign(&mut self, target_pts_ns: i64, _playhead_ns: i64)
        ensures
            final(self)@ == old(self)@.realigned(target_pts_ns),
            final(self)@.now() == target_pts_ns,
    {
        self.base_ns = target_pts_ns;
        self.frames = 0;
        proof {
            if self.sample_rate > 0 {
                lemma_no_frames(self.sample_rate as int);
            }
        }
    }

    /// Moves the position on by `n` frames. Without a rate it stays.
    pub fn advance_frames(&mut self, n: u64)
        ensures
            final(self)@ == old(self)@.advanced(n),
            old(self)@.now() <= final(self)@.now(),
    {
        proof {
            position_never_falls(self@, n);
        }
        self.frames = match self.frames.checked_add(n as u128) {
            Some(frames) => frames,
            None => u128::MAX,
        };
    }
}

proof fn lemma_no_frames(rate: int)
    requires
        rate > 0,
    ensures
        frames_ns(0, rate) == 0,
{
    assert(0int / rate == 0) by (nonlinear_arith)
        requires
            rate > 0,
    ;
}

proof fn lemma_beyond_time(frames: int, rate: int)
    requires
        frames >= BEYOND_TIME,
        0 < rate <= u32::MAX,
    ensures
        frames_ns(frames, rate) > 2 * u64::MAX,
{
    let scaled = frames * 1_000_000_000;
    let q = scaled / rate;
    let m = scaled % rate;
    assert(scaled == q * rate + m && 0 <= m < rate) by (nonlinear_arith)
        requires
            rate > 0,
            q == scaled / rate,
            m == scaled % rate,
    ;
    assert(q > 2 * 0xffff_ffff_ffff_ffff) by (nonlinear_arith)
        requires
            scaled == q * rate + m,
            0 <= m < rate,
            0 < rate <= 0xffff_ffff,
            scaled >= 79_228_162_514_264_337_593_543_950_336 * 1_000_000_000,
    ;
}

/// A clock after several runs of frames.
pub open spec fn advanced_by_all(clock: ClockView, counts: Seq<u64>) -> ClockView
    decreases counts.len(),
{
    if counts.len() == 0 {
        clock
    } else {
        advanced_by_all(clock, counts.drop_last()).advanced(counts.last())
    }
}

/// The number of frames in several runs.
pub open spec fn total_frames(counts: Seq<u64>) -> nat
    decreases counts.len(),
{
    if counts.len() == 0 {
        0
    } else {
        total_frames(counts.drop_last()) + counts.last() as nat
    }
}

/// Media time is the number of samples by the rate: in whatever runs the frames come, after a
/// seek to `base_ns` the position is `base_ns` and as long as all of them together last.
pub proof fn media_time_counts_samples(clock: ClockView, base_ns: i64, counts: Seq<u64>)
    requires
        clock.rate > 0,
        total_frames(counts) <= u128::MAX,
    ensures
        advanced_by_all(clock.realigned(base_ns), counts).now() == clamp_i64(
            base_ns + total_frames(counts) as int * 1_000_000_000 / clock.rate as int,
        ),
{
    lemma_counts_add_up(clock.realigned(base_ns), counts);
}

proof fn lemma_counts_add_up(clock: ClockView, counts: Seq<u64>)
    requires
        clock.frames + total_frames(counts) <= u128::MAX,
    ensures
        advanced_by_all(clock, counts) == (ClockView {
            frames: (clock.frames + total_frames(counts)) as nat,
            ..clock
        }),
    decreases counts.len(),
{
    if counts.len() > 0 {
        lemma_counts_add_up(clock, counts.drop_last());
    }
}

/// The position never falls as frames are counted.
pub proof fn position_never_falls(clock: ClockView, n: u64)
    requires
        clock.frames <= u128::MAX,
    ensures
        clock.now() <= clock.advanced(n).now(),
{
    if clock.rate > 0 {
        let a = clock.frames as int * 1_000_000_000;
        let b = clock.advanced(n).frames as int * 1_000_000_000;
        let r = clock.rate as int;
        assert(a / r <= b / r) by (nonlinear_arith)
            requires
                a <= b,
                r > 0,
        ;
    }
}

} // verus!
