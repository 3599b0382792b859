//! Turning interleaved PCM into planes and back, around a resampler that works on planes.

use vstd::prelude::*;

verus! {

/// The samples of one channel.
pub open spec fn plane<S>(interleaved: Seq<S>, channels: int, channel: int) -> Seq<S> {
    Seq::new(
        (interleaved.len() as int / channels) as nat,
        |f: int| interleaved[f * channels + channel],
    )
}

/// The views of `planes`.
pub open spec fn plane_views<S>(planes: Seq<Vec<S>>) -> Seq<Seq<S>> {
    planes.map_values(|p: Vec<S>| p@)
}

/// The first `frames` frames of `planes`, interleaved.
pub open spec fn interleaved<S>(planes: Seq<Seq<S>>, frames: nat) -> Seq<S>
    decreases frames,
{
    if frames == 0 {
        Seq::empty()
    } else {
        interleaved(planes, (frames - 1) as nat) + Seq::new(
            planes.len(),
            |c: int| planes[c][frames - 1],
        )
    }
}

proof fn lemma_sample_fits(len: int, channels: int, f: int, c: int)
    requires
        channels > 0,
        0 <= f < len / channels,
        0 <= c < channels,
    ensures
        0 <= f * channels + c < len,
{
    assert(0 <= f * channels + c < len) by (nonlinear_arith)
        requires
            channels > 0,
            0 <= f < len / channels,
            0 <= c < channels,
    ;
}

/// Takes the samples of one channel out of interleaved PCM.
pub fn take_plane<S: Copy>(pcm: &[S], channels: usize, channel: usize) -> (r: Vec<S>)
    requires
        channel < channels,
    ensures
        r@ == plane(pcm@, channels as int, channel as int),
{
    let len: usize = pcm.len();
    let frames: usize = len / channels;
    let mut out: Vec<S> = Vec::new();
    let mut f: usize = 0;
    while f < frames
        invariant
            f <= frames,
            channel < channels,
            len == pcm@.len(),
            frames == len as int / channels as int,
            out@ == plane(pcm@, channels as int, channel as int).take(f as int),
        decreases frames - f,
    {
        proof {
            lemma_sample_fits(len as int, channels as int, f as int, channel as int);
            lemma_sample_fits(len as int, channels as int, f as int, 0);
        }
        out.push(pcm[f * channels + channel]);
        f = f + 1;
        assert(out@ =~= plane(pcm@, channels as int, channel as int).take(f as int));
    }
    assert(plane(pcm@, channels as int, channel as int).take(f as int) =~= plane(
        pcm@,
        channels as int,
        channel as int,
    ));
    out
}

/// Brings interleaved PCM from the rate of a stream to that of a device.
pub trait Resample<S> {
    /// Resamples a block. The result is empty while there is not enough input.
    fn process(&mut self, pcm: &[S]) -> (r: Vec<S>);

    /// Discards all internal state.
    fn reset(&mut self);
}

/// What is to be done with a block of PCM.
#[derive(Debug)]
pub enum ResampleStep<S> {
    /// The rates match: this is the result.
    Done(Vec<S>),
    /// There is not enough input for one step: the result is empty.
    Hold,
    /// These planes are to be resampled.
    Run(Vec<Vec<S>>),
}

/// Resamples interleaved PCM from one rate to another. Where the rates match, nothing is done.
#[derive(Debug, Clone, Copy)]
pub struct InterleavedResampler {
    in_rate: u32,
    out_rate: u32,
    channels: usize,
}

/// How many input frames a resampling step takes at least.
pub const CHUNK_FRAMES: usize = 1024;

impl InterleavedResampler {
    /// Input rate.
    pub closed spec fn from_rate(&self) -> u32 {
        self.in_rate
    }

    /// Output rate.
    pub closed spec fn to_rate(&self) -> u32 {
        self.out_rate
    }

    /// Channels.
    pub closed spec fn width(&self) -> usize {
        self.channels
    }

    /// Sets up a resampler from `in_rate` to `out_rate`.
    pub fn new(in_rate: u32, out_rate: u32, channels: u16) -> (r: Self)
        ensures
            r.from_rate() == in_rate,
            r.to_rate() == out_rate,
            r.width() == channels,
    {
        InterleavedResampler { in_rate, out_rate, channels: channels as usize }
    }

    /// Whether nothing has to be done.
    pub fn is_identity(&self) -> (r: bool)
        ensures
            r == (self.from_rate() == self.to_rate()),
    {
        self.in_rate == self.out_rate
    }

    /// Prepares a block of PCM: where the rates match it is the result, and otherwise its planes
    /// are resampled if they have the `expected` number of frames.
    pub fn prepare<S: Copy>(&self, pcm: &[S], expected: usize) -> (r: ResampleStep<S>)
        requires
            self.from_rate() != self.to_rate() ==> self.width() > 0,
        ensures
            if self.from_rate() == self.to_rate() {
                r matches ResampleStep::Done(out) && out@ == pcm@
            } else if pcm@.len() as int / (self.width() as int) < expected {
                r is Hold
            } else {
                &&& r matches ResampleStep::Run(planes)
                &&& planes@.len() == self.width()
                &&& forall|c: int|
                    0 <= c < planes@.len() ==> (#[trigger] planes@[c])@ == plane(
                        pcm@,
                        self.width() as int,
                        c,
                    )
            },
    {
        if self.in_rate == self.out_rate {
            let out = copy_samples(pcm);
            return ResampleStep::Done(out);
        }
        let frames: usize = pcm.len() / self.channels;
        if frames < expected {
            return ResampleStep::Hold;
        }
        let mut planes: Vec<Vec<S>> = Vec::new();
        let mut c: usize = 0;
        while c < self.channels
            invariant
                c <= self.channels,
                planes@.len() == c,
                forall|k: int|
                    0 <= k < c ==> (#[trigger] planes@[k])@ == plane(
                        pcm@,
                        self.channels as int,
                        k,
                    ),
            decreases self.channels - c,
        {
            planes.push(take_plane(pcm, self.channels, c));
            c = c + 1;
        }
        ResampleStep::Run(planes)
    }

    /// Input sample rate, in Hz.
    pub fn in_rate(&self) -> (r: u32)
        ensures
            r == self.from_rate(),
    {
        self.in_rate
    }

    /// Output sample rate, in Hz.
    pub fn out_rate(&self) -> (r: u32)
        ensures
            r == self.to_rate(),
    {
        self.out_rate
    }
}

fn copy_samples<S: Copy>(pcm: &[S]) -> (r: Vec<S>)
    ensures
        r@ == pcm@,
{
    let mut out: Vec<S> = Vec::new();
    let mut i: usize = 0;
    while i < pcm.len()
        invariant
            i <= pcm@.len(),
            out@ == pcm@.take(i as int),
        decreases pcm@.len() - i,
    {
        out.push(pcm[i]);
        i = i + 1;
        assert(out@ =~= pcm@.take(i as int));
    }
    assert(pcm@.take(i as int) =~= pcm@);
    out
}

/// Interleaves the first `frames` frames of `planes`.
pub fn interleave<S: Copy>(planes: &Vec<Vec<S>>, frames: usize) -> (r: Vec<S>)
    requires
        forall|c: int| 0 <= c < planes@.len() ==> frames <= (#[trigger] planes@[c])@.len(),
    ensures
        r@ == interleaved(plane_views(planes@), frames as nat),
{
    let ghost views = plane_views(planes@);
    let mut out: Vec<S> = Vec::new();
    let mut f: usize = 0;
    while f < frames
        invariant
            f <= frames,
            views == plane_views(planes@),
            forall|c: int| 0 <= c < planes@.len() ==> frames <= (#[trigger] planes@[c])@.len(),
            out@ == interleaved(views, f as nat),
        decreases frames - f,
    {
        let ghost before = out@;
        let ghost frame = Seq::new(views.len(), |c: int| views[c][f as int]);
        let mut c: usize = 0;
        assert(before + frame.take(0) =~= before);
        while c < planes.len()
            invariant
                c <= planes@.len(),
                f < frames,
                views == plane_views(planes@),
                frame == Seq::new(views.len(), |k: int| views[k][f as int]),
                forall|k: int| 0 <= k < planes@.len() ==> frames <= (#[trigger] planes@[k])@.len(),
                out@ == before + frame.take(c as int),
            decreases planes@.len() - c,
        {
            assert(planes@[c as int]@.len() >= frames);
            out.push(planes[c][f]);
            c = c + 1;
            assert(out@ =~= before + frame.take(c as int));
        }
        assert(frame.take(c as int) =~= frame);
        f = f + 1;
    }
    out
}

proof fn lemma_interleaved_len<S>(planes: Seq<Seq<S>>, frames: nat)
    ensures
        interleaved(planes, frames).len() == frames * planes.len(),
    decreases frames,
{
    if frames > 0 {
        lemma_interleaved_len(planes, (frames - 1) as nat);
        assert((frames - 1) * planes.len() + planes.len() == frames * planes.len())
            by (nonlinear_arith)
            requires
                frames > 0,
        ;
    } else {
        assert(0 * planes.len() == 0) by (nonlinear_arith);
    }
}

/// Taking interleaved PCM apart into planes and interleaving them again gives back the whole
/// frames of the input.
pub proof fn planes_interleave_back<S>(pcm: Seq<S>, channels: nat, frames: nat)
    requires
        channels > 0,
        frames <= pcm.len() as int / channels as int,
    ensures
        interleaved(
            Seq::new(channels, |c: int| plane(pcm, channels as int, c)),
            frames,
        ) == pcm.take((frames * channels) as int),
    decreases frames,
{
    let planes = Seq::new(channels, |c: int| plane(pcm, channels as int, c));
    lemma_interleaved_len(planes, frames);
    assert(0 <= frames * channels <= pcm.len()) by (nonlinear_arith)
        requires
            channels > 0,
            frames <= pcm.len() as int / channels as int,
    ;
    if frames == 0 {
        assert(frames * channels == 0) by (nonlinear_arith)
            requires
                frames == 0,
        ;
        assert(interleaved(planes, frames) =~= pcm.take((frames * channels) as int));
    } else {
        let m = (frames - 1) as nat;
        planes_interleave_back(pcm, channels, m);
        assert(m * channels + channels == frames * channels) by (nonlinear_arith)
            requires
                m == frames - 1,
        ;
        assert forall|i: int| 0 <= i < frames * channels implies #[trigger] interleaved(
            planes,
            frames,
        )[i] == pcm.take((frames * channels) as int)[i] by {
            lemma_interleaved_len(planes, m);
            if i >= m * channels {
                let c = i - m * channels;
                assert(planes[c][m as int] == pcm[m * channels + c]);
            } else {
                assert(interleaved(planes, frames)[i] == interleaved(planes, m)[i]);
                assert(pcm.take((m * channels) as int)[i] == pcm[i]);
            }
        }
        assert(interleaved(planes, frames) =~= pcm.take((frames * channels) as int));
    }
}

} // verus!
