//! Bounded queues of PCM samples.

use vstd::prelude::*;

verus! {

/// The whole frames in interleaved samples, with one sample per channel in each.
pub open spec fn frames_of<S>(samples: Seq<S>, channels: nat) -> Seq<Seq<S>> {
    Seq::new(
        samples.len() / channels,
        |f: int| samples.subrange(f * channels, f * channels + channels),
    )
}

/// The smaller of two numbers.
pub open spec fn lesser(a: nat, b: nat) -> nat {
    if a <= b {
        a
    } else {
        b
    }
}

proof fn lemma_frame_fits(f: int, n: int, channels: int)
    requires
        0 <= f < n,
        channels >= 0,
    ensures
        0 <= f * channels,
        f * channels + channels <= n * channels,
{
    assert(0 <= f * channels && f * channels + channels <= n * channels) by (nonlinear_arith)
        requires
            0 <= f < n,
            channels >= 0,
    ;
}

proof fn lemma_whole_frames(len: int, channels: int)
    requires
        len >= 0,
        channels > 0,
    ensures
        0 <= len / channels,
        (len / channels) * channels <= len,
        len - (len / channels) * channels < channels,
{
    assert(0 <= len / channels && (len / channels) * channels <= len && len - (len / channels)
        * channels < channels) by (nonlinear_arith)
        requires
            len >= 0,
            channels > 0,
    ;
}

/// The queue after samples have been written to it: the whole frames that fit are added.
pub open spec fn after_write<S>(
    queue: Seq<Seq<S>>,
    capacity: nat,
    frame_len: nat,
    samples: Seq<S>,
) -> Seq<Seq<S>> {
    queue + frames_of(samples, frame_len).take(
        lesser(samples.len() / frame_len, (capacity - queue.len()) as nat) as int,
    )
}

/// What is written comes out behind what was queued before, frame for frame, as far as it fits;
/// and what was queued before comes out unchanged.
pub proof fn written_frames_come_out_last<S>(
    queue: Seq<Seq<S>>,
    capacity: nat,
    frame_len: nat,
    samples: Seq<S>,
)
    requires
        frame_len > 0,
        queue.len() <= capacity,
    ensures
        after_write(queue, capacity, frame_len, samples).take(queue.len() as int) == queue,
        after_write(queue, capacity, frame_len, samples).skip(queue.len() as int) == frames_of(
            samples,
            frame_len,
        ).take(lesser(samples.len() / frame_len, (capacity - queue.len()) as nat) as int),
        after_write(queue, capacity, frame_len, samples).len() <= capacity,
        samples.len() / frame_len <= capacity - queue.len() ==> after_write(
            queue,
            capacity,
            frame_len,
            samples,
        ).skip(queue.len() as int) == frames_of(samples, frame_len),
{
    let after = after_write(queue, capacity, frame_len, samples);
    let incoming = frames_of(samples, frame_len);
    let n = lesser(samples.len() / frame_len, (capacity - queue.len()) as nat);
    assert(after.take(queue.len() as int) =~= queue);
    assert(after.skip(queue.len() as int) =~= incoming.take(n as int));
    if samples.len() / frame_len <= capacity - queue.len() {
        assert(incoming.take(n as int) =~= incoming);
    }
}

/// Interleaved PCM queue of a fixed capacity, drained by an output sink.
pub struct SampleRing<S> {
    buf: Vec<S>,
    capacity_frames: usize,
    channels: usize,
    write_frame: usize,
    read_frame: usize,
    filled_frames: usize,
    silence: S,
}

impl<S: Copy> View for SampleRing<S> {
    type V = Seq<Seq<S>>;

    closed spec fn view(&self) -> Seq<Seq<S>> {
        Seq::new(self.filled_frames as nat, |f: int| self.frame_at(self.slot(f)))
    }
}

impl<S: Copy> SampleRing<S> {
    /// The place of frame `f` of the queue in the buffer.
    spec fn slot(&self, f: int) -> int {
        if self.read_frame + f < self.capacity_frames {
            self.read_frame + f
        } else {
            self.read_frame + f - self.capacity_frames
        }
    }

    /// The samples at a place of the buffer.
    spec fn frame_at(&self, place: int) -> Seq<S> {
        self.buf@.subrange(place * self.channels, place * self.channels + self.channels)
    }

    /// How many frames the queue can hold.
    pub closed spec fn capacity(&self) -> nat {
        self.capacity_frames as nat
    }

    /// How many samples a frame has.
    pub closed spec fn frame_len(&self) -> nat {
        self.channels as nat
    }

    /// The sample that stands for silence.
    pub closed spec fn silent(&self) -> S {
        self.silence
    }

    /// The queue holds no more than its capacity, and the positions agree.
    pub closed spec fn wf(&self) -> bool {
        &&& self.capacity_frames >= 1
        &&& self.channels >= 1
        &&& self.buf@.len() == self.capacity_frames * self.channels
        &&& self.read_frame < self.capacity_frames
        &&& self.write_frame < self.capacity_frames
        &&& self.filled_frames <= self.capacity_frames
        &&& self.write_frame == self.slot(self.filled_frames as int) || (self.filled_frames
            == self.capacity_frames && self.write_frame == self.read_frame)
    }

    /// What a well-formed queue keeps to: it holds no more than its capacity, there is room for
    /// at least one frame, and every frame has one sample per channel.
    pub broadcast proof fn lemma_wf(&self)
        requires
            #[trigger] self.wf(),
        ensures
            self@.len() <= self.capacity(),
            self.capacity() >= 1,
            self.frame_len() >= 1,
            forall|f: int| 0 <= f < self@.len() ==> (#[trigger] self@[f]).len() == self.frame_len(),
    {
        assert forall|f: int| 0 <= f < self@.len() implies (#[trigger] self@[f]).len()
            == self.frame_len() by {
            lemma_frame_fits(
                self.slot(f),
                self.capacity_frames as int,
                self.channels as int,
            );
        }
    }

    /// A queue for `capacity_frames` frames of `channels` samples, with room for at least one
    /// frame of one sample.
    pub fn new(capacity_frames: usize, channels: usize, silence: S) -> (r: Self)
        requires
            capacity_frames * channels <= usize::MAX,
        ensures
            r.wf(),
            r@ == Seq::<Seq<S>>::empty(),
            r.capacity() == (if capacity_frames == 0 {
                1
            } else {
                capacity_frames as nat
            }),
            r.frame_len() == (if channels == 0 {
                1
            } else {
                channels as nat
            }),
            r.silent() == silence,
    {
        let capacity_frames: usize = if capacity_frames == 0 {
            1
        } else {
            capacity_frames
        };
        let channels: usize = if channels == 0 {
            1
        } else {
            channels
        };
        let r = SampleRing {
            buf: vec![silence; capacity_frames * channels],
            capacity_frames,
            channels,
            write_frame: 0,
            read_frame: 0,
            filled_frames: 0,
            silence,
        };
        assert(r@ =~= Seq::<Seq<S>>::empty());
        r
    }

    /// Number of frames in the queue.
    pub fn available_read(&self) -> (n: usize)
        ensures
            n == self@.len(),
    {
        self.filled_frames
    }

    /// Number of frames that still fit.
    pub fn available_write(&self) -> (n: usize)
        requires
            self.wf(),
        ensures
            n == self.capacity() - self@.len(),
    {
        self.capacity_frames - self.filled_frames
    }

    /// Puts one frame at the end of the queue.
    fn push_frame(&mut self, interleaved: &[S], from: usize)
        requires
            old(self).wf(),
            old(self)@.len() < old(self).capacity(),
            from + old(self).frame_len() <= interleaved@.len(),
        ensures
            final(self).wf(),
            final(self)@ == old(self)@.push(
                interleaved@.subrange(from as int, from + old(self).frame_len()),
            ),
            final(self).capacity() == old(self).capacity(),
            final(self).frame_len() == old(self).frame_len(),
            final(self).silent() == old(self).silent(),
    {
        let ghost before = *self;
        let channels: usize = self.channels;
        let place: usize = self.write_frame;
        let buf_len: usize = self.buf.len();
        let incoming_len: usize = interleaved.len();
        proof {
            lemma_frame_fits(place as int, self.capacity_frames as int, channels as int);
        }
        let base: usize = place * channels;
        let mut c: usize = 0;
        while c < channels
            invariant
                c <= channels,
                channels == before.channels,
                base == place * channels,
                base + channels <= buf_len,
                from + channels <= incoming_len,
                incoming_len == interleaved@.len(),
                buf_len == before.buf@.len(),
                self.buf@.len() == buf_len,
                self.capacity_frames == before.capacity_frames,
                self.channels == before.channels,
                self.write_frame == before.write_frame,
                self.read_frame == before.read_frame,
                self.filled_frames == before.filled_frames,
                self.silence == before.silence,
                forall|i: int|
                    0 <= i < self.buf@.len() ==> #[trigger] self.buf@[i] == (if base <= i < base
                        + c {
                        interleaved@[from + i - base]
                    } else {
                        before.buf@[i]
                    }),
            decreases channels - c,
        {
            self.buf[base + c] = interleaved[from + c];
            c = c + 1;
        }
        self.write_frame = if place + 1 == self.capacity_frames {
            0
        } else {
            place + 1
        };
        self.filled_frames = self.filled_frames + 1;
        proof {
            let n = before.filled_frames as int;
            assert forall|f: int| 0 <= f <= n implies #[trigger] self@[f] == before@.push(
                interleaved@.subrange(from as int, from + channels),
            )[f] by {
                let there = self.slot(f);
                lemma_frame_fits(there, self.capacity_frames as int, channels as int);
                if f < n {
                    assert(there != place);
                    if there < place {
                        lemma_frame_fits(there, place as int, channels as int);
                    } else {
                        lemma_frame_fits(place as int, there, channels as int);
                    }
                    assert(self.frame_at(there) =~= before.frame_at(there));
                } else {
                    assert(there == place);
                    assert(self.frame_at(there) =~= interleaved@.subrange(
                        from as int,
                        from + channels,
                    ));
                }
            }
            assert(self@ =~= before@.push(interleaved@.subrange(from as int, from + channels)));
        }
    }

    /// Writes as many frames as fit, and returns how many.
    pub fn write(&mut self, interleaved: &[S]) -> (written: usize)
        requires
            old(self).wf(),
        ensures
            final(self).wf(),
            written == lesser(
                interleaved@.len() / old(self).frame_len(),
                (old(self).capacity() - old(self)@.len()) as nat,
            ),
            final(self)@ == after_write(
                old(self)@,
                old(self).capacity(),
                old(self).frame_len(),
                interleaved@,
            ),
            final(self).capacity() == old(self).capacity(),
            final(self).frame_len() == old(self).frame_len(),
            final(self).silent() == old(self).silent(),
    {
        let ghost before = *self;
        proof {
            self.lemma_wf();
            lemma_whole_frames(interleaved@.len() as int, self.channels as int);
        }
        let incoming_len: usize = interleaved.len();
        let frames: usize = incoming_len / self.channels;
        let free: usize = self.available_write();
        let writable: usize = if frames <= free {
            frames
        } else {
            free
        };
        let ghost incoming = frames_of(interleaved@, before.frame_len());
        let mut frame: usize = 0;
        assert(before@ + incoming.take(0) =~= before@);
        while frame < writable
            invariant
                frame <= writable,
                before.wf(),
                self.wf(),
                self.capacity() == before.capacity(),
                self.frame_len() == before.frame_len(),
                self.silent() == before.silent(),
                incoming == frames_of(interleaved@, before.frame_len()),
                writable <= incoming.len(),
                incoming.len() * before.frame_len() <= incoming_len,
                incoming_len == interleaved@.len(),
                self@ == before@ + incoming.take(frame as int),
                before@.len() + writable <= before.capacity(),
            decreases writable - frame,
        {
            proof {
                lemma_frame_fits(
                    frame as int,
                    incoming.len() as int,
                    before.frame_len() as int,
                );
            }
            let src: usize = frame * self.channels;
            self.push_frame(interleaved, src);
            assert(incoming[frame as int] == interleaved@.subrange(
                src as int,
                src + before.frame_len(),
            ));
            frame = frame + 1;
            assert(self@ =~= before@ + incoming.take(frame as int));
        }
        writable
    }

    /// Takes one frame from the front of the queue.
    fn pop_frame(&mut self, out: &mut [S], at: usize)
        requires
            old(self).wf(),
            old(self)@.len() > 0,
            at + old(self).frame_len() <= old(out)@.len(),
        ensures
            final(self).wf(),
            final(self)@ == old(self)@.drop_first(),
            final(self).capacity() == old(self).capacity(),
            final(self).frame_len() == old(self).frame_len(),
            final(self).silent() == old(self).silent(),
            final(out)@.len() == old(out)@.len(),
            forall|i: int|
                0 <= i < old(out)@.len() ==> #[trigger] final(out)@[i] == (if at <= i < at
                    + old(self).frame_len() {
                    old(self)@[0][i - at]
                } else {
                    old(out)@[i]
                }),
    {
        let ghost before = *self;
        let ghost out_before = out@;
        let channels: usize = self.channels;
        let place: usize = self.read_frame;
        let buf_len: usize = self.buf.len();
        let out_len: usize = out.len();
        proof {
            lemma_frame_fits(place as int, self.capacity_frames as int, channels as int);
        }
        let base: usize = place * channels;
        let mut c: usize = 0;
        while c < channels
            invariant
                c <= channels,
                channels == before.channels,
                *self == before,
                base == place * channels,
                base + channels <= buf_len,
                buf_len == self.buf@.len(),
                at + channels <= out_len,
                out_len == out_before.len(),
                out@.len() == out_len,
                forall|i: int|
                    0 <= i < out@.len() ==> #[trigger] out@[i] == (if at <= i < at + c {
                        self.buf@[base + i - at]
                    } else {
                        out_before[i]
                    }),
            decreases channels - c,
        {
            out[at + c] = self.buf[base + c];
            c = c + 1;
        }
        assert(before@[0] == before.frame_at(place as int));
        self.read_frame = if place + 1 == self.capacity_frames {
            0
        } else {
            place + 1
        };
        self.filled_frames = self.filled_frames - 1;
        proof {
            assert forall|f: int| 0 <= f < self@.len() implies #[trigger] self@[f]
                == before@.drop_first()[f] by {
                assert(self.slot(f) == before.slot(f + 1));
                assert(before@[f + 1] == before.frame_at(before.slot(f + 1)));
            }
            assert(self@ =~= before@.drop_first());
        }
    }

    /// Takes frames from the front of the queue, as many as `out` has room for and the queue
    /// holds, and returns how many. Where the queue runs out, the rest of `out` becomes silence.
    pub fn drain_into(&mut self, out: &mut [S]) -> (taken: usize)
        requires
            old(self).wf(),
        ensures
            final(self).wf(),
            taken == lesser(old(out)@.len() / old(self).frame_len(), old(self)@.len()),
            final(self)@ == old(self)@.skip(taken as int),
            final(self).capacity() == old(self).capacity(),
            final(self).frame_len() == old(self).frame_len(),
            final(self).silent() == old(self).silent(),
            final(out)@.len() == old(out)@.len(),
            frames_of(final(out)@, old(self).frame_len()).take(taken as int) == old(self)@.take(
                taken as int,
            ),
            forall|i: int|
                taken * old(self).frame_len() <= i < old(out)@.len() ==> #[trigger] final(out)@[i]
                    == (if taken < old(out)@.len() / old(self).frame_len() {
                    old(self).silent()
                } else {
                    old(out)@[i]
                }),
    {
        let ghost before = *self;
        let ghost out_before = out@;
        proof {
            self.lemma_wf();
            lemma_whole_frames(out@.len() as int, self.channels as int);
        }
        let channels: usize = self.channels;
        let out_len: usize = out.len();
        let want_frames: usize = out_len / channels;
        let take_frames: usize = if want_frames <= self.filled_frames {
            want_frames
        } else {
            self.filled_frames
        };
        let mut frame: usize = 0;
        assert(before@.skip(0) =~= before@);
        while frame < take_frames
            invariant
                frame <= take_frames,
                before.wf(),
                self.wf(),
                channels == before.channels,
                channels == before.frame_len(),
                channels >= 1,
                self.capacity() == before.capacity(),
                self.frame_len() == before.frame_len(),
                self.silent() == before.silent(),
                take_frames <= before@.len(),
                take_frames <= want_frames,
                want_frames * channels <= out_len,
                out_len == out_before.len(),
                self@ == before@.skip(frame as int),
                out@.len() == out_before.len(),
                forall|f: int, i: int|
                    #![trigger before@[f], out@[i]]
                    0 <= f < frame && f * channels <= i < f * channels + channels ==> out@[i]
                        == before@[f][i - f * channels],
                forall|i: int|
                    frame * channels <= i < out@.len() ==> #[trigger] out@[i] == out_before[i],
            decreases take_frames - frame,
        {
            proof {
                lemma_frame_fits(frame as int, want_frames as int, channels as int);
                before.lemma_wf();
            }
            let dst: usize = frame * channels;
            let ghost so_far = out@;
            assert(self@[0] == before@[frame as int]);
            self.pop_frame(out, dst);
            proof {
                assert forall|f: int, i: int|
                    #![trigger before@[f], out@[i]]
                    0 <= f < frame + 1 && f * channels <= i < f * channels
                        + channels implies out@[i] == before@[f][i - f * channels] by {
                    if f < frame {
                        lemma_frame_fits(f, frame as int, channels as int);
                        assert(so_far[i] == before@[f][i - f * channels]);
                    }
                }
                assert((frame + 1) * channels == frame * channels + channels)
                    by (nonlinear_arith);
            }
            frame = frame + 1;
            assert(self@ =~= before@.skip(frame as int));
        }
        let ghost drained = out@;
        proof {
            if take_frames < want_frames {
                lemma_frame_fits(take_frames as int, want_frames as int, channels as int);
            }
            assert(0 <= take_frames * channels <= want_frames * channels) by (nonlinear_arith)
                requires
                    0 <= take_frames <= want_frames,
                    channels >= 1,
            ;
        }
        if take_frames < want_frames {
            let mut i: usize = take_frames * channels;
            while i < out.len()
                invariant
                    take_frames * channels <= i <= out@.len(),
                    out@.len() == drained.len(),
                    forall|k: int|
                        0 <= k < take_frames * channels ==> #[trigger] out@[k] == drained[k],
                    forall|k: int|
                        take_frames * channels <= k < i ==> #[trigger] out@[k] == self.silence,
                decreases out@.len() - i,
            {
                out[i] = self.silence;
                i = i + 1;
            }
        }
        proof {
            let got = frames_of(out@, channels as nat);
            before.lemma_wf();
            assert forall|f: int| 0 <= f < take_frames implies #[trigger] got.take(
                take_frames as int,
            )[f] == before@.take(take_frames as int)[f] by {
                lemma_frame_fits(f, take_frames as int, channels as int);
                let whole = before@[f];
                assert(got[f] =~= whole) by {
                    assert forall|c: int| 0 <= c < channels implies #[trigger] got[f][c]
                        == whole[c] by {
                        assert(got[f][c] == out@[f * channels + c]);
                        assert(drained[f * channels + c] == before@[f][c]);
                    }
                }
            }
            assert(got.take(take_frames as int) =~= before@.take(take_frames as int));
        }
        take_frames
    }

    /// Silences the queue on the way out of playback.
    pub fn mute_fade(&mut self)
        requires
            old(self).wf(),
        ensures
            final(self).wf(),
            final(self)@ == Seq::<Seq<S>>::empty(),
            final(self).capacity() == old(self).capacity(),
            final(self).frame_len() == old(self).frame_len(),
            final(self).silent() == old(self).silent(),
    {
        self.flush();
    }

    /// Drops all queued frames.
    pub fn flush(&mut self)
        requires
            old(self).wf(),
        ensures
            final(self).wf(),
            final(self)@ == Seq::<Seq<S>>::empty(),
            final(self).capacity() == old(self).capacity(),
            final(self).frame_len() == old(self).frame_len(),
            final(self).silent() == old(self).silent(),
    {
        self.write_frame = 0;
        self.read_frame = 0;
        self.filled_frames = 0;
        let mut i: usize = 0;
        while i < self.buf.len()
            invariant
                i <= self.buf@.len(),
                self.buf@.len() == old(self).buf@.len(),
                self.wf(),
                self.filled_frames == 0,
                self.capacity() == old(self).capacity(),
                self.frame_len() == old(self).frame_len(),
                self.silent() == old(self).silent(),
            decreases self.buf@.len() - i,
        {
            self.buf[i] = self.silence;
            i = i + 1;
        }
        assert(self@ =~= Seq::<Seq<S>>::empty());
    }
}

} // verus!
