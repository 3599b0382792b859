//! What a tick of the player does, told by playhead, segments and calls alone.

use crate::arith::clamp_i64;
use crate::audio::decode::AudioDecoder;
use crate::audio::player::{
    begun, decodes_through, decoding_calls, fresh_player, played, segment_calls, segment_result,
    seek_candidate, silenced, starting_calls, wants, wants_nothing, AudioStreamPlayer,
    DecodeRequest, PlayerConfig, PlayerView, SegmentOutcome, TickStart, ToolCall, TransportState,
    SEEK_THRESHOLD_NS,
};
use crate::audio::resampler::Resample;
use crate::audio::ring::frames_of;
use crate::audio::segments::{SegmentRef, SegmentView};
use vstd::prelude::*;

verus! {

/// A tick begins with a seek whenever the playhead is further than the threshold from the
/// decoder's position, before it or behind it, and there is a segment at or before the playhead
/// where playback can start. The position is then at the latest such segment, and nothing is
/// queued.
pub proof fn distant_playhead_leads_to_a_seek<S>(
    before: PlayerView<S>,
    playhead_ns: i64,
    start: TickStart,
    after: PlayerView<S>,
    k: i64,
)
    requires
        begun(before, playhead_ns, start, after),
        playhead_ns - before.media_ns() > SEEK_THRESHOLD_NS || before.media_ns() - playhead_ns
            > SEEK_THRESHOLD_NS,
        before.segments.contains_key(k),
        before.segments[k].seekable,
        k <= playhead_ns,
    ensures
        start == TickStart::Seek,
        k <= after.media_ns() <= playhead_ns,
        before.segments.contains_key(after.media_ns()),
        before.segments[after.media_ns()].seekable,
        after.queue.len() == 0,
        after.segments == before.segments,
{
    assert(seek_candidate(before.segments, playhead_ns, k));
}

/// The same holds on every start of playback, however close the playhead is.
pub proof fn starting_playback_seeks<S>(
    before: PlayerView<S>,
    playhead_ns: i64,
    start: TickStart,
    after: PlayerView<S>,
    k: i64,
)
    requires
        begun(before, playhead_ns, start, after),
        before.last_state != TransportState::Playing,
        before.segments.contains_key(k),
        before.segments[k].seekable,
        k <= playhead_ns,
    ensures
        start == TickStart::Seek,
        k <= after.media_ns() <= playhead_ns,
        before.segments.contains_key(after.media_ns()),
        before.segments[after.media_ns()].seekable,
        after.queue.len() == 0,
{
    assert(seek_candidate(before.segments, playhead_ns, k));
}

/// While playback goes on and the playhead is within the threshold of the position, or where no
/// segment at or before the playhead lets playback start, nothing moves and nothing is dropped.
pub proof fn close_playhead_leaves_playback_alone<S>(
    before: PlayerView<S>,
    playhead_ns: i64,
    start: TickStart,
    after: PlayerView<S>,
)
    requires
        begun(before, playhead_ns, start, after),
        (before.last_state == TransportState::Playing && playhead_ns - before.media_ns()
            <= SEEK_THRESHOLD_NS && before.media_ns() - playhead_ns <= SEEK_THRESHOLD_NS) || (
        forall|k: i64| #[trigger]
            before.segments.contains_key(k) ==> k > playhead_ns || !before.segments[k].seekable),
    ensures
        start == TickStart::Continue,
        after.media_ns() == before.media_ns(),
        after.queue == before.queue,
        after.segments == before.segments,
{
}

/// Whether to seek depends on how far the playhead is from the position, and not on its side.
pub proof fn seeking_ignores_the_side<S>(
    a: PlayerView<S>,
    playhead_a: i64,
    start_a: TickStart,
    after_a: PlayerView<S>,
    b: PlayerView<S>,
    playhead_b: i64,
    start_b: TickStart,
    after_b: PlayerView<S>,
)
    requires
        begun(a, playhead_a, start_a, after_a),
        begun(b, playhead_b, start_b, after_b),
        a.last_state == b.last_state,
        playhead_a - a.media_ns() == b.media_ns() - playhead_b,
        exists|k: i64| #[trigger]
            a.segments.contains_key(k) && a.segments[k].seekable && k <= playhead_a,
        exists|k: i64| #[trigger]
            b.segments.contains_key(k) && b.segments[k].seekable && k <= playhead_b,
    ensures
        start_a == start_b,
{
    let k = choose|k: i64| #[trigger]
        a.segments.contains_key(k) && a.segments[k].seekable && k <= playhead_a;
    assert(seek_candidate(a.segments, playhead_a, k));
    let m = choose|m: i64| #[trigger]
        b.segments.contains_key(m) && b.segments[m].seekable && m <= playhead_b;
    assert(seek_candidate(b.segments, playhead_b, m));
}

/// What one call does to the PCM that waits: a reset of the decoder drops it, and what comes out
/// of the resampler is added behind it.
pub open spec fn after_call<S>(waiting: Seq<Seq<S>>, call: ToolCall<S>, channels: nat) -> Seq<
    Seq<S>,
> {
    match call {
        ToolCall::ResetDecoder => Seq::empty(),
        ToolCall::Process { out, .. } => waiting + frames_of(out, channels),
        _ => waiting,
    }
}

/// What waits after some calls, were there room for all of it.
pub open spec fn waiting_after<S>(
    waiting: Seq<Seq<S>>,
    calls: Seq<ToolCall<S>>,
    channels: nat,
) -> Seq<Seq<S>> {
    calls.fold_left(waiting, |w: Seq<Seq<S>>, c: ToolCall<S>| after_call(w, c, channels))
}

/// The beginning of `frames` for which there is room.
pub open spec fn fitting<S>(frames: Seq<Seq<S>>, capacity: nat) -> Seq<Seq<S>> {
    if frames.len() <= capacity {
        frames
    } else {
        frames.take(capacity as int)
    }
}

/// The frames that a call decodes.
pub open spec fn frames_in<S>(call: ToolCall<S>) -> nat {
    match call {
        ToolCall::Decode { reply: Ok(audio), .. } => if audio.channels == 0 {
            0
        } else {
            audio.samples@.len() / (audio.channels as nat)
        },
        _ => 0,
    }
}

/// The frames that some calls decode.
pub open spec fn frames_decoded<S>(calls: Seq<ToolCall<S>>) -> nat {
    calls.fold_left(0nat, |n: nat, c: ToolCall<S>| n + frames_in(c))
}

proof fn lemma_push_calls<S>(
    waiting: Seq<Seq<S>>,
    calls: Seq<ToolCall<S>>,
    call: ToolCall<S>,
    channels: nat,
)
    ensures
        waiting_after(waiting, calls.push(call), channels) == after_call(
            waiting_after(waiting, calls, channels),
            call,
            channels,
        ),
        frames_decoded(calls.push(call)) == frames_decoded(calls) + frames_in(call),
{
    assert(calls.push(call).drop_last() =~= calls);
}

/// The same as `segment_calls`, one call after the other.
proof fn lemma_block<S>(
    earlier: Seq<ToolCall<S>>,
    player: PlayerView<S>,
    outcome: SegmentOutcome<S>,
) -> (parts: (Seq<ToolCall<S>>, ToolCall<S>, ToolCall<S>))
    ensures
        earlier + segment_calls(player, outcome) == parts.0.push(parts.1).push(parts.2),
        parts.0 == (if player.segments[outcome.pts_ns].discontinuity {
            earlier.push(ToolCall::ResetDecoder)
        } else {
            earlier
        }),
        parts.1 == (ToolCall::Decode {
            chunk: player.segments[outcome.pts_ns].chunk,
            pts_ns: outcome.pts_ns,
            reply: outcome.reply,
        }),
        parts.2 == (match outcome.reply {
            Ok(audio) => ToolCall::Process { pcm: audio.samples@, out: outcome.resampled },
            Err(_) => ToolCall::ResetDecoder,
        }),
{
    let segment = player.segments[outcome.pts_ns];
    let first = if segment.discontinuity {
        earlier.push(ToolCall::ResetDecoder)
    } else {
        earlier
    };
    let decode = ToolCall::Decode {
        chunk: segment.chunk,
        pts_ns: outcome.pts_ns,
        reply: outcome.reply,
    };
    let follow = match outcome.reply {
        Ok(audio) => ToolCall::Process { pcm: audio.samples@, out: outcome.resampled },
        Err(_) => ToolCall::ResetDecoder,
    };
    assert(earlier + segment_calls(player, outcome) =~= first.push(decode).push(follow));
    (first, decode, follow)
}

proof fn lemma_queue_step<S>(
    earlier: Seq<ToolCall<S>>,
    waiting: Seq<Seq<S>>,
    player: PlayerView<S>,
    outcome: SegmentOutcome<S>,
)
    requires
        player.frame_len > 0,
        player.queue == fitting(waiting_after(waiting, earlier, player.frame_len), player.capacity),
    ensures
        segment_result(player, outcome).queue == fitting(
            waiting_after(
                waiting,
                earlier + segment_calls(player, outcome),
                player.frame_len,
            ),
            player.capacity,
        ),
        frames_decoded(earlier + segment_calls(player, outcome)) == frames_decoded(earlier)
            + frames_in(
            ToolCall::Decode {
                chunk: player.segments[outcome.pts_ns].chunk,
                pts_ns: outcome.pts_ns,
                reply: outcome.reply,
            },
        ),
{
    let n = player.frame_len;
    let (first, decode, follow) = lemma_block(earlier, player, outcome);
    lemma_push_calls(waiting, earlier, ToolCall::ResetDecoder, n);
    lemma_push_calls(waiting, first, decode, n);
    lemma_push_calls(waiting, first.push(decode), follow, n);
    let w = waiting_after(waiting, first, n);
    if let Ok(audio) = outcome.reply {
        let incoming = frames_of(outcome.resampled, n);
        assert(segment_result(player, outcome).queue =~= fitting(w + incoming, player.capacity));
    } else {
        assert(segment_result(player, outcome).queue =~= Seq::<Seq<S>>::empty());
    }
}

proof fn lemma_decoding<S>(
    start: Seq<ToolCall<S>>,
    waiting: Seq<Seq<S>>,
    states: Seq<PlayerView<S>>,
    outcomes: Seq<SegmentOutcome<S>>,
    n: nat,
)
    requires
        decodes_through(states, outcomes),
        n <= outcomes.len(),
        states[0].frame_len > 0,
        states[0].queue == fitting(
            waiting_after(waiting, start, states[0].frame_len),
            states[0].capacity,
        ),
        frames_decoded(start) == 0,
    ensures
        states[n as int].queue == fitting(
            waiting_after(
                waiting,
                start + decoding_calls(states, outcomes, n),
                states[0].frame_len,
            ),
            states[0].capacity,
        ),
        states[n as int].frame_len == states[0].frame_len,
        states[n as int].capacity == states[0].capacity,
        states[n as int].segments == states[0].segments,
        states[n as int].clock.rate == states[0].clock.rate,
        states[n as int].clock.base_ns == states[0].clock.base_ns,
        states[0].clock.frames + frames_decoded(start + decoding_calls(states, outcomes, n))
            <= u128::MAX ==> states[n as int].clock.frames == states[0].clock.frames
            + frames_decoded(start + decoding_calls(states, outcomes, n)),
    decreases n,
{
    if n == 0 {
        assert(start + decoding_calls(states, outcomes, 0) =~= start);
    } else {
        let m = (n - 1) as nat;
        lemma_decoding(start, waiting, states, outcomes, m);
        let earlier = start + decoding_calls(states, outcomes, m);
        assert(wants(states[m as int], outcomes[m as int].pts_ns));
        assert(states[n as int] == segment_result(states[m as int], outcomes[m as int]));
        lemma_queue_step(earlier, waiting, states[m as int], outcomes[m as int]);
        assert(start + decoding_calls(states, outcomes, n) =~= earlier + segment_calls(
            states[m as int],
            outcomes[m as int],
        ));
        if let Ok(audio) = outcomes[m as int].reply {
            assert(audio.samples.len() == audio.samples@.len());
            if audio.channels > 0 {
                let len = audio.samples@.len() as int;
                let c = audio.channels as int;
                assert(len / c <= len) by (nonlinear_arith)
                    requires
                        len >= 0,
                        c >= 1,
                ;
            }
        }
    }
}

/// After a tick exactly that waits for the output which the calls of the tick add up to, in
/// order, as far as there is room: a reset of the decoder drops what waited, and what the
/// resampler hands out comes behind it.
pub proof fn queue_is_what_the_calls_add_up_to<S>(
    before: PlayerView<S>,
    playhead_ns: i64,
    calls: Seq<ToolCall<S>>,
    after: PlayerView<S>,
)
    requires
        played(before, playhead_ns, calls, after),
        before.frame_len > 0,
        before.queue.len() <= before.capacity,
    ensures
        after.queue == fitting(
            waiting_after(before.queue, calls, before.frame_len),
            before.capacity,
        ),
        after.segments == before.segments,
        after.capacity == before.capacity,
        after.frame_len == before.frame_len,
{
    lemma_run(before, playhead_ns, calls, after);
    let (start, states, outcomes) = choose|
        start: TickStart,
        states: Seq<PlayerView<S>>,
        outcomes: Seq<SegmentOutcome<S>>,
    |
        is_run(before, playhead_ns, calls, after, start, states, outcomes);
    lemma_start(before, playhead_ns, start, states[0]);
    lemma_decoding(starting_calls::<S>(start), before.queue, states, outcomes, outcomes.len());
}

/// The decoder's position after a tick is where the tick began to decode and as long as all the
/// frames that it decoded last: the position before the tick, or after a seek the segment that
/// was sought.
pub proof fn position_follows_the_decoded_frames<S>(
    before: PlayerView<S>,
    playhead_ns: i64,
    calls: Seq<ToolCall<S>>,
    after: PlayerView<S>,
)
    requires
        played(before, playhead_ns, calls, after),
        before.frame_len > 0,
        before.queue.len() <= before.capacity,
        before.clock.rate > 0,
        before.clock.frames + frames_decoded(calls) <= u128::MAX,
    ensures
        if calls.contains(ToolCall::ResetResampler) {
            &&& before.segments.contains_key(after.clock.base_ns)
            &&& after.media_ns() == clamp_i64(
                after.clock.base_ns + frames_decoded(calls) as int * 1_000_000_000
                    / before.clock.rate as int,
            )
        } else {
            after.media_ns() == clamp_i64(
                before.clock.base_ns + (before.clock.frames + frames_decoded(calls)) as int
                    * 1_000_000_000 / before.clock.rate as int,
            )
        },
{
    lemma_run(before, playhead_ns, calls, after);
    let (start, states, outcomes) = choose|
        start: TickStart,
        states: Seq<PlayerView<S>>,
        outcomes: Seq<SegmentOutcome<S>>,
    |
        is_run(before, playhead_ns, calls, after, start, states, outcomes);
    lemma_start(before, playhead_ns, start, states[0]);
    lemma_decoding(starting_calls::<S>(start), before.queue, states, outcomes, outcomes.len());
    if start == TickStart::Seek {
        assert(calls[1] == ToolCall::<S>::ResetResampler);
    } else if calls.contains(ToolCall::ResetResampler) {
        let i = choose|i: int| 0 <= i < calls.len() && calls[i] == ToolCall::<S>::ResetResampler;
        assert(calls[i] == decoding_calls(states, outcomes, outcomes.len())[i]);
        lemma_decoding_keeps_the_resampler(states, outcomes, outcomes.len(), i);
    }
}

/// A run of a tick, as `played` tells it.
spec fn is_run<S>(
    before: PlayerView<S>,
    playhead_ns: i64,
    calls: Seq<ToolCall<S>>,
    after: PlayerView<S>,
    start: TickStart,
    states: Seq<PlayerView<S>>,
    outcomes: Seq<SegmentOutcome<S>>,
) -> bool {
    &&& decodes_through(states, outcomes)
    &&& begun(before, playhead_ns, start, states[0])
    &&& wants_nothing(states.last())
    &&& calls == starting_calls::<S>(start) + decoding_calls(states, outcomes, outcomes.len())
    &&& after == (PlayerView {
        last_state: TransportState::Playing,
        last_playhead_ns: playhead_ns,
        ..states.last()
    })
}

proof fn lemma_run<S>(
    before: PlayerView<S>,
    playhead_ns: i64,
    calls: Seq<ToolCall<S>>,
    after: PlayerView<S>,
)
    requires
        played(before, playhead_ns, calls, after),
    ensures
        exists|start: TickStart, states: Seq<PlayerView<S>>, outcomes: Seq<SegmentOutcome<S>>|
            is_run(before, playhead_ns, calls, after, start, states, outcomes),
{
    let (start, states, outcomes) = choose|
        start: TickStart,
        states: Seq<PlayerView<S>>,
        outcomes: Seq<SegmentOutcome<S>>,
    |
        {
            &&& #[trigger] decodes_through(states, outcomes)
            &&& #[trigger] begun(before, playhead_ns, start, states[0])
            &&& wants_nothing(states.last())
            &&& calls == starting_calls::<S>(start) + decoding_calls(
                states,
                outcomes,
                outcomes.len(),
            )
            &&& after == (PlayerView {
                last_state: TransportState::Playing,
                last_playhead_ns: playhead_ns,
                ..states.last()
            })
        };
    assert(is_run(before, playhead_ns, calls, after, start, states, outcomes));
}

proof fn lemma_start<S>(
    before: PlayerView<S>,
    playhead_ns: i64,
    start: TickStart,
    first: PlayerView<S>,
)
    requires
        begun(before, playhead_ns, start, first),
        before.queue.len() <= before.capacity,
    ensures
        first.queue == fitting(
            waiting_after(before.queue, starting_calls::<S>(start), before.frame_len),
            before.capacity,
        ),
        frames_decoded(starting_calls::<S>(start)) == 0,
{
    let none = Seq::<ToolCall<S>>::empty();
    if start == TickStart::Seek {
        let one = none.push(ToolCall::ResetDecoder);
        lemma_push_calls(before.queue, none, ToolCall::ResetDecoder, before.frame_len);
        lemma_push_calls(before.queue, one, ToolCall::ResetResampler, before.frame_len);
        assert(starting_calls::<S>(start) =~= one.push(ToolCall::ResetResampler));
    } else {
        assert(starting_calls::<S>(start) =~= none);
    }
}

/// Whether call `i` of a tick fits in with the calls around it.
pub open spec fn in_step<S>(
    segments: Map<i64, SegmentView>,
    calls: Seq<ToolCall<S>>,
    i: int,
) -> bool {
    match calls[i] {
        ToolCall::Decode { chunk, pts_ns, reply } => {
            &&& segments.contains_key(pts_ns)
            &&& chunk == segments[pts_ns].chunk
            &&& segments[pts_ns].discontinuity ==> i > 0 && calls[i - 1] is ResetDecoder
            &&& i + 1 < calls.len()
            &&& match reply {
                Ok(audio) => calls[i + 1] matches ToolCall::Process { pcm, .. } && pcm
                    == audio.samples@,
                Err(_) => calls[i + 1] is ResetDecoder,
            }
        },
        ToolCall::Process { pcm, .. } => {
            &&& i > 0
            &&& calls[i - 1] matches ToolCall::Decode { reply: Ok(audio), .. }
            &&& pcm == audio.samples@
        },
        ToolCall::ResetResampler => i == 1 && calls[0] is ResetDecoder,
        ToolCall::ResetDecoder => {
            ||| i == 0 && calls.len() > 1 && calls[1] is ResetResampler
            ||| i + 1 < calls.len() && (calls[i + 1] matches ToolCall::Decode { pts_ns, .. }
                && segments[pts_ns].discontinuity)
            ||| i > 0 && calls[i - 1] matches ToolCall::Decode { reply: Err(_), .. }
        },
    }
}

proof fn lemma_decoding_keeps_the_resampler<S>(
    states: Seq<PlayerView<S>>,
    outcomes: Seq<SegmentOutcome<S>>,
    n: nat,
    i: int,
)
    requires
        0 <= i < decoding_calls(states, outcomes, n).len(),
    ensures
        !(decoding_calls(states, outcomes, n)[i] is ResetResampler),
    decreases n,
{
    let m = (n - 1) as nat;
    let earlier = decoding_calls(states, outcomes, m);
    if i < earlier.len() {
        lemma_decoding_keeps_the_resampler(states, outcomes, m, i);
    } else {
        let (head, decode, follow) = lemma_block(earlier, states[m as int], outcomes[m as int]);
        assert(decoding_calls(states, outcomes, n) == head.push(decode).push(follow));
    }
}

#[verifier::rlimit(40)]
proof fn lemma_block_in_step<S>(
    segments: Map<i64, SegmentView>,
    earlier: Seq<ToolCall<S>>,
    player: PlayerView<S>,
    outcome: SegmentOutcome<S>,
    i: int,
)
    requires
        player.segments == segments,
        segments.contains_key(outcome.pts_ns),
        0 <= i < (earlier + segment_calls(player, outcome)).len(),
        i < earlier.len() ==> in_step(segments, earlier, i),
    ensures
        in_step(segments, earlier + segment_calls(player, outcome), i),
{
    let calls = earlier + segment_calls(player, outcome);
    let (head, decode, follow) = lemma_block(earlier, player, outcome);
    let d = head.len() as int;
    assert(calls[d] == decode);
    assert(calls[d + 1] == follow);
    assert(calls.len() == d + 2);
    if d > earlier.len() {
        assert(d == earlier.len() + 1);
        assert(calls[earlier.len() as int] is ResetDecoder);
    }
    if i < earlier.len() {
        assert forall|j: int| 0 <= j < earlier.len() implies #[trigger] calls[j] == earlier[j] by {
        }
    } else if i == d {
    } else if i == d + 1 {
        assert(calls[i - 1] == decode);
    } else {
        assert(calls[i + 1] == decode);
    }
}

proof fn lemma_resets<S>(
    segments: Map<i64, SegmentView>,
    start: TickStart,
    states: Seq<PlayerView<S>>,
    outcomes: Seq<SegmentOutcome<S>>,
    n: nat,
    i: int,
)
    requires
        decodes_through(states, outcomes),
        n <= outcomes.len(),
        states[0].segments == segments,
        0 <= i < (starting_calls::<S>(start) + decoding_calls(states, outcomes, n)).len(),
    ensures
        in_step(segments, starting_calls::<S>(start) + decoding_calls(states, outcomes, n), i),
    decreases n,
{
    let first = starting_calls::<S>(start);
    let calls = first + decoding_calls(states, outcomes, n);
    if n == 0 {
        assert(calls =~= first);
    } else {
        let m = (n - 1) as nat;
        let earlier = first + decoding_calls(states, outcomes, m);
        lemma_same_segments(states, outcomes, m);
        assert(wants(states[m as int], outcomes[m as int].pts_ns));
        assert(calls =~= earlier + segment_calls(states[m as int], outcomes[m as int]));
        if i < earlier.len() {
            lemma_resets(segments, start, states, outcomes, m, i);
        }
        lemma_block_in_step(segments, earlier, states[m as int], outcomes[m as int], i);
    }
}

proof fn lemma_same_segments<S>(
    states: Seq<PlayerView<S>>,
    outcomes: Seq<SegmentOutcome<S>>,
    n: nat,
)
    requires
        decodes_through(states, outcomes),
        n <= outcomes.len(),
    ensures
        states[n as int].segments == states[0].segments,
    decreases n,
{
    if n > 0 {
        lemma_same_segments(states, outcomes, (n - 1) as nat);
        assert(states[n as int] == segment_result(states[n - 1], outcomes[n - 1]));
    }
}

/// Every call of a tick fits in with those around it. A packet is handed to the decoder with the
/// bytes of its segment, right after a reset where it is a discontinuity; what comes out goes to
/// the resampler next, and a failure is followed by a reset. Nothing else is processed, and
/// nothing is reset without such a reason.
pub proof fn calls_of_a_tick_are_in_step<S>(
    before: PlayerView<S>,
    playhead_ns: i64,
    calls: Seq<ToolCall<S>>,
    after: PlayerView<S>,
    i: int,
)
    requires
        played(before, playhead_ns, calls, after),
        0 <= i < calls.len(),
    ensures
        in_step(before.segments, calls, i),
{
    lemma_run(before, playhead_ns, calls, after);
    let (start, states, outcomes) = choose|
        start: TickStart,
        states: Seq<PlayerView<S>>,
        outcomes: Seq<SegmentOutcome<S>>,
    |
        is_run(before, playhead_ns, calls, after, start, states, outcomes);
    lemma_resets(before.segments, start, states, outcomes, outcomes.len(), i);
}

/// A tick in which every packet decodes to some time of audio goes on until the queue has less
/// room than the decoder may need, or no segment is left at or after the position.
pub proof fn ticks_fill_the_queue<S>(
    before: PlayerView<S>,
    playhead_ns: i64,
    calls: Seq<ToolCall<S>>,
    after: PlayerView<S>,
)
    requires
        played(before, playhead_ns, calls, after),
        before.frame_len > 0,
        before.queue.len() <= before.capacity,
        forall|i: int|
            0 <= i < calls.len() ==> ((#[trigger] calls[i]) matches ToolCall::Decode {
                reply,
                ..
            } ==> reply is Ok && frames_in(calls[i]) * 1_000_000_000 >= before.clock.rate),
        before.clock.rate > 0,
        before.clock.frames + frames_decoded(calls) <= u128::MAX,
        after.media_ns() < i64::MAX,
    ensures
        after.capacity - after.queue.len() < 4_096 || forall|k: i64| #[trigger]
            after.segments.contains_key(k) ==> k < after.media_ns(),
{
    lemma_run(before, playhead_ns, calls, after);
    let (start, states, outcomes) = choose|
        start: TickStart,
        states: Seq<PlayerView<S>>,
        outcomes: Seq<SegmentOutcome<S>>,
    |
        is_run(before, playhead_ns, calls, after, start, states, outcomes);
    lemma_start(before, playhead_ns, start, states[0]);
    lemma_decoding(starting_calls::<S>(start), before.queue, states, outcomes, outcomes.len());
    if outcomes.len() > 0 {
        let m = (outcomes.len() - 1) as nat;
        let player = states[m as int];
        let outcome = outcomes[m as int];
        lemma_decoding(starting_calls::<S>(start), before.queue, states, outcomes, m);
        assert(wants(player, outcome.pts_ns));
        assert(states.last() == segment_result(player, outcome));
        let earlier = starting_calls::<S>(start) + decoding_calls(states, outcomes, m);
        assert(calls =~= earlier + segment_calls(player, outcome));
        let (first, decode, follow) = lemma_block(earlier, player, outcome);
        assert(calls[first.len() as int] == decode);
        lemma_queue_step(earlier, before.queue, player, outcome);
        let a = player.clock.frames as int;
        let n = frames_in(decode) as int;
        let r = player.clock.rate as int;
        assert((a + n) * 1_000_000_000 / r > a * 1_000_000_000 / r) by (nonlinear_arith)
            requires
                r > 0,
                n * 1_000_000_000 >= r,
        ;
        if let Ok(audio) = outcome.reply {
            assert(audio.samples.len() == audio.samples@.len());
            let len = audio.samples@.len() as int;
            let c = audio.channels as int;
            if c > 0 {
                assert(len / c <= len) by (nonlinear_arith)
                    requires
                        len >= 0,
                        c >= 1,
                ;
            }
        }
    }
}

proof fn lemma_decode_at<S>(
    start: Seq<ToolCall<S>>,
    states: Seq<PlayerView<S>>,
    outcomes: Seq<SegmentOutcome<S>>,
    n: nat,
    i: int,
) -> (m: nat)
    requires
        start.len() <= i < (start + decoding_calls(states, outcomes, n)).len(),
        (start + decoding_calls(states, outcomes, n))[i] is Decode,
    ensures
        m < n,
        (start + decoding_calls(states, outcomes, n))[i]->pts_ns == outcomes[m as int].pts_ns,
        frames_decoded((start + decoding_calls(states, outcomes, n)).take(i)) == frames_decoded(
            start + decoding_calls(states, outcomes, m),
        ),
    decreases n,
{
    let calls = start + decoding_calls(states, outcomes, n);
    if n == 0 {
        assert(calls =~= start);
        0
    } else {
        let m = (n - 1) as nat;
        let earlier = start + decoding_calls(states, outcomes, m);
        assert(calls =~= earlier + segment_calls(states[m as int], outcomes[m as int]));
        if i < earlier.len() {
            let k = lemma_decode_at(start, states, outcomes, m, i);
            assert(calls.take(i) =~= earlier.take(i));
            k
        } else {
            let (head, decode, follow) = lemma_block(earlier, states[m as int], outcomes[m as int]);
            assert(calls[head.len() as int] == decode);
            assert(calls[head.len() as int + 1] == follow);
            if head.len() > earlier.len() {
                assert(calls[earlier.len() as int] is ResetDecoder);
            }
            assert(i == head.len());
            assert(calls.take(i) =~= head);
            lemma_push_calls(Seq::empty(), earlier, ToolCall::ResetDecoder, 1);
            m
        }
    }
}

/// Each packet that a tick decodes is that of the first segment at or after the position which
/// the frames decoded so far have led to: none is skipped, and none is decoded that lies behind.
pub proof fn the_next_segment_is_decoded<S>(
    before: PlayerView<S>,
    playhead_ns: i64,
    calls: Seq<ToolCall<S>>,
    after: PlayerView<S>,
    i: int,
    k: i64,
)
    requires
        played(before, playhead_ns, calls, after),
        before.frame_len > 0,
        before.queue.len() <= before.capacity,
        before.clock.rate > 0,
        before.clock.frames + frames_decoded(calls) <= u128::MAX,
        0 <= i < calls.len(),
        calls[i] is Decode,
        before.segments.contains_key(k),
    ensures
        ({
            let since = if calls.contains(ToolCall::ResetResampler) {
                0
            } else {
                before.clock.frames
            };
            let position = clamp_i64(
                after.clock.base_ns + (since + frames_decoded(calls.take(i))) as int
                    * 1_000_000_000 / before.clock.rate as int,
            );
            &&& position <= calls[i]->pts_ns
            &&& position <= k ==> calls[i]->pts_ns <= k
        }),
        !calls.contains(ToolCall::ResetResampler) ==> after.clock.base_ns == before.clock.base_ns,
{
    lemma_run(before, playhead_ns, calls, after);
    let (start, states, outcomes) = choose|
        start: TickStart,
        states: Seq<PlayerView<S>>,
        outcomes: Seq<SegmentOutcome<S>>,
    |
        is_run(before, playhead_ns, calls, after, start, states, outcomes);
    let first = starting_calls::<S>(start);
    lemma_start(before, playhead_ns, start, states[0]);
    if start == TickStart::Seek {
        assert(calls[0] is ResetDecoder);
        assert(calls[1] == ToolCall::<S>::ResetResampler);
    } else if calls.contains(ToolCall::ResetResampler) {
        let j = choose|j: int| 0 <= j < calls.len() && calls[j] == ToolCall::<S>::ResetResampler;
        assert(calls[j] == decoding_calls(states, outcomes, outcomes.len())[j]);
        lemma_decoding_keeps_the_resampler(states, outcomes, outcomes.len(), j);
    }
    let m = lemma_decode_at(first, states, outcomes, outcomes.len(), i);
    lemma_frames_grow(calls, i);
    lemma_decoding(first, before.queue, states, outcomes, m);
    lemma_decoding(first, before.queue, states, outcomes, outcomes.len());
    assert(wants(states[m as int], outcomes[m as int].pts_ns));
    assert(states[m as int].segments.contains_key(k));
}

proof fn lemma_frames_grow<S>(calls: Seq<ToolCall<S>>, i: int)
    requires
        0 <= i <= calls.len(),
    ensures
        frames_decoded(calls.take(i)) <= frames_decoded(calls),
    decreases calls.len(),
{
    if i == calls.len() {
        assert(calls.take(i) =~= calls);
    } else {
        lemma_frames_grow(calls.drop_last(), i);
        assert(calls.drop_last().take(i) =~= calls.take(i));
        assert(calls =~= calls.drop_last().push(calls.last()));
        lemma_push_calls(Seq::empty(), calls.drop_last(), calls.last(), 1);
    }
}

/// A tick in which the playhead is far from the position, on either side, first resets decoder
/// and resampler and then decodes the latest segment at or before the playhead where playback can
/// start.
pub proof fn distant_playhead_is_caught_up_with<S>(
    before: PlayerView<S>,
    playhead_ns: i64,
    calls: Seq<ToolCall<S>>,
    after: PlayerView<S>,
    k: i64,
)
    requires
        played(before, playhead_ns, calls, after),
        playhead_ns - before.media_ns() > SEEK_THRESHOLD_NS || before.media_ns() - playhead_ns
            > SEEK_THRESHOLD_NS || before.last_state != TransportState::Playing,
        before.segments.contains_key(k),
        before.segments[k].seekable,
        k <= playhead_ns,
    ensures
        calls.len() >= 2,
        calls[0] is ResetDecoder,
        calls[1] is ResetResampler,
        before.segments.contains_key(after.clock.base_ns),
        before.segments[after.clock.base_ns].seekable,
        k <= after.clock.base_ns <= playhead_ns,
        before.capacity >= 4_096 ==> calls.len() > 2,
        calls.len() > 2 ==> {
            let d = if before.segments[after.clock.base_ns].discontinuity {
                3int
            } else {
                2
            };
            calls[d] matches ToolCall::Decode { pts_ns, .. } && pts_ns == after.clock.base_ns
        },
{
    lemma_run(before, playhead_ns, calls, after);
    let (start, states, outcomes) = choose|
        start: TickStart,
        states: Seq<PlayerView<S>>,
        outcomes: Seq<SegmentOutcome<S>>,
    |
        is_run(before, playhead_ns, calls, after, start, states, outcomes);
    assert(seek_candidate(before.segments, playhead_ns, k));
    assert(start == TickStart::Seek);
    lemma_same_base(states, outcomes, outcomes.len());
    let first = starting_calls::<S>(start);
    if outcomes.len() > 0 {
        assert(wants(states[0], outcomes[0].pts_ns));
        assert(outcomes[0].pts_ns == states[0].clock.base_ns);
        lemma_first_block(states, outcomes, outcomes.len());
        let (head, decode, follow) = lemma_block(Seq::empty(), states[0], outcomes[0]);
        let block = segment_calls(states[0], outcomes[0]);
        assert(Seq::<ToolCall<S>>::empty() + block =~= block);
        assert(block[head.len() as int] == decode);
        assert(calls[2 + head.len() as int] == block[head.len() as int]);
    } else {
        assert(calls =~= first);
        assert(states[0].segments.contains_key(states[0].clock.base_ns));
    }
}

proof fn lemma_same_base<S>(
    states: Seq<PlayerView<S>>,
    outcomes: Seq<SegmentOutcome<S>>,
    n: nat,
)
    requires
        decodes_through(states, outcomes),
        n <= outcomes.len(),
    ensures
        states[n as int].clock.base_ns == states[0].clock.base_ns,
    decreases n,
{
    if n > 0 {
        lemma_same_base(states, outcomes, (n - 1) as nat);
        assert(states[n as int] == segment_result(states[n - 1], outcomes[n - 1]));
    }
}

proof fn lemma_first_block<S>(
    states: Seq<PlayerView<S>>,
    outcomes: Seq<SegmentOutcome<S>>,
    n: nat,
)
    requires
        0 < n,
    ensures
        segment_calls(states[0], outcomes[0]).len() <= decoding_calls(states, outcomes, n).len(),
        decoding_calls(states, outcomes, n).take(
            segment_calls(states[0], outcomes[0]).len() as int,
        ) == segment_calls(states[0], outcomes[0]),
    decreases n,
{
    let block = segment_calls(states[0], outcomes[0]);
    let calls = decoding_calls(states, outcomes, n);
    if n == 1 {
        assert(decoding_calls(states, outcomes, 0) =~= Seq::<ToolCall<S>>::empty());
        assert(calls =~= block);
    } else {
        lemma_first_block(states, outcomes, (n - 1) as nat);
        let earlier = decoding_calls(states, outcomes, (n - 1) as nat);
        assert(calls.take(block.len() as int) =~= earlier.take(block.len() as int));
    }
    assert forall|j: int| 0 <= j < block.len() implies #[trigger] calls[j] == block[j] by {
        assert(calls[j] == calls.take(block.len() as int)[j]);
    }
}

/// A player that is not to play keeps its place and its segments, and nothing waits for the
/// output.
pub proof fn silence_keeps_the_place<S>(
    before: PlayerView<S>,
    playhead_ns: i64,
    state: TransportState,
)
    ensures
        silenced(before, playhead_ns, state).queue.len() == 0,
        silenced(before, playhead_ns, state).media_ns() == before.media_ns(),
        silenced(before, playhead_ns, state).segments == before.segments,
        silenced(before, playhead_ns, state).capacity == before.capacity,
        silenced(before, playhead_ns, state).last_state == state,
        silenced(before, playhead_ns, state).config == before.config,
{
}

/// Playback that was paused begins again with a seek, where there is a segment at or before the
/// playhead at which it can.
pub proof fn playback_after_silence_seeks<S>(
    before: PlayerView<S>,
    paused_at_ns: i64,
    state: TransportState,
    playhead_ns: i64,
    start: TickStart,
    after: PlayerView<S>,
    k: i64,
)
    requires
        state != TransportState::Playing,
        begun(silenced(before, paused_at_ns, state), playhead_ns, start, after),
        before.segments.contains_key(k),
        before.segments[k].seekable,
        k <= playhead_ns,
    ensures
        start == TickStart::Seek,
        k <= after.media_ns() <= playhead_ns,
{
    starting_playback_seeks(
        silenced(before, paused_at_ns, state),
        playhead_ns,
        start,
        after,
        k,
    );
}

/// A new player has nothing queued, knows no segment and is at the start, with room for as many
/// frames as was asked for, or for one.
pub proof fn new_players_are_at_the_start<S>(config: PlayerConfig, silence: S)
    requires
        config.source_rate > 0,
    ensures
        fresh_player::<S>(config, silence).queue.len() == 0,
        fresh_player::<S>(config, silence).media_ns() == 0,
        fresh_player::<S>(config, silence).config == config,
        fresh_player::<S>(config, silence).capacity >= config.ring_frames,
        config.ring_frames > 0 ==> fresh_player::<S>(config, silence).capacity
            == config.ring_frames,
        fresh_player::<S>(config, silence).capacity > 0,
        fresh_player::<S>(config, silence).frame_len == config.channels,
        fresh_player::<S>(config, silence).last_state != TransportState::Playing,
        forall|k: i64| !#[trigger]
            fresh_player::<S>(config, silence).segments.contains_key(k),
{
    let rate = config.source_rate as int;
    assert(0int * 1_000_000_000 / rate == 0) by (nonlinear_arith)
        requires
            rate > 0,
    ;
}

/// Beginning a tick while the player is to play seeks whenever the playhead is further than a
/// tenth of a second from the position, on either side, and a segment at or before the playhead
/// lets playback start; the position is then at the latest such segment, and nothing is queued.
pub proof fn beginning_a_tick_follows_the_playhead<S: Copy>()
    ensures
        forall|player: &mut AudioStreamPlayer<S>, at: i64, r: TickStart, k: i64|
            #![trigger
                call_ensures(
                    AudioStreamPlayer::<S>::begin_tick,
                    (player, at, TransportState::Playing),
                    r,
                ),
                player@.segments.contains_key(k)
            ]
            call_ensures(
                AudioStreamPlayer::<S>::begin_tick,
                (player, at, TransportState::Playing),
                r,
            ) && player@.segments.contains_key(k) && player@.segments[k].seekable && k <= at && (at
                - player@.media_ns() > 100_000_000 || player@.media_ns() - at > 100_000_000
                || player@.last_state != TransportState::Playing) ==> {
                &&& r == TickStart::Seek
                &&& k <= final(player)@.media_ns() <= at
                &&& player@.segments.contains_key(final(player)@.media_ns())
                &&& player@.segments[final(player)@.media_ns()].seekable
                &&& final(player)@.queue.len() == 0
            },
        forall|player: &mut AudioStreamPlayer<S>, at: i64, r: TickStart|
            #[trigger] call_ensures(
                AudioStreamPlayer::<S>::begin_tick,
                (player, at, TransportState::Playing),
                r,
            ) && player@.last_state == TransportState::Playing && at - player@.media_ns()
                <= 100_000_000 && player@.media_ns() - at <= 100_000_000 ==> {
                &&& r == TickStart::Continue
                &&& final(player)@.media_ns() == player@.media_ns()
                &&& final(player)@.queue == player@.queue
            },
{
    assert forall|player: &mut AudioStreamPlayer<S>, at: i64, r: TickStart, k: i64|
        #![trigger
            call_ensures(
                AudioStreamPlayer::<S>::begin_tick,
                (player, at, TransportState::Playing),
                r,
            ),
            player@.segments.contains_key(k)
        ]
        call_ensures(
            AudioStreamPlayer::<S>::begin_tick,
            (player, at, TransportState::Playing),
            r,
        ) && player@.segments.contains_key(k) && player@.segments[k].seekable && k <= at && (at
            - player@.media_ns() > 100_000_000 || player@.media_ns() - at > 100_000_000
            || player@.last_state != TransportState::Playing) implies {
        &&& r == TickStart::Seek
        &&& k <= final(player)@.media_ns() <= at
        &&& player@.segments.contains_key(final(player)@.media_ns())
        &&& player@.segments[final(player)@.media_ns()].seekable
        &&& final(player)@.queue.len() == 0
    } by {
        if player@.last_state != TransportState::Playing {
            starting_playback_seeks(player@, at, r, final(player)@, k);
        } else {
            distant_playhead_leads_to_a_seek(player@, at, r, final(player)@, k);
        }
    }
    assert forall|player: &mut AudioStreamPlayer<S>, at: i64, r: TickStart|
        #[trigger] call_ensures(
            AudioStreamPlayer::<S>::begin_tick,
            (player, at, TransportState::Playing),
            r,
        ) && player@.last_state == TransportState::Playing && at - player@.media_ns()
            <= 100_000_000 && player@.media_ns() - at <= 100_000_000 implies {
        &&& r == TickStart::Continue
        &&& final(player)@.media_ns() == player@.media_ns()
        &&& final(player)@.queue == player@.queue
    } by {
        close_playhead_leaves_playback_alone(player@, at, r, final(player)@);
    }
}

/// A player that is asked for the next segment hands out the first at or after its position, with
/// its bytes, as long as the queue has room for what the decoder may need; and it asks for
/// nothing only where it has stopped, the queue is full enough or no such segment is left.
pub proof fn the_next_segment_is_asked_for<S: Copy>()
    ensures
        forall|player: &mut AudioStreamPlayer<S>, r: Option<DecodeRequest>, k: i64|
            #![trigger
                call_ensures(AudioStreamPlayer::<S>::next_decode, (player,), r),
                player@.segments.contains_key(k)
            ]
            call_ensures(AudioStreamPlayer::<S>::next_decode, (player,), r)
                && player@.segments.contains_key(k) && player@.media_ns() <= k ==> {
                &&& r is None ==> player@.stopped || player@.capacity - player@.queue.len() < 4_096
                &&& r matches Some(request) ==> {
                    &&& !player@.stopped
                    &&& player@.capacity - player@.queue.len() >= 4_096
                    &&& player@.media_ns() <= request.segment.pts_ns <= k
                    &&& player@.segments.contains_key(request.segment.pts_ns)
                    &&& request.segment.chunk@ == player@.segments[request.segment.pts_ns].chunk
                    &&& request.reset
                        == player@.segments[request.segment.pts_ns].discontinuity
                    &&& request.reset ==> final(player)@.queue.len() == 0
                    &&& !request.reset ==> final(player)@.queue == player@.queue
                    &&& final(player)@.media_ns() == player@.media_ns()
                }
            },
{
}

/// A tick in which the player is not to play hands nothing to decoder and resampler and leaves
/// nothing queued; one in which it is to play makes calls of which all that is said of ticks here
/// holds.
pub proof fn ticks_play_or_are_silent<S: Copy, D: AudioDecoder<S>, R: Resample<S>>()
    ensures
        forall|
            player: &mut AudioStreamPlayer<S>,
            at: i64,
            state: TransportState,
            decoder: &mut D,
            resampler: &mut R,
        |
            #[trigger] call_ensures(
                AudioStreamPlayer::<S>::tick::<D, R>,
                (player, at, state, decoder, resampler),
                (),
            ) ==> {
                &&& final(player)@.last_state == state
                &&& final(player)@.last_playhead_ns == at
                &&& state != TransportState::Playing ==> {
                    &&& final(player)@.queue.len() == 0
                    &&& final(player)@.media_ns() == player@.media_ns()
                    &&& *final(decoder) == *decoder
                    &&& *final(resampler) == *resampler
                }
                &&& state == TransportState::Playing ==> exists|calls: Seq<ToolCall<S>>|
                    played(player@, at, calls, final(player)@)
            },
{
    assert forall|
        player: &mut AudioStreamPlayer<S>,
        at: i64,
        state: TransportState,
        decoder: &mut D,
        resampler: &mut R,
    |
        #[trigger] call_ensures(
            AudioStreamPlayer::<S>::tick::<D, R>,
            (player, at, state, decoder, resampler),
            (),
        ) implies {
        &&& final(player)@.last_state == state
        &&& final(player)@.last_playhead_ns == at
        &&& state != TransportState::Playing ==> {
            &&& final(player)@.queue.len() == 0
            &&& final(player)@.media_ns() == player@.media_ns()
            &&& *final(decoder) == *decoder
            &&& *final(resampler) == *resampler
        }
        &&& state == TransportState::Playing ==> exists|calls: Seq<ToolCall<S>>|
            played(player@, at, calls, final(player)@)
    } by {
        if state == TransportState::Playing {
            let calls = choose|calls: Seq<ToolCall<S>>|
                played(player@, at, calls, final(player)@);
            assert(played(player@, at, calls, final(player)@));
        }
    }
}

/// PCM that is taken in comes behind what is queued, sample by sample, as much of it as there is
/// room for, and the position moves on by the frames that were decoded. A segment that does not
/// decode empties the queue and moves nothing.
pub proof fn pcm_is_queued_behind<S: Copy>()
    ensures
        forall|player: &mut AudioStreamPlayer<S>, frames: u64, pcm: &[S]|
            player.wf() && #[trigger] call_ensures(
                AudioStreamPlayer::<S>::accept_pcm,
                (player, frames, pcm),
                (),
            ) ==> {
                let n = player@.frame_len;
                let before = player@.queue;
                let after = final(player)@.queue;
                &&& after == fitting(before + frames_of(pcm@, n), player@.capacity)
                &&& final(player)@.clock.base_ns == player@.clock.base_ns
                &&& player@.clock.frames + frames <= u128::MAX ==> final(player)@.clock.frames
                    == player@.clock.frames + frames
                &&& final(player)@.segments == player@.segments
            },
        forall|player: &mut AudioStreamPlayer<S>|
            #[trigger] call_ensures(AudioStreamPlayer::<S>::decode_failed, (player,), ()) ==> {
                &&& final(player)@.queue.len() == 0
                &&& final(player)@.stopped
                &&& final(player)@.media_ns() == player@.media_ns()
                &&& final(player)@.segments == player@.segments
            },
        forall|player: &mut AudioStreamPlayer<S>, seg: SegmentRef, k: i64|
            #![trigger
                call_ensures(AudioStreamPlayer::<S>::push_segment, (player, seg), ()),
                player@.segments.contains_key(k)
            ]
            call_ensures(AudioStreamPlayer::<S>::push_segment, (player, seg), ()) ==> {
                &&& final(player)@.segments.contains_key(seg.pts_ns)
                &&& final(player)@.segments[seg.pts_ns] == seg@
                &&& k != seg.pts_ns ==> (final(player)@.segments.contains_key(k)
                    <==> player@.segments.contains_key(k)) && final(player)@.segments[k]
                    == player@.segments[k]
                &&& final(player)@.queue == player@.queue
                &&& final(player)@.media_ns() == player@.media_ns()
            },
{
    assert forall|player: &mut AudioStreamPlayer<S>, frames: u64, pcm: &[S]|
        player.wf() && #[trigger] call_ensures(
            AudioStreamPlayer::<S>::accept_pcm,
            (player, frames, pcm),
            (),
        ) implies {
        let n = player@.frame_len;
        let before = player@.queue;
        let after = final(player)@.queue;
        &&& after == fitting(before + frames_of(pcm@, n), player@.capacity)
        &&& final(player)@.clock.base_ns == player@.clock.base_ns
        &&& player@.clock.frames + frames <= u128::MAX ==> final(player)@.clock.frames
            == player@.clock.frames + frames
        &&& final(player)@.segments == player@.segments
    } by {
        player.lemma_wf();
        assert(final(player)@.queue =~= fitting(
            player@.queue + frames_of(pcm@, player@.frame_len),
            player@.capacity,
        ));
    }
}

} // verus!
