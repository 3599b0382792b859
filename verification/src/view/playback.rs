//! Playback of one stream per view.

use crate::audio::output::SinkFormat;
use crate::audio::player::TransportState;
use vstd::prelude::*;

verus! {

/// Transport override set by the user.
#[derive(Debug, Clone, Copy, PartialEq, Eq, Structural)]
pub enum ViewTransport {
    /// Follow the play state of the viewer.
    FollowTimeline,
    /// Muted: the player pauses whatever the viewer does.
    Muted,
}

impl Default for ViewTransport {
    fn default() -> (r: Self)
        ensures
            r == ViewTransport::FollowTimeline,
    {
        ViewTransport::FollowTimeline
    }
}

/// What a view does for one stream in one frame.
#[derive(Debug, Clone, Copy, PartialEq, Eq, Structural)]
pub struct DrivePlan {
    /// What the player is asked to do.
    pub state: TransportState,
    /// Whether the stream is the one that is heard.
    pub owns_sink: bool,
    /// Whether a sink has to be opened first.
    pub open_sink: bool,
}

/// Playback state of a view: which sink is open, and which entity is heard through it.
#[derive(Debug)]
pub struct AudioViewState {
    /// The open sink. One is opened when a stream is first heard.
    pub open_sink: Option<SinkFormat>,
    /// The entity that is heard.
    pub sink_owner: Option<String>,
    /// Transport override set by the user.
    pub transport: ViewTransport,
}

/// The text in an optional string.
pub open spec fn optional_text(text: Option<String>) -> Option<Seq<char>> {
    match text {
        Some(t) => Some(t@),
        None => None,
    }
}

/// What the player is asked to do: play when the viewer plays and the view is not muted.
pub open spec fn wanted_state(
    transport: ViewTransport,
    timeline_is_playing: bool,
) -> TransportState {
    if transport == ViewTransport::FollowTimeline && timeline_is_playing {
        TransportState::Playing
    } else {
        TransportState::Paused
    }
}

/// How many frames the queue of a sink can hold: one second, and at least one frame.
pub fn sink_ring_frames(rate: u32) -> (frames: usize)
    ensures
        frames == (if rate == 0 {
            1
        } else {
            rate as int
        }),
{
    if rate == 0 {
        1
    } else {
        rate as usize
    }
}

/// How many samples a view hands to its sink in one frame: what the player has, up to an eighth
/// of a second.
pub fn samples_to_drain(sink: SinkFormat, available_frames: usize) -> (samples: usize)
    requires
        available_frames * sink.channels <= usize::MAX,
        sink.sample_rate * sink.channels <= usize::MAX,
    ensures
        samples == (if available_frames * sink.channels <= sink.sample_rate * sink.channels / 8 {
            available_frames * sink.channels
        } else {
            sink.sample_rate * sink.channels / 8
        }),
{
    let max_samples: usize = sink.sample_rate as usize * sink.channels as usize / 8;
    let available: usize = available_frames * sink.channels as usize;
    if available <= max_samples {
        available
    } else {
        max_samples
    }
}

/// Whether a stream is heard: it is the owner of the sink, or there is none.
pub open spec fn is_heard(owner: Option<Seq<char>>, entity: Seq<char>) -> bool {
    owner is None || owner == Some(entity)
}

/// The owner of the sink after a stream came: the one there was, or else that stream.
pub open spec fn claimed(owner: Option<Seq<char>>, entity: Seq<char>) -> Option<Seq<char>> {
    if owner is None {
        Some(entity)
    } else {
        owner
    }
}

/// Only one stream is heard at a time: once one is, no other is, and it goes on being heard.
pub proof fn one_stream_is_heard(owner: Option<Seq<char>>, entity: Seq<char>, other: Seq<char>)
    requires
        is_heard(owner, entity),
        other != entity,
    ensures
        is_heard(claimed(owner, entity), entity),
        !is_heard(claimed(owner, entity), other),
        claimed(claimed(owner, entity), other) == Some(entity),
{
}

impl AudioViewState {
    /// The entity that is heard.
    pub open spec fn owner(&self) -> Option<Seq<char>> {
        optional_text(self.sink_owner)
    }

    /// A view without a sink, which follows the viewer.
    pub fn new() -> (r: Self)
        ensures
            r.open_sink is None,
            r.owner() is None,
            r.transport == ViewTransport::FollowTimeline,
    {
        AudioViewState {
            open_sink: None,
            sink_owner: None,
            transport: ViewTransport::FollowTimeline,
        }
    }

    /// Plans the frame of one stream. The first stream that comes while nothing is heard becomes
    /// the one that is heard; the player of any other stream is only kept going. The sink is
    /// opened for the stream that is heard when none is open.
    pub fn drive(&mut self, entity: &str, timeline_is_playing: bool) -> (plan: DrivePlan)
        ensures
            plan.state == wanted_state(old(self).transport, timeline_is_playing),
            plan.owns_sink == is_heard(old(self).owner(), entity@),
            plan.open_sink == (plan.owns_sink && old(self).open_sink is None),
            final(self).owner() == claimed(old(self).owner(), entity@),
            final(self).open_sink == old(self).open_sink,
            final(self).transport == old(self).transport,
    {
        let state = match self.transport {
            ViewTransport::Muted => TransportState::Paused,
            ViewTransport::FollowTimeline => if timeline_is_playing {
                TransportState::Playing
            } else {
                TransportState::Paused
            },
        };
        let wanted = entity.to_owned();
        let owns_sink: bool = match &self.sink_owner {
            Some(owner) => *owner == wanted,
            None => true,
        };
        if self.sink_owner.is_none() {
            self.sink_owner = Some(wanted);
        }
        DrivePlan { state, owns_sink, open_sink: owns_sink && self.open_sink.is_none() }
    }

    /// Takes in what came of opening a sink: its format, or that there is none.
    pub fn sink_opened(&mut self, sink: Option<SinkFormat>)
        ensures
            final(self).open_sink == sink,
            final(self).owner() == old(self).owner(),
            final(self).transport == old(self).transport,
    {
        self.open_sink = sink;
    }

    /// Forgets the entity that is heard when it is not among `live_entities`, so that the next
    /// frame can pick another. Returns whether the open sink has to be flushed.
    pub fn forget_owner_if_missing(&mut self, live_entities: &Vec<String>) -> (flush: bool)
        ensures
            final(self).owner() == (if old(self).owner() is Some && !names(live_entities@).contains(
                old(self).owner()->0,
            ) {
                None
            } else {
                old(self).owner()
            }),
            flush == (old(self).owner() is Some && !names(live_entities@).contains(
                old(self).owner()->0,
            ) && old(self).open_sink is Some),
            final(self).open_sink == old(self).open_sink,
            final(self).transport == old(self).transport,
    {
        let gone: bool = match &self.sink_owner {
            Some(owner) => !contains_name(live_entities, owner),
            None => false,
        };
        if gone {
            self.sink_owner = None;
            return self.open_sink.is_some();
        }
        false
    }
}

/// The texts of a list of names.
pub open spec fn names(list: Seq<String>) -> Seq<Seq<char>> {
    list.map_values(|s: String| s@)
}

/// Whether a name is in a list.
pub fn contains_name(list: &Vec<String>, name: &String) -> (r: bool)
    ensures
        r == names(list@).contains(name@),
{
    let mut i: usize = 0;
    while i < list.len()
        invariant
            i <= list@.len(),
            forall|k: int| 0 <= k < i ==> (#[trigger] list@[k])@ != name@,
        decreases list@.len() - i,
    {
        if list[i] == *name {
            assert(names(list@)[i as int] == name@);
            return true;
        }
        i = i + 1;
    }
    assert forall|k: int| 0 <= k < list@.len() implies #[trigger] names(list@)[k] != name@ by {
        assert(list@[k]@ != name@);
    }
    false
}

/// A view plays a stream exactly while the viewer plays and the user has not muted it. The first
/// stream that comes while none is heard becomes the one that is heard, and stays so; the sink is
/// opened for it where none is open.
pub proof fn the_first_stream_is_heard()
    ensures
        forall|view: &mut AudioViewState, entity: &str, playing: bool, plan: DrivePlan|
            #[trigger] call_ensures(AudioViewState::drive, (view, entity, playing), plan) ==> {
                &&& plan.state == TransportState::Playing <==> playing && view.transport
                    == ViewTransport::FollowTimeline
                &&& plan.state != TransportState::Scrubbing
                &&& view.owner() is None ==> plan.owns_sink && final(view).owner() == Some(entity@)
                &&& view.owner() is Some ==> final(view).owner() == view.owner() && (
                plan.owns_sink <==> view.owner()->0 == entity@)
                &&& plan.open_sink <==> plan.owns_sink && view.open_sink is None
                &&& final(view).open_sink == view.open_sink
                &&& final(view).transport == view.transport
            },
{
}

/// The stream that is heard is forgotten exactly when it is not among those that are there.
pub proof fn a_missing_owner_is_forgotten()
    ensures
        forall|view: &mut AudioViewState, live: &Vec<String>, flush: bool|
            #[trigger] call_ensures(
                AudioViewState::forget_owner_if_missing,
                (view, live),
                flush,
            ) ==> {
                &&& view.owner() is None ==> final(view).owner() is None && !flush
                &&& view.owner() matches Some(owner) ==> {
                    &&& forall|i: int|
                        0 <= i < live@.len() && (#[trigger] live@[i])@ == owner
                            ==> final(view).owner() == Some(owner) && !flush
                    &&& (forall|i: int| 0 <= i < live@.len() ==> (#[trigger] live@[i])@ != owner)
                        ==> final(view).owner() is None && (flush <==> view.open_sink is Some)
                }
            },
{
    assert forall|view: &mut AudioViewState, live: &Vec<String>, flush: bool|
        #[trigger] call_ensures(
            AudioViewState::forget_owner_if_missing,
            (view, live),
            flush,
        ) implies {
        &&& view.owner() is None ==> final(view).owner() is None && !flush
        &&& view.owner() matches Some(owner) ==> {
            &&& forall|i: int|
                0 <= i < live@.len() && (#[trigger] live@[i])@ == owner ==> final(view).owner()
                    == Some(owner) && !flush
            &&& (forall|i: int| 0 <= i < live@.len() ==> (#[trigger] live@[i])@ != owner)
                ==> final(view).owner() is None && (flush <==> view.open_sink is Some)
        }
    } by {
        if let Some(owner) = view.owner() {
            assert forall|i: int| 0 <= i < live@.len() && (#[trigger] live@[i])@
                == owner implies names(live@).contains(owner) by {
                assert(names(live@)[i] == owner);
            }
            if names(live@).contains(owner) {
                let i = choose|i: int| 0 <= i < names(live@).len() && names(live@)[i] == owner;
                assert(live@[i]@ == owner);
            }
        }
    }
}

/// A view hands its sink all that the player has, as long as that is no more than an eighth of a
/// second, and otherwise an eighth of a second.
pub proof fn sinks_get_an_eighth_of_a_second(sink: SinkFormat, frames: usize, samples: usize)
    requires
        call_ensures(samples_to_drain, (sink, frames), samples),
    ensures
        samples <= frames * sink.channels,
        8 * samples <= sink.sample_rate * sink.channels,
        samples < frames * sink.channels ==> 8 * (samples + 1) > sink.sample_rate * sink.channels,
{
}

/// The queue of a sink holds one second of frames, and at least one frame.
pub proof fn sinks_hold_a_second(rate: u32, frames: usize)
    requires
        call_ensures(sink_ring_frames, (rate,), frames),
    ensures
        frames >= 1,
        rate > 0 ==> frames == rate,
{
}

} // verus!
