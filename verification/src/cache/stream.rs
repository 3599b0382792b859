//! Cache of stream players.

use crate::arith::{clamp_u64, saturating_mul_u64};
use crate::audio::codec::AudioCodecKind;
use crate::audio::error::AudioError;
use crate::audio::player::{
    fresh_player, playable, unplayable, AudioStreamPlayer, PlayerConfig, PlayerView,
};
use crate::audio::segments::{SegmentRef, SegmentView};
use crate::chunk::copy_bytes;
use crate::select::{
    flags_by, is_flagged, keep_flagged, lemma_select, lemma_select_flags, lemma_select_map, select,
    selecting_is_filtering,
};
use crate::text::join2;
use vstd::prelude::*;

verus! {

/// What reading a component of a stream gave.
#[derive(Debug)]
pub enum ComponentLookup<T> {
    /// It has not been logged.
    Missing,
    /// It could not be read.
    Unreadable(String),
    /// It is there.
    Found(T),
}

/// The components that configure a stream.
#[derive(Debug)]
pub struct StreamComponents {
    pub codec: ComponentLookup<AudioCodecKind>,
    pub sample_rate: ComponentLookup<u32>,
    pub channel_count: ComponentLookup<u16>,
}

/// What can go wrong while a stream is set up.
#[derive(Debug)]
pub enum AudioStreamProcessingError {
    /// No codec has been logged yet.
    MissingCodec,
    /// No sample rate has been logged yet.
    MissingSampleRate,
    /// No channel count has been logged yet.
    MissingChannelCount,
    /// A component could not be read.
    BadComponent { name: &'static str, err: String },
    /// There is no player for the stream.
    Player(AudioError),
}

impl AudioStreamProcessingError {
    /// The message for people.
    pub open spec fn text(&self) -> Seq<char> {
        match *self {
            AudioStreamProcessingError::MissingCodec => "missing AudioCodec component on entity"@,
            AudioStreamProcessingError::MissingSampleRate =>
            "missing AudioSampleRate component on entity"@,
            AudioStreamProcessingError::MissingChannelCount =>
            "missing AudioChannelCount component on entity"@,
            AudioStreamProcessingError::BadComponent { name, err } => "failed to read component "@
                + name@ + ": "@ + err@,
            AudioStreamProcessingError::Player(e) => e.text(),
        }
    }

    /// The message for people.
    pub fn message(&self) -> (r: String)
        ensures
            r@ == self.text(),
    {
        match self {
            AudioStreamProcessingError::MissingCodec =>
            "missing AudioCodec component on entity".to_owned(),
            AudioStreamProcessingError::MissingSampleRate =>
            "missing AudioSampleRate component on entity".to_owned(),
            AudioStreamProcessingError::MissingChannelCount =>
            "missing AudioChannelCount component on entity".to_owned(),
            AudioStreamProcessingError::BadComponent { name, err } => {
                let mut out = join2("failed to read component ", name);
                out.append(": ");
                out.append(err.as_str());
                out
            },
            AudioStreamProcessingError::Player(e) => e.message(),
        }
    }
}

/// The configuration that components and an output sink add up to.
pub open spec fn configured(
    components: StreamComponents,
    device_rate: u32,
    ring_frames: usize,
) -> Option<PlayerConfig> {
    match (components.codec, components.sample_rate, components.channel_count) {
        (
            ComponentLookup::Found(codec),
            ComponentLookup::Found(source_rate),
            ComponentLookup::Found(channels),
        ) => Some(PlayerConfig { codec, source_rate, channels, device_rate, ring_frames }),
        _ => None,
    }
}

/// Whether `error` tells what is first wrong with components: codec, then rate, then channels.
pub open spec fn config_error(
    components: StreamComponents,
    error: AudioStreamProcessingError,
) -> bool {
    match (components.codec, components.sample_rate, components.channel_count) {
        (ComponentLookup::Missing, _, _) => error is MissingCodec,
        (ComponentLookup::Unreadable(e), _, _) => bad_component(error, "AudioCodec"@, e),
        (_, ComponentLookup::Missing, _) => error is MissingSampleRate,
        (_, ComponentLookup::Unreadable(e), _) => bad_component(error, "AudioSampleRate"@, e),
        (_, _, ComponentLookup::Missing) => error is MissingChannelCount,
        (_, _, ComponentLookup::Unreadable(e)) => bad_component(error, "AudioChannelCount"@, e),
        _ => false,
    }
}

/// Whether `error` says that the component `name` could not be read.
pub open spec fn bad_component(
    error: AudioStreamProcessingError,
    name: Seq<char>,
    reason: String,
) -> bool {
    error matches AudioStreamProcessingError::BadComponent { name: n, err } && n@ == name && err
        == reason
}

/// Puts the configuration of a player together.
pub fn resolve_static_config(
    components: StreamComponents,
    device_rate: u32,
    ring_frames: usize,
) -> (r: Result<PlayerConfig, AudioStreamProcessingError>)
    ensures
        match r {
            Ok(config) => configured(components, device_rate, ring_frames) == Some(config),
            Err(e) => configured(components, device_rate, ring_frames) is None && config_error(
                components,
                e,
            ),
        },
{
    let codec = match components.codec {
        ComponentLookup::Missing => return Err(AudioStreamProcessingError::MissingCodec),
        ComponentLookup::Unreadable(err) => return Err(
            AudioStreamProcessingError::BadComponent { name: "AudioCodec", err },
        ),
        ComponentLookup::Found(codec) => codec,
    };
    let source_rate: u32 = match components.sample_rate {
        ComponentLookup::Missing => return Err(AudioStreamProcessingError::MissingSampleRate),
        ComponentLookup::Unreadable(err) => return Err(
            AudioStreamProcessingError::BadComponent { name: "AudioSampleRate", err },
        ),
        ComponentLookup::Found(rate) => rate,
    };
    let channels: u16 = match components.channel_count {
        ComponentLookup::Missing => return Err(AudioStreamProcessingError::MissingChannelCount),
        ComponentLookup::Unreadable(err) => return Err(
            AudioStreamProcessingError::BadComponent { name: "AudioChannelCount", err },
        ),
        ComponentLookup::Found(channels) => channels,
    };
    Ok(PlayerConfig { codec, source_rate, channels, device_rate, ring_frames })
}

/// How long `samples` last at `rate`, in whole nanoseconds: saturating, and nothing without a
/// rate.
pub open spec fn samples_ns(samples: u64, rate: u32) -> i64 {
    if rate == 0 {
        0
    } else {
        let ns = clamp_u64(samples * 1_000_000_000) as int / rate as int;
        if ns > i64::MAX {
            i64::MAX
        } else {
            ns as i64
        }
    }
}

/// How long `samples` last at `rate`, in nanoseconds.
pub fn samples_to_ns(samples: u64, rate: u32) -> (ns: i64)
    ensures
        ns == samples_ns(samples, rate),
{
    if rate == 0 {
        0
    } else {
        let ns: u64 = saturating_mul_u64(samples, 1_000_000_000) / rate as u64;
        if ns > i64::MAX as u64 {
            i64::MAX
        } else {
            ns as i64
        }
    }
}

/// What is logged of a stream in one row.
#[derive(Debug)]
pub struct StreamRow {
    pub time: i64,
    pub chunk: Option<Vec<u8>>,
    pub duration_samples: Option<u64>,
    pub seekable: Option<bool>,
    pub discontinuity: Option<bool>,
}

/// Whether a row carries an encoded chunk.
pub open spec fn carries_audio(row: StreamRow) -> bool {
    row.chunk matches Some(bytes) && bytes@.len() > 0
}

/// The segment of a row. Without a duration it lasts no time; unless the row says otherwise,
/// playback can start there and it is no discontinuity.
pub open spec fn segment_of(row: StreamRow, rate: u32) -> SegmentView {
    SegmentView {
        pts_ns: row.time,
        duration_ns: match row.duration_samples {
            Some(samples) => samples_ns(samples, rate),
            None => 0,
        },
        chunk: row.chunk->0@,
        seekable: row.seekable != Some(false),
        discontinuity: row.discontinuity == Some(true),
    }
}

/// The segments of the first `n` rows, by time.
pub open spec fn segments_of(rows: Seq<StreamRow>, rate: u32, n: nat) -> Map<i64, SegmentView>
    decreases n,
{
    if n == 0 {
        Map::empty()
    } else {
        let before = segments_of(rows, rate, (n - 1) as nat);
        if carries_audio(rows[n - 1]) {
            before.insert(rows[n - 1].time, segment_of(rows[n - 1], rate))
        } else {
            before
        }
    }
}

/// A player and what it plays.
pub struct PlayableAudioStream<S> {
    pub player: AudioStreamPlayer<S>,
    pub codec: AudioCodecKind,
    /// Sample rate of the encoded stream, in Hz.
    pub source_rate: u32,
    pub channels: u16,
}

/// What a playable stream holds.
#[verifier::ext_equal]
pub struct StreamView<S> {
    pub player: PlayerView<S>,
    pub codec: AudioCodecKind,
    pub source_rate: u32,
    pub channels: u16,
}

impl<S: Copy> View for PlayableAudioStream<S> {
    type V = StreamView<S>;

    open spec fn view(&self) -> StreamView<S> {
        StreamView {
            player: self.player@,
            codec: self.codec,
            source_rate: self.source_rate,
            channels: self.channels,
        }
    }
}

/// One cached stream.
pub struct StreamEntry<S> {
    entity: String,
    timeline: String,
    used_this_frame: bool,
    stream: PlayableAudioStream<S>,
}

/// What a cached stream is found under, and what it holds.
#[verifier::ext_equal]
pub struct StreamEntryView<S> {
    pub entity: Seq<char>,
    pub timeline: Seq<char>,
    pub used_this_frame: bool,
    pub stream: StreamView<S>,
}

impl<S: Copy> View for StreamEntry<S> {
    type V = StreamEntryView<S>;

    closed spec fn view(&self) -> StreamEntryView<S> {
        StreamEntryView {
            entity: self.entity@,
            timeline: self.timeline@,
            used_this_frame: self.used_this_frame,
            stream: self.stream@,
        }
    }
}

/// The views of `entries`.
pub open spec fn stream_entry_views<S: Copy>(entries: Seq<StreamEntry<S>>) -> Seq<
    StreamEntryView<S>,
> {
    entries.map_values(|e: StreamEntry<S>| e@)
}

/// The position of the entry for an entity and a timeline, looking at the first `n`.
pub open spec fn stream_position<S>(
    entries: Seq<StreamEntryView<S>>,
    entity: Seq<char>,
    timeline: Seq<char>,
    n: nat,
) -> Option<int>
    decreases n,
{
    if n == 0 {
        None
    } else {
        match stream_position(entries, entity, timeline, (n - 1) as nat) {
            Some(i) => Some(i),
            None => if entries[n - 1].entity == entity && entries[n - 1].timeline == timeline {
                Some(n - 1)
            } else {
                None
            },
        }
    }
}

proof fn lemma_stream_position<S>(
    entries: Seq<StreamEntryView<S>>,
    entity: Seq<char>,
    timeline: Seq<char>,
    n: nat,
    m: nat,
)
    requires
        n <= m,
        stream_position(entries, entity, timeline, n) is Some,
    ensures
        stream_position(entries, entity, timeline, m) == stream_position(
            entries,
            entity,
            timeline,
            n,
        ),
    decreases m,
{
    if n < m {
        lemma_stream_position(entries, entity, timeline, n, (m - 1) as nat);
    }
}

/// `entry`, marked as used or not.
pub open spec fn marked<S>(entry: StreamEntryView<S>, used: bool) -> StreamEntryView<S> {
    StreamEntryView { used_this_frame: used, ..entry }
}

/// The entries after a new frame has begun: those used in the frame before, not used yet.
pub open spec fn next_frame<S>(entries: Seq<StreamEntryView<S>>) -> Seq<StreamEntryView<S>> {
    select(entries, flags_by(entries, |e: StreamEntryView<S>| e.used_this_frame)).map_values(
        |e: StreamEntryView<S>| marked(e, false),
    )
}

/// Keeps the players of streams as long as they are used.
pub struct AudioStreamCache<S> {
    entries: Vec<StreamEntry<S>>,
}

impl<S: Copy> View for AudioStreamCache<S> {
    type V = Seq<StreamEntryView<S>>;

    closed spec fn view(&self) -> Seq<StreamEntryView<S>> {
        stream_entry_views(self.entries@)
    }
}

impl<S: Copy> AudioStreamCache<S> {
    /// Every player is well-formed.
    pub closed spec fn wf(&self) -> bool {
        forall|i: int|
            0 <= i < self.entries@.len() ==> (#[trigger] self.entries@[i]).stream.player.wf()
    }

    /// An empty cache.
    pub fn new() -> (r: Self)
        ensures
            r.wf(),
            r@ == Seq::<StreamEntryView<S>>::empty(),
    {
        let r = AudioStreamCache { entries: Vec::new() };
        assert(r@ =~= Seq::<StreamEntryView<S>>::empty());
        r
    }

    /// The name of the cache.
    pub fn name(&self) -> (r: &'static str)
        ensures
            r@ == "AudioStreamCache"@,
    {
        "AudioStreamCache"
    }

    fn find(&self, entity: &String, timeline: &String) -> (r: Option<usize>)
        ensures
            match r {
                Some(i) => i < self.entries@.len() && stream_position(
                    self@,
                    entity@,
                    timeline@,
                    self@.len(),
                ) == Some(i as int),
                None => stream_position(self@, entity@, timeline@, self@.len()) is None,
            },
    {
        let mut i: usize = 0;
        while i < self.entries.len()
            invariant
                i <= self.entries@.len(),
                stream_position(self@, entity@, timeline@, i as nat) is None,
            decreases self.entries@.len() - i,
        {
            let entry = &self.entries[i];
            assert(self@[i as int] == entry@);
            if entry.entity == *entity && entry.timeline == *timeline {
                proof {
                    lemma_stream_position(self@, entity@, timeline@, (i + 1) as nat, self@.len());
                }
                return Some(i);
            }
            i = i + 1;
        }
        None
    }

    /// The position of the stream of an entity on a timeline, which is marked as used. A stream
    /// that is not there yet is set up from its components; the rate and the queue length are
    /// those of the output sink, and `resampler` tells what came of setting up a resampler to that
    /// rate.
    pub fn audio_entry(
        &mut self,
        entity: String,
        timeline: String,
        components: StreamComponents,
        device_rate: u32,
        ring_frames: usize,
        resampler: Result<(), String>,
        silence: S,
    ) -> (r: Result<usize, AudioStreamProcessingError>)
        requires
            old(self).wf(),
            2 * ring_frames <= usize::MAX,
        ensures
            final(self).wf(),
            match stream_position(old(self)@, entity@, timeline@, old(self)@.len()) {
                Some(i) => {
                    &&& r matches Ok(at)
                    &&& at == i
                    &&& final(self)@ == old(self)@.update(i, marked(old(self)@[i], true))
                },
                None => match configured(components, device_rate, ring_frames) {
                    None => {
                        &&& r matches Err(e)
                        &&& config_error(components, e)
                        &&& final(self)@ == old(self)@
                    },
                    Some(config) => if playable(config, resampler) {
                        &&& r matches Ok(at)
                        &&& at == old(self)@.len()
                        &&& final(self)@ == old(self)@.push(
                            StreamEntryView {
                                entity: entity@,
                                timeline: timeline@,
                                used_this_frame: true,
                                stream: StreamView {
                                    player: fresh_player::<S>(config, silence),
                                    codec: config.codec,
                                    source_rate: config.source_rate,
                                    channels: config.channels,
                                },
                            },
                        )
                    } else {
                        &&& r matches Err(AudioStreamProcessingError::Player(e))
                        &&& unplayable(config, resampler, e)
                        &&& final(self)@ == old(self)@
                    },
                },
            },
    {
        let ghost before = self@;
        let ghost entries = self.entries@;
        match self.find(&entity, &timeline) {
            Some(i) => {
                self.entries[i].used_this_frame = true;
                assert(self@ =~= before.update(i as int, marked(before[i as int], true))) by {
                    assert forall|k: int| 0 <= k < before.len() implies #[trigger] self@[k]
                        == before.update(i as int, marked(before[i as int], true))[k] by {
                        assert(before[k] == entries[k]@);
                    }
                }
                assert forall|k: int| 0 <= k < self.entries@.len() implies (#[trigger]
                self.entries@[k]).stream.player.wf() by {
                    assert(entries[k].stream.player.wf());
                }
                Ok(i)
            },
            None => {
                let config = match resolve_static_config(components, device_rate, ring_frames) {
                    Ok(config) => config,
                    Err(e) => return Err(e),
                };
                proof {
                    if config.channels <= 2 {
                        assert(ring_frames * config.channels <= 2 * ring_frames)
                            by (nonlinear_arith)
                            requires
                                config.channels <= 2,
                                ring_frames >= 0,
                        ;
                    }
                }
                let player = match AudioStreamPlayer::new(config, resampler, silence) {
                    Ok(player) => player,
                    Err(e) => return Err(AudioStreamProcessingError::Player(e)),
                };
                let at: usize = self.entries.len();
                let entry = StreamEntry {
                    entity,
                    timeline,
                    used_this_frame: true,
                    stream: PlayableAudioStream {
                        player,
                        codec: config.codec,
                        source_rate: config.source_rate,
                        channels: config.channels,
                    },
                };
                let ghost added = entry@;
                self.entries.push(entry);
                assert(self@ =~= before.push(added));
                assert forall|k: int| 0 <= k < self.entries@.len() implies (#[trigger]
                self.entries@[k]).stream.player.wf() by {
                    if k < at {
                        assert(entries[k].stream.player.wf());
                    }
                }
                Ok(at)
            },
        }
    }

    /// Rebuilds the segments of the player from the rows of the stream. A stream without a rate is
    /// left alone.
    pub fn refresh_segments_from_store(
        stream: &mut PlayableAudioStream<S>,
        rows: &Vec<StreamRow>,
    )
        requires
            old(stream).player.wf(),
        ensures
            final(stream).player.wf(),
            final(stream)@ == (if old(stream).source_rate == 0 {
                old(stream)@
            } else {
                StreamView {
                    player: PlayerView {
                        segments: segments_of(rows@, old(stream).source_rate, rows@.len()),
                        ..old(stream)@.player
                    },
                    ..old(stream)@
                }
            }),
    {
        if stream.source_rate == 0 {
            return;
        }
        let rate: u32 = stream.source_rate;
        stream.player.clear_segments();
        let mut i: usize = 0;
        while i < rows.len()
            invariant
                i <= rows@.len(),
                rate == old(stream).source_rate,
                stream.player.wf(),
                stream@ == (StreamView {
                    player: PlayerView {
                        segments: segments_of(rows@, rate, i as nat),
                        ..old(stream)@.player
                    },
                    ..old(stream)@
                }),
            decreases rows@.len() - i,
        {
            let row = &rows[i];
            match &row.chunk {
                Some(bytes) => {
                    if !bytes.is_empty() {
                        let duration_ns: i64 = match row.duration_samples {
                            Some(samples) => samples_to_ns(samples, rate),
                            None => 0,
                        };
                        let seekable: bool = match row.seekable {
                            Some(flag) => flag,
                            None => true,
                        };
                        let discontinuity: bool = match row.discontinuity {
                            Some(flag) => flag,
                            None => false,
                        };
                        let segment = SegmentRef {
                            pts_ns: row.time,
                            duration_ns,
                            chunk: copy_bytes(bytes),
                            seekable,
                            discontinuity,
                        };
                        assert(segment@ == segment_of(rows@[i as int], rate));
                        stream.player.push_segment(segment);
                    }
                },
                None => {},
            }
            i = i + 1;
        }
    }

    /// The stream at a position.
    pub fn stream(&self, at: usize) -> (r: &PlayableAudioStream<S>)
        requires
            self.wf(),
            at < self@.len(),
        ensures
            r@ == self@[at as int].stream,
            r.player.wf(),
    {
        assert(self@[at as int] == self.entries@[at as int]@);
        &self.entries[at].stream
    }

    /// The stream at a position, to be changed in place.
    pub fn stream_mut(&mut self, at: usize) -> (r: &mut PlayableAudioStream<S>)
        requires
            old(self).wf(),
            at < old(self)@.len(),
        ensures
            r@ == old(self)@[at as int].stream,
            r.player.wf(),
            final(r).player.wf() ==> final(self).wf(),
            final(self)@ == old(self)@.update(
                at as int,
                StreamEntryView { stream: final(r)@, ..old(self)@[at as int] },
            ),
    {
        assert(self@[at as int] == self.entries@[at as int]@);
        &mut self.entries[at].stream
    }

    /// Begins a new frame: drops the streams that the frame before did not use.
    pub fn begin_frame(&mut self)
        requires
            old(self).wf(),
        ensures
            final(self).wf(),
            final(self)@ == next_frame(old(self)@),
    {
        let ghost before = self@;
        let ghost all = self.entries@;
        let mut flags: Vec<bool> = Vec::new();
        let mut i: usize = 0;
        while i < self.entries.len()
            invariant
                i <= self.entries@.len(),
                before == self@,
                flags@.len() == i,
                forall|k: int| 0 <= k < i ==> #[trigger] flags@[k] == before[k].used_this_frame,
            decreases self.entries@.len() - i,
        {
            assert(before[i as int] == self.entries@[i as int]@);
            flags.push(self.entries[i].used_this_frame);
            i = i + 1;
        }
        proof {
            lemma_select_flags(
                before,
                flags@,
                flags_by(before, |e: StreamEntryView<S>| e.used_this_frame),
            );
            lemma_select_map(self.entries@, |e: StreamEntry<S>| e@, flags@);
            lemma_select(all, flags@);
        }
        keep_flagged(&mut self.entries, &flags);
        let ghost kept = self@;
        proof {
            assert forall|k: int| 0 <= k < self.entries@.len() implies (#[trigger]
            self.entries@[k]).stream.player.wf() by {
                assert(is_flagged(all, flags@, self.entries@[k]));
            }
        }
        let mut i: usize = 0;
        while i < self.entries.len()
            invariant
                i <= self.entries@.len(),
                self.wf(),
                self.entries@.len() == kept.len(),
                forall|k: int|
                    0 <= k < i ==> (#[trigger] self.entries@[k])@ == marked(kept[k], false),
                forall|k: int|
                    i <= k < kept.len() ==> (#[trigger] self.entries@[k])@ == kept[k],
            decreases self.entries@.len() - i,
        {
            let ghost now = self.entries@;
            self.entries[i].used_this_frame = false;
            assert forall|k: int| 0 <= k < self.entries@.len() implies (#[trigger]
            self.entries@[k]).stream.player.wf() by {
                assert(now[k].stream.player.wf());
            }
            i = i + 1;
        }
        assert(self@ =~= next_frame(before)) by {
            assert forall|k: int| 0 <= k < kept.len() implies #[trigger] self@[k] == marked(
                kept[k],
                false,
            ) by {
                assert(self.entries@[k]@ == marked(kept[k], false));
            }
        }
    }

    /// Drops every stream.
    pub fn purge_memory(&mut self)
        ensures
            final(self).wf(),
            final(self)@ == Seq::<StreamEntryView<S>>::empty(),
    {
        self.entries.clear();
        assert(self@ =~= Seq::<StreamEntryView<S>>::empty());
    }
}

/// A stream that no frame asks for is gone after the next frame has begun twice.
pub proof fn unused_streams_are_dropped<S>(entries: Seq<StreamEntryView<S>>)
    ensures
        next_frame(next_frame(entries)) == Seq::<StreamEntryView<S>>::empty(),
{
    let once = next_frame(entries);
    let rule = |e: StreamEntryView<S>| e.used_this_frame;
    let flags = flags_by(once, rule);
    let kept = select(once, flags);
    lemma_select(once, flags);
    if kept.len() > 0 {
        assert(is_flagged(once, flags, kept[0]));
        let i = choose|i: int| 0 <= i < once.len() && flags[i] && (#[trigger] once[i]) == kept[0];
        assert(flags[i] == rule(once[i]));
    }
    assert(next_frame(once) =~= Seq::<StreamEntryView<S>>::empty());
}

/// There is a segment at a time exactly when a row with a chunk that is not empty is at that
/// time.
pub proof fn segments_are_where_audio_is(rows: Seq<StreamRow>, rate: u32, n: nat, t: i64)
    requires
        n <= rows.len(),
    ensures
        segments_of(rows, rate, n).contains_key(t) <==> exists|i: int|
            0 <= i < n && (#[trigger] rows[i]).time == t && rows[i].chunk is Some
                && rows[i].chunk->0@.len() > 0,
    decreases n,
{
    if n > 0 {
        segments_are_where_audio_is(rows, rate, (n - 1) as nat, t);
        let last = rows[n - 1];
        if last.time == t && last.chunk is Some && last.chunk->0@.len() > 0 {
            assert(rows[n - 1].time == t);
        }
    }
}

/// The last row with audio at a time makes the segment there: it has the bytes of the row, is a
/// discontinuity only where the row says that it is one, lets playback start unless the row says
/// that it does not, and lasts as many seconds as its samples make at the rate, or no time where
/// the row has no duration.
pub proof fn segments_say_what_their_rows_say(rows: Seq<StreamRow>, rate: u32, n: nat, i: int)
    requires
        n <= rows.len(),
        0 <= i < n,
        rows[i].chunk is Some,
        rows[i].chunk->0@.len() > 0,
        forall|j: int|
            i < j < n ==> (#[trigger] rows[j]).time != rows[i].time || rows[j].chunk is None
                || rows[j].chunk->0@.len() == 0,
        rate > 0,
    ensures
        segments_of(rows, rate, n).contains_key(rows[i].time),
        ({
            let segment = segments_of(rows, rate, n)[rows[i].time];
            &&& segment.pts_ns == rows[i].time
            &&& segment.chunk == rows[i].chunk->0@
            &&& rows[i].discontinuity == Some(true) ==> segment.discontinuity
            &&& rows[i].discontinuity == Some(false) ==> !segment.discontinuity
            &&& rows[i].discontinuity is None ==> !segment.discontinuity
            &&& rows[i].seekable == Some(false) ==> !segment.seekable
            &&& rows[i].seekable == Some(true) ==> segment.seekable
            &&& rows[i].seekable is None ==> segment.seekable
            &&& rows[i].duration_samples is None ==> segment.duration_ns == 0
            &&& rows[i].duration_samples matches Some(samples) ==> samples * 1_000_000_000
                <= i64::MAX ==> segment.duration_ns == samples * 1_000_000_000 / rate as int
        }),
    decreases n,
{
    if i + 1 < n {
        assert(rows[n - 1].time != rows[i].time || !carries_audio(rows[n - 1]));
        segments_say_what_their_rows_say(rows, rate, (n - 1) as nat, i);
    } else if let Some(samples) = rows[i].duration_samples {
        if samples * 1_000_000_000 <= i64::MAX {
            let ns = samples * 1_000_000_000;
            let r = rate as int;
            assert(0 <= ns / r <= ns) by (nonlinear_arith)
                requires
                    ns >= 0,
                    r >= 1,
            ;
        }
    }
}

/// After the segments of a stream have been rebuilt, the last row with audio at each time is a
/// segment there, and there are no other segments. It has the bytes of the row, is a discontinuity
/// exactly where the row says `true`, and lets playback start unless the row says `false`. Nothing
/// else of the stream changes.
pub proof fn rebuilt_segments_are_those_of_the_rows<S: Copy>()
    ensures
        forall|stream: &mut PlayableAudioStream<S>, rows: &Vec<StreamRow>, i: int|
            #![trigger
                call_ensures(
                    AudioStreamCache::<S>::refresh_segments_from_store,
                    (stream, rows),
                    (),
                ),
                rows@[i]
            ]
            call_ensures(
                AudioStreamCache::<S>::refresh_segments_from_store,
                (stream, rows),
                (),
            ) && stream.source_rate > 0 && 0 <= i < rows@.len() && last_audio_at(rows@, i) ==> {
                let segments = final(stream)@.player.segments;
                let t = rows@[i].time;
                &&& segments.contains_key(t)
                &&& segments[t].pts_ns == t
                &&& segments[t].chunk == rows@[i].chunk->0@
                &&& segments[t].discontinuity <==> rows@[i].discontinuity == Some(true)
                &&& segments[t].seekable <==> rows@[i].seekable != Some(false)
            },
        forall|stream: &mut PlayableAudioStream<S>, rows: &Vec<StreamRow>, t: i64|
            #![trigger
                call_ensures(
                    AudioStreamCache::<S>::refresh_segments_from_store,
                    (stream, rows),
                    (),
                ),
                final(stream)@.player.segments.contains_key(t)
            ]
            call_ensures(
                AudioStreamCache::<S>::refresh_segments_from_store,
                (stream, rows),
                (),
            ) && stream.source_rate > 0 && final(stream)@.player.segments.contains_key(t)
                ==> exists|i: int|
                0 <= i < rows@.len() && (#[trigger] rows@[i]).time == t && rows@[i].chunk is Some
                    && rows@[i].chunk->0@.len() > 0,
        forall|stream: &mut PlayableAudioStream<S>, rows: &Vec<StreamRow>|
            #[trigger] call_ensures(
                AudioStreamCache::<S>::refresh_segments_from_store,
                (stream, rows),
                (),
            ) ==> {
                &&& final(stream)@.player.queue == stream@.player.queue
                &&& final(stream)@.player.clock == stream@.player.clock
                &&& final(stream)@.player.config == stream@.player.config
                &&& final(stream)@.source_rate == stream@.source_rate
                &&& final(stream)@.codec == stream@.codec
                &&& final(stream)@.channels == stream@.channels
            },
{
    assert forall|stream: &mut PlayableAudioStream<S>, rows: &Vec<StreamRow>, i: int|
        #![trigger
            call_ensures(
                AudioStreamCache::<S>::refresh_segments_from_store,
                (stream, rows),
                (),
            ),
            rows@[i]
        ]
        call_ensures(
            AudioStreamCache::<S>::refresh_segments_from_store,
            (stream, rows),
            (),
        ) && stream.source_rate > 0 && 0 <= i < rows@.len() && last_audio_at(rows@, i) implies {
        let segments = final(stream)@.player.segments;
        let t = rows@[i].time;
        &&& segments.contains_key(t)
        &&& segments[t].pts_ns == t
        &&& segments[t].chunk == rows@[i].chunk->0@
        &&& segments[t].discontinuity <==> rows@[i].discontinuity == Some(true)
        &&& segments[t].seekable <==> rows@[i].seekable != Some(false)
    } by {
        segments_say_what_their_rows_say(rows@, stream.source_rate, rows@.len(), i);
        let d = rows@[i].discontinuity;
        assert(d is None || d == Some(true) || d == Some(false));
        let s = rows@[i].seekable;
        assert(s is None || s == Some(true) || s == Some(false));
    }
    assert forall|stream: &mut PlayableAudioStream<S>, rows: &Vec<StreamRow>, t: i64|
        #![trigger
            call_ensures(
                AudioStreamCache::<S>::refresh_segments_from_store,
                (stream, rows),
                (),
            ),
            final(stream)@.player.segments.contains_key(t)
        ]
        call_ensures(
            AudioStreamCache::<S>::refresh_segments_from_store,
            (stream, rows),
            (),
        ) && stream.source_rate > 0 && final(stream)@.player.segments.contains_key(
            t,
        ) implies exists|i: int|
        0 <= i < rows@.len() && (#[trigger] rows@[i]).time == t && rows@[i].chunk is Some
            && rows@[i].chunk->0@.len() > 0 by {
        segments_are_where_audio_is(rows@, stream.source_rate, rows@.len(), t);
    }
}

/// Whether row `i` carries audio and no later row at the same time does.
pub open spec fn last_audio_at(rows: Seq<StreamRow>, i: int) -> bool {
    &&& rows[i].chunk is Some
    &&& rows[i].chunk->0@.len() > 0
    &&& forall|j: int|
        i < j < rows.len() ==> (#[trigger] rows[j]).time != rows[i].time || rows[j].chunk is None
            || rows[j].chunk->0@.len() == 0
}

/// A number of samples lasts as many seconds as the rate goes into it, to the nanosecond below;
/// more samples never last less, and without a rate they last no time.
pub proof fn samples_last_by_their_rate(a: u64, b: u64, rate: u32, ns_a: i64, ns_b: i64)
    requires
        call_ensures(samples_to_ns, (a, rate), ns_a),
        call_ensures(samples_to_ns, (b, rate), ns_b),
        a <= b,
    ensures
        0 <= ns_a <= ns_b,
        rate == 0 ==> ns_a == 0,
        rate > 0 && a * 1_000_000_000 <= i64::MAX ==> ns_a * rate <= a * 1_000_000_000 < (ns_a + 1)
            * rate,
{
    if rate > 0 {
        let r = rate as int;
        let x = clamp_u64(a * 1_000_000_000) as int;
        let y = clamp_u64(b * 1_000_000_000) as int;
        assert(0 <= x / r <= y / r && x / r * r <= x < (x / r + 1) * r && x / r <= x)
            by (nonlinear_arith)
            requires
                0 <= x <= y,
                r >= 1,
        ;
    }
}

/// A stream is found where its entity and its timeline were first put, and nowhere else.
pub proof fn streams_are_found_by_entity_and_timeline<S>(
    entries: Seq<StreamEntryView<S>>,
    entity: Seq<char>,
    timeline: Seq<char>,
    n: nat,
)
    requires
        n <= entries.len(),
    ensures
        match stream_position(entries, entity, timeline, n) {
            Some(i) => {
                &&& 0 <= i < n
                &&& entries[i].entity == entity
                &&& entries[i].timeline == timeline
                &&& forall|j: int|
                    0 <= j < i ==> (#[trigger] entries[j]).entity != entity || entries[j].timeline
                        != timeline
            },
            None => forall|j: int|
                0 <= j < n ==> (#[trigger] entries[j]).entity != entity || entries[j].timeline
                    != timeline,
        },
    decreases n,
{
    if n > 0 {
        streams_are_found_by_entity_and_timeline(entries, entity, timeline, (n - 1) as nat);
    }
}

/// A new frame keeps exactly the streams that the frame before used, in order and with all that
/// they hold, and counts none of them as used.
pub proof fn used_streams_stay_for_a_frame<S>(entries: Seq<StreamEntryView<S>>)
    ensures
        ({
            let used = entries.filter(|e: StreamEntryView<S>| e.used_this_frame);
            let after = next_frame(entries);
            &&& after.len() == used.len()
            &&& forall|k: int|
                0 <= k < used.len() ==> {
                    &&& (#[trigger] after[k]).entity == used[k].entity
                    &&& after[k].timeline == used[k].timeline
                    &&& after[k].stream == used[k].stream
                    &&& !after[k].used_this_frame
                }
        }),
{
    let rule = |e: StreamEntryView<S>| e.used_this_frame;
    selecting_is_filtering(entries, rule, rule);
}

/// Asking for the stream of an entity on a timeline leads to it and marks it as used. One that is
/// there is not set up again; one that is not comes last, new and with the settings that its
/// components give. Where it cannot be set up, nothing changes.
pub proof fn streams_are_set_up_once<S: Copy>()
    ensures
        forall|
            cache: &mut AudioStreamCache<S>,
            entity: String,
            timeline: String,
            components: StreamComponents,
            device_rate: u32,
            ring_frames: usize,
            resampler: Result<(), String>,
            silence: S,
            r: Result<usize, AudioStreamProcessingError>,
        |
            #[trigger] call_ensures(
                AudioStreamCache::<S>::audio_entry,
                (
                    cache,
                    entity,
                    timeline,
                    components,
                    device_rate,
                    ring_frames,
                    resampler,
                    silence,
                ),
                r,
            ) ==> {
                let before = cache@;
                let after = final(cache)@;
                &&& r is Err ==> after == before
                &&& r matches Ok(at) ==> {
                    &&& at < after.len()
                    &&& after[at as int].entity == entity@
                    &&& after[at as int].timeline == timeline@
                    &&& after[at as int].used_this_frame
                    &&& at < before.len() ==> after.len() == before.len() && after[at as int].stream
                        == before[at as int].stream
                    &&& at >= before.len() ==> {
                        &&& after.len() == before.len() + 1
                        &&& components.codec is Found
                        &&& components.sample_rate is Found
                        &&& components.channel_count is Found
                        &&& after[at as int].stream.codec == components.codec->Found_0
                        &&& after[at as int].stream.source_rate == components.sample_rate->Found_0
                        &&& after[at as int].stream.channels == components.channel_count->Found_0
                        &&& after[at as int].stream.player.config.device_rate == device_rate
                        &&& after[at as int].stream.player.queue.len() == 0
                    }
                }
                &&& forall|i: int|
                    0 <= i < before.len() && (#[trigger] before[i]).entity == entity@
                        && before[i].timeline == timeline@ ==> r is Ok && r->Ok_0 < before.len()
                &&& forall|j: int|
                    0 <= j < before.len() && !(r is Ok && r->Ok_0 == j) ==> #[trigger] after[j]
                        == before[j]
            },
{
    assert forall|
        cache: &mut AudioStreamCache<S>,
        entity: String,
        timeline: String,
        components: StreamComponents,
        device_rate: u32,
        ring_frames: usize,
        resampler: Result<(), String>,
        silence: S,
        r: Result<usize, AudioStreamProcessingError>,
    |
        #[trigger] call_ensures(
            AudioStreamCache::<S>::audio_entry,
            (cache, entity, timeline, components, device_rate, ring_frames, resampler, silence),
            r,
        ) implies {
        let before = cache@;
        let after = final(cache)@;
        &&& r is Err ==> after == before
        &&& r matches Ok(at) ==> {
            &&& at < after.len()
            &&& after[at as int].entity == entity@
            &&& after[at as int].timeline == timeline@
            &&& after[at as int].used_this_frame
            &&& at < before.len() ==> after.len() == before.len() && after[at as int].stream
                == before[at as int].stream
            &&& at >= before.len() ==> {
                &&& after.len() == before.len() + 1
                &&& components.codec is Found
                &&& components.sample_rate is Found
                &&& components.channel_count is Found
                &&& after[at as int].stream.codec == components.codec->Found_0
                &&& after[at as int].stream.source_rate == components.sample_rate->Found_0
                &&& after[at as int].stream.channels == components.channel_count->Found_0
                &&& after[at as int].stream.player.config.device_rate == device_rate
                &&& after[at as int].stream.player.queue.len() == 0
            }
        }
        &&& forall|i: int|
            0 <= i < before.len() && (#[trigger] before[i]).entity == entity@ && before[i].timeline
                == timeline@ ==> r is Ok && r->Ok_0 < before.len()
        &&& forall|j: int|
            0 <= j < before.len() && !(r is Ok && r->Ok_0 == j) ==> #[trigger] after[j] == before[j]
    } by {
        streams_are_found_by_entity_and_timeline(cache@, entity@, timeline@, cache@.len());
    }
}

} // verus!
