//! Opus packets out of OGG container bytes.
//!
//! The first two packets of a stream are headers and carry no audio; every later packet is one
//! Opus packet. Its duration follows from its first bytes, and the time at which it plays from
//! the durations of the packets before it.

use crate::arith::{clamp_i64, saturating_mul_i64};
use crate::corpus::chunk_builder::{packet_views, OpusPacket, OpusPacketView};
use crate::corpus::error::CorpusError;
use ogg::reading::PacketReader;
use std::io::Cursor;
use vstd::prelude::*;
use vstd::slice::slice_to_vec;

verus! {

/// Opus counts its samples at 48 kHz in the container.
pub const OPUS_OGG_RATE: i64 = 48_000;

/// The samples of one frame of an Opus configuration, at 48 kHz.
pub open spec fn frame_size(config: u8) -> Option<u64> {
    if config < 12 {
        // SILK: 10, 20, 40 and 60 ms.
        Some(
            if config % 4 == 0 {
                480
            } else if config % 4 == 1 {
                960
            } else if config % 4 == 2 {
                1920
            } else {
                2880
            },
        )
    } else if config < 16 {
        // Hybrid: 10 and 20 ms.
        Some(
            if config % 2 == 0 {
                480
            } else {
                960
            },
        )
    } else if config < 32 {
        // CELT: 2.5, 5, 10 and 20 ms.
        Some(
            if config % 4 == 0 {
                120
            } else if config % 4 == 1 {
                240
            } else if config % 4 == 2 {
                480
            } else {
                960
            },
        )
    } else {
        None
    }
}

/// The samples of one frame of an Opus configuration.
pub fn opus_frame_size_samples(config: u8) -> (r: Option<u64>)
    ensures
        r == frame_size(config),
{
    let size: u64 = match config {
        0..=11 => match config % 4 {
            0 => 480,
            1 => 960,
            2 => 1920,
            _ => 2880,
        },
        12..=15 => match config % 2 {
            0 => 480,
            _ => 960,
        },
        16..=31 => match config % 4 {
            0 => 120,
            1 => 240,
            2 => 480,
            _ => 960,
        },
        _ => return None,
    };
    Some(size)
}

/// The number of frames in an Opus packet: its first byte has a code for it in the two lowest
/// bits, and code three leaves it to the six lowest bits of the second byte.
pub open spec fn frame_count(packet: Seq<u8>) -> Option<u64> {
    if packet[0] % 4 == 0 {
        Some(1)
    } else if packet[0] % 4 < 3 {
        Some(2)
    } else if packet.len() < 2 || packet[1] % 64 == 0 {
        None
    } else {
        Some((packet[1] % 64) as u64)
    }
}

/// The samples that an Opus packet decodes to, at 48 kHz: the size of a frame, which the five
/// highest bits of the first byte select, for each frame.
pub open spec fn packet_duration(packet: Seq<u8>) -> Option<u64> {
    if packet.len() == 0 {
        None
    } else {
        match (frame_size(packet[0] / 8), frame_count(packet)) {
            (Some(size), Some(count)) => Some((size * count) as u64),
            _ => None,
        }
    }
}

/// The samples that an Opus packet decodes to, or `None` for a malformed packet.
pub fn opus_packet_duration_samples(packet: &[u8]) -> (r: Option<u64>)
    ensures
        r == packet_duration(packet@),
{
    if packet.len() == 0 {
        return None;
    }
    let toc: u8 = packet[0];
    assert(toc >> 3 == toc / 8) by (bit_vector);
    assert(toc & 0b11 == toc % 4) by (bit_vector);
    let config: u8 = toc >> 3;
    let code: u8 = toc & 0b11;
    let frame_size_48k: u64 = match opus_frame_size_samples(config) {
        Some(size) => size,
        None => return None,
    };
    let count: u64 = match code {
        0 => 1,
        1 | 2 => 2,
        _ => {
            if packet.len() < 2 {
                return None;
            }
            let second: u8 = packet[1];
            assert(second & 0x3F == second % 64) by (bit_vector);
            let n: u64 = (second & 0x3F) as u64;
            if n == 0 {
                return None;
            }
            n
        },
    };
    assert(frame_size_48k * count <= 2880 * 64) by (nonlinear_arith)
        requires
            frame_size_48k <= 2880,
            count <= 64,
    ;
    Some(frame_size_48k * count)
}

/// The views of `payloads`.
pub open spec fn payload_views(payloads: Seq<Vec<u8>>) -> Seq<Seq<u8>> {
    payloads.map_values(|p: Vec<u8>| p@)
}

/// The samples in the first `n` of `packets`, saturating.
pub open spec fn samples_before(packets: Seq<Seq<u8>>, n: nat) -> u64
    decreases n,
{
    if n == 0 {
        0
    } else {
        let sum = samples_before(packets, (n - 1) as nat) + packet_duration(packets[n - 1])->0;
        if sum > u64::MAX {
            u64::MAX
        } else {
            sum as u64
        }
    }
}

/// `x` in two's complement.
pub open spec fn signed(x: u64) -> int {
    if x <= i64::MAX {
        x as int
    } else {
        x - 0x1_0000_0000_0000_0000
    }
}

/// `a / b` rounded toward zero, for a positive `b`.
pub open spec fn truncated_div(a: int, b: int) -> int {
    if a >= 0 {
        a / b
    } else {
        -((-a) / b)
    }
}

/// When a packet plays that `samples` come before.
pub open spec fn samples_pts(samples: u64) -> i64 {
    truncated_div(clamp_i64(signed(samples) * 1_000_000_000) as int, OPUS_OGG_RATE as int) as i64
}

/// What the audio packet `i` demuxes to.
pub open spec fn demuxed_packet(packets: Seq<Seq<u8>>, i: int) -> OpusPacketView {
    OpusPacketView {
        bytes: packets[i],
        pts_ns: samples_pts(samples_before(packets, i as nat)),
        duration_samples: packet_duration(packets[i])->0 as i64,
    }
}

/// The packets of a stream that carry audio: all but the first two.
pub open spec fn audio_payloads(payloads: Seq<Seq<u8>>) -> Seq<Seq<u8>> {
    payloads.skip(
        if payloads.len() < 2 {
            payloads.len() as int
        } else {
            2
        },
    )
}

/// Whether every packet is well-formed.
pub open spec fn well_formed_packets(packets: Seq<Seq<u8>>) -> bool {
    forall|i: int| 0 <= i < packets.len() ==> packet_duration(#[trigger] packets[i]) is Some
}

/// What a stream demuxes to that consists of `payloads` and then ends, or fails with a message:
/// its audio packets, or the reason why there are none.
pub open spec fn demuxed(payloads: Seq<Seq<u8>>, failure: Option<Seq<char>>) -> Result<
    Seq<OpusPacketView>,
    Seq<char>,
> {
    let packets = audio_payloads(payloads);
    if !well_formed_packets(packets) {
        Err("invalid Opus packet TOC"@)
    } else {
        match failure {
            Some(message) => Err("ogg demux: "@ + message),
            None => Ok(Seq::new(packets.len(), |i: int| demuxed_packet(packets, i))),
        }
    }
}

fn pts_of_samples(samples: u64) -> (pts_ns: i64)
    ensures
        pts_ns == samples_pts(samples),
{
    assert(samples <= i64::MAX ==> samples as i64 == samples) by (bit_vector);
    assert(samples > i64::MAX ==> samples as i64 == samples - 0x1_0000_0000_0000_0000)
        by (bit_vector);
    let wide: i64 = saturating_mul_i64(samples as i64, 1_000_000_000);
    if wide >= 0 {
        wide / OPUS_OGG_RATE
    } else if wide == i64::MIN {
        -192_153_584_101_141
    } else {
        -((-wide) / OPUS_OGG_RATE)
    }
}

/// Turns the packets of a stream, headers first, into Opus packets. `failure` tells why the
/// stream could not be read to its end.
pub fn packets_from_payloads(payloads: Vec<Vec<u8>>, failure: Option<String>) -> (r: Result<
    Vec<OpusPacket>,
    CorpusError,
>)
    ensures
        match r {
            Ok(packets) => demuxed(
                payload_views(payloads@),
                match failure {
                    Some(m) => Some(m@),
                    None => None,
                },
            ) == Ok::<Seq<OpusPacketView>, Seq<char>>(packet_views(packets@)),
            Err(e) => e matches CorpusError::Internal(message) && demuxed(
                payload_views(payloads@),
                match failure {
                    Some(m) => Some(m@),
                    None => None,
                },
            ) == Err::<Seq<OpusPacketView>, Seq<char>>(message@),
        },
{
    let ghost audio = audio_payloads(payload_views(payloads@));
    let mut packets: Vec<OpusPacket> = Vec::new();
    let mut cumulative_samples: u64 = 0;
    let headers: usize = if payloads.len() < 2 {
        payloads.len()
    } else {
        2
    };
    let mut i: usize = headers;
    while i < payloads.len()
        invariant
            headers <= i <= payloads@.len(),
            headers == (if payloads@.len() < 2 {
                payloads@.len()
            } else {
                2
            }),
            audio == audio_payloads(payload_views(payloads@)),
            forall|k: int|
                0 <= k < i - headers ==> packet_duration(#[trigger] audio[k]) is Some,
            cumulative_samples == samples_before(audio, (i - headers) as nat),
            packets@.len() == i - headers,
            forall|k: int|
                0 <= k < i - headers ==> (#[trigger] packets@[k])@ == demuxed_packet(audio, k),
        decreases payloads@.len() - i,
    {
        let payload = &payloads[i];
        assert(audio[i - headers] == payload@);
        let duration: u64 = match opus_packet_duration_samples(payload.as_slice()) {
            Some(duration) => duration,
            None => {
                assert(!well_formed_packets(audio));
                return Err(CorpusError::Internal("invalid Opus packet TOC".to_owned()));
            },
        };
        let pts_ns: i64 = pts_of_samples(cumulative_samples);
        cumulative_samples = cumulative_samples.saturating_add(duration);
        packets.push(
            OpusPacket {
                bytes: crate::chunk::copy_bytes(payload),
                pts_ns,
                duration_samples: duration as i64,
            },
        );
        i = i + 1;
    }
    match failure {
        Some(message) => {
            let mut text = "ogg demux: ".to_owned();
            text.append(message.as_str());
            Err(CorpusError::Internal(text))
        },
        None => {
            assert(packet_views(packets@) =~= Seq::new(
                audio.len(),
                |k: int| demuxed_packet(audio, k),
            ));
            Ok(packets)
        },
    }
}

proof fn lemma_samples_grow(packets: Seq<Seq<u8>>, i: nat, j: nat)
    requires
        i <= j <= packets.len(),
    ensures
        samples_before(packets, i) <= samples_before(packets, j),
    decreases j,
{
    if i < j {
        lemma_samples_grow(packets, i, (j - 1) as nat);
    }
}

/// A packet plays when the samples before it have played, to the nanosecond below.
pub proof fn packets_play_after_their_predecessors(packets: Seq<Seq<u8>>, i: nat)
    requires
        i < packets.len(),
        samples_before(packets, i) * 1_000_000_000 <= i64::MAX,
    ensures
        demuxed_packet(packets, i as int).pts_ns == samples_before(packets, i) * 1_000_000_000
            / OPUS_OGG_RATE as int,
{
}

/// The packets of a stream play in the order in which they come.
pub proof fn packets_play_in_order(packets: Seq<Seq<u8>>, i: nat, j: nat)
    requires
        i <= j < packets.len(),
        samples_before(packets, j) * 1_000_000_000 <= i64::MAX,
    ensures
        demuxed_packet(packets, i as int).pts_ns <= demuxed_packet(packets, j as int).pts_ns,
{
    lemma_samples_grow(packets, i, j);
}

/// A reader of the packets of an OGG stream that is held in memory.
#[verifier::external_body]
pub struct OggReader {
    reader: PacketReader<Cursor<Vec<u8>>>,
}

/// The packets that a reader has yet to hand out, and the message with which it then fails, if
/// the stream cannot be read to its end.
pub uninterp spec fn unread(reader: OggReader) -> (Seq<Seq<u8>>, Option<Seq<char>>);

/// The packets of an OGG stream up to its end or to the first failure, and the message of that
/// failure.
pub uninterp spec fn ogg_stream(bytes: Seq<u8>) -> (Seq<Seq<u8>>, Option<Seq<char>>);

/// `PacketReader::new` of the `ogg` crate starts to read at the first byte. Which packets then
/// come is a function of the bytes alone.
#[verifier::external_body]
fn open_reader(bytes: Vec<u8>) -> (reader: OggReader)
    ensures
        unread(reader) == ogg_stream(bytes@),
{
    OggReader { reader: PacketReader::new(Cursor::new(bytes)) }
}

/// `PacketReader::read_packet` of the `ogg` crate hands out the next packet of the stream,
/// nothing at the end of the stream, or the failure that keeps the stream from being read on.
/// What a reader hands out after the end or a failure is left unsaid.
#[verifier::external_body]
fn next_packet(reader: &mut OggReader) -> (r: Result<Option<Vec<u8>>, String>)
    ensures
        match r {
            Ok(Some(packet)) => {
                &&& unread(*old(reader)).0.len() > 0
                &&& packet@ == unread(*old(reader)).0[0]
                &&& unread(*final(reader)) == (
                    unread(*old(reader)).0.drop_first(),
                    unread(*old(reader)).1,
                )
            },
            Ok(None) => unread(*old(reader)).0.len() == 0 && unread(*old(reader)).1 is None,
            Err(message) => unread(*old(reader)).0.len() == 0 && unread(*old(reader)).1 == Some(
                message@,
            ),
        },
{
    match reader.reader.read_packet() {
        Ok(Some(packet)) => Ok(Some(packet.data)),
        Ok(None) => Ok(None),
        Err(e) => Err(format!("{e}")),
    }
}

/// Reads the Opus packets out of an OGG stream.
pub fn demux_ogg_opus(ogg_bytes: &[u8]) -> (r: Result<Vec<OpusPacket>, CorpusError>)
    ensures
        match r {
            Ok(packets) => demuxed(ogg_stream(ogg_bytes@).0, ogg_stream(ogg_bytes@).1) == Ok::<
                Seq<OpusPacketView>,
                Seq<char>,
            >(packet_views(packets@)),
            Err(e) => e matches CorpusError::Internal(message) && demuxed(
                ogg_stream(ogg_bytes@).0,
                ogg_stream(ogg_bytes@).1,
            ) == Err::<Seq<OpusPacketView>, Seq<char>>(message@),
        },
{
    let mut reader = open_reader(slice_to_vec(ogg_bytes));
    let ghost stream = ogg_stream(ogg_bytes@);
    let mut payloads: Vec<Vec<u8>> = Vec::new();
    assert(stream.0 =~= payload_views(payloads@) + unread(reader).0);
    loop
        invariant
            stream == ogg_stream(ogg_bytes@),
            unread(reader).1 == stream.1,
            stream.0 == payload_views(payloads@) + unread(reader).0,
        decreases unread(reader).0.len(),
    {
        let ghost left = unread(reader).0;
        match next_packet(&mut reader) {
            Ok(Some(packet)) => {
                let ghost so_far = payloads@;
                payloads.push(packet);
                assert(payload_views(payloads@) =~= payload_views(so_far).push(packet@));
                assert(stream.0 =~= payload_views(payloads@) + unread(reader).0);
            },
            Ok(None) => {
                assert(stream.0 =~= payload_views(payloads@));
                return packets_from_payloads(payloads, None);
            },
            Err(message) => {
                assert(stream.0 =~= payload_views(payloads@));
                return packets_from_payloads(payloads, Some(message));
            },
        }
    }
}

/// The samples that some packets last, one after the other.
pub open spec fn lasting(packets: Seq<OpusPacketView>) -> int {
    packets.fold_left(0int, |n: int, p: OpusPacketView| n + p.duration_samples)
}

proof fn lemma_lasting(packets: Seq<OpusPacketView>, i: int)
    requires
        0 <= i < packets.len(),
    ensures
        lasting(packets.take(i + 1)) == lasting(packets.take(i)) + packets[i].duration_samples,
{
    assert(packets.take(i + 1).drop_last() =~= packets.take(i));
}

proof fn lemma_duration_bound(packet: Seq<u8>)
    requires
        packet_duration(packet) is Some,
    ensures
        0 < packet_duration(packet)->0 <= 2880 * 63,
{
    let size = frame_size(packet[0] / 8)->0 as int;
    let count = frame_count(packet)->0 as int;
    assert(0 < size * count <= 2880 * 63) by (nonlinear_arith)
        requires
            0 < size <= 2880,
            0 < count <= 63,
    ;
}

proof fn lemma_counted_samples(packets: Seq<Seq<u8>>, out: Seq<OpusPacketView>, i: nat)
    requires
        well_formed_packets(packets),
        out == Seq::new(packets.len(), |k: int| demuxed_packet(packets, k)),
        i <= out.len(),
        lasting(out.take(i as int)) <= u64::MAX,
    ensures
        samples_before(packets, i) == lasting(out.take(i as int)),
        0 <= lasting(out.take(i as int)),
    decreases i,
{
    if i > 0 {
        let m = (i - 1) as nat;
        lemma_lasting(out, m as int);
        lemma_duration_bound(packets[m as int]);
        lemma_counted_samples(packets, out, m);
    }
}

/// Packets play one right after the other: the first at zero, and every later one when those
/// before it have lasted, at 48,000 samples in a second.
pub proof fn packets_play_one_after_the_other(
    payloads: Seq<Seq<u8>>,
    failure: Option<Seq<char>>,
    out: Seq<OpusPacketView>,
    i: int,
)
    requires
        demuxed(payloads, failure) == Ok::<Seq<OpusPacketView>, Seq<char>>(out),
        0 <= i < out.len(),
        lasting(out.take(i)) * 1_000_000_000 <= i64::MAX,
    ensures
        out[0].pts_ns == 0,
        out[i].pts_ns == lasting(out.take(i)) * 1_000_000_000 / 48_000,
        out[i].duration_samples > 0,
{
    let packets = audio_payloads(payloads);
    lemma_counted_samples(packets, out, i as nat);
    lemma_counted_samples(packets, out, 0);
    lemma_duration_bound(packets[i]);
}

/// From one packet to the next time moves on by what the packet lasts, to the nanosecond.
pub proof fn packets_leave_no_gap(
    payloads: Seq<Seq<u8>>,
    failure: Option<Seq<char>>,
    out: Seq<OpusPacketView>,
    i: int,
)
    requires
        demuxed(payloads, failure) == Ok::<Seq<OpusPacketView>, Seq<char>>(out),
        0 <= i,
        i + 1 < out.len(),
        lasting(out.take(i + 1)) * 1_000_000_000 <= i64::MAX,
    ensures
        ({
            let lasts = out[i].duration_samples * 1_000_000_000 / 48_000;
            lasts <= out[i + 1].pts_ns - out[i].pts_ns <= lasts + 1
        }),
{
    lemma_lasting(out, i);
    lemma_duration_bound(audio_payloads(payloads)[i]);
    packets_play_one_after_the_other(payloads, failure, out, i + 1);
    packets_play_one_after_the_other(payloads, failure, out, i);
}

/// All packets but the two headers come out, each with its bytes, in order; a stream of which
/// one of them is malformed, or which could not be read to its end, gives nothing.
pub proof fn every_audio_packet_comes_out(payloads: Seq<Seq<u8>>, failure: Option<Seq<char>>)
    ensures
        match demuxed(payloads, failure) {
            Ok(out) => {
                &&& failure is None
                &&& out.len() == (if payloads.len() < 2 {
                    0
                } else {
                    payloads.len() - 2
                })
                &&& forall|i: int|
                    0 <= i < out.len() ==> (#[trigger] out[i]).bytes == payloads[i + 2]
                        && packet_duration(payloads[i + 2]) == Some(
                        out[i].duration_samples as u64,
                    )
            },
            Err(_) => failure is Some || exists|i: int|
                2 <= i < payloads.len() && packet_duration(#[trigger] payloads[i]) is None,
        },
{
    let packets = audio_payloads(payloads);
    if well_formed_packets(packets) {
        assert forall|i: int| 0 <= i < packets.len() implies packet_duration(#[trigger] packets[i])
            is Some && packets[i] == payloads[i + 2] by {
        }
        if let Ok(out) = demuxed(payloads, failure) {
            assert forall|i: int| 0 <= i < out.len() implies (#[trigger] out[i]).bytes == payloads[i
                + 2] && packet_duration(payloads[i + 2]) == Some(
                out[i].duration_samples as u64,
            ) by {
                assert(packets[i] == payloads[i + 2]);
                lemma_duration_bound(packets[i]);
            }
        }
    } else {
        let k = choose|k: int|
            0 <= k < packets.len() && !(packet_duration(#[trigger] packets[k]) is Some);
        assert(payloads[k + 2] == packets[k]);
        assert(packet_duration(payloads[k + 2]) is None);
    }
}

/// A packet lasts as long as one of its frames, as often as it has frames: once, twice, or as its
/// second byte says, of which zero frames make no packet.
pub proof fn packets_last_frame_by_frame(packet: Seq<u8>, single: Seq<u8>)
    requires
        packet.len() > 0,
        single.len() > 0,
        single[0] / 8 == packet[0] / 8,
        single[0] % 4 == 0,
    ensures
        packet_duration(single) is Some,
        packet[0] % 4 == 0 ==> packet_duration(packet) == packet_duration(single),
        packet[0] % 4 == 1 || packet[0] % 4 == 2 ==> packet_duration(packet) == Some(
            (2 * packet_duration(single)->0) as u64,
        ),
        packet[0] % 4 == 3 ==> packet_duration(packet) == (if packet.len() > 1 && packet[1] % 64
            > 0 {
            Some(((packet[1] % 64) * packet_duration(single)->0) as u64)
        } else {
            None
        }),
{
    let size = frame_size(packet[0] / 8)->0 as int;
    if packet.len() > 1 {
        let count = (packet[1] % 64) as int;
        assert(size * count == count * size) by (nonlinear_arith);
    }
}

/// A frame lasts 2.5, 5, 10, 20, 40 or 60 ms. Within a mode each configuration lasts twice as
/// long as the one before it, but for 60 ms after 40 ms; modes begin at 10 ms, or at 2.5 ms from
/// configuration 16 on.
pub proof fn frames_double_within_a_mode(config: u8)
    requires
        config < 32,
    ensures
        frame_size(config) is Some,
        (config < 12 && config % 4 == 0) || (12 <= config < 16 && config % 2 == 0) ==> frame_size(
            config,
        )->0 * 1_000 == 10 * 48_000,
        config >= 16 && config % 4 == 0 ==> frame_size(config)->0 * 10_000 == 25 * 48_000,
        config < 12 && config % 4 == 3 ==> 2 * frame_size(config)->0 == 3 * frame_size(
            (config - 1) as u8,
        )->0,
        (config < 12 && (config % 4 == 1 || config % 4 == 2)) || (12 <= config < 16 && config % 2
            == 1) || (config >= 16 && config % 4 > 0) ==> frame_size(config)->0 == 2 * frame_size(
            (config - 1) as u8,
        )->0,
{
}

/// What `packets_from_payloads` and `demux_ogg_opus` hand out plays without gap and overlap: the
/// first packet at zero, and packet `i` when those before it have lasted.
pub proof fn demuxed_packets_play_back_to_back(
    payloads: Vec<Vec<u8>>,
    failure: Option<String>,
    r: Result<Vec<OpusPacket>, CorpusError>,
    i: int,
)
    requires
        call_ensures(packets_from_payloads, (payloads, failure), r),
        r is Ok,
        0 <= i < r->Ok_0@.len(),
        lasting(packet_views(r->Ok_0@).take(i)) * 1_000_000_000 <= i64::MAX,
    ensures
        failure is None,
        r->Ok_0@.len() == payloads@.len() - 2,
        r->Ok_0@[0].pts_ns == 0,
        r->Ok_0@[i].pts_ns == lasting(packet_views(r->Ok_0@).take(i)) * 1_000_000_000 / 48_000,
        r->Ok_0@[i].bytes@ == payloads@[i + 2]@,
        r->Ok_0@[i].duration_samples > 0,
        packet_duration(payloads@[i + 2]@) == Some(r->Ok_0@[i].duration_samples as u64),
{
    let views = packet_views(r->Ok_0@);
    let given = payload_views(payloads@);
    let message = match failure {
        Some(m) => Some(m@),
        None => None,
    };
    packets_play_one_after_the_other(given, message, views, i);
    every_audio_packet_comes_out(given, message);
    assert(views[i] == r->Ok_0@[i]@);
    assert(views[0] == r->Ok_0@[0]@);
    assert(given[i + 2] == payloads@[i + 2]@);
}

/// The same of a stream in a container, of which the first two packets are headers.
pub proof fn demuxed_streams_play_back_to_back(
    bytes: &[u8],
    r: Result<Vec<OpusPacket>, CorpusError>,
    i: int,
)
    requires
        call_ensures(demux_ogg_opus, (bytes,), r),
        r is Ok,
        0 <= i < r->Ok_0@.len(),
        lasting(packet_views(r->Ok_0@).take(i)) * 1_000_000_000 <= i64::MAX,
    ensures
        r->Ok_0@.len() == ogg_stream(bytes@).0.len() - 2,
        r->Ok_0@[0].pts_ns == 0,
        r->Ok_0@[i].pts_ns == lasting(packet_views(r->Ok_0@).take(i)) * 1_000_000_000 / 48_000,
        r->Ok_0@[i].bytes@ == ogg_stream(bytes@).0[i + 2],
{
    let views = packet_views(r->Ok_0@);
    let (given, message) = ogg_stream(bytes@);
    packets_play_one_after_the_other(given, message, views, i);
    every_audio_packet_comes_out(given, message);
    assert(views[i] == r->Ok_0@[i]@);
    assert(views[0] == r->Ok_0@[0]@);
}

} // verus!
