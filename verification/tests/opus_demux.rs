//! Opus packets out of OGG bytes.

use nereid::corpus::error::CorpusError;
use nereid::corpus::opus_demux::{
    demux_ogg_opus, opus_frame_size_samples, opus_packet_duration_samples, packets_from_payloads,
};
use ogg::writing::{PacketWriteEndInfo, PacketWriter};
use std::io::Cursor;

fn ogg_bytes(payloads: &[Vec<u8>]) -> Vec<u8> {
    let mut bytes: Vec<u8> = Vec::new();
    {
        let mut writer = PacketWriter::new(Cursor::new(&mut bytes));
        for (i, payload) in payloads.iter().enumerate() {
            let end = if i + 1 == payloads.len() {
                PacketWriteEndInfo::EndStream
            } else if i < 2 {
                PacketWriteEndInfo::EndPage
            } else {
                PacketWriteEndInfo::NormalPacket
            };
            writer
                .write_packet(payload.clone(), 7, end, 960 * i as u64)
                .unwrap();
        }
    }
    bytes
}

fn headers() -> Vec<Vec<u8>> {
    vec![b"OpusHead".to_vec(), b"OpusTags".to_vec()]
}

#[test]
fn frame_size_celt_fb_20ms() {
    assert_eq!(opus_frame_size_samples(31), Some(960));
    assert_eq!(opus_frame_size_samples(23), Some(960));
}

#[test]
fn frame_size_silk_60ms() {
    assert_eq!(opus_frame_size_samples(3), Some(2880));
}

#[test]
fn frame_size_celt_2_5ms() {
    assert_eq!(opus_frame_size_samples(16), Some(120));
    assert_eq!(opus_frame_size_samples(20), Some(120));
}

#[test]
fn duration_single_frame_celt_fb_20ms() {
    let toc = (31u8 << 3) | 0b000;
    let packet = vec![toc, 0xAA, 0xBB];
    assert_eq!(opus_packet_duration_samples(&packet), Some(960));
}

#[test]
fn duration_two_frames_celt_fb_20ms() {
    let toc = (31u8 << 3) | 0b001;
    let packet = vec![toc, 0xAA];
    assert_eq!(opus_packet_duration_samples(&packet), Some(1920));
}

#[test]
fn frame_sizes_of_every_configuration() {
    let silk = [480, 960, 1920, 2880];
    let celt = [120, 240, 480, 960];
    for config in 0..12u8 {
        assert_eq!(opus_frame_size_samples(config), Some(silk[config as usize % 4]));
    }
    for config in 12..16u8 {
        assert_eq!(opus_frame_size_samples(config), Some(silk[config as usize % 2]));
    }
    for config in 16..32u8 {
        assert_eq!(opus_frame_size_samples(config), Some(celt[config as usize % 4]));
    }
    assert_eq!(opus_frame_size_samples(32), None);
    assert_eq!(opus_frame_size_samples(255), None);
}

#[test]
fn duration_follows_the_frame_count_code() {
    assert_eq!(opus_packet_duration_samples(&[]), None);
    assert_eq!(opus_packet_duration_samples(&[(16 << 3) | 2]), Some(240));
    // Code three takes the count from the low six bits of the second byte.
    assert_eq!(opus_packet_duration_samples(&[(31 << 3) | 3]), None);
    assert_eq!(opus_packet_duration_samples(&[(31 << 3) | 3, 0b1100_0000]), None);
    assert_eq!(opus_packet_duration_samples(&[(31 << 3) | 3, 0b1100_0101]), Some(4800));
    assert_eq!(opus_packet_duration_samples(&[(3 << 3) | 3, 63]), Some(2880 * 63));
    // The stereo bit does not matter.
    assert_eq!(opus_packet_duration_samples(&[(31 << 3) | 0b100]), Some(960));
}

#[test]
fn demuxes_a_written_stream() {
    let mut payloads = headers();
    payloads.push(vec![31 << 3, 1, 2]);
    payloads.push(vec![(31 << 3) | 1, 3]);
    payloads.push(vec![16 << 3, 4]);
    let packets = demux_ogg_opus(&ogg_bytes(&payloads)).unwrap();
    assert_eq!(packets.len(), 3);
    assert_eq!(packets[0].bytes, vec![31 << 3, 1, 2]);
    assert_eq!(packets[1].bytes, vec![(31 << 3) | 1, 3]);
    assert_eq!(packets[2].bytes, vec![16 << 3, 4]);
    assert_eq!(packets[0].pts_ns, 0);
    assert_eq!(packets[1].pts_ns, 20_000_000);
    assert_eq!(packets[2].pts_ns, 60_000_000);
    assert_eq!(packets[0].duration_samples, 960);
    assert_eq!(packets[1].duration_samples, 1920);
    assert_eq!(packets[2].duration_samples, 120);
}

#[test]
fn a_stream_of_headers_has_no_packets() {
    assert_eq!(demux_ogg_opus(&ogg_bytes(&headers())).unwrap().len(), 0);
}

#[test]
fn bytes_that_are_no_stream_fail() {
    match demux_ogg_opus(&[]) {
        Err(CorpusError::Internal(message)) => {
            assert_eq!(message, "ogg demux: No Ogg capture pattern found")
        }
        other => panic!("unexpected: {other:?}"),
    }
    let mut bytes = ogg_bytes(&headers());
    bytes.truncate(bytes.len() - 3);
    match demux_ogg_opus(&bytes) {
        Err(CorpusError::Internal(message)) => assert!(message.starts_with("ogg demux: ")),
        other => panic!("unexpected: {other:?}"),
    }
}

#[test]
fn a_malformed_packet_fails() {
    let mut payloads = headers();
    payloads.push(vec![(31 << 3) | 3, 0]);
    match demux_ogg_opus(&ogg_bytes(&payloads)) {
        Err(CorpusError::Internal(message)) => assert_eq!(message, "invalid Opus packet TOC"),
        other => panic!("unexpected: {other:?}"),
    }
}

#[test]
fn payloads_before_a_failure() {
    let mut payloads = headers();
    payloads.push(vec![31 << 3]);
    match packets_from_payloads(payloads.clone(), Some("cut off".to_string())) {
        Err(CorpusError::Internal(message)) => assert_eq!(message, "ogg demux: cut off"),
        other => panic!("unexpected: {other:?}"),
    }
    // A malformed packet comes before the failure that ends the stream.
    payloads.push(vec![]);
    match packets_from_payloads(payloads, Some("cut off".to_string())) {
        Err(CorpusError::Internal(message)) => assert_eq!(message, "invalid Opus packet TOC"),
        other => panic!("unexpected: {other:?}"),
    }
}

#[test]
fn packets_play_one_after_the_other() {
    let mut payloads = headers();
    for _ in 0..5 {
        payloads.push(vec![17 << 3]);
    }
    let packets = packets_from_payloads(payloads, None).unwrap();
    let times: Vec<i64> = packets.iter().map(|p| p.pts_ns).collect();
    assert_eq!(times, vec![0, 5_000_000, 10_000_000, 15_000_000, 20_000_000]);
}
