use drc2wav::frame::{all_samples, decode_samples, DRCData, FRAME_LEN, KEPT_LEN, PAYLOAD_LEN};
use drc2wav::header::{timestamp_text, DRCHeader, DecodeError, HEADER_LEN, MAGIC};
use drc2wav::time::{to_local, LocalStamp, NaiveStamp};

const STAMP: &str = "2024-01-15 10:30:00 123456";

fn header_bytes(magic: [u8; 4], text: &str, reserved: u8) -> Vec<u8> {
    let mut out = magic.to_vec();
    let mut field = Vec::new();
    for b in text.bytes() {
        field.push(b);
        field.push(0);
    }
    field.resize(46, 0);
    out.extend_from_slice(&field);
    out.extend(std::iter::repeat(reserved).take(46));
    out
}

fn frame_bytes(payload: &[u8]) -> Vec<u8> {
    let mut out = header_bytes([0xD0, 0x07, 0x00, 0x00], STAMP, 0xAB);
    let mut block = payload.to_vec();
    block.resize(PAYLOAD_LEN, 0);
    out.extend_from_slice(&block);
    out
}

fn stamp(year: i32, month: u32, day: u32, hour: u32, minute: u32, second: u32) -> NaiveStamp {
    NaiveStamp { year, month, day, hour, minute, second, nanosecond: 0 }
}

#[test]
fn zero_payload_gives_zero_samples() {
    let frames = DRCData::decode(&frame_bytes(&[])).unwrap();
    assert_eq!(frames.len(), 1);
    assert_eq!(frames[0].data.len(), 1996);
    assert!(frames[0].data.iter().all(|&s| s == 0));
}

#[test]
fn sample_bytes_are_swapped() {
    let mut payload = vec![0x01, 0x00, 0x02, 0x00, 0x03, 0x00, 0x04, 0x00];
    payload.extend_from_slice(&[0x12, 0x34, 0x34, 0x12, 0xFF, 0xFE, 0x80, 0x00]);
    let frames = DRCData::decode(&frame_bytes(&payload)).unwrap();
    let data = &frames[0].data;
    assert_eq!(data[0], 0x1234);
    assert_eq!(data[1], 0x3412);
    assert_eq!(data[2], -2);
    assert_eq!(data[3], i16::MIN);
    assert_eq!(data[4], 0);
}

#[test]
fn kept_window_drops_head_and_tail() {
    let mut payload = vec![0u8; PAYLOAD_LEN];
    for i in 0..PAYLOAD_LEN / 2 {
        let v = (i % 30000) as u16;
        payload[2 * i] = (v >> 8) as u8;
        payload[2 * i + 1] = (v & 0xFF) as u8;
    }
    let samples = decode_samples(&payload, 0);
    assert_eq!(samples.len(), KEPT_LEN);
    assert_eq!(samples[0], 4);
    assert_eq!(samples[KEPT_LEN - 1], 1999);
}

#[test]
fn timestamp_decodes_and_encodes_to_twelve_bytes() {
    let bytes = frame_bytes(&[]);
    let mut pos: usize = 0;
    let header = DRCHeader::decode(&bytes, &mut pos).unwrap().unwrap();
    assert_eq!(pos, HEADER_LEN);
    assert_eq!(header.magic, MAGIC);
    let n = header.date_time.naive;
    assert_eq!((n.year, n.month, n.day), (2024, 1, 15));
    assert_eq!((n.hour, n.minute, n.second), (10, 30, 0));
    // The field holds 23 code units, so the text ends at "... 123".
    assert_eq!(n.nanosecond, 123);
    assert_eq!(header.unknown, vec![0xAB; 46]);
    let offset = header.date_time.offset_seconds as i64;
    assert_eq!(header.date_time.epoch_seconds, 1705314600 - offset);
    let encoded = header.encode();
    assert_eq!(encoded.len(), 12);
    assert_ne!(encoded.len(), HEADER_LEN);
    assert_eq!(&encoded[..4], &[0xD0, 0x07, 0x00, 0x00]);
    assert_eq!(encoded[4..].to_vec(), header.date_time.epoch_seconds.to_le_bytes().to_vec());
}

#[test]
fn empty_input_has_no_frames() {
    let frames = DRCData::decode(&[]).unwrap();
    assert!(frames.is_empty());
    assert!(all_samples(&frames).is_empty());
}

#[test]
fn three_trailing_bytes_end_the_stream() {
    let mut bytes = frame_bytes(&[]);
    bytes.extend_from_slice(&[0xD0, 0x07, 0x00]);
    let frames = DRCData::decode(&bytes).unwrap();
    assert_eq!(frames.len(), 1);
    assert_eq!(frames[0].data.len(), 1996);
}

#[test]
fn short_magic_is_end_of_stream() {
    assert!(DRCData::decode(&[0xD0, 0x07, 0x00]).unwrap().is_empty());
    let mut pos: usize = 1;
    assert!(DRCHeader::decode(&[0xD0, 0x07, 0x00, 0x00], &mut pos).unwrap().is_none());
    assert_eq!(pos, 1);
}

#[test]
fn samples_per_frame_add_up() {
    let mut bytes = frame_bytes(&[0x00, 0x00, 0x00, 0x00, 0x00, 0x00, 0x00, 0x00, 0x00, 0x07]);
    bytes.extend(frame_bytes(&[0x00, 0x00, 0x00, 0x00, 0x00, 0x00, 0x00, 0x00, 0x00, 0x09]));
    assert_eq!(bytes.len(), 2 * FRAME_LEN);
    let frames = DRCData::decode(&bytes).unwrap();
    assert_eq!(frames.len(), 2);
    let all = all_samples(&frames);
    assert_eq!(all.len(), KEPT_LEN * frames.len());
    assert_eq!(all[0], 7);
    assert_eq!(all[KEPT_LEN], 9);
}

#[test]
fn partial_second_frame_is_truncated() {
    let mut bytes = frame_bytes(&[]);
    bytes.extend_from_slice(&frame_bytes(&[])[..200]);
    assert_eq!(DRCData::decode(&bytes).err(), Some(DecodeError::Truncated));
    let short_header = &frame_bytes(&[])[..50];
    assert_eq!(DRCData::decode(short_header).err(), Some(DecodeError::Truncated));
    let short_payload = &frame_bytes(&[])[..HEADER_LEN + 10];
    assert_eq!(DRCData::decode(short_payload).err(), Some(DecodeError::Truncated));
}

#[test]
fn wrong_magic_is_rejected() {
    let mut bytes = header_bytes([0xD1, 0x07, 0x00, 0x00], STAMP, 0);
    bytes.resize(FRAME_LEN, 0);
    assert_eq!(DRCData::decode(&bytes).err(), Some(DecodeError::BadMagic));
}

#[test]
fn malformed_timestamp_is_rejected() {
    let mut bytes = header_bytes([0xD0, 0x07, 0x00, 0x00], "2024-13-15 10:30:00 1", 0);
    bytes.resize(FRAME_LEN, 0);
    assert_eq!(DRCData::decode(&bytes).err(), Some(DecodeError::BadTimestamp));
    let mut bytes = header_bytes([0xD0, 0x07, 0x00, 0x00], "", 0);
    bytes.resize(FRAME_LEN, 0);
    assert_eq!(DRCData::decode(&bytes).err(), Some(DecodeError::BadTimestamp));
}

#[test]
fn timestamp_text_takes_low_bytes_until_zero_unit() {
    let mut bytes = vec![0xD0, 0x07, 0x00, 0x00];
    bytes.extend_from_slice(&[b'1', 0x00, b'2', 0x41, 0x00, 0x00, b'9', 0x00]);
    bytes.resize(HEADER_LEN, 0);
    assert_eq!(timestamp_text(&bytes, 0), b"12".to_vec());
    let full = header_bytes([0xD0, 0x07, 0x00, 0x00], STAMP, 0);
    assert_eq!(timestamp_text(&full, 0), STAMP.as_bytes()[..23].to_vec());
}

#[test]
fn header_encoding_is_magic_then_epoch_seconds() {
    let header = DRCHeader {
        magic: MAGIC,
        date_time: LocalStamp { naive: stamp(1970, 1, 1, 0, 0, 1), offset_seconds: 0, epoch_seconds: -2 },
        unknown: vec![0; 46],
    };
    let expected = vec![0xD0, 0x07, 0, 0, 0xFE, 0xFF, 0xFF, 0xFF, 0xFF, 0xFF, 0xFF, 0xFF];
    assert_eq!(header.encode(), expected);
}

#[test]
fn frame_encoding_appends_little_endian_samples() {
    let header = DRCHeader {
        magic: MAGIC,
        date_time: LocalStamp { naive: stamp(2000, 2, 29, 12, 0, 0), offset_seconds: 0, epoch_seconds: 0x0102 },
        unknown: vec![0; 46],
    };
    let frame = DRCData { header, data: vec![0x1234, -1] };
    let expected = vec![0xD0, 0x07, 0, 0, 0x02, 0x01, 0, 0, 0, 0, 0, 0, 0x34, 0x12, 0xFF, 0xFF];
    assert_eq!(frame.encode(), expected);
}

#[test]
fn new_values_are_blank() {
    let header = DRCHeader::new();
    assert_eq!(header.magic, MAGIC);
    assert_eq!(header.unknown, vec![0; 46]);
    assert!(header.date_time.offset_seconds.abs() < 86400);
    let frame = DRCData::new();
    assert!(frame.data.is_empty());
}

#[test]
fn winter_morning_is_a_local_time() {
    let local = to_local(stamp(2024, 1, 15, 10, 30, 0)).unwrap();
    assert_eq!(local.naive, stamp(2024, 1, 15, 10, 30, 0));
    assert_eq!(local.epoch_seconds, 1705314600 - local.offset_seconds as i64);
}
