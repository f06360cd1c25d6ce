use drap::packet::PacketKind;
use drap::packet::decoder::VecSource;
use drap::packet::decoder::decode_header;
use drap::{Audio, AudioDataFormat, DecoderError, PacketDecoder, SpeakingStart};

fn to_failable_iterator(vec: Vec<u8>) -> VecSource<()> {
    VecSource::new(vec.into_iter().map(Ok).collect())
}

#[test]
fn decode_speaking_start_packet_header() {
    let d = vec![0x00, (16u8 << 3) | 1, 0, 0, 0, 0, 0, 0, 0, 1, 0, 0, 0, 0, 0, 0, 0, 2];
    let mut iter = to_failable_iterator(d);
    assert_eq!(decode_header(&mut iter).unwrap().unwrap(), (16usize, PacketKind::SpeakingStart))
}

#[test]
fn decode_audio_packet_header() {
    let d = vec![0x00, (14u8 << 3) | 2, 0, 0, 0, 0, 0, 0, 0, 1, 0, 2];
    let mut iter = to_failable_iterator(d);
    assert_eq!(decode_header(&mut iter).unwrap().unwrap(), (14, PacketKind::Audio));
}

#[test]
fn decode_speaking_start_packet() {
    let d = vec![0x00, (16u8 << 3) | 1, 0, 0, 0, 0, 0, 0, 0, 1, 0, 0, 0, 0, 0, 0, 0, 2];
    let iter = to_failable_iterator(d);
    let mut decoder = PacketDecoder::new(iter);

    assert_eq!(
        decoder.next().unwrap().unwrap(),
        AudioDataFormat::SpeakingStart(SpeakingStart { snowflake: 1, timestamp: 2 })
    );
    assert_eq!(decoder.next(), None);
}

#[test]
fn decode_audio_packet() {
    let d = vec![0x00, (14u8 << 3) | 2, 0, 0, 0, 0, 0, 0, 0, 1, 0, 2, 3, 4, 5, 6];
    let iter = to_failable_iterator(d);
    let mut decoder = PacketDecoder::new(iter);

    assert_eq!(
        decoder.next().unwrap().unwrap(),
        AudioDataFormat::Audio(Audio { snowflake: 1, sequence: 2, data: vec![3, 4, 5, 6] })
    );
    assert_eq!(decoder.next(), None);
}

#[test]
fn decode_audio_packet2() {
    let d = vec![0x00, (13u8 << 3) | 2, 0, 0, 0, 0, 0, 0, 0, 1, 0, 2, 3, 4, 5, 6];
    let iter = to_failable_iterator(d);
    let mut decoder = PacketDecoder::new(iter);

    assert_eq!(
        decoder.next().unwrap().unwrap(),
        AudioDataFormat::Audio(Audio { snowflake: 1, sequence: 2, data: vec![3, 4, 5] })
    );
    assert_eq!(decoder.next(), Some(Err(DecoderError::UnexpectedTermination)));
}

#[test]
fn decode_overrun() {
    let d = vec![0x00, (15u8 << 3) | 2, 0, 0, 0, 0, 0, 0, 0, 1, 0, 2, 3, 4, 5, 6];
    let iter = to_failable_iterator(d);
    let mut decoder = PacketDecoder::new(iter);

    assert_eq!(decoder.next().unwrap(), Err(DecoderError::UnexpectedTermination));
    assert_eq!(decoder.next(), None);
}

#[test]
fn decode_stream() {
    let d = vec![
        0x00,
        (16u8 << 3) | 1,
        0,
        0,
        0,
        0,
        0,
        0,
        0,
        1,
        0,
        0,
        0,
        0,
        0,
        0,
        0,
        2,
        0x00,
        (14u8 << 3) | 2,
        0,
        0,
        0,
        0,
        0,
        0,
        0,
        1,
        0,
        2,
        3,
        4,
        5,
        6,
    ];
    let iter = to_failable_iterator(d);
    let mut decoder = PacketDecoder::new(iter);

    assert_eq!(
        decoder.next().unwrap().unwrap(),
        AudioDataFormat::SpeakingStart(SpeakingStart { snowflake: 1, timestamp: 2 })
    );
    assert_eq!(
        decoder.next().unwrap().unwrap(),
        AudioDataFormat::Audio(Audio { snowflake: 1, sequence: 2, data: vec![3, 4, 5, 6] })
    );
    assert_eq!(decoder.next(), None);
}
