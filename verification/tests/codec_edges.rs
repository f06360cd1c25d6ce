use drap::packet::PacketKind;
use drap::packet::construct_header;
use drap::packet::decoder::VecSource;
use drap::packet::decoder::decode_header;
use drap::{Audio, AudioDataFormat, DecoderError, PacketDecoder, SpeakingStart, encode};

fn ok_source(vec: Vec<u8>) -> VecSource<()> {
    VecSource::new(vec.into_iter().map(Ok).collect())
}

#[test]
fn header_symmetry_samples() {
    for &len in &[0usize, 1, 31, 32, 100, 4096, 8191] {
        for &tag in &[1u8, 2] {
            let h = construct_header(tag, len).unwrap();
            let mut src = ok_source(vec![h[0], h[1]]);
            let kind = if tag == 1 { PacketKind::SpeakingStart } else { PacketKind::Audio };
            assert_eq!(decode_header(&mut src).unwrap().unwrap(), (len, kind));
        }
    }
}

#[test]
fn header_over_ceiling_refused() {
    assert_eq!(construct_header(2, 8192), None);
    assert!(construct_header(2, 8191).is_some());
}

#[test]
fn encode_oversize_boundary() {
    let at_limit = AudioDataFormat::Audio(Audio {
        snowflake: 5,
        sequence: 6,
        data: vec![0u8; 8181],
    });
    let encoded = encode(&at_limit).unwrap();
    assert_eq!(encoded.len(), 2 + 8191);

    let over_limit = AudioDataFormat::Audio(Audio {
        snowflake: 5,
        sequence: 6,
        data: vec![0u8; 8182],
    });
    assert_eq!(encode(&over_limit), None);
}

#[test]
fn encode_decode_audio_empty_data() {
    let p = AudioDataFormat::Audio(Audio { snowflake: 9, sequence: 1, data: vec![] });
    let bin = encode(&p).unwrap();
    assert_eq!(bin.len(), 12);
    let mut decoder = PacketDecoder::new(ok_source(bin));
    assert_eq!(decoder.next().unwrap().unwrap(), p);
    assert_eq!(decoder.next(), None);
}

#[test]
fn decode_truncated_below_minimum() {
    let d = vec![0x00, (13u8 << 3) | 2, 0, 0, 0, 0, 0, 0, 0, 1];
    let mut decoder = PacketDecoder::new(ok_source(d));
    assert_eq!(decoder.next(), Some(Err(DecoderError::UnexpectedTermination)));
    assert_eq!(decoder.next(), None);
}

#[test]
fn decode_unknown_kind() {
    let d = vec![0x00, (4u8 << 3) | 3, 10, 11, 12, 13];
    let mut decoder = PacketDecoder::new(ok_source(d));
    assert_eq!(decoder.next(), Some(Err(DecoderError::UnknownKind)));
    assert_eq!(decoder.next(), None);
}

#[test]
fn decode_unknown_kind_then_resume() {
    let mut d = vec![0x00, (4u8 << 3) | 3, 10, 11, 12, 13];
    d.extend(vec![0x00, (16u8 << 3) | 1, 0, 0, 0, 0, 0, 0, 0, 7, 0, 0, 0, 0, 0, 0, 0, 8]);
    let mut decoder = PacketDecoder::new(ok_source(d));
    assert_eq!(decoder.next(), Some(Err(DecoderError::UnknownKind)));
    assert_eq!(
        decoder.next().unwrap().unwrap(),
        AudioDataFormat::SpeakingStart(SpeakingStart { snowflake: 7, timestamp: 8 })
    );
    assert_eq!(decoder.next(), None);
}

#[test]
fn decode_wrong_shape_speaking_start() {
    let d = vec![0x00, (4u8 << 3) | 1, 9, 9, 9, 9];
    let mut decoder = PacketDecoder::new(ok_source(d));
    assert_eq!(decoder.next(), Some(Err(DecoderError::IllegalSizedObject)));
    assert_eq!(decoder.next(), None);
}

#[test]
fn decode_wrong_shape_audio() {
    let d = vec![0x00, (9u8 << 3) | 2, 1, 2, 3, 4, 5, 6, 7, 8, 9];
    let mut decoder = PacketDecoder::new(ok_source(d));
    assert_eq!(decoder.next(), Some(Err(DecoderError::IllegalSizedObject)));
    assert_eq!(decoder.next(), None);
}

#[test]
fn decode_source_error_first_header_byte() {
    let mut decoder = PacketDecoder::new(VecSource::<u8>::new(vec![Err(7)]));
    assert_eq!(decoder.next(), Some(Err(DecoderError::IteratorError(7))));
    assert_eq!(decoder.next(), None);
}

#[test]
fn decode_source_error_second_header_byte() {
    let mut decoder = PacketDecoder::new(VecSource::<u8>::new(vec![Ok(0), Err(7)]));
    assert_eq!(decoder.next(), Some(Err(DecoderError::IteratorError(7))));
    assert_eq!(decoder.next(), None);
}

#[test]
fn decode_lone_header_byte() {
    let mut decoder = PacketDecoder::new(ok_source(vec![0x00]));
    assert_eq!(decoder.next(), Some(Err(DecoderError::UnexpectedTermination)));
    assert_eq!(decoder.next(), None);
}

#[test]
fn decode_source_error_mid_payload_then_resume() {
    let mut items: Vec<Result<u8, u8>> = vec![Ok(0x00), Ok((14u8 << 3) | 2)];
    items.extend(vec![Ok(1), Ok(2), Ok(3)]);
    items.push(Err(9));
    for i in 0..10 {
        if i % 2 == 0 {
            items.push(Err(33));
        } else {
            items.push(Ok(0));
        }
    }
    items.extend(
        vec![0x00, (16u8 << 3) | 1, 0, 0, 0, 0, 0, 0, 0, 7, 0, 0, 0, 0, 0, 0, 0, 8]
            .into_iter()
            .map(Ok),
    );
    let mut decoder = PacketDecoder::new(VecSource::new(items));
    assert_eq!(decoder.next(), Some(Err(DecoderError::IteratorError(9))));
    assert_eq!(
        decoder.next().unwrap().unwrap(),
        AudioDataFormat::SpeakingStart(SpeakingStart { snowflake: 7, timestamp: 8 })
    );
    assert_eq!(decoder.next(), None);
}
