//! The stateless encoder: turns a typed packet into its framed wire form,
//! header then payload. Its one failure mode is a payload over the 13-bit
//! length ceiling.

use vstd::prelude::*;
use vstd::slice::slice_to_vec;

use crate::packet::AudioDataFormat;
use crate::packet::DecoderError;
use crate::packet::audio_of;
use crate::packet::speaking_start_of;
use crate::packet::MAX_PACKET_DATA_SIZE;
use crate::packet::PacketView;
use crate::packet::construct_header;
use crate::packet::construct_packet;
use crate::packet::decoder::lemma_scan_from;
use crate::packet::decoder::ok_stream;
use crate::packet::decoder::step_consumed;
use crate::packet::decoder::step_result;
use crate::packet::decoder::stream_bytes;
use crate::packet::frame_bytes;
use crate::packet::wire::be_bytes_of;
use crate::packet::wire::header_byte0;
use crate::packet::wire::header_byte1;
use crate::packet::wire::lemma_be_bytes_of_len;
use crate::packet::wire::lemma_be_round_trip;
use crate::packet::wire::lemma_header_round_trip;
use crate::packet::wire::lemma_pow256_values;
use crate::packet::wire::write_be;

verus! {

/// The payload byte sequence of a packet: its integer fields big-endian,
/// followed for an audio chunk by the opaque data.
pub open spec fn payload_bytes(p: PacketView) -> Seq<u8> {
    match p {
        PacketView::SpeakingStart(s) => be_bytes_of(s.snowflake as nat, 8) + be_bytes_of(
            s.timestamp as nat,
            8,
        ),
        PacketView::Audio(a) => be_bytes_of(a.snowflake as nat, 8) + be_bytes_of(
            a.sequence as nat,
            2,
        ) + a.data,
    }
}

/// The type tag a packet is framed under.
pub open spec fn type_tag(p: PacketView) -> int {
    match p {
        PacketView::SpeakingStart(_) => 1,
        PacketView::Audio(_) => 2,
    }
}

/// Whether a packet can be framed at all: its payload must fit the 13-bit
/// length field. Every `SpeakingStart` payload does (16 bytes).
pub open spec fn encodable(p: PacketView) -> bool {
    payload_bytes(p).len() <= MAX_PACKET_DATA_SIZE
}

/// The framed wire form of an encodable packet.
pub open spec fn encode_spec(p: PacketView) -> Seq<u8> {
    frame_bytes(type_tag(p), payload_bytes(p))
}

/// Encodes a packet into its framed wire form: the 2-byte header, the
/// big-endian fields, then for audio the data. Returns `None` exactly when
/// the payload exceeds `MAX_PACKET_DATA_SIZE` bytes.
pub fn encode(packet: &AudioDataFormat) -> (r: Option<Vec<u8>>)
    ensures
        r is Some <==> encodable(packet@),
        r is Some ==> r->0@ == encode_spec(packet@),
{
    match packet {
        AudioDataFormat::SpeakingStart(ss) => {
            let mut payload = write_be(ss.snowflake, 8);
            let mut ts = write_be(ss.timestamp, 8);
            payload.append(&mut ts);
            proof {
                lemma_be_bytes_of_len(ss.snowflake as nat, 8);
                lemma_be_bytes_of_len(ss.timestamp as nat, 8);
            }
            construct_packet(1, payload.as_slice())
        },
        AudioDataFormat::Audio(a) => {
            proof {
                lemma_be_bytes_of_len(a.snowflake as nat, 8);
                lemma_be_bytes_of_len(a.sequence as nat, 2);
            }
            if a.data.len() > MAX_PACKET_DATA_SIZE - 10 {
                return None;
            }
            let data_size = a.data.len() + 10;
            let h = match construct_header(2, data_size) {
                Some(h) => h,
                None => {
                    return None;
                },
            };
            let mut bytes: Vec<u8> = Vec::new();
            bytes.push(h[0]);
            bytes.push(h[1]);
            let mut sf = write_be(a.snowflake, 8);
            bytes.append(&mut sf);
            let mut sq = write_be(a.sequence as u64, 2);
            bytes.append(&mut sq);
            let mut d = slice_to_vec(a.data.as_slice());
            bytes.append(&mut d);
            proof {
                assert(bytes@ =~= encode_spec(packet@));
            }
            Some(bytes)
        },
    }
}

/// Round trip: the encoded form of any encodable packet decodes back to
/// exactly that packet as the stream's single item. The decode consumes the
/// whole stream, and the following attempt reports its clean end.
pub proof fn lemma_round_trip<E>(p: PacketView)
    requires
        encodable(p),
    ensures
        ({
            let s = ok_stream::<E>(encode_spec(p));
            &&& step_result(s) == Some(Ok::<PacketView, DecoderError<E>>(p))
            &&& step_consumed(s) == s.len()
            &&& step_result(s.skip(step_consumed(s))) == None::<
                Result<PacketView, DecoderError<E>>,
            >
        }),
{
    lemma_pow256_values();
    let payload = payload_bytes(p);
    let t = type_tag(p);
    let n = payload.len();
    let bytes = encode_spec(p);
    let s = ok_stream::<E>(bytes);
    match p {
        PacketView::SpeakingStart(ss) => {
            lemma_be_bytes_of_len(ss.snowflake as nat, 8);
            lemma_be_bytes_of_len(ss.timestamp as nat, 8);
            lemma_be_round_trip(ss.snowflake as nat, 8);
            lemma_be_round_trip(ss.timestamp as nat, 8);
            assert(payload.subrange(0, 8) =~= be_bytes_of(ss.snowflake as nat, 8));
            assert(payload.subrange(8, 16) =~= be_bytes_of(ss.timestamp as nat, 8));
        },
        PacketView::Audio(a) => {
            lemma_be_bytes_of_len(a.snowflake as nat, 8);
            lemma_be_bytes_of_len(a.sequence as nat, 2);
            lemma_be_round_trip(a.snowflake as nat, 8);
            lemma_be_round_trip(a.sequence as nat, 2);
            assert(payload.subrange(0, 8) =~= be_bytes_of(a.snowflake as nat, 8));
            assert(payload.subrange(8, 10) =~= be_bytes_of(a.sequence as nat, 2));
            assert(payload.skip(10) =~= a.data);
        },
    }
    lemma_header_round_trip(n as int, t);
    assert(s.len() == 2 + n);
    assert(s[0] == Ok::<u8, E>(header_byte0(n as int)));
    assert(s[1] == Ok::<u8, E>(header_byte1(n as int, t)));
    assert(forall|i: int| 0 <= i < n ==> s.skip(2)[i] is Ok);
    lemma_scan_from(s.skip(2), n, n);
    assert(stream_bytes(s.skip(2), n) =~= payload);
    match p {
        PacketView::SpeakingStart(ss) => {
            assert(speaking_start_of(payload) == ss);
        },
        PacketView::Audio(a) => {
            assert(audio_of(payload) == a);
        },
    }
    assert(step_consumed(s) == s.len());
    assert(s.skip(s.len() as int) =~= Seq::<Result<u8, E>>::empty());
}

} // verus!
