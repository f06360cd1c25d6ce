//! The DRAP packet types and their codecs. A packet is either a
//! `SpeakingStart` announcement (fixed 16-byte payload) or an `Audio` chunk
//! (10 header-field bytes plus opaque audio data). `construct_header` and
//! `construct_packet` build the 2-byte header and the framed byte sequence;
//! `Audio::new` and `SpeakingStart::new` parse a complete payload buffer.

pub mod decoder;
pub mod encoder;
pub mod wire;

use vstd::prelude::*;
use vstd::slice::slice_subrange;
use vstd::slice::slice_to_vec;

use crate::packet::wire::be_bytes_to_nat;
use crate::packet::wire::header_byte0;
use crate::packet::wire::header_byte1;
use crate::packet::wire::lemma_be_bytes_to_nat_bound;
use crate::packet::wire::lemma_pow256_values;
use crate::packet::wire::read_be;

verus! {

/// Largest payload length the 13-bit header field can declare, and the
/// ceiling the decoder holds every declared length to.
pub const MAX_PACKET_DATA_SIZE: usize = 0x1FFF;

/// An audio-data chunk: a 64-bit source id, a 16-bit sequence number and an
/// opaque byte sequence. On the wire its payload is 10 bytes of fields
/// followed by the data, so it is valid only at 10 or more payload bytes.
#[derive(Debug, PartialEq, Eq)]
pub struct Audio {
    pub snowflake: u64,
    pub sequence: u16,
    pub data: Vec<u8>,
}

/// Mathematical image of an `Audio` packet: the same fields with the data as
/// a sequence.
pub struct AudioView {
    pub snowflake: u64,
    pub sequence: u16,
    pub data: Seq<u8>,
}

impl View for Audio {
    type V = AudioView;

    open spec fn view(&self) -> AudioView {
        AudioView { snowflake: self.snowflake, sequence: self.sequence, data: self.data@ }
    }
}

/// The `Audio` payload a byte buffer denotes: 8 big-endian bytes of source
/// id, 2 of sequence number, and the rest as data. Meaningful for buffers of
/// at least 10 bytes.
pub open spec fn audio_of(buf: Seq<u8>) -> AudioView {
    AudioView {
        snowflake: be_bytes_to_nat(buf.subrange(0, 8)) as u64,
        sequence: be_bytes_to_nat(buf.subrange(8, 10)) as u16,
        data: buf.skip(10),
    }
}

impl Audio {
    /// Parses an `Audio` payload buffer; succeeds exactly on buffers of 10 or
    /// more bytes.
    pub fn new(data: &[u8]) -> (r: Option<Audio>)
        ensures
            r is Some <==> data@.len() >= 10,
            r is Some ==> r->0@ == audio_of(data@),
    {
        if data.len() < 10 {
            return None;
        }
        proof {
            lemma_be_bytes_to_nat_bound(data@.subrange(0, 8));
            lemma_be_bytes_to_nat_bound(data@.subrange(8, 10));
            lemma_pow256_values();
        }
        let snowflake = read_be(data, 0, 8);
        let sequence = read_be(data, 8, 2) as u16;
        let rest = slice_to_vec(slice_subrange(data, 10, data.len()));
        proof {
            assert(data@.subrange(10, data@.len() as int) =~= data@.skip(10));
        }
        Some(Audio { snowflake, sequence, data: rest })
    }
}

/// A session-start announcement: a 64-bit source id and a 64-bit timestamp.
/// On the wire its payload is exactly 16 bytes.
#[derive(Debug, PartialEq, Eq)]
pub struct SpeakingStart {
    pub snowflake: u64,
    pub timestamp: u64,
}

/// The `SpeakingStart` payload a byte buffer denotes: two 8-byte big-endian
/// integers. Meaningful for buffers of exactly 16 bytes.
pub open spec fn speaking_start_of(buf: Seq<u8>) -> SpeakingStart {
    SpeakingStart {
        snowflake: be_bytes_to_nat(buf.subrange(0, 8)) as u64,
        timestamp: be_bytes_to_nat(buf.subrange(8, 16)) as u64,
    }
}

impl SpeakingStart {
    /// Parses a `SpeakingStart` payload buffer; succeeds exactly on buffers
    /// of 16 bytes.
    pub fn new(data: &[u8]) -> (r: Option<SpeakingStart>)
        ensures
            r is Some <==> data@.len() == 16,
            r is Some ==> r->0 == speaking_start_of(data@),
    {
        if data.len() != 16 {
            return None;
        }
        proof {
            lemma_be_bytes_to_nat_bound(data@.subrange(0, 8));
            lemma_be_bytes_to_nat_bound(data@.subrange(8, 16));
            lemma_pow256_values();
        }
        let snowflake = read_be(data, 0, 8);
        let timestamp = read_be(data, 8, 8);
        Some(SpeakingStart { snowflake, timestamp })
    }
}

/// The three interpretations of a header's type tag: tag 1, tag 2, and
/// everything else.
#[derive(Debug, PartialEq, Eq)]
pub enum PacketKind {
    SpeakingStart,
    Audio,
    Unknown,
}

/// The interpretation of a 3-bit type tag.
pub open spec fn kind_of(ty: int) -> PacketKind {
    if ty == 1 {
        PacketKind::SpeakingStart
    } else if ty == 2 {
        PacketKind::Audio
    } else {
        PacketKind::Unknown
    }
}

/// What decoding one item can report instead of a packet. `IteratorError`
/// forwards a failure of the byte source itself; the others are protocol
/// failures: the source ended mid-packet, the declared length is over the
/// ceiling, the payload length does not fit the declared type's shape, or
/// the type tag is not recognized.
#[derive(Debug, PartialEq, Eq)]
pub enum DecoderError<E> {
    UnexpectedTermination,
    IllegalSize,
    IllegalSizedObject,
    UnknownKind,
    IteratorError(E),
}

/// A decoded packet: the unit the decoder hands out and the encoder takes.
#[derive(Debug, PartialEq, Eq)]
pub enum AudioDataFormat {
    SpeakingStart(SpeakingStart),
    Audio(Audio),
}

/// Mathematical image of a decoded packet.
pub enum PacketView {
    SpeakingStart(SpeakingStart),
    Audio(AudioView),
}

impl View for AudioDataFormat {
    type V = PacketView;

    open spec fn view(&self) -> PacketView {
        match self {
            AudioDataFormat::SpeakingStart(s) => PacketView::SpeakingStart(*s),
            AudioDataFormat::Audio(a) => PacketView::Audio(a@),
        }
    }
}

/// How a complete payload buffer of declared kind `kind` is interpreted:
/// a packet where the buffer fits the kind's shape, `IllegalSizedObject`
/// where it does not, and `UnknownKind` for an unrecognized tag.
pub open spec fn packet_of<E>(kind: PacketKind, buf: Seq<u8>) -> Result<
    PacketView,
    DecoderError<E>,
> {
    match kind {
        PacketKind::SpeakingStart => if buf.len() == 16 {
            Ok(PacketView::SpeakingStart(speaking_start_of(buf)))
        } else {
            Err(DecoderError::IllegalSizedObject)
        },
        PacketKind::Audio => if buf.len() >= 10 {
            Ok(PacketView::Audio(audio_of(buf)))
        } else {
            Err(DecoderError::IllegalSizedObject)
        },
        PacketKind::Unknown => Err(DecoderError::UnknownKind),
    }
}

/// The framed form of a payload: the 2-byte header declaring the payload's
/// length and the type tag, then the payload itself.
pub open spec fn frame_bytes(ty: int, payload: Seq<u8>) -> Seq<u8> {
    seq![header_byte0(payload.len() as int), header_byte1(payload.len() as int, ty)] + payload
}

/// Builds the 2-byte header declaring `data_size` payload bytes of type
/// `ty`; fails exactly when `data_size` is over the 13-bit ceiling.
pub fn construct_header(ty: u8, data_size: usize) -> (r: Option<[u8; 2]>)
    requires
        ty == 1 || ty == 2,
    ensures
        r is Some <==> data_size <= MAX_PACKET_DATA_SIZE,
        r is Some ==> r->0@ == seq![
            header_byte0(data_size as int),
            header_byte1(data_size as int, ty as int),
        ],
{
    if data_size > MAX_PACKET_DATA_SIZE {
        return None;
    }
    let size = data_size as u16;
    let first = (size >> 5) as u8;
    let second_size = ((size & 0x1F) << 3) as u8;
    let second = second_size | ty;
    let arr = [first, second];
    proof {
        assert(size >> 5 == size / 32) by (bit_vector);
        assert(ty < 8 ==> ((((size & 0x1F) << 3) as u8) | ty) == (((size % 32) * 8 + ty as u16) as u8))
            by (bit_vector);
        assert(arr@ =~= seq![
            header_byte0(data_size as int),
            header_byte1(data_size as int, ty as int),
        ]);
    }
    Some(arr)
}

/// Frames a payload of type `ty`: header then payload; fails exactly when
/// the payload is over the 13-bit ceiling.
pub fn construct_packet(ty: u8, d: &[u8]) -> (r: Option<Vec<u8>>)
    requires
        ty == 1 || ty == 2,
    ensures
        r is Some <==> d@.len() <= MAX_PACKET_DATA_SIZE,
        r is Some ==> r->0@ == frame_bytes(ty as int, d@),
{
    let h = match construct_header(ty, d.len()) {
        Some(h) => h,
        None => {
            return None;
        },
    };
    let mut packet: Vec<u8> = Vec::new();
    packet.push(h[0]);
    packet.push(h[1]);
    let mut tail = slice_to_vec(d);
    packet.append(&mut tail);
    proof {
        assert(packet@ =~= frame_bytes(ty as int, d@));
    }
    Some(packet)
}

} // verus!
