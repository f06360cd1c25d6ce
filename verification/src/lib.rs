//! DRAP: a compact binary framing protocol for real-time voice-session
//! messages. Every packet is a 2-byte header — a 13-bit payload length and a
//! 3-bit type tag — followed by exactly that many payload bytes. The library
//! provides the header codec, the per-type payload codecs, a stateless
//! encoder, and a streaming decoder that resynchronizes after malformed
//! packets and distinguishes transport failures from protocol failures.

pub mod packet;

pub use packet::Audio;
pub use packet::AudioDataFormat;
pub use packet::DecoderError;
pub use packet::SpeakingStart;
pub use packet::decoder::PacketDecoder;
pub use packet::encoder::encode;
