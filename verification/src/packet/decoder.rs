//! The streaming decoder. It wraps a fallible pull source of bytes and
//! produces one packet, or one error, per call: two header bytes, then
//! exactly the declared number of payload bytes, resynchronizing the stream
//! by skipping a malformed packet's declared payload before reporting it.

use vstd::prelude::*;

use crate::packet::Audio;
use crate::packet::AudioDataFormat;
use crate::packet::DecoderError;
use crate::packet::MAX_PACKET_DATA_SIZE;
use crate::packet::PacketKind;
use crate::packet::PacketView;
use crate::packet::SpeakingStart;
use crate::packet::kind_of;
use crate::packet::packet_of;
use crate::packet::wire::header_kind_code;
use crate::packet::wire::header_len;
use crate::packet::wire::lemma_header_len_bounded;

verus! {

/// A pull source of bytes that can itself fail: each pull yields a byte, a
/// source-defined error, or `None` once the source is exhausted.
/// `remaining` is the source's mathematical content: the outcomes it will
/// still yield, in order; a source yields its outcomes front to back and
/// then `None` for good.
pub trait ByteSource {
    /// The source's own error type, forwarded opaquely by the decoder.
    type Err;

    /// The outcomes the source will still yield, in order.
    spec fn remaining(&self) -> Seq<Result<u8, Self::Err>>;

    /// Pulls the next outcome: the head of `remaining`, or `None` once
    /// nothing is left.
    fn next(&mut self) -> (r: Option<Result<u8, Self::Err>>)
        ensures
            old(self).remaining().len() == 0 ==> r is None && final(self).remaining()
                == old(self).remaining(),
            old(self).remaining().len() > 0 ==> r == Some(old(self).remaining()[0])
                && final(self).remaining() == old(self).remaining().skip(1),
    ;
}

/// A byte source fed from a vector of scripted outcomes, yielded in order:
/// the plainest `ByteSource`, and the one the tests use.
pub struct VecSource<E> {
    items: Vec<Result<u8, E>>,
}

impl<E> VecSource<E> {
    /// Wraps a vector of outcomes into a source yielding exactly them.
    pub fn new(items: Vec<Result<u8, E>>) -> (r: VecSource<E>)
        ensures
            r.remaining() == items@,
    {
        VecSource { items }
    }
}

impl<E> ByteSource for VecSource<E> {
    type Err = E;

    closed spec fn remaining(&self) -> Seq<Result<u8, E>> {
        self.items@
    }

    fn next(&mut self) -> (r: Option<Result<u8, E>>) {
        if self.items.len() > 0 {
            let v = self.items.remove(0);
            proof {
                assert(old(self).items@.remove(0) =~= old(self).items@.skip(1));
            }
            Some(v)
        } else {
            None
        }
    }
}

/// Outcome of trying to pull `n` payload bytes from the stream `s`: all of
/// them obtained, the source exhausted first, or a source error met first.
pub enum ScanOutcome<E> {
    Complete,
    Exhausted,
    Failed(E),
}

/// Walks the first `n` entries of `s` in order and classifies the attempt:
/// `Exhausted` when `s` runs out first, `Failed` with the first error met,
/// `Complete` when `n` byte entries lead.
pub open spec fn scan<E>(s: Seq<Result<u8, E>>, n: nat) -> ScanOutcome<E>
    decreases n,
{
    if n == 0 {
        ScanOutcome::Complete
    } else if s.len() == 0 {
        ScanOutcome::Exhausted
    } else if s[0] is Err {
        ScanOutcome::Failed(s[0]->Err_0)
    } else {
        scan(s.skip(1), (n - 1) as nat)
    }
}

/// The stream a plain byte sequence feeds the decoder: one good entry per
/// byte, then exhaustion.
pub open spec fn ok_stream<E>(bytes: Seq<u8>) -> Seq<Result<u8, E>> {
    bytes.map_values(|b: u8| Ok::<u8, E>(b))
}

/// The first `n` byte values of `s`; meaningful when `scan(s, n)` is
/// `Complete`.
pub open spec fn stream_bytes<E>(s: Seq<Result<u8, E>>, n: nat) -> Seq<u8> {
    Seq::new(n, |i: int| s[i]->Ok_0)
}

/// How many entries reading `n` payload bytes consumes from the stream `s`:
/// `n`, or everything when fewer are left. The same count holds when the
/// payload is skipped rather than kept.
pub open spec fn body_consumed<E>(s: Seq<Result<u8, E>>, n: nat) -> int {
    if s.len() < n {
        s.len() as int
    } else {
        n as int
    }
}

/// The item reported for a packet whose header declared `n` payload bytes
/// of kind `kind`, its payload read from the stream `s`.
pub open spec fn body_result<E>(s: Seq<Result<u8, E>>, n: nat, kind: PacketKind) -> Result<
    PacketView,
    DecoderError<E>,
> {
    if n > MAX_PACKET_DATA_SIZE {
        Err(DecoderError::IllegalSize)
    } else {
        match scan(s, n) {
            ScanOutcome::Complete => packet_of(kind, stream_bytes(s, n)),
            ScanOutcome::Exhausted => Err(DecoderError::UnexpectedTermination),
            ScanOutcome::Failed(e) => Err(DecoderError::IteratorError(e)),
        }
    }
}

/// The item one decode attempt reports on the stream `s`: `None` for the
/// clean end of the packet sequence, otherwise one packet or one error.
pub open spec fn step_result<E>(s: Seq<Result<u8, E>>) -> Option<
    Result<PacketView, DecoderError<E>>,
> {
    if s.len() == 0 {
        None
    } else if s[0] is Err {
        Some(Err(DecoderError::IteratorError(s[0]->Err_0)))
    } else if s.len() == 1 {
        Some(Err(DecoderError::UnexpectedTermination))
    } else if s[1] is Err {
        Some(Err(DecoderError::IteratorError(s[1]->Err_0)))
    } else {
        Some(
            body_result(
                s.skip(2),
                header_len(s[0]->Ok_0, s[1]->Ok_0) as nat,
                kind_of(header_kind_code(s[1]->Ok_0)),
            ),
        )
    }
}

/// How many stream entries one decode attempt consumes.
pub open spec fn step_consumed<E>(s: Seq<Result<u8, E>>) -> int {
    if s.len() == 0 {
        0
    } else if s[0] is Err {
        1
    } else if s.len() == 1 {
        1
    } else if s[1] is Err {
        2
    } else {
        2 + body_consumed(s.skip(2), header_len(s[0]->Ok_0, s[1]->Ok_0) as nat)
    }
}

/// A decoded item with the packet, if any, replaced by its mathematical
/// image.
pub open spec fn result_view<E>(r: Result<AudioDataFormat, DecoderError<E>>) -> Result<
    PacketView,
    DecoderError<E>,
> {
    match r {
        Ok(p) => Ok(p@),
        Err(e) => Err(e),
    }
}

/// `result_view` lifted over the end-of-stream case.
pub open spec fn item_view<E>(r: Option<Result<AudioDataFormat, DecoderError<E>>>) -> Option<
    Result<PacketView, DecoderError<E>>,
> {
    match r {
        None => None,
        Some(x) => Some(result_view(x)),
    }
}

/// Once `k` leading byte entries are known good, classifying `n` entries of
/// `s` is classifying the remaining `n - k` entries past them.
pub proof fn lemma_scan_from<E>(s: Seq<Result<u8, E>>, n: nat, k: nat)
    requires
        k <= n,
        k <= s.len(),
        forall|i: int| 0 <= i < k ==> s[i] is Ok,
    ensures
        scan(s, n) == scan(s.skip(k as int), (n - k) as nat),
    decreases k,
{
    if k > 0 {
        assert(forall|i: int| 0 <= i < k - 1 ==> s.skip(1)[i] is Ok);
        lemma_scan_from(s.skip(1), (n - 1) as nat, (k - 1) as nat);
        assert(s.skip(1).skip(k - 1) =~= s.skip(k as int));
    } else {
        assert(s.skip(0) =~= s);
    }
}

/// The decoder keeps a ceiling on declared payload lengths for the sake of
/// defensiveness, but a 2-byte header cannot overrun it: the 13-bit length
/// field tops out at the ceiling itself, so no decoded item is ever
/// `IllegalSize`.
pub proof fn lemma_illegal_size_unreachable<E>(s: Seq<Result<u8, E>>)
    ensures
        step_result(s) != Some(Err::<PacketView, DecoderError<E>>(DecoderError::IllegalSize)),
{
    if s.len() >= 2 && s[0] is Ok && s[1] is Ok {
        lemma_header_len_bounded(s[0]->Ok_0, s[1]->Ok_0);
    }
}

/// Pulls the two header bytes and decodes them into the declared payload
/// length and kind; `None` when the source was exhausted before the first
/// byte (the clean end of the packet sequence).
pub fn decode_header<S: ByteSource>(itr: &mut S) -> (r: Option<
    Result<(usize, PacketKind), DecoderError<S::Err>>,
>)
    ensures
        ({
            let s = old(itr).remaining();
            &&& (s.len() == 0 ==> r is None && final(itr).remaining() == s)
            &&& (s.len() > 0 && s[0] is Err ==> r == Some(
                Err::<(usize, PacketKind), DecoderError<S::Err>>(
                    DecoderError::IteratorError(s[0]->Err_0),
                ),
            ) && final(itr).remaining() == s.skip(1))
            &&& (s.len() == 1 && s[0] is Ok ==> r == Some(
                Err::<(usize, PacketKind), DecoderError<S::Err>>(
                    DecoderError::UnexpectedTermination,
                ),
            ) && final(itr).remaining() == s.skip(1))
            &&& (s.len() >= 2 && s[0] is Ok && s[1] is Err ==> r == Some(
                Err::<(usize, PacketKind), DecoderError<S::Err>>(
                    DecoderError::IteratorError(s[1]->Err_0),
                ),
            ) && final(itr).remaining() == s.skip(2))
            &&& (s.len() >= 2 && s[0] is Ok && s[1] is Ok ==> r == Some(
                Ok::<(usize, PacketKind), DecoderError<S::Err>>(
                    (
                        header_len(s[0]->Ok_0, s[1]->Ok_0) as usize,
                        kind_of(header_kind_code(s[1]->Ok_0)),
                    ),
                ),
            ) && final(itr).remaining() == s.skip(2))
        }),
{
    let first = match itr.next() {
        None => {
            return None;
        },
        Some(v) => v,
    };
    Some(_decode_header(first, itr))
}

/// Decodes a header whose first byte was already pulled: pulls the second
/// byte and unpacks the 13-bit length and the 3-bit type tag.
pub fn _decode_header<S: ByteSource>(
    first: Result<u8, S::Err>,
    itr: &mut S,
) -> (r: Result<(usize, PacketKind), DecoderError<S::Err>>)
    ensures
        ({
            let s = old(itr).remaining();
            &&& (first is Err ==> r == Err::<(usize, PacketKind), DecoderError<S::Err>>(
                DecoderError::IteratorError(first->Err_0),
            ) && final(itr).remaining() == s)
            &&& (first is Ok && s.len() == 0 ==> r == Err::<
                (usize, PacketKind),
                DecoderError<S::Err>,
            >(DecoderError::UnexpectedTermination) && final(itr).remaining() == s)
            &&& (first is Ok && s.len() > 0 && s[0] is Err ==> r == Err::<
                (usize, PacketKind),
                DecoderError<S::Err>,
            >(DecoderError::IteratorError(s[0]->Err_0)) && final(itr).remaining() == s.skip(1))
            &&& (first is Ok && s.len() > 0 && s[0] is Ok ==> r == Ok::<
                (usize, PacketKind),
                DecoderError<S::Err>,
            >(
                (
                    header_len(first->Ok_0, s[0]->Ok_0) as usize,
                    kind_of(header_kind_code(s[0]->Ok_0)),
                ),
            ) && final(itr).remaining() == s.skip(1))
        }),
{
    let first = match first {
        Ok(b) => b,
        Err(x) => {
            return Err(DecoderError::IteratorError(x));
        },
    };
    let second = match itr.next() {
        None => {
            return Err(DecoderError::UnexpectedTermination);
        },
        Some(Ok(b)) => b,
        Some(Err(x)) => {
            return Err(DecoderError::IteratorError(x));
        },
    };
    let len16: u16 = ((first as u16) << 5) | ((second as u16) >> 3);
    let ty: u8 = second & 0x07;
    proof {
        assert(((first as u16) << 5) | ((second as u16) >> 3) == (first as u16) * 32 + (
        second as u16) / 8) by (bit_vector);
        assert(second & 0x07 == second % 8) by (bit_vector);
    }
    let kind = match ty {
        1 => PacketKind::SpeakingStart,
        2 => PacketKind::Audio,
        _ => PacketKind::Unknown,
    };
    Ok((len16 as usize, kind))
}

/// Pulls and discards up to `n` outcomes, swallowing errors; reports how
/// many were obtained when the source ran out first.
pub fn advance_by<S: ByteSource>(itr: &mut S, n: usize) -> (r: Result<(), usize>)
    ensures
        final(itr).remaining() == old(itr).remaining().skip(
            body_consumed(old(itr).remaining(), n as nat),
        ),
        r is Ok <==> old(itr).remaining().len() >= n,
        r is Err ==> r->Err_0 == old(itr).remaining().len(),
{
    let ghost s0 = itr.remaining();
    proof {
        assert(s0.skip(0) =~= s0);
    }
    let mut x: usize = 0;
    while x < n
        invariant
            x <= n,
            x <= s0.len(),
            s0 == old(itr).remaining(),
            itr.remaining() == s0.skip(x as int),
        decreases n - x,
    {
        match itr.next() {
            None => {
                return Err(x);
            },
            Some(_) => {},
        }
        proof {
            assert(s0.skip(x as int).skip(1) =~= s0.skip(x as int + 1));
        }
        x = x + 1;
    }
    Ok(())
}

/// The streaming decoder: holds a byte source for its lifetime and decodes
/// one packet per call to `next`.
pub struct PacketDecoder<S: ByteSource> {
    itr: S,
}

impl<S: ByteSource> PacketDecoder<S> {
    /// The outcomes the wrapped source will still yield.
    pub closed spec fn remaining(&self) -> Seq<Result<u8, S::Err>> {
        self.itr.remaining()
    }

    /// Reads the declared payload from the source and builds this item's
    /// outcome: the packet, or the error after resynchronizing the stream.
    fn construct_packet(&mut self, size: usize, kind: PacketKind) -> (r: Result<
        AudioDataFormat,
        DecoderError<S::Err>,
    >)
        ensures
            result_view(r) == body_result(old(self).remaining(), size as nat, kind),
            final(self).remaining() == old(self).remaining().skip(
                body_consumed(old(self).remaining(), size as nat),
            ),
    {
        let ghost s0 = self.itr.remaining();
        if size > MAX_PACKET_DATA_SIZE {
            let _ = advance_by(&mut self.itr, size);
            return Err(DecoderError::IllegalSize);
        }
        let mut data: Vec<u8> = Vec::new();
        proof {
            assert(s0.skip(0) =~= s0);
            assert(stream_bytes(s0, 0nat) =~= Seq::<u8>::empty());
        }
        let mut x: usize = 0;
        while x < size
            invariant
                x <= size,
                size <= MAX_PACKET_DATA_SIZE,
                x <= s0.len(),
                s0 == old(self).remaining(),
                self.itr.remaining() == s0.skip(x as int),
                forall|i: int| 0 <= i < x ==> s0[i] is Ok,
                data@ == stream_bytes(s0, x as nat),
            decreases size - x,
        {
            let v = match self.itr.next() {
                None => {
                    proof {
                        lemma_scan_from(s0, size as nat, x as nat);
                    }
                    return Err(DecoderError::UnexpectedTermination);
                },
                Some(v) => v,
            };
            match v {
                Ok(b) => {
                    data.push(b);
                    proof {
                        assert(s0.skip(x as int).skip(1) =~= s0.skip(x as int + 1));
                        assert(stream_bytes(s0, (x + 1) as nat) =~= stream_bytes(
                            s0,
                            x as nat,
                        ).push(b));
                    }
                    x = x + 1;
                },
                Err(e) => {
                    proof {
                        lemma_scan_from(s0, size as nat, x as nat);
                        assert(s0.skip(x as int).skip(1) =~= s0.skip(x as int + 1));
                    }
                    let _ = advance_by(&mut self.itr, size - x - 1);
                    proof {
                        let c = body_consumed(s0.skip(x as int + 1), (size - x - 1) as nat);
                        assert(s0.skip(x as int + 1).skip(c) =~= s0.skip(x as int + 1 + c));
                    }
                    return Err(DecoderError::IteratorError(e));
                },
            }
        }
        proof {
            lemma_scan_from(s0, size as nat, size as nat);
        }
        match kind {
            PacketKind::SpeakingStart => match SpeakingStart::new(data.as_slice()) {
                Some(packet) => Ok(AudioDataFormat::SpeakingStart(packet)),
                None => Err(DecoderError::IllegalSizedObject),
            },
            PacketKind::Audio => match Audio::new(data.as_slice()) {
                Some(packet) => Ok(AudioDataFormat::Audio(packet)),
                None => Err(DecoderError::IllegalSizedObject),
            },
            PacketKind::Unknown => Err(DecoderError::UnknownKind),
        }
    }

    fn _next(&mut self) -> (r: Option<Result<AudioDataFormat, DecoderError<S::Err>>>)
        ensures
            item_view(r) == step_result(old(self).remaining()),
            final(self).remaining() == old(self).remaining().skip(
                step_consumed(old(self).remaining()),
            ),
    {
        let ghost s0 = self.itr.remaining();
        let header = match decode_header(&mut self.itr) {
            None => {
                return None;
            },
            Some(h) => h,
        };
        match header {
            Ok((size, kind)) => {
                let res = self.construct_packet(size, kind);
                proof {
                    let c = body_consumed(s0.skip(2), size as nat);
                    assert(s0.skip(2).skip(c) =~= s0.skip(2 + c));
                }
                Some(res)
            },
            Err(e) => Some(Err(e)),
        }
    }

    /// Wraps a byte source into a packet decoder; the decoder holds the
    /// source for its lifetime.
    pub fn new(itr: S) -> (r: PacketDecoder<S>)
        ensures
            r.remaining() == itr.remaining(),
    {
        PacketDecoder { itr }
    }

    /// Produces the next item of the packet sequence: `None` at the clean
    /// end of the stream, otherwise one decoded packet or one error, having
    /// consumed exactly the entries `step_consumed` names.
    pub fn next(&mut self) -> (r: Option<Result<AudioDataFormat, DecoderError<S::Err>>>)
        ensures
            item_view(r) == step_result(old(self).remaining()),
            final(self).remaining() == old(self).remaining().skip(
                step_consumed(old(self).remaining()),
            ),
    {
        self._next()
    }
}

} // verus!
