//! Byte-level building blocks of the wire format: big-endian integer
//! encoding and the 2-byte packet header that packs a 13-bit payload length
//! with a 3-bit type tag.

use vstd::arithmetic::div_mod::lemma_fundamental_div_mod;
use vstd::arithmetic::div_mod::lemma_fundamental_div_mod_converse;
use vstd::prelude::*;

verus! {

/// 256 to the `n`-th power: the number of values `n` bytes can hold.
pub open spec fn pow256(n: nat) -> nat
    decreases n,
{
    if n == 0 {
        1
    } else {
        256 * pow256((n - 1) as nat)
    }
}

/// The unsigned integer that a big-endian byte string denotes
/// (first byte most significant).
pub open spec fn be_bytes_to_nat(s: Seq<u8>) -> nat
    decreases s.len(),
{
    if s.len() == 0 {
        0
    } else {
        be_bytes_to_nat(s.drop_last()) * 256 + s.last() as nat
    }
}

/// The `n`-byte big-endian byte string of `v` (modulo 256^n).
pub open spec fn be_bytes_of(v: nat, n: nat) -> Seq<u8>
    decreases n,
{
    if n == 0 {
        Seq::empty()
    } else {
        be_bytes_of(v / 256, (n - 1) as nat).push((v % 256) as u8)
    }
}

pub proof fn lemma_be_bytes_of_len(v: nat, n: nat)
    ensures
        be_bytes_of(v, n).len() == n,
    decreases n,
{
    if n > 0 {
        lemma_be_bytes_of_len(v / 256, (n - 1) as nat);
    }
}

pub proof fn lemma_be_bytes_to_nat_bound(s: Seq<u8>)
    ensures
        be_bytes_to_nat(s) < pow256(s.len()),
    decreases s.len(),
{
    if s.len() > 0 {
        lemma_be_bytes_to_nat_bound(s.drop_last());
    }
}

/// Reading back the big-endian bytes of `v` yields `v` again,
/// as long as `v` fits in `n` bytes.
pub proof fn lemma_be_round_trip(v: nat, n: nat)
    requires
        v < pow256(n),
    ensures
        be_bytes_of(v, n).len() == n,
        be_bytes_to_nat(be_bytes_of(v, n)) == v,
    decreases n,
{
    lemma_be_bytes_of_len(v, n);
    if n > 0 {
        assert(v / 256 < pow256((n - 1) as nat)) by {
            lemma_fundamental_div_mod(v as int, 256);
        };
        lemma_be_round_trip(v / 256, (n - 1) as nat);
        let s = be_bytes_of(v / 256, (n - 1) as nat);
        let b = (v % 256) as u8;
        assert(s.push(b).drop_last() =~= s);
        assert(be_bytes_to_nat(s.push(b)) == (v / 256) * 256 + v % 256);
        lemma_fundamental_div_mod(v as int, 256);
    }
}

/// Payload length declared by the two header bytes:
/// the high 8 bits come from `b0`, the low 5 from the top of `b1`.
pub open spec fn header_len(b0: u8, b1: u8) -> int {
    (b0 as int) * 32 + (b1 as int) / 8
}

/// Type tag declared by the second header byte: its low 3 bits.
pub open spec fn header_kind_code(b1: u8) -> int {
    (b1 as int) % 8
}

/// First header byte for a payload length (its bits 5 through 12).
pub open spec fn header_byte0(len: int) -> u8 {
    (len / 32) as u8
}

/// Second header byte: the low 5 bits of the length over the 3 type bits.
pub open spec fn header_byte1(len: int, ty: int) -> u8 {
    ((len % 32) * 8 + ty) as u8
}

/// A 2-byte header can declare no payload length above 8191:
/// the length field is 13 bits wide.
pub proof fn lemma_header_len_bounded(b0: u8, b1: u8)
    ensures
        0 <= header_len(b0, b1) <= 8191,
        0 <= header_kind_code(b1) <= 7,
{
}

/// Decoding an encoded header returns the length and type tag unchanged,
/// for every length the 13-bit field can hold and every 3-bit tag.
pub proof fn lemma_header_round_trip(len: int, ty: int)
    requires
        0 <= len <= 8191,
        0 <= ty <= 7,
    ensures
        header_len(header_byte0(len), header_byte1(len, ty)) == len,
        header_kind_code(header_byte1(len, ty)) == ty,
{
    let b1 = (len % 32) * 8 + ty;
    lemma_fundamental_div_mod_converse(b1, 8, len % 32, ty);
    lemma_fundamental_div_mod(len, 32);
}

/// Reads `n` big-endian bytes of `data` starting at `start` as an integer.
pub fn read_be(data: &[u8], start: usize, n: usize) -> (r: u64)
    requires
        n <= 8,
        start + n <= data@.len(),
    ensures
        r as nat == be_bytes_to_nat(data@.subrange(start as int, start + n)),
{
    let dlen: usize = data.len();
    let mut acc: u64 = 0;
    let mut i: usize = 0;
    while i < n
        invariant
            i <= n,
            n <= 8,
            dlen == data@.len(),
            start + n <= dlen,
            acc as nat == be_bytes_to_nat(data@.subrange(start as int, start + i)),
        decreases n - i,
    {
        proof {
            let prefix = data@.subrange(start as int, start as int + i);
            let extended = data@.subrange(start as int, start as int + i + 1);
            lemma_be_bytes_to_nat_bound(prefix);
            lemma_pow256_le(i as nat, 7);
            lemma_pow256_values();
            assert(extended.drop_last() =~= prefix);
        }
        acc = acc * 256 + data[start + i] as u64;
        i = i + 1;
    }
    acc
}

pub proof fn lemma_pow256_le(m: nat, n: nat)
    requires
        m <= n,
    ensures
        pow256(m) <= pow256(n),
    decreases n,
{
    if m < n {
        lemma_pow256_le(m, (n - 1) as nat);
    }
}

/// The byte-count powers the codecs meet: 2, 7 and 8 bytes.
pub proof fn lemma_pow256_values()
    ensures
        pow256(2) == 0x1_0000,
        pow256(7) == 0x100_0000_0000_0000,
        pow256(8) == 0x1_0000_0000_0000_0000,
{
    reveal_with_fuel(pow256, 9);
}

/// Writes `v` as `n` big-endian bytes (`v` truncated to its low `n` bytes).
pub fn write_be(v: u64, n: usize) -> (r: Vec<u8>)
    requires
        n <= 8,
    ensures
        r@ == be_bytes_of(v as nat, n as nat),
    decreases n,
{
    if n == 0 {
        Vec::new()
    } else {
        let mut r = write_be(v / 256, n - 1);
        r.push((v % 256) as u8);
        r
    }
}

} // verus!
