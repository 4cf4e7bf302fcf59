//! The persisted listing record layout.
//!
//! A listing is stored as 73 bytes of payload: the seller identity in a
//! 32-byte field, the asset identity in a 32-byte field, the price as an
//! 8-byte little-endian integer, and the derivation nonce as one byte.
//! Identities are 64-bit here, so each identity field carries the value
//! little-endian in its first 8 bytes and zeros in the remaining 24.
//! `encode_listing` produces exactly this layout and `decode_listing`
//! accepts exactly it: decoding returns a listing precisely when the bytes
//! are some listing's encoding, which makes the pair a lossless round trip.

use vstd::prelude::*;

use crate::market::Listing;

verus! {

/// The payload length of one persisted listing record.
pub const RECORD_LEN: usize = 73;

/// 256 to the power `n`.
pub open spec fn pow256(n: nat) -> int
    decreases n,
{
    if n == 0 {
        1
    } else {
        256 * pow256((n - 1) as nat)
    }
}

/// The `n` little-endian base-256 digits of `x`.
pub open spec fn le_bytes(x: int, n: nat) -> Seq<u8>
    decreases n,
{
    if n == 0 {
        Seq::empty()
    } else {
        seq![(x % 256) as u8] + le_bytes(x / 256, (n - 1) as nat)
    }
}

/// The integer the little-endian digits `s` denote.
pub open spec fn from_le_bytes(s: Seq<u8>) -> int
    decreases s.len(),
{
    if s.len() == 0 {
        0
    } else {
        s[0] + 256 * from_le_bytes(s.drop_first())
    }
}

/// A run of `n` zero bytes.
pub open spec fn zero_bytes(n: nat) -> Seq<u8> {
    Seq::new(n, |i: int| 0u8)
}

/// The 73-byte record layout of one listing.
pub open spec fn record_bytes(l: Listing) -> Seq<u8> {
    le_bytes(l.seller as int, 8) + zero_bytes(24) + le_bytes(l.asset as int, 8) + zero_bytes(24)
        + le_bytes(l.price as int, 8) + seq![l.nonce]
}

/// `n` digits are `n` bytes.
pub proof fn lemma_le_bytes_len(x: int, n: nat)
    ensures
        le_bytes(x, n).len() == n,
    decreases n,
{
    if n > 0 {
        lemma_le_bytes_len(x / 256, (n - 1) as nat);
    }
}

/// `n` digits denote less than 256 to the `n`.
pub proof fn lemma_from_le_bytes_bound(s: Seq<u8>)
    ensures
        0 <= from_le_bytes(s) < pow256(s.len()),
    decreases s.len(),
{
    if s.len() > 0 {
        lemma_from_le_bytes_bound(s.drop_first());
        assert(s[0] + 256 * from_le_bytes(s.drop_first()) < 256 * pow256(s.drop_first().len()))
            by (nonlinear_arith)
            requires
                s[0] < 256,
                from_le_bytes(s.drop_first()) <= pow256(s.drop_first().len()) - 1,
        ;
    }
}

/// Reading back the digits of `x` yields `x`, for `x` within `n` digits.
pub proof fn lemma_le_bytes_round_trip(x: int, n: nat)
    requires
        0 <= x < pow256(n),
    ensures
        from_le_bytes(le_bytes(x, n)) == x,
    decreases n,
{
    if n > 0 {
        let s = le_bytes(x, n);
        assert(x / 256 < pow256((n - 1) as nat)) by (nonlinear_arith)
            requires
                0 <= x < 256 * pow256((n - 1) as nat),
        ;
        lemma_le_bytes_round_trip(x / 256, (n - 1) as nat);
        assert(s.drop_first() =~= le_bytes(x / 256, (n - 1) as nat));
        assert(x == 256 * (x / 256) + x % 256);
    }
}

/// The digits of what digits denote are those digits themselves.
pub proof fn lemma_from_le_bytes_round_trip(s: Seq<u8>)
    ensures
        le_bytes(from_le_bytes(s), s.len()) == s,
    decreases s.len(),
{
    if s.len() > 0 {
        let x = from_le_bytes(s);
        let r = from_le_bytes(s.drop_first());
        lemma_from_le_bytes_bound(s.drop_first());
        assert(x % 256 == s[0] && x / 256 == r) by (nonlinear_arith)
            requires
                x == s[0] + 256 * r,
                0 <= s[0] < 256,
                0 <= r,
        ;
        lemma_from_le_bytes_round_trip(s.drop_first());
        assert(le_bytes(x, s.len()) =~= s);
    }
}

/// Two listings with the same record bytes are the same listing: the layout
/// loses nothing.
pub proof fn lemma_record_bytes_injective(l1: Listing, l2: Listing)
    requires
        record_bytes(l1) == record_bytes(l2),
    ensures
        l1 == l2,
{
    lemma_record_field_values(l1);
    lemma_record_field_values(l2);
}

/// Where each field of a listing sits in its record, and that the record is
/// 73 bytes long.
pub proof fn lemma_record_field_values(l: Listing)
    ensures
        record_bytes(l).len() == 73,
        record_bytes(l).subrange(0, 8) == le_bytes(l.seller as int, 8),
        record_bytes(l).subrange(32, 40) == le_bytes(l.asset as int, 8),
        record_bytes(l).subrange(64, 72) == le_bytes(l.price as int, 8),
        record_bytes(l)[72] == l.nonce,
        from_le_bytes(record_bytes(l).subrange(0, 8)) == l.seller,
        from_le_bytes(record_bytes(l).subrange(32, 40)) == l.asset,
        from_le_bytes(record_bytes(l).subrange(64, 72)) == l.price,
        forall|p: int| 8 <= p < 32 ==> record_bytes(l)[p] == 0,
        forall|p: int| 40 <= p < 64 ==> record_bytes(l)[p] == 0,
{
    let r = record_bytes(l);
    lemma_le_bytes_len(l.seller as int, 8);
    lemma_le_bytes_len(l.asset as int, 8);
    lemma_le_bytes_len(l.price as int, 8);
    assert(r.subrange(0, 8) =~= le_bytes(l.seller as int, 8));
    assert(r.subrange(32, 40) =~= le_bytes(l.asset as int, 8));
    assert(r.subrange(64, 72) =~= le_bytes(l.price as int, 8));
    lemma_pow256_64();
    lemma_le_bytes_round_trip(l.seller as int, 8);
    lemma_le_bytes_round_trip(l.asset as int, 8);
    lemma_le_bytes_round_trip(l.price as int, 8);
}

/// Eight base-256 digits cover exactly the 64-bit integers.
pub proof fn lemma_pow256_64()
    ensures
        pow256(8) == 0x1_0000_0000_0000_0000,
        pow256(7) == 0x1_0000_0000_0000_00,
{
    reveal_with_fuel(pow256, 9);
}

/// A power of 256 is at least one.
pub proof fn lemma_pow256_pos(n: nat)
    ensures
        pow256(n) >= 1,
    decreases n,
{
    if n > 0 {
        lemma_pow256_pos((n - 1) as nat);
        assert(256 * pow256((n - 1) as nat) >= pow256((n - 1) as nat)) by (nonlinear_arith)
            requires
                pow256((n - 1) as nat) >= 1,
        ;
    }
}

/// More digits reach at least as far.
pub proof fn lemma_pow256_mono(a: nat, b: nat)
    requires
        a <= b,
    ensures
        pow256(a) <= pow256(b),
    decreases b,
{
    if a < b {
        lemma_pow256_mono(a, (b - 1) as nat);
        lemma_pow256_pos((b - 1) as nat);
        assert(pow256((b - 1) as nat) <= 256 * pow256((b - 1) as nat)) by (nonlinear_arith)
            requires
                pow256((b - 1) as nat) >= 1,
        ;
    }
}

/// Append the eight little-endian bytes of `x`.
fn push_u64_le(out: &mut Vec<u8>, x: u64)
    ensures
        final(out)@ == old(out)@ + le_bytes(x as int, 8),
{
    let ghost base = out@;
    let mut v: u64 = x;
    let mut i: usize = 0;
    while i < 8
        invariant
            i <= 8,
            out@ + le_bytes(v as int, (8 - i) as nat) == base + le_bytes(x as int, 8),
        decreases 8 - i,
    {
        let b: u8 = (v % 256) as u8;
        proof {
            assert(le_bytes(v as int, (8 - i) as nat) == seq![b] + le_bytes(
                v as int / 256,
                (8 - (i + 1)) as nat,
            ));
            assert(out@.push(b) + le_bytes(v as int / 256, (8 - (i + 1)) as nat) =~= out@ + (
            seq![b] + le_bytes(v as int / 256, (8 - (i + 1)) as nat)));
        }
        out.push(b);
        v = v / 256;
        i = i + 1;
    }
    proof {
        assert(out@ + le_bytes(v as int, 0) =~= out@);
    }
}

/// Append `n` zero bytes.
fn push_zeros(out: &mut Vec<u8>, n: usize)
    ensures
        final(out)@ == old(out)@ + zero_bytes(n as nat),
{
    let ghost base = out@;
    let mut i: usize = 0;
    proof {
        assert(out@ =~= base + zero_bytes(0));
    }
    while i < n
        invariant
            i <= n,
            out@ == base + zero_bytes(i as nat),
        decreases n - i,
    {
        out.push(0u8);
        proof {
            assert(out@ =~= base + zero_bytes((i + 1) as nat));
        }
        i = i + 1;
    }
}

/// Serialize a listing into its 73-byte record.
pub fn encode_listing(l: &Listing) -> (out: Vec<u8>)
    ensures
        out@ == record_bytes(*l),
        out@.len() == RECORD_LEN,
{
    let mut out: Vec<u8> = Vec::new();
    push_u64_le(&mut out, l.seller);
    push_zeros(&mut out, 24);
    push_u64_le(&mut out, l.asset);
    push_zeros(&mut out, 24);
    push_u64_le(&mut out, l.price);
    out.push(l.nonce);
    proof {
        lemma_record_field_values(*l);
        lemma_le_bytes_len(l.seller as int, 8);
        lemma_le_bytes_len(l.asset as int, 8);
        lemma_le_bytes_len(l.price as int, 8);
        assert(out@ =~= record_bytes(*l));
    }
    out
}

/// Read the eight little-endian bytes starting at `start` as one integer.
fn read_u64_le(bytes: &Vec<u8>, start: usize) -> (x: u64)
    requires
        start + 8 <= bytes@.len(),
    ensures
        x as int == from_le_bytes(bytes@.subrange(start as int, start as int + 8)),
{
    let n: usize = bytes.len();
    let mut acc: u64 = 0;
    let mut i: usize = 8;
    proof {
        lemma_pow256_64();
        assert(bytes@.subrange(start as int + 8, start as int + 8).len() == 0);
    }
    while i > 0
        invariant
            i <= 8,
            n == bytes@.len(),
            start + 8 <= n,
            acc as int == from_le_bytes(bytes@.subrange(start as int + i, start as int + 8)),
            acc < pow256((8 - i) as nat),
        decreases i,
    {
        i = i - 1;
        let b: u8 = bytes[start + i];
        proof {
            lemma_pow256_64();
            lemma_pow256_mono((7 - i) as nat, 7);
            let s = bytes@.subrange(start as int + i, start as int + 8);
            assert(s[0] == bytes@[start as int + i]);
            assert(s.drop_first() =~= bytes@.subrange(start as int + i + 1, start as int + 8));
        }
        acc = acc * 256 + (b as u64);
    }
    acc
}

/// Parse a 73-byte record back into the listing it stores.  Returns the
/// listing exactly when the bytes are some listing's record: any other
/// length, or a nonzero byte in the identity padding, is rejected.
pub fn decode_listing(bytes: &Vec<u8>) -> (r: Option<Listing>)
    ensures
        match r {
            Some(l) => bytes@ == record_bytes(l),
            None => forall|l: Listing| bytes@ != record_bytes(l),
        },
{
    if bytes.len() != RECORD_LEN {
        proof {
            assert forall|l: Listing| bytes@ != record_bytes(l) by {
                lemma_record_field_values(l);
            }
        }
        return None;
    }
    let mut p: usize = 8;
    while p < 32
        invariant
            8 <= p <= 32,
            bytes@.len() == 73,
            forall|q: int| 8 <= q < p ==> bytes@[q] == 0,
        decreases 32 - p,
    {
        if bytes[p] != 0 {
            proof {
                assert forall|l: Listing| bytes@ != record_bytes(l) by {
                    lemma_record_field_values(l);
                }
            }
            return None;
        }
        p = p + 1;
    }
    let mut p2: usize = 40;
    while p2 < 64
        invariant
            40 <= p2 <= 64,
            bytes@.len() == 73,
            forall|q: int| 8 <= q < 32 ==> bytes@[q] == 0,
            forall|q: int| 40 <= q < p2 ==> bytes@[q] == 0,
        decreases 64 - p2,
    {
        if bytes[p2] != 0 {
            proof {
                assert forall|l: Listing| bytes@ != record_bytes(l) by {
                    lemma_record_field_values(l);
                }
            }
            return None;
        }
        p2 = p2 + 1;
    }
    let seller = read_u64_le(bytes, 0);
    let asset = read_u64_le(bytes, 32);
    let price = read_u64_le(bytes, 64);
    let nonce = bytes[72];
    let l = Listing { seller, asset, price, nonce };
    proof {
        lemma_record_field_values(l);
        lemma_from_le_bytes_round_trip(bytes@.subrange(0, 8));
        lemma_from_le_bytes_round_trip(bytes@.subrange(32, 40));
        lemma_from_le_bytes_round_trip(bytes@.subrange(64, 72));
        assert(bytes@ =~= record_bytes(l));
    }
    Some(l)
}

} // verus!
