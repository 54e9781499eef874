//! The perpetual-ceremony layout: compressed points in reversed byte order,
//! each with an explicit sign flag in the top bit of its final byte.

use vstd::prelude::*;
use vstd::arithmetic::power2::pow2;
use crate::curve::{
    all_g1_valid, all_g2_valid, g1_decode, g1_from_bytes, g1_neg, g1_neg_repr, g1_reprs,
    g1_y_less, g1_y_lt, g2_decode, g2_decode_bytes, g2_neg, g2_neg_repr, g2_reprs, g2_y_less,
    g2_y_lt, G1Point, G2Point, G1_SIZE, G2_SIZE,
};
use crate::stream::ByteStream;
use crate::util::{
    lemma_pow2_bounds, pow2_below_64, read_g1_points, read_g2_points, spec_read_g1_points,
    spec_read_g2_points, g1_outcome, g2_outcome, Codec, Decoder,
};
use crate::Error;

verus! {

/// Offset of the first monomial point.
pub const G1_OFFSET: u64 = 64;

/// Offset of the G2 generator in a ceremony file of degree `k`.
pub open spec fn spec_g2_offset(k: u32) -> int {
    G1_OFFSET + G1_SIZE * (2 * pow2(k as nat) - 1)
}

/// The sign flag of a stored block, read before its bytes are put in native
/// order: the top bit of its final byte.
pub open spec fn sign_flag(raw: Seq<u8>) -> bool {
    raw.len() > 0 && raw.last() >= 0x80
}

/// Whether the decompressed candidate is kept rather than its negation:
/// exactly one of "its y orders below that of its negation" and "the sign
/// flag is set" holds.
pub open spec fn keeps_candidate(y_below_negated: bool, flag: bool) -> bool {
    y_below_negated != flag
}

/// The G1 point that a stored block stands for.
pub open spec fn spec_decode_g1(raw: Seq<u8>) -> Option<Seq<u8>> {
    let native = raw.reverse();
    match g1_decode(native) {
        None => None,
        Some(candidate) => match g1_y_less(candidate, g1_neg_repr(candidate)) {
            None => None,
            Some(below) => Some(
                if keeps_candidate(below, sign_flag(raw)) {
                    candidate
                } else {
                    g1_neg_repr(candidate)
                },
            ),
        },
    }
}

/// The G2 point that a stored block stands for.
pub open spec fn spec_decode_g2(raw: Seq<u8>) -> Option<Seq<u8>> {
    let native = raw.reverse();
    match g2_decode(native) {
        None => None,
        Some(candidate) => match g2_y_less(candidate, g2_neg_repr(candidate)) {
            None => None,
            Some(below) => Some(
                if keeps_candidate(below, sign_flag(raw)) {
                    candidate
                } else {
                    g2_neg_repr(candidate)
                },
            ),
        },
    }
}

/// The bytes of a block in the opposite order.
pub fn reversed(raw: &[u8]) -> (r: Vec<u8>)
    ensures
        r@ == raw@.reverse(),
{
    let n = raw.len();
    let mut out: Vec<u8> = Vec::new();
    let mut i: usize = 0;
    while i < n
        invariant
            i <= n,
            n == raw@.len(),
            out@.len() == i,
            forall|j: int| 0 <= j < i ==> out@[j] == raw@[n - 1 - j],
        decreases n - i,
    {
        out.push(raw[n - 1 - i]);
        i = i + 1;
    }
    assert(out@ =~= raw@.reverse());
    out
}

/// Resolves the sign of a decompressed candidate.
pub fn select_sign(y_below_negated: bool, flag: bool) -> (keep: bool)
    ensures
        keep == keeps_candidate(y_below_negated, flag),
{
    y_below_negated ^ flag
}

/// Decodes one stored G1 block: reverses it, decompresses a candidate and
/// keeps the candidate or its negation as the sign flag asks.
pub fn decode_g1(raw: &[u8]) -> (r: Option<G1Point>)
    requires
        raw@.len() == G1_SIZE,
    ensures
        r is Some <==> spec_decode_g1(raw@) is Some,
        r matches Some(p) ==> p.wf() && spec_decode_g1(raw@) == Some(p@),
{
    let flag = raw[raw.len() - 1] >= 0x80;
    let native = reversed(raw);
    let candidate = match g1_from_bytes(native.as_slice()) {
        Some(c) => c,
        None => {
            return None;
        },
    };
    let negated = g1_neg(&candidate);
    match g1_y_lt(&candidate, &negated) {
        None => None,
        Some(below) => if select_sign(below, flag) {
            Some(candidate)
        } else {
            Some(negated)
        },
    }
}

/// Decodes one stored G2 block; as for G1.
pub fn decode_g2(raw: &[u8]) -> (r: Option<G2Point>)
    requires
        raw@.len() == G2_SIZE,
    ensures
        r is Some <==> spec_decode_g2(raw@) is Some,
        r matches Some(p) ==> p.wf() && spec_decode_g2(raw@) == Some(p@),
{
    let flag = raw[raw.len() - 1] >= 0x80;
    let native = reversed(raw);
    let candidate = match g2_decode_bytes(native.as_slice()) {
        Some(c) => c,
        None => {
            return None;
        },
    };
    let negated = g2_neg(&candidate);
    match g2_y_lt(&candidate, &negated) {
        None => None,
        Some(below) => if select_sign(below, flag) {
            Some(candidate)
        } else {
            Some(negated)
        },
    }
}

fn seek_g1_offset(reader: &mut ByteStream)
    ensures
        final(reader).data == old(reader).data,
        final(reader).pos == G1_OFFSET,
{
    reader.seek(G1_OFFSET);
}

/// Offset of the G2 generator in a ceremony file of degree `k`.
pub fn g2_offset(k: u32) -> (r: u64)
    requires
        k <= 57,
    ensures
        r == spec_g2_offset(k),
{
    proof {
        lemma_pow2_bounds(k);
        vstd::arithmetic::power2::lemma_pow2_pos(k as nat);
    }
    let n = pow2_below_64(k);
    G1_OFFSET + (G1_SIZE as u64) * (2 * n - 1)
}

/// Moves to the G2 generator; fails where the offset leaves the range of a
/// stream position.
fn seek_g2_offset(reader: &mut ByteStream, k: u32) -> (r: Result<(), Error>)
    ensures
        final(reader).data == old(reader).data,
        match r {
            Ok(_) => final(reader).pos == spec_g2_offset(k),
            Err(e) => e == Error::Io && spec_g2_offset(k) > u64::MAX,
        },
{
    proof {
        lemma_pow2_bounds(k);
    }
    if k > 57 {
        return Err(Error::Io);
    }
    let offset = g2_offset(k);
    reader.seek(offset);
    Ok(())
}

/// Reads `n` G1 points: from their offset, or with `IN_PLACE` from the
/// current position.
pub fn read_g1s<const IN_PLACE: bool>(reader: &mut ByteStream, n: usize) -> (r: Result<
    Vec<G1Point>,
    Error,
>)
    ensures
        final(reader).data == old(reader).data,
        ({
            let start = if IN_PLACE {
                old(reader).pos as int
            } else {
                G1_OFFSET as int
            };
            let want = spec_read_g1_points(
                old(reader).data@,
                start,
                n as int,
                Codec::ReversedWithSign,
            );
            &&& g1_outcome(r) == want
            &&& r matches Ok(v) ==> v@.len() == n && all_g1_valid(g1_reprs(v@))
                    && final(reader).pos == start + n * G1_SIZE
        }),
{
    if !IN_PLACE {
        seek_g1_offset(reader);
    }
    read_g1_points(reader, n, &Decoder::new(Codec::ReversedWithSign))
}

/// Reads `n` G2 points: from their offset in a ceremony file of degree `k`,
/// or with `IN_PLACE` from the current position.
pub fn read_g2s<const IN_PLACE: bool>(reader: &mut ByteStream, k: u32, n: usize) -> (r: Result<
    Vec<G2Point>,
    Error,
>)
    ensures
        final(reader).data == old(reader).data,
        ({
            let start = if IN_PLACE {
                old(reader).pos as int
            } else {
                spec_g2_offset(k)
            };
            let want = spec_read_g2_points(
                old(reader).data@,
                start,
                n as int,
                Codec::ReversedWithSign,
            );
            &&& g2_outcome(r) == want
            &&& r matches Ok(v) ==> v@.len() == n && all_g2_valid(g2_reprs(v@)) && final(reader).pos == start + n * G2_SIZE
        }),
{
    proof {
        reader.lemma_len_fits();
    }
    if !IN_PLACE {
        match seek_g2_offset(reader, k) {
            Ok(_) => {},
            Err(e) => {
                return Err(e);
            },
        }
    }
    read_g2_points(reader, n, &Decoder::new(Codec::ReversedWithSign))
}

} // verus!
