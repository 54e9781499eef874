//! The community ceremony layout: a header of stored length, then points as
//! affine coordinates in Montgomery form.

use vstd::prelude::*;
use vstd::arithmetic::power2::pow2;
use vstd::slice::slice_subrange;
use crate::curve::{
    all_g1_valid, all_g2_valid, fq_decode, fq_mul, fq_mul_repr, g1_from_xy, g1_from_xy_repr,
    g1_reprs, g2_from_xy, g2_from_xy_repr, g2_reprs, Fq, G1Point, G2Point, FIELD_SIZE,
    G1_RAW_SIZE, G2_RAW_SIZE,
};
use crate::stream::{spec_u32_from_le, spec_u64_from_le, ByteStream};
use crate::util::{
    fq_outcome, g1_outcome, g2_outcome, lemma_pow2_bounds, pow2_below_64, read_g1_points,
    read_g2_points, spec_mont_r_inv, spec_read_g1_points, spec_read_g2_points, Codec, Decoder,
};
use crate::Error;

verus! {

/// Offset of the stored header length.
pub const HEADER_SIZE_OFFSET: u64 = 16;

/// Offset of the header itself.
pub const HEADER_OFFSET: u64 = 24;

/// The header length stored at offset 16.
pub open spec fn spec_header_size(data: Seq<u8>) -> Result<u64, Error> {
    if data.len() < HEADER_OFFSET {
        Err(Error::Io)
    } else {
        Ok(spec_u64_from_le(data.subrange(HEADER_SIZE_OFFSET as int, HEADER_OFFSET as int)))
    }
}

/// The degree, stored eight bytes before the end of the header.
pub open spec fn spec_k(data: Seq<u8>) -> Result<u32, Error> {
    match spec_header_size(data) {
        Err(e) => Err(e),
        Ok(size) => {
            let at = HEADER_OFFSET + size - 8;
            if at + 4 > data.len() {
                Err(Error::Io)
            } else {
                Ok(spec_u32_from_le(data.subrange(at, at + 4)))
            }
        },
    }
}

/// Offset of the first monomial point behind a header of length `size`.
pub open spec fn spec_g1_offset(size: u64) -> int {
    HEADER_OFFSET + size + 12
}

/// Offset of the G2 generator behind a header of length `size`, in a file
/// of degree `k`.
pub open spec fn spec_g2_offset(size: u64, k: u32) -> int {
    spec_g1_offset(size) + 2 * FIELD_SIZE * (2 * pow2(k as nat) - 1) + 12
}

/// A stored residue times the inverse of the Montgomery radix.
pub open spec fn spec_recover(residue: Seq<u8>, r_inv: Seq<u8>) -> Option<Seq<u8>> {
    match fq_decode(residue) {
        Some(x) => Some(fq_mul_repr(x, r_inv)),
        None => None,
    }
}

/// The G1 point that a stored block of two residues stands for.
pub open spec fn spec_decode_g1(raw: Seq<u8>) -> Option<Seq<u8>> {
    match spec_mont_r_inv() {
        None => None,
        Some(r_inv) => match (
            spec_recover(raw.subrange(0, 32), r_inv),
            spec_recover(raw.subrange(32, 64), r_inv),
        ) {
            (Some(x), Some(y)) => g1_from_xy_repr(x, y),
            _ => None,
        },
    }
}

/// The G2 point that a stored block of four residues stands for.
pub open spec fn spec_decode_g2(raw: Seq<u8>) -> Option<Seq<u8>> {
    match spec_mont_r_inv() {
        None => None,
        Some(r_inv) => match (
            spec_recover(raw.subrange(0, 32), r_inv),
            spec_recover(raw.subrange(32, 64), r_inv),
            spec_recover(raw.subrange(64, 96), r_inv),
            spec_recover(raw.subrange(96, 128), r_inv),
        ) {
            (Some(x0), Some(x1), Some(y0), Some(y1)) => g2_from_xy_repr(x0, x1, y0, y1),
            _ => None,
        },
    }
}

/// What reading `n` G1 points from their offset yields.
pub open spec fn spec_read_g1s(data: Seq<u8>, n: int) -> Result<Seq<Seq<u8>>, Error> {
    match spec_header_size(data) {
        Err(e) => Err(e),
        Ok(size) => spec_read_g1_points(data, spec_g1_offset(size), n, Codec::Montgomery),
    }
}

/// What reading `n` G2 points from their offset yields.
pub open spec fn spec_read_g2s(data: Seq<u8>, n: int) -> Result<Seq<Seq<u8>>, Error> {
    match spec_k(data) {
        Err(e) => Err(e),
        Ok(k) => spec_read_g2_points(
            data,
            spec_g2_offset(spec_header_size(data)->Ok_0, k),
            n,
            Codec::Montgomery,
        ),
    }
}

/// Reads the length of the header.
pub fn read_header_size(reader: &mut ByteStream) -> (r: Result<u64, Error>)
    ensures
        final(reader).data == old(reader).data,
        r == spec_header_size(old(reader).data@),
        r is Ok ==> final(reader).pos == HEADER_OFFSET,
{
    proof {
        reader.lemma_len_fits();
    }
    reader.seek(HEADER_SIZE_OFFSET);
    reader.read_u64_le()
}

/// Reads the degree that the file stores.
pub fn read_k(reader: &mut ByteStream) -> (r: Result<u32, Error>)
    ensures
        final(reader).data == old(reader).data,
        r == spec_k(old(reader).data@),
        r is Ok ==> final(reader).pos == HEADER_OFFSET + spec_header_size(
            old(reader).data@,
        )->Ok_0 - 4,
{
    proof {
        reader.lemma_len_fits();
    }
    let size = match read_header_size(reader) {
        Ok(size) => size,
        Err(e) => {
            return Err(e);
        },
    };
    match size.checked_add(HEADER_OFFSET - 8) {
        None => Err(Error::Io),
        Some(at) => {
            reader.seek(at);
            reader.read_u32_le()
        },
    }
}

/// Offset of the first monomial point; fails where the header length cannot
/// be read or the offset leaves the range of a stream position.
pub fn read_g1_offset(reader: &mut ByteStream) -> (r: Result<u64, Error>)
    ensures
        final(reader).data == old(reader).data,
        r is Ok ==> final(reader).pos == HEADER_OFFSET,
        match r {
            Ok(at) => spec_header_size(old(reader).data@) matches Ok(size) && at
                == spec_g1_offset(size),
            Err(e) => e == Error::Io && match spec_header_size(old(reader).data@) {
                Ok(size) => spec_g1_offset(size) > u64::MAX,
                Err(_) => true,
            },
        },
{
    let size = match read_header_size(reader) {
        Ok(size) => size,
        Err(e) => {
            return Err(e);
        },
    };
    match size.checked_add(HEADER_OFFSET + 12) {
        None => Err(Error::Io),
        Some(at) => Ok(at),
    }
}

/// Offset of the G2 generator; fails where the header or the degree cannot
/// be read or the offset leaves the range of a stream position.
pub fn read_g2_offset(reader: &mut ByteStream) -> (r: Result<u64, Error>)
    ensures
        final(reader).data == old(reader).data,
        r is Ok ==> final(reader).pos == HEADER_OFFSET,
        match r {
            Ok(at) => spec_header_size(old(reader).data@) matches Ok(size) && spec_k(
                old(reader).data@,
            ) matches Ok(k) && at == spec_g2_offset(size, k),
            Err(e) => e == Error::Io && match spec_k(old(reader).data@) {
                Ok(k) => spec_g2_offset(spec_header_size(old(reader).data@)->Ok_0, k) > u64::MAX,
                Err(_) => true,
            },
        },
{
    let k = match read_k(reader) {
        Ok(k) => k,
        Err(e) => {
            return Err(e);
        },
    };
    proof {
        lemma_pow2_bounds(k);
        vstd::arithmetic::power2::lemma_pow2_pos(k as nat);
    }
    let g1_offset = match read_g1_offset(reader) {
        Ok(at) => at,
        Err(e) => {
            return Err(e);
        },
    };
    if k > 57 {
        return Err(Error::Io);
    }
    let n = pow2_below_64(k);
    let span: u64 = 2 * (FIELD_SIZE as u64) * (2 * n - 1) + 12;
    match g1_offset.checked_add(span) {
        None => Err(Error::Io),
        Some(at) => Ok(at),
    }
}

/// Recovers a field element from its Montgomery residue.
pub fn recover(residue: &[u8], r_inv: &Fq) -> (r: Option<Fq>)
    requires
        residue@.len() == FIELD_SIZE,
        r_inv.wf(),
    ensures
        fq_outcome(r) == spec_recover(residue@, r_inv@),
        r matches Some(x) ==> x.wf(),
{
    match Fq::from_bytes(residue) {
        Some(x) => Some(fq_mul(&x, r_inv)),
        None => None,
    }
}

/// Decodes one stored G1 block: two residues, each recovered and the pair
/// checked against the curve.
pub fn decode_g1(raw: &[u8], r_inv: &Option<Fq>) -> (r: Option<G1Point>)
    requires
        raw@.len() == G1_RAW_SIZE,
        fq_outcome(*r_inv) == spec_mont_r_inv(),
        r_inv matches Some(x) ==> x.wf(),
    ensures
        r is Some <==> spec_decode_g1(raw@) is Some,
        r matches Some(p) ==> p.wf() && spec_decode_g1(raw@) == Some(p@),
{
    let r_inv = match r_inv {
        Some(x) => x,
        None => {
            return None;
        },
    };
    let x = recover(slice_subrange(raw, 0, 32), r_inv);
    let y = recover(slice_subrange(raw, 32, 64), r_inv);
    match (x, y) {
        (Some(x), Some(y)) => g1_from_xy(&x, &y),
        _ => None,
    }
}

/// Decodes one stored G2 block: four residues, each recovered and the two
/// pairs checked against the curve.
pub fn decode_g2(raw: &[u8], r_inv: &Option<Fq>) -> (r: Option<G2Point>)
    requires
        raw@.len() == G2_RAW_SIZE,
        fq_outcome(*r_inv) == spec_mont_r_inv(),
        r_inv matches Some(x) ==> x.wf(),
    ensures
        r is Some <==> spec_decode_g2(raw@) is Some,
        r matches Some(p) ==> p.wf() && spec_decode_g2(raw@) == Some(p@),
{
    let r_inv = match r_inv {
        Some(x) => x,
        None => {
            return None;
        },
    };
    let x0 = recover(slice_subrange(raw, 0, 32), r_inv);
    let x1 = recover(slice_subrange(raw, 32, 64), r_inv);
    let y0 = recover(slice_subrange(raw, 64, 96), r_inv);
    let y1 = recover(slice_subrange(raw, 96, 128), r_inv);
    match (x0, x1, y0, y1) {
        (Some(x0), Some(x1), Some(y0), Some(y1)) => g2_from_xy(&x0, &x1, &y0, &y1),
        _ => None,
    }
}

/// Reads `n` G1 points: from their offset, or with `IN_PLACE` from the
/// current position.
pub fn read_g1s<const IN_PLACE: bool>(reader: &mut ByteStream, n: usize) -> (r: Result<
    Vec<G1Point>,
    Error,
>)
    ensures
        final(reader).data == old(reader).data,
        ({
            let want = if IN_PLACE {
                spec_read_g1_points(
                    old(reader).data@,
                    old(reader).pos as int,
                    n as int,
                    Codec::Montgomery,
                )
            } else {
                spec_read_g1s(old(reader).data@, n as int)
            };
            &&& g1_outcome(r) == want
            &&& r matches Ok(v) ==> v@.len() == n && all_g1_valid(g1_reprs(v@)) && final(reader).pos
                == (if IN_PLACE {
                old(reader).pos as int
            } else {
                spec_g1_offset(spec_header_size(old(reader).data@)->Ok_0)
            }) + n * G1_RAW_SIZE
        }),
{
    proof {
        reader.lemma_len_fits();
    }
    if !IN_PLACE {
        match read_g1_offset(reader) {
            Ok(at) => {
                reader.seek(at);
            },
            Err(e) => {
                return Err(e);
            },
        }
    }
    read_g1_points(reader, n, &Decoder::new(Codec::Montgomery))
}

/// Reads `n` G2 points: from their offset, or with `IN_PLACE` from the
/// current position.
pub fn read_g2s<const IN_PLACE: bool>(reader: &mut ByteStream, n: usize) -> (r: Result<
    Vec<G2Point>,
    Error,
>)
    ensures
        final(reader).data == old(reader).data,
        ({
            let want = if IN_PLACE {
                spec_read_g2_points(
                    old(reader).data@,
                    old(reader).pos as int,
                    n as int,
                    Codec::Montgomery,
                )
            } else {
                spec_read_g2s(old(reader).data@, n as int)
            };
            &&& g2_outcome(r) == want
            &&& r matches Ok(v) ==> v@.len() == n && all_g2_valid(g2_reprs(v@)) && final(reader).pos
                == (if IN_PLACE {
                old(reader).pos as int
            } else {
                spec_g2_offset(
                    spec_header_size(old(reader).data@)->Ok_0,
                    spec_k(old(reader).data@)->Ok_0,
                )
            }) + n * G2_RAW_SIZE
        }),
{
    proof {
        reader.lemma_len_fits();
    }
    if !IN_PLACE {
        match read_g2_offset(reader) {
            Ok(at) => {
                reader.seek(at);
            },
            Err(e) => {
                return Err(e);
            },
        }
    }
    read_g2_points(reader, n, &Decoder::new(Codec::Montgomery))
}

} // verus!
