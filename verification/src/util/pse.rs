//! The native layout: the degree, the monomial points, the Lagrange points
//! and the two G2 points, in the curve library's compressed encoding or,
//! in the raw variant, in its uncompressed internal layout.

use vstd::prelude::*;
use vstd::arithmetic::power2::pow2;
use crate::curve::{all_g1_valid, all_g2_valid, g1_reprs, g2_reprs, G1Point, G2Point};
use crate::stream::{spec_u32_from_le, ByteStream};
use crate::util::{
    g1_block_len, g1_block_size, g1_outcome, g2_block_size, g2_outcome, lemma_pow2_bounds,
    pow2_below_64, read_g1_points, read_g2_points, spec_read_g1_points, spec_read_g2_points,
    Codec,
    Decoder,
};
use crate::Error;

verus! {

/// Offset of the first monomial point.
pub const G1_OFFSET: u64 = 4;

/// The degree stored in the first four bytes.
pub open spec fn spec_k(data: Seq<u8>) -> Result<u32, Error> {
    if data.len() < 4 {
        Err(Error::Io)
    } else {
        Ok(spec_u32_from_le(data.subrange(0, 4)))
    }
}

/// The codec of the compressed or the raw variant.
pub open spec fn spec_codec(raw: bool) -> Codec {
    if raw {
        Codec::Raw
    } else {
        Codec::Compressed
    }
}

/// The codec of the compressed or the raw variant.
pub fn codec(raw: bool) -> (c: Codec)
    ensures
        c == spec_codec(raw),
{
    if raw {
        Codec::Raw
    } else {
        Codec::Compressed
    }
}

/// Offset of the G2 generator in a file of degree `k`: behind the degree
/// and the two blocks of `2^k` G1 points.
pub open spec fn spec_g2_offset(k: u32, raw: bool) -> int {
    4 + g1_block_size(spec_codec(raw)) * 2 * pow2(k as nat)
}

/// What reading `n` G2 points from their offset yields.
pub open spec fn spec_read_g2s(data: Seq<u8>, n: int, raw: bool) -> Result<Seq<Seq<u8>>, Error> {
    match spec_k(data) {
        Err(e) => Err(e),
        Ok(k) => spec_read_g2_points(data, spec_g2_offset(k, raw), n, spec_codec(raw)),
    }
}

/// Reads the degree that the file stores.
pub fn read_k(reader: &mut ByteStream) -> (r: Result<u32, Error>)
    ensures
        final(reader).data == old(reader).data,
        r == spec_k(old(reader).data@),
        r is Ok ==> final(reader).pos == 4,
{
    reader.seek(0);
    reader.read_u32_le()
}

fn seek_g1_offset(reader: &mut ByteStream)
    ensures
        final(reader).data == old(reader).data,
        final(reader).pos == G1_OFFSET,
{
    reader.seek(G1_OFFSET);
}

/// Moves to the G2 generator; fails where the degree cannot be read or the
/// offset leaves the range of a stream position.
fn seek_g2_offset(reader: &mut ByteStream, raw: bool) -> (r: Result<(), Error>)
    ensures
        final(reader).data == old(reader).data,
        match r {
            Ok(_) => spec_k(old(reader).data@) matches Ok(k) && final(reader).pos
                == spec_g2_offset(k, raw),
            Err(e) => e == Error::Io && match spec_k(old(reader).data@) {
                Ok(k) => spec_g2_offset(k, raw) > u64::MAX,
                Err(_) => true,
            },
        },
{
    let k = match read_k(reader) {
        Ok(k) => k,
        Err(e) => {
            return Err(e);
        },
    };
    let size: u64 = g1_block_len(codec(raw)) as u64;
    proof {
        lemma_pow2_bounds(k);
        if k > 57 {
            assert(size * 2 * pow2(k as nat) > u64::MAX) by (nonlinear_arith)
                requires
                    size >= 32,
                    pow2(k as nat) >= 0x400000000000000,
            ;
        }
    }
    if k > 57 {
        return Err(Error::Io);
    }
    let offset = match (size * 2).checked_mul(pow2_below_64(k)) {
        Some(span) => span.checked_add(4),
        None => None,
    };
    match offset {
        Some(offset) => {
            reader.seek(offset);
            Ok(())
        },
        None => Err(Error::Io),
    }
}

/// Reads `n` G1 points, compressed or with `RAW` uncompressed: from their
/// offset, or with `IN_PLACE` from the current position.
pub fn read_g1s<const RAW: bool, const IN_PLACE: bool>(reader: &mut ByteStream, n: usize) -> (r: Result<
    Vec<G1Point>,
    Error,
>)
    ensures
        final(reader).data == old(reader).data,
        ({
            let start = if IN_PLACE {
                old(reader).pos as int
            } else {
                G1_OFFSET as int
            };
            let want = spec_read_g1_points(old(reader).data@, start, n as int, spec_codec(RAW));
            &&& g1_outcome(r) == want
            &&& r matches Ok(v) ==> v@.len() == n && all_g1_valid(g1_reprs(v@)) && final(reader).pos == start + n * g1_block_size(spec_codec(RAW))
        }),
{
    if !IN_PLACE {
        seek_g1_offset(reader);
    }
    read_g1_points(reader, n, &Decoder::new(codec(RAW)))
}

/// Reads `n` G2 points, compressed or with `RAW` uncompressed: from their
/// offset, which the stored degree fixes, or with `IN_PLACE` from the
/// current position.
pub fn read_g2s<const RAW: bool, const IN_PLACE: bool>(reader: &mut ByteStream, n: usize) -> (r: Result<
    Vec<G2Point>,
    Error,
>)
    ensures
        final(reader).data == old(reader).data,
        ({
            let want = if IN_PLACE {
                spec_read_g2_points(
                    old(reader).data@,
                    old(reader).pos as int,
                    n as int,
                    spec_codec(RAW),
                )
            } else {
                spec_read_g2s(old(reader).data@, n as int, RAW)
            };
            &&& g2_outcome(r) == want
            &&& r matches Ok(v) ==> v@.len() == n && all_g2_valid(g2_reprs(v@)) && final(reader).pos
                == (if IN_PLACE {
                old(reader).pos as int
            } else {
                spec_g2_offset(spec_k(old(reader).data@)->Ok_0, RAW)
            }) + n * g2_block_size(spec_codec(RAW))
        }),
{
    proof {
        reader.lemma_len_fits();
    }
    if !IN_PLACE {
        match seek_g2_offset(reader, RAW) {
            Ok(_) => {},
            Err(e) => {
                return Err(e);
            },
        }
    }
    read_g2_points(reader, n, &Decoder::new(codec(RAW)))
}

} // verus!
