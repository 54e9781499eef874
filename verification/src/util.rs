//! Sizes, offsets and block decoding shared by the file layouts.

use vstd::prelude::*;
use vstd::arithmetic::power2::{
    lemma2_to64, lemma2_to64_rest, lemma_pow2_strictly_increases, lemma_pow2_unfold, pow2,
};
use vstd::slice::slice_subrange;
use crate::curve::{
    all_g1_valid, all_g2_valid, fq_decode, fq_invert, fq_invert_repr, fq_neg, fq_neg_repr,
    fq_one, fq_one_repr, g1_decode, g1_from_bytes, g1_from_raw, g1_from_raw_repr, g1_reprs,
    g2_decode, g2_decode_bytes, g2_from_raw, g2_from_raw_repr, g2_reprs, Fq, G1Point, G2Point,
    FIELD_SIZE, G1_RAW_SIZE, G1_SIZE, G2_RAW_SIZE, G2_SIZE,
};
use crate::stream::ByteStream;
use crate::Error;

pub mod perpetual_powers_of_tau;
pub mod pse;
pub mod snarkjs;

verus! {

/// The two source groups of the pairing.
#[derive(Clone, Copy, Debug, PartialEq, Eq, Structural)]
pub enum Group {
    G1,
    G2,
}

/// How a block of stored bytes becomes a point.
#[derive(Clone, Copy, Debug, PartialEq, Eq, Structural)]
pub enum Codec {
    /// The curve library's own compressed encoding.
    Compressed,
    /// Byte-reversed compressed encoding with an explicit sign flag.
    ReversedWithSign,
    /// The curve library's uncompressed internal layout.
    Raw,
    /// Affine coordinates as Montgomery residues.
    Montgomery,
}

/// A codec together with the constant that its decoding needs: for
/// Montgomery residues the inverse of the radix, where it exists.
pub struct Decoder {
    pub codec: Codec,
    pub r_inv: Option<Fq>,
}

/// The encoding of an optional field element.
pub open spec fn fq_outcome(x: Option<Fq>) -> Option<Seq<u8>> {
    match x {
        Some(x) => Some(x@),
        None => None,
    }
}

impl Decoder {
    /// The constant held is a valid field element, and for Montgomery
    /// residues it is the inverse of the radix.
    pub open spec fn wf(&self) -> bool {
        &&& self.r_inv matches Some(x) ==> x.wf()
        &&& self.codec == Codec::Montgomery ==> fq_outcome(self.r_inv) == spec_mont_r_inv()
    }

    /// The decoder of a codec; computes the inverse of the Montgomery radix
    /// where the codec needs it.
    pub fn new(codec: Codec) -> (d: Decoder)
        ensures
            d.wf(),
            d.codec == codec,
    {
        match codec {
            Codec::Montgomery => Decoder { codec, r_inv: mont_r_inv() },
            _ => Decoder { codec, r_inv: None },
        }
    }
}

/// The number that little-endian bytes hold.
pub open spec fn le_nat(bytes: Seq<u8>) -> nat
    decreases bytes.len(),
{
    if bytes.len() == 0 {
        0
    } else {
        bytes[0] as nat + 256 * le_nat(bytes.drop_first())
    }
}

/// The shortest little-endian bytes that hold a number; one zero byte for zero.
pub open spec fn nat_to_le(n: nat) -> Seq<u8>
    decreases n,
{
    if n < 256 {
        seq![n as u8]
    } else {
        seq![(n % 256) as u8] + nat_to_le(n / 256)
    }
}

/// Bytes made from a number hold that number.
pub proof fn lemma_le_round_trip(n: nat)
    ensures
        le_nat(nat_to_le(n)) == n,
    decreases n,
{
    if n < 256 {
        let s = seq![n as u8];
        assert(s.drop_first() =~= Seq::<u8>::empty());
        assert(le_nat(s.drop_first()) == 0);
    } else {
        let s = seq![(n % 256) as u8] + nat_to_le(n / 256);
        assert(s.drop_first() =~= nat_to_le(n / 256));
        lemma_le_round_trip(n / 256);
    }
}

/// The modulus of the base field: one more than the number that the
/// encoding of minus one holds.
pub open spec fn spec_modulus() -> nat {
    le_nat(fq_neg_repr(fq_one_repr())) + 1
}

/// The Montgomery radix `2^(8 * 32)` reduced by the modulus, as a field
/// element, where its shortest encoding fills the 32 bytes.
pub open spec fn spec_mont_r() -> Option<Seq<u8>> {
    let bytes = nat_to_le(pow2(8 * FIELD_SIZE as nat) % spec_modulus());
    if bytes.len() == FIELD_SIZE {
        fq_decode(bytes)
    } else {
        None
    }
}

/// The inverse of the Montgomery radix in the base field.
pub open spec fn spec_mont_r_inv() -> Option<Seq<u8>> {
    match spec_mont_r() {
        Some(r) => fq_invert_repr(r),
        None => None,
    }
}

/// `BigUint::from_bytes_le`, the addition of one, and `to_bytes_le`.
/// Trusted: the result is the shortest encoding of the successor.
#[verifier::external_body]
pub(crate) fn biguint_succ(a: &[u8]) -> (r: Vec<u8>)
    ensures
        r@ == nat_to_le(le_nat(a@) + 1),
{
    (num_bigint::BigUint::from_bytes_le(a) + 1u64).to_bytes_le()
}

/// The left shift of the `BigUint` one, and `to_bytes_le`, for a shift that
/// memory can hold. Trusted: the result is the shortest encoding of
/// `2^bits`.
#[verifier::external_body]
pub(crate) fn biguint_pow2(bits: usize) -> (r: Vec<u8>)
    requires
        bits <= 0xffff,
    ensures
        r@ == nat_to_le(pow2(bits as nat)),
{
    (num_bigint::BigUint::from(1u64) << bits).to_bytes_le()
}

/// The remainder of two `BigUint` made with `from_bytes_le`, and
/// `to_bytes_le`. Trusted: the result is the shortest encoding of the
/// remainder; the divisor must not be zero.
#[verifier::external_body]
pub(crate) fn biguint_rem(a: &[u8], m: &[u8]) -> (r: Vec<u8>)
    requires
        le_nat(m@) > 0,
    ensures
        r@ == nat_to_le(le_nat(a@) % le_nat(m@)),
{
    (num_bigint::BigUint::from_bytes_le(a) % num_bigint::BigUint::from_bytes_le(m)).to_bytes_le()
}

/// The modulus of the base field, in little-endian bytes.
pub fn modulus() -> (r: Vec<u8>)
    ensures
        r@ == nat_to_le(spec_modulus()),
        le_nat(r@) == spec_modulus(),
{
    let minus_one = fq_neg(&fq_one());
    proof {
        lemma_le_round_trip(spec_modulus());
    }
    biguint_succ(minus_one.repr.as_slice())
}

/// The Montgomery radix as a field element.
pub fn mont_r() -> (r: Option<Fq>)
    ensures
        fq_outcome(r) == spec_mont_r(),
        r matches Some(x) ==> x.wf(),
{
    let radix = biguint_pow2(8 * field_repr_size());
    let m = modulus();
    proof {
        lemma_le_round_trip(pow2(8 * FIELD_SIZE as nat));
    }
    let reduced = biguint_rem(radix.as_slice(), m.as_slice());
    Fq::from_bytes(reduced.as_slice())
}

/// The inverse of the Montgomery radix as a field element.
pub fn mont_r_inv() -> (r: Option<Fq>)
    ensures
        fq_outcome(r) == spec_mont_r_inv(),
        r matches Some(x) ==> x.wf(),
{
    match mont_r() {
        Some(r) => fq_invert(&r),
        None => None,
    }
}

/// Length in bytes of the encoding of a base-field element of G1.
pub fn field_repr_size() -> (r: usize)
    ensures
        r == FIELD_SIZE,
{
    FIELD_SIZE
}

/// Length in bytes of the compressed encoding of a point of `group`.
pub fn ec_point_repr_size(group: Group) -> (r: usize)
    ensures
        r == spec_point_size(group),
{
    match group {
        Group::G1 => G1_SIZE,
        Group::G2 => G2_SIZE,
    }
}

/// Length in bytes of the compressed encoding of a point of `group`.
pub open spec fn spec_point_size(group: Group) -> usize {
    match group {
        Group::G1 => G1_SIZE,
        Group::G2 => G2_SIZE,
    }
}

/// `2^k` for a `k` below 64.
pub fn pow2_below_64(k: u32) -> (n: u64)
    requires
        k < 64,
    ensures
        n == pow2(k as nat),
{
    let mut n: u64 = 1;
    let mut i: u32 = 0;
    proof {
        lemma2_to64();
    }
    while i < k
        invariant
            i <= k < 64,
            n == pow2(i as nat),
        decreases k - i,
    {
        proof {
            lemma2_to64_rest();
            if i < 63 {
                lemma_pow2_strictly_increases(i as nat, 63);
            }
            lemma_pow2_unfold((i + 1) as nat);
        }
        n = n * 2;
        i = i + 1;
    }
    n
}

/// Bounds on `2^k` on either side of the largest degree whose offsets fit
/// in 64 bits.
pub proof fn lemma_pow2_bounds(k: u32)
    ensures
        k <= 57 ==> pow2(k as nat) <= 0x200000000000000,
        k > 57 ==> pow2(k as nat) >= 0x400000000000000,
{
    lemma2_to64_rest();
    if k < 57 {
        lemma_pow2_strictly_increases(k as nat, 57);
    }
    if k > 58 {
        lemma_pow2_strictly_increases(58, k as nat);
    }
}

/// The encodings that a read of G1 points gave, or its error.
pub open spec fn g1_outcome(r: Result<Vec<G1Point>, Error>) -> Result<Seq<Seq<u8>>, Error> {
    match r {
        Ok(v) => Ok(g1_reprs(v@)),
        Err(e) => Err(e),
    }
}

/// The encodings that a read of G2 points gave, or its error.
pub open spec fn g2_outcome(r: Result<Vec<G2Point>, Error>) -> Result<Seq<Seq<u8>>, Error> {
    match r {
        Ok(v) => Ok(g2_reprs(v@)),
        Err(e) => Err(e),
    }
}

/// Length in bytes of a stored G1 point.
pub open spec fn g1_block_size(codec: Codec) -> usize {
    match codec {
        Codec::Compressed => G1_SIZE,
        Codec::ReversedWithSign => G1_SIZE,
        Codec::Raw => G1_RAW_SIZE,
        Codec::Montgomery => G1_RAW_SIZE,
    }
}

/// Length in bytes of a stored G2 point.
pub open spec fn g2_block_size(codec: Codec) -> usize {
    match codec {
        Codec::Compressed => G2_SIZE,
        Codec::ReversedWithSign => G2_SIZE,
        Codec::Raw => G2_RAW_SIZE,
        Codec::Montgomery => G2_RAW_SIZE,
    }
}

/// Length in bytes of a stored G1 point.
pub fn g1_block_len(codec: Codec) -> (r: usize)
    ensures
        r == g1_block_size(codec),
{
    match codec {
        Codec::Compressed => G1_SIZE,
        Codec::ReversedWithSign => G1_SIZE,
        Codec::Raw => G1_RAW_SIZE,
        Codec::Montgomery => G1_RAW_SIZE,
    }
}

/// Length in bytes of a stored G2 point.
pub fn g2_block_len(codec: Codec) -> (r: usize)
    ensures
        r == g2_block_size(codec),
{
    match codec {
        Codec::Compressed => G2_SIZE,
        Codec::ReversedWithSign => G2_SIZE,
        Codec::Raw => G2_RAW_SIZE,
        Codec::Montgomery => G2_RAW_SIZE,
    }
}

/// The `i`-th block of `size` bytes counted from offset `start`.
pub open spec fn block(data: Seq<u8>, start: int, size: int, i: int) -> Seq<u8> {
    data.subrange(start + i * size, start + (i + 1) * size)
}

/// The encoded G1 point that a stored block stands for, if any.
pub open spec fn decode_g1_block(codec: Codec, raw: Seq<u8>) -> Option<Seq<u8>> {
    match codec {
        Codec::Compressed => g1_decode(raw),
        Codec::ReversedWithSign => perpetual_powers_of_tau::spec_decode_g1(raw),
        Codec::Raw => g1_from_raw_repr(raw),
        Codec::Montgomery => snarkjs::spec_decode_g1(raw),
    }
}

/// The encoded G2 point that a stored block stands for, if any.
pub open spec fn decode_g2_block(codec: Codec, raw: Seq<u8>) -> Option<Seq<u8>> {
    match codec {
        Codec::Compressed => g2_decode(raw),
        Codec::ReversedWithSign => perpetual_powers_of_tau::spec_decode_g2(raw),
        Codec::Raw => g2_from_raw_repr(raw),
        Codec::Montgomery => snarkjs::spec_decode_g2(raw),
    }
}

/// What reading `n` G1 points at offset `start` yields: an I/O error where
/// the data ends before the last block, `MalformedPoint` where some block
/// does not decode, and otherwise the decoded points in order.
pub open spec fn spec_read_g1_points(data: Seq<u8>, start: int, n: int, codec: Codec) -> Result<
    Seq<Seq<u8>>,
    Error,
> {
    if start + n * g1_block_size(codec) > data.len() {
        Err(Error::Io)
    } else if exists|i: int|
        0 <= i < n && (#[trigger] decode_g1_block(codec, block(data, start, g1_block_size(codec) as int, i)))
            is None {
        Err(Error::MalformedPoint)
    } else {
        Ok(
            Seq::new(
                n as nat,
                |i: int| decode_g1_block(codec, block(data, start, g1_block_size(codec) as int, i)).unwrap(),
            ),
        )
    }
}

/// What reading `n` G2 points at offset `start` yields; as for G1.
pub open spec fn spec_read_g2_points(data: Seq<u8>, start: int, n: int, codec: Codec) -> Result<
    Seq<Seq<u8>>,
    Error,
> {
    if start + n * g2_block_size(codec) > data.len() {
        Err(Error::Io)
    } else if exists|i: int|
        0 <= i < n && (#[trigger] decode_g2_block(codec, block(data, start, g2_block_size(codec) as int, i)))
            is None {
        Err(Error::MalformedPoint)
    } else {
        Ok(
            Seq::new(
                n as nat,
                |i: int| decode_g2_block(codec, block(data, start, g2_block_size(codec) as int, i)).unwrap(),
            ),
        )
    }
}

/// Decodes one stored block into a G1 point.
pub fn read_g1_block(decoder: &Decoder, raw: &[u8]) -> (r: Option<G1Point>)
    requires
        decoder.wf(),
        raw@.len() == g1_block_size(decoder.codec),
    ensures
        r is Some <==> decode_g1_block(decoder.codec, raw@) is Some,
        r matches Some(p) ==> p.wf() && decode_g1_block(decoder.codec, raw@) == Some(p@),
{
    match decoder.codec {
        Codec::Compressed => g1_from_bytes(raw),
        Codec::ReversedWithSign => perpetual_powers_of_tau::decode_g1(raw),
        Codec::Raw => g1_from_raw(raw),
        Codec::Montgomery => snarkjs::decode_g1(raw, &decoder.r_inv),
    }
}

/// Decodes one stored block into a G2 point.
pub fn read_g2_block(decoder: &Decoder, raw: &[u8]) -> (r: Option<G2Point>)
    requires
        decoder.wf(),
        raw@.len() == g2_block_size(decoder.codec),
    ensures
        r is Some <==> decode_g2_block(decoder.codec, raw@) is Some,
        r matches Some(p) ==> p.wf() && decode_g2_block(decoder.codec, raw@) == Some(p@),
{
    match decoder.codec {
        Codec::Compressed => g2_decode_bytes(raw),
        Codec::ReversedWithSign => perpetual_powers_of_tau::decode_g2(raw),
        Codec::Raw => g2_from_raw(raw),
        Codec::Montgomery => snarkjs::decode_g2(raw, &decoder.r_inv),
    }
}

/// Reads `n` G1 points at the current position of the stream.
pub fn read_g1_points(reader: &mut ByteStream, n: usize, decoder: &Decoder) -> (r: Result<
    Vec<G1Point>,
    Error,
>)
    requires
        decoder.wf(),
    ensures
        final(reader).data == old(reader).data,
        g1_outcome(r) == spec_read_g1_points(
            old(reader).data@,
            old(reader).pos as int,
            n as int,
            decoder.codec,
        ),
        r matches Ok(v) ==> v@.len() == n && all_g1_valid(g1_reprs(v@)) && final(reader).pos
            == old(reader).pos + n * g1_block_size(decoder.codec),
{
    let ghost data = reader.data@;
    let ghost start = reader.pos as int;
    let codec = decoder.codec;
    let size: usize = g1_block_len(codec);
    let buf = match reader.read_blocks(n, size) {
        Ok(buf) => buf,
        Err(e) => {
            return Err(e);
        },
    };
    let mut out: Vec<G1Point> = Vec::new();
    let mut i: usize = 0;
    while i < n
        invariant
            i <= n,
            reader.data == old(reader).data,
            data == old(reader).data@,
            start == old(reader).pos,
            decoder.wf(),
            codec == decoder.codec,
            size == g1_block_size(codec),
            buf.len() == n * size,
            buf@ == data.subrange(start, start + n * size),
            start + n * size <= data.len(),
            0 <= start,
            out@.len() == i,
            forall|j: int| 0 <= j < i ==> (#[trigger] out@[j]).wf(),
            forall|j: int|
                0 <= j < i ==> (#[trigger] decode_g1_block(
                    codec,
                    block(data, start, g1_block_size(codec) as int, j),
                )) == Some(out@[j]@),
        decreases n - i,
    {
        assert(i * size + size == (i + 1) * size && (i + 1) * size <= n * size) by (nonlinear_arith)
            requires
                i + 1 <= n,
        ;
        let raw = slice_subrange(buf.as_slice(), i * size, i * size + size);
        assert(raw@ =~= block(data, start, g1_block_size(codec) as int, i as int));
        match read_g1_block(decoder, raw) {
            Some(p) => {
                out.push(p);
            },
            None => {
                assert(decode_g1_block(codec, block(data, start, g1_block_size(codec) as int, i as int))
                    is None);
                return Err(Error::MalformedPoint);
            },
        }
        i = i + 1;
    }
    proof {
        let want = Seq::new(
            n as nat,
            |i: int| decode_g1_block(codec, block(data, start, g1_block_size(codec) as int, i)).unwrap(),
        );
        assert(g1_reprs(out@) =~= want);
    }
    Ok(out)
}

/// Reads `n` G2 points at the current position of the stream.
pub fn read_g2_points(reader: &mut ByteStream, n: usize, decoder: &Decoder) -> (r: Result<
    Vec<G2Point>,
    Error,
>)
    requires
        decoder.wf(),
    ensures
        final(reader).data == old(reader).data,
        g2_outcome(r) == spec_read_g2_points(
            old(reader).data@,
            old(reader).pos as int,
            n as int,
            decoder.codec,
        ),
        r matches Ok(v) ==> v@.len() == n && all_g2_valid(g2_reprs(v@)) && final(reader).pos
            == old(reader).pos + n * g2_block_size(decoder.codec),
{
    let ghost data = reader.data@;
    let ghost start = reader.pos as int;
    let codec = decoder.codec;
    let size: usize = g2_block_len(codec);
    let buf = match reader.read_blocks(n, size) {
        Ok(buf) => buf,
        Err(e) => {
            return Err(e);
        },
    };
    let mut out: Vec<G2Point> = Vec::new();
    let mut i: usize = 0;
    while i < n
        invariant
            i <= n,
            reader.data == old(reader).data,
            data == old(reader).data@,
            start == old(reader).pos,
            decoder.wf(),
            codec == decoder.codec,
            size == g2_block_size(codec),
            buf.len() == n * size,
            buf@ == data.subrange(start, start + n * size),
            start + n * size <= data.len(),
            0 <= start,
            out@.len() == i,
            forall|j: int| 0 <= j < i ==> (#[trigger] out@[j]).wf(),
            forall|j: int|
                0 <= j < i ==> (#[trigger] decode_g2_block(
                    codec,
                    block(data, start, g2_block_size(codec) as int, j),
                )) == Some(out@[j]@),
        decreases n - i,
    {
        assert(i * size + size == (i + 1) * size && (i + 1) * size <= n * size) by (nonlinear_arith)
            requires
                i + 1 <= n,
        ;
        let raw = slice_subrange(buf.as_slice(), i * size, i * size + size);
        assert(raw@ =~= block(data, start, g2_block_size(codec) as int, i as int));
        match read_g2_block(decoder, raw) {
            Some(p) => {
                out.push(p);
            },
            None => {
                assert(decode_g2_block(codec, block(data, start, g2_block_size(codec) as int, i as int))
                    is None);
                return Err(Error::MalformedPoint);
            },
        }
        i = i + 1;
    }
    proof {
        let want = Seq::new(
            n as nat,
            |i: int| decode_g2_block(codec, block(data, start, g2_block_size(codec) as int, i)).unwrap(),
        );
        assert(g2_reprs(out@) =~= want);
    }
    Ok(out)
}

} // verus!
