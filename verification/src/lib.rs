//! Structured reference strings for KZG commitments over BN254: decoding of
//! three ceremony file layouts, validation, downsizing and re-encoding.

use vstd::prelude::*;
use vstd::arithmetic::power2::{lemma2_to64, lemma_pow2_strictly_increases, pow2};
use crate::arithmetic::{
    g_to_lagrange, same_ratio, same_ratio_with, spec_g_to_lagrange, spec_same_ratio,
};
use crate::curve::{
    all_fr_valid, all_g1_valid, g1_raw_repr, g1_reprs, g1_to_raw, g2_raw_repr, g2_to_raw,
    g2_reprs, g2_valid, scalar_reprs, G1Point, G2Point, Scalar, MAX_K,
};
use crate::stream::{spec_u32_to_le, u32_to_le, ByteStream};
use crate::util::perpetual_powers_of_tau;
use crate::util::pse;
use crate::util::snarkjs;
use crate::util::{
    g1_block_size, pow2_below_64, spec_read_g1_points, spec_read_g2_points, Codec,
};

pub mod arithmetic;
pub mod curve;
pub mod equality;
pub mod laws;
pub mod stream;
pub mod util;

verus! {

/// Why a decode was abandoned.
#[derive(Clone, Copy, Debug, PartialEq, Eq, Structural)]
pub enum Error {
    /// The stream ended before the bytes asked for, or an offset left its range.
    Io,
    /// The requested degree exceeds the degree stored in the file, or the
    /// largest degree for which the scalar field has a domain.
    DegreeTooLarge,
    /// Some bytes are not the encoding of a curve point or field element.
    MalformedPoint,
    /// The decoded points are not successive powers of one secret.
    ValidationFailure,
}

/// The file layouts that can be decoded.
#[derive(Clone, Copy, Debug, PartialEq, Eq, Structural)]
pub enum SrsFormat {
    /// The native layout with compressed points.
    Pse,
    /// The native layout with points in the uncompressed internal layout.
    PseRaw,
    /// The perpetual ceremony's layout, for a ceremony of the given degree.
    PerpetualPowerOfTau(u32),
    /// The community ceremony file.
    SnarkJs,
}

/// A structured reference string of degree `k`.
#[derive(Clone, Debug)]
pub struct Srs {
    pub k: u32,
    /// `g[i]` is the `i`-th power of the secret times the G1 generator.
    pub g: Vec<G1Point>,
    /// Commitments to the Lagrange basis of the domain of size `2^k`.
    pub g_lagrange: Vec<G1Point>,
    /// The G2 generator.
    pub g2: G2Point,
    /// The secret times the G2 generator.
    pub s_g2: G2Point,
}

/// An SRS as mathematical data: each point by its canonical encoding.
pub struct SrsView {
    pub k: u32,
    pub g: Seq<Seq<u8>>,
    pub g_lagrange: Seq<Seq<u8>>,
    pub g2: Seq<u8>,
    pub s_g2: Seq<u8>,
}

impl SrsView {
    /// Both bases hold `2^k` valid points, `k` has a domain, and the two G2
    /// points are valid.
    pub open spec fn wf(self) -> bool {
        &&& self.k <= MAX_K
        &&& self.g.len() == pow2(self.k as nat)
        &&& self.g_lagrange.len() == pow2(self.k as nat)
        &&& all_g1_valid(self.g)
        &&& all_g1_valid(self.g_lagrange)
        &&& g2_valid(self.g2)
        &&& g2_valid(self.s_g2)
    }
}

impl View for Srs {
    type V = SrsView;

    open spec fn view(&self) -> SrsView {
        SrsView {
            k: self.k,
            g: g1_reprs(self.g@),
            g_lagrange: g1_reprs(self.g_lagrange@),
            g2: self.g2@,
            s_g2: self.s_g2@,
        }
    }
}

/// The blocks of a sequence, one after another.
pub open spec fn concat(blocks: Seq<Seq<u8>>) -> Seq<u8>
    decreases blocks.len(),
{
    if blocks.len() == 0 {
        Seq::empty()
    } else {
        concat(blocks.drop_last()) + blocks.last()
    }
}

/// The canonical encoding: the degree in four little-endian bytes, the
/// monomial points, the Lagrange points, the G2 generator and the secret
/// times it.
pub open spec fn spec_encode(v: SrsView) -> Seq<u8> {
    spec_u32_to_le(v.k) + concat(v.g) + concat(v.g_lagrange) + v.g2 + v.s_g2
}

/// The raw encoding: as the canonical one, each point in the uncompressed
/// internal layout.
pub open spec fn spec_encode_raw(v: SrsView) -> Seq<u8> {
    spec_u32_to_le(v.k) + concat(v.g.map_values(|p: Seq<u8>| g1_raw_repr(p))) + concat(
        v.g_lagrange.map_values(|p: Seq<u8>| g1_raw_repr(p)),
    ) + g2_raw_repr(v.g2) + g2_raw_repr(v.s_g2)
}

/// The degree of the file: stored in it, or for the perpetual ceremony
/// given with the format.
pub open spec fn spec_file_degree(data: Seq<u8>, format: SrsFormat) -> Result<u32, Error> {
    match format {
        SrsFormat::Pse => pse::spec_k(data),
        SrsFormat::PseRaw => pse::spec_k(data),
        SrsFormat::PerpetualPowerOfTau(k) => Ok(k),
        SrsFormat::SnarkJs => snarkjs::spec_k(data),
    }
}

/// The first `n` monomial points of a file.
pub open spec fn spec_monomial(data: Seq<u8>, format: SrsFormat, n: int) -> Result<
    Seq<Seq<u8>>,
    Error,
> {
    match format {
        SrsFormat::Pse => spec_read_g1_points(data, pse::G1_OFFSET as int, n, Codec::Compressed),
        SrsFormat::PseRaw => spec_read_g1_points(data, pse::G1_OFFSET as int, n, Codec::Raw),
        SrsFormat::PerpetualPowerOfTau(_) => spec_read_g1_points(
            data,
            perpetual_powers_of_tau::G1_OFFSET as int,
            n,
            Codec::ReversedWithSign,
        ),
        SrsFormat::SnarkJs => snarkjs::spec_read_g1s(data, n),
    }
}

/// The Lagrange points for degree `k`: read behind the monomial points
/// where the native file has just that degree, computed otherwise.
pub open spec fn spec_lagrange(
    data: Seq<u8>,
    format: SrsFormat,
    file_k: u32,
    k: u32,
    g: Seq<Seq<u8>>,
) -> Result<Seq<Seq<u8>>, Error> {
    let n = pow2(k as nat) as int;
    match format {
        SrsFormat::Pse if file_k == k => spec_read_g1_points(
            data,
            pse::G1_OFFSET + n * g1_block_size(Codec::Compressed),
            n,
            Codec::Compressed,
        ),
        SrsFormat::PseRaw if file_k == k => spec_read_g1_points(
            data,
            pse::G1_OFFSET + n * g1_block_size(Codec::Raw),
            n,
            Codec::Raw,
        ),
        _ => Ok(spec_g_to_lagrange(g, k)),
    }
}

/// The G2 generator and the secret times it, as a file stores them.
pub open spec fn spec_g2_pair(data: Seq<u8>, format: SrsFormat) -> Result<Seq<Seq<u8>>, Error> {
    match format {
        SrsFormat::Pse => pse::spec_read_g2s(data, 2, false),
        SrsFormat::PseRaw => pse::spec_read_g2s(data, 2, true),
        SrsFormat::PerpetualPowerOfTau(k) => spec_read_g2_points(
            data,
            perpetual_powers_of_tau::spec_g2_offset(k),
            2,
            Codec::ReversedWithSign,
        ),
        SrsFormat::SnarkJs => snarkjs::spec_read_g2s(data, 2),
    }
}

/// What decoding a file at degree `desired_k` yields, before validation:
/// the first failure among reading the degree, the degree check, the
/// monomial points, the Lagrange points and the G2 points, or the SRS.
pub open spec fn spec_parse(data: Seq<u8>, format: SrsFormat, desired_k: u32) -> Result<
    SrsView,
    Error,
> {
    match spec_file_degree(data, format) {
        Err(e) => Err(e),
        Ok(file_k) => if desired_k > file_k || desired_k > MAX_K {
            Err(Error::DegreeTooLarge)
        } else {
            match spec_monomial(data, format, pow2(desired_k as nat) as int) {
                Err(e) => Err(e),
                Ok(g) => match spec_lagrange(data, format, file_k, desired_k, g) {
                    Err(e) => Err(e),
                    Ok(g_lagrange) => match spec_g2_pair(data, format) {
                        Err(e) => Err(e),
                        Ok(pair) => Ok(
                            SrsView { k: desired_k, g, g_lagrange, g2: pair[0], s_g2: pair[1] },
                        ),
                    },
                },
            }
        },
    }
}

/// What halving the domain down to degree `k` leaves: the first `2^k`
/// monomial points and the Lagrange points computed from them.
pub open spec fn spec_downsize(v: SrsView, k: u32) -> SrsView {
    if k == v.k {
        v
    } else {
        let g = v.g.subrange(0, pow2(k as nat) as int);
        SrsView { k, g, g_lagrange: spec_g_to_lagrange(g, k), g2: v.g2, s_g2: v.s_g2 }
    }
}

/// Some choice of coefficients makes the same-ratio check accept.
pub open spec fn accepted_by_some(v: SrsView) -> bool {
    exists|coeffs: Seq<Seq<u8>>|
        coeffs.len() == v.g.len() - 1 && all_fr_valid(coeffs) && #[trigger] spec_same_ratio(
            v.g,
            v.g2,
            v.s_g2,
            coeffs,
        )
}

/// Some choice of coefficients makes the same-ratio check reject.
pub open spec fn rejected_by_some(v: SrsView) -> bool {
    exists|coeffs: Seq<Seq<u8>>|
        coeffs.len() == v.g.len() - 1 && all_fr_valid(coeffs) && !#[trigger] spec_same_ratio(
            v.g,
            v.g2,
            v.s_g2,
            coeffs,
        )
}

/// How the result of a validated decode relates to the file: a failure of
/// the decode is returned as it is; a decoded SRS is returned where the
/// coefficients drawn made the check accept, and `ValidationFailure` where
/// they made it reject. An SRS of a single point is always returned.
pub open spec fn spec_read_result(
    data: Seq<u8>,
    format: SrsFormat,
    desired_k: u32,
    r: Result<Srs, Error>,
) -> bool {
    match spec_parse(data, format, desired_k) {
        Err(e) => r == Err::<Srs, Error>(e),
        Ok(v) => match r {
            Ok(s) => s@ == v && s.wf() && accepted_by_some(v),
            Err(e) => e == Error::ValidationFailure && rejected_by_some(v) && v.k != 0,
        },
    }
}

/// Decoding the canonical encoding of an SRS at its own degree gives the
/// same SRS, field for field.
pub open spec fn decodes_to_itself(v: SrsView) -> bool {
    spec_parse(spec_encode(v), SrsFormat::Pse, v.k) == Ok::<SrsView, Error>(v)
}

/// The view of a decoded SRS, or the error.
pub open spec fn srs_outcome(r: Result<Srs, Error>) -> Result<SrsView, Error> {
    match r {
        Ok(s) => Ok(s@),
        Err(e) => Err(e),
    }
}

/// The number of points of a domain of degree `k`.
pub fn domain_size(k: u32) -> (n: usize)
    requires
        k <= MAX_K,
    ensures
        n == pow2(k as nat),
{
    proof {
        lemma2_to64();
        if k < 28 {
            lemma_pow2_strictly_increases(k as nat, 28);
        }
    }
    pow2_below_64(k) as usize
}

/// Appends bytes to a buffer.
pub fn append(writer: &mut Vec<u8>, bytes: &[u8])
    ensures
        final(writer)@ == old(writer)@ + bytes@,
{
    let n = bytes.len();
    let mut i: usize = 0;
    while i < n
        invariant
            i <= n,
            n == bytes@.len(),
            writer@ == old(writer)@ + bytes@.subrange(0, i as int),
        decreases n - i,
    {
        writer.push(bytes[i]);
        assert(writer@ =~= old(writer)@ + bytes@.subrange(0, i + 1));
        i = i + 1;
    }
    assert(bytes@.subrange(0, n as int) =~= bytes@);
}

/// Splits a vector of two G2 points.
fn into_pair(v: Vec<G2Point>) -> (r: (G2Point, G2Point))
    requires
        v@.len() == 2,
    ensures
        r.0 == v@[0],
        r.1 == v@[1],
{
    let mut v = v;
    let second = v.pop().unwrap();
    let first = v.pop().unwrap();
    (first, second)
}

impl Srs {
    /// The invariant of an SRS: see `SrsView::wf`.
    pub open spec fn wf(&self) -> bool {
        self@.wf()
    }

    /// Whether the invariant holds: tested point by point.
    pub fn is_well_formed(&self) -> (r: bool)
        ensures
            r == self.wf(),
    {
        if self.k > MAX_K {
            return false;
        }
        let n = domain_size(self.k);
        if self.g.len() != n || self.g_lagrange.len() != n {
            return false;
        }
        all_valid(&self.g) && all_valid(&self.g_lagrange) && self.g2.is_valid()
            && self.s_g2.is_valid()
    }

    /// Shrinks the SRS to degree `k` where that is possible: where the
    /// invariant holds and `k` does not exceed the degree. Otherwise the
    /// SRS is left as it is and the answer is `false`.
    pub fn try_downsize(&mut self, k: u32) -> (done: bool)
        ensures
            done == (old(self).wf() && k <= old(self).k),
            done ==> final(self)@ == spec_downsize(old(self)@, k) && final(self).wf(),
            !done ==> *final(self) == *old(self),
    {
        if k <= self.k && self.is_well_formed() {
            self.downsize(k);
            true
        } else {
            false
        }
    }

    /// Decodes a file at the degree it stores and validates it.
    pub fn read(reader: &mut ByteStream, format: SrsFormat) -> (r: Result<Srs, Error>)
        ensures
            final(reader).data == old(reader).data,
            match spec_file_degree(old(reader).data@, format) {
                Err(e) => r == Err::<Srs, Error>(e),
                Ok(k) => spec_read_result(old(reader).data@, format, k, r),
            },
            r matches Ok(s) ==> decodes_to_itself(s@),
    {
        let desired_k = match format {
            SrsFormat::Pse => pse::read_k(reader)?,
            SrsFormat::PseRaw => pse::read_k(reader)?,
            SrsFormat::PerpetualPowerOfTau(k) => k,
            SrsFormat::SnarkJs => snarkjs::read_k(reader)?,
        };
        reader.rewind();
        Self::read_partial(reader, format, desired_k)
    }

    /// Decodes the first `2^desired_k` points of a file and validates them.
    pub fn read_partial(reader: &mut ByteStream, format: SrsFormat, desired_k: u32) -> (r: Result<
        Srs,
        Error,
    >)
        ensures
            final(reader).data == old(reader).data,
            spec_read_result(old(reader).data@, format, desired_k, r),
            r matches Ok(s) ==> decodes_to_itself(s@),
    {
        let srs = Self::parse(reader, format, desired_k)?;
        if srs.validate() {
            Ok(srs)
        } else {
            Err(Error::ValidationFailure)
        }
    }

    /// Decodes the first `2^desired_k` points of a file, without validating
    /// them.
    pub fn parse(reader: &mut ByteStream, format: SrsFormat, desired_k: u32) -> (r: Result<
        Srs,
        Error,
    >)
        ensures
            final(reader).data == old(reader).data,
            srs_outcome(r) == spec_parse(old(reader).data@, format, desired_k),
            r matches Ok(s) ==> s.wf() && decodes_to_itself(s@),
    {
        let r = Self::parse_format(reader, format, desired_k);
        proof {
            if r is Ok {
                crate::laws::lemma_write_then_parse(r->Ok_0@);
            }
        }
        r
    }

    /// Decodes by the layout that the format names.
    fn parse_format(reader: &mut ByteStream, format: SrsFormat, desired_k: u32) -> (r: Result<
        Srs,
        Error,
    >)
        ensures
            final(reader).data == old(reader).data,
            srs_outcome(r) == spec_parse(old(reader).data@, format, desired_k),
            r matches Ok(s) ==> s.wf(),
    {
        match format {
            SrsFormat::Pse => Self::read_partial_pse::<false>(reader, desired_k),
            SrsFormat::PseRaw => Self::read_partial_pse::<true>(reader, desired_k),
            SrsFormat::PerpetualPowerOfTau(k) => {
                if desired_k > k || desired_k > MAX_K {
                    return Err(Error::DegreeTooLarge);
                }
                let n = domain_size(desired_k);
                let g = perpetual_powers_of_tau::read_g1s::<false>(reader, n)?;
                let g_lagrange = g_to_lagrange(g.as_slice(), desired_k);
                let pair = perpetual_powers_of_tau::read_g2s::<false>(reader, k, 2)?;
                proof {
                    assert(g2_reprs(pair@)[0] == pair@[0]@);
                    assert(g2_reprs(pair@)[1] == pair@[1]@);
                }
                let (g2, s_g2) = into_pair(pair);
                Ok(Srs { k: desired_k, g, g_lagrange, g2, s_g2 })
            },
            SrsFormat::SnarkJs => {
                let k = snarkjs::read_k(reader)?;
                if desired_k > k || desired_k > MAX_K {
                    return Err(Error::DegreeTooLarge);
                }
                let n = domain_size(desired_k);
                let g = snarkjs::read_g1s::<false>(reader, n)?;
                let g_lagrange = g_to_lagrange(g.as_slice(), desired_k);
                let pair = snarkjs::read_g2s::<false>(reader, 2)?;
                proof {
                    assert(g2_reprs(pair@)[0] == pair@[0]@);
                    assert(g2_reprs(pair@)[1] == pair@[1]@);
                }
                let (g2, s_g2) = into_pair(pair);
                Ok(Srs { k: desired_k, g, g_lagrange, g2, s_g2 })
            },
        }
    }

    /// Decodes the native layout, compressed or with `RAW` uncompressed.
    fn read_partial_pse<const RAW: bool>(reader: &mut ByteStream, desired_k: u32) -> (r: Result<
        Srs,
        Error,
    >)
        ensures
            final(reader).data == old(reader).data,
            srs_outcome(r) == spec_parse(
                old(reader).data@,
                if RAW {
                    SrsFormat::PseRaw
                } else {
                    SrsFormat::Pse
                },
                desired_k,
            ),
            r matches Ok(s) ==> s.wf(),
    {
        let k = pse::read_k(reader)?;
        if desired_k > k || desired_k > MAX_K {
            return Err(Error::DegreeTooLarge);
        }
        let n = domain_size(desired_k);
        let g = pse::read_g1s::<RAW, false>(reader, n)?;
        let g_lagrange = if k == desired_k {
            pse::read_g1s::<RAW, true>(reader, n)?
        } else {
            g_to_lagrange(g.as_slice(), desired_k)
        };
        let pair = pse::read_g2s::<RAW, false>(reader, 2)?;
        proof {
            assert(g2_reprs(pair@)[0] == pair@[0]@);
            assert(g2_reprs(pair@)[1] == pair@[1]@);
        }
        let (g2, s_g2) = into_pair(pair);
        Ok(Srs { k: desired_k, g, g_lagrange, g2, s_g2 })
    }

    /// Appends the canonical encoding to `writer`.
    pub fn write(&self, writer: &mut Vec<u8>)
        ensures
            final(writer)@ == old(writer)@ + spec_encode(self@),
    {
        let k_bytes = u32_to_le(self.k);
        append(writer, k_bytes.as_slice());
        write_points(&self.g, writer);
        write_points(&self.g_lagrange, writer);
        append(writer, self.g2.repr.as_slice());
        append(writer, self.s_g2.repr.as_slice());
        assert(writer@ =~= old(writer)@ + spec_encode(self@));
    }

    /// Appends the raw encoding to `writer`.
    pub fn write_raw(&self, writer: &mut Vec<u8>)
        requires
            self.wf(),
        ensures
            final(writer)@ == old(writer)@ + spec_encode_raw(self@),
            spec_parse(spec_encode_raw(self@), SrsFormat::PseRaw, self.k) == Ok::<SrsView, Error>(
                self@,
            ),
    {
        let k_bytes = u32_to_le(self.k);
        append(writer, k_bytes.as_slice());
        write_points_raw(&self.g, writer);
        write_points_raw(&self.g_lagrange, writer);
        let g2 = g2_to_raw(&self.g2);
        append(writer, g2.as_slice());
        let s_g2 = g2_to_raw(&self.s_g2);
        append(writer, s_g2.as_slice());
        assert(writer@ =~= old(writer)@ + spec_encode_raw(self@));
        proof {
            assert forall|i: int| 0 <= i < self@.g.len() implies g1_raw_repr(
                #[trigger] self@.g[i],
            ).len() == crate::curve::G1_RAW_SIZE && crate::curve::g1_from_raw_repr(
                g1_raw_repr(self@.g[i]),
            ) == Some(self@.g[i]) by {
                assert(self@.g[i] == self.g@[i]@);
            }
            assert forall|i: int| 0 <= i < self@.g_lagrange.len() implies g1_raw_repr(
                #[trigger] self@.g_lagrange[i],
            ).len() == crate::curve::G1_RAW_SIZE && crate::curve::g1_from_raw_repr(
                g1_raw_repr(self@.g_lagrange[i]),
            ) == Some(self@.g_lagrange[i]) by {
                assert(self@.g_lagrange[i] == self.g_lagrange@[i]@);
            }
            crate::laws::lemma_write_raw_then_parse(self@);
        }
    }

    /// Shrinks the SRS to degree `k`: keeps the first `2^k` monomial points
    /// and computes the Lagrange points of the smaller domain.
    pub fn downsize(&mut self, k: u32)
        requires
            old(self).wf(),
            k <= old(self).k,
        ensures
            final(self)@ == spec_downsize(old(self)@, k),
            final(self).wf(),
            final(self).k == k,
            final(self).g@.len() == pow2(k as nat),
            final(self).g_lagrange@.len() == pow2(k as nat),
    {
        if k == self.k {
            return ;
        }
        proof {
            lemma_pow2_strictly_increases(k as nat, self.k as nat);
        }
        let n = domain_size(k);
        self.k = k;
        self.g.truncate(n);
        proof {
            assert(g1_reprs(self.g@) =~= g1_reprs(old(self).g@).subrange(0, n as int));
            assert forall|j: int| 0 <= j < n implies crate::curve::g1_valid(
                #[trigger] g1_reprs(self.g@)[j],
            ) by {
                assert(g1_reprs(self.g@)[j] == g1_reprs(old(self).g@)[j]);
            }
        }
        self.g_lagrange = g_to_lagrange(self.g.as_slice(), k);
    }

    /// The same-ratio check with given coefficients.
    pub fn validate_with(&self, coeffs: &[Scalar]) -> (r: bool)
        requires
            self.wf(),
            coeffs@.len() == self.g@.len() - 1,
            all_fr_valid(scalar_reprs(coeffs@)),
        ensures
            r == spec_same_ratio(self@.g, self@.g2, self@.s_g2, scalar_reprs(coeffs@)),
    {
        proof {
            vstd::arithmetic::power2::lemma_pow2_pos(self.k as nat);
        }
        same_ratio_with(self.g.as_slice(), &self.g2, &self.s_g2, coeffs)
    }

    /// The same-ratio check with fresh random coefficients.
    pub fn validate(&self) -> (r: bool)
        requires
            self.wf(),
        ensures
            r ==> accepted_by_some(self@),
            !r ==> rejected_by_some(self@),
            self.k == 0 ==> r,
    {
        proof {
            vstd::arithmetic::power2::lemma_pow2_pos(self.k as nat);
            lemma2_to64();
        }
        same_ratio(self.g.as_slice(), &self.g2, &self.s_g2)
    }
}

/// Whether every point is the canonical encoding of a G1 point.
pub fn all_valid(points: &Vec<G1Point>) -> (r: bool)
    ensures
        r == all_g1_valid(g1_reprs(points@)),
{
    let n = points.len();
    let mut i: usize = 0;
    while i < n
        invariant
            i <= n,
            n == points@.len(),
            forall|j: int| 0 <= j < i ==> (#[trigger] points@[j]).wf(),
        decreases n - i,
    {
        if !points[i].is_valid() {
            assert(!crate::curve::g1_valid(g1_reprs(points@)[i as int]));
            return false;
        }
        i = i + 1;
    }
    assert forall|j: int| 0 <= j < n implies crate::curve::g1_valid(
        #[trigger] g1_reprs(points@)[j],
    ) by {
        assert(points@[j].wf());
    }
    true
}

/// Appends the encodings of the points to `writer`.
fn write_points(points: &Vec<G1Point>, writer: &mut Vec<u8>)
    ensures
        final(writer)@ == old(writer)@ + concat(g1_reprs(points@)),
{
    let n = points.len();
    let mut i: usize = 0;
    assert(g1_reprs(points@).subrange(0, 0) =~= Seq::<Seq<u8>>::empty());
    while i < n
        invariant
            i <= n,
            n == points@.len(),
            writer@ == old(writer)@ + concat(g1_reprs(points@).subrange(0, i as int)),
        decreases n - i,
    {
        append(writer, points[i].repr.as_slice());
        proof {
            let done = g1_reprs(points@).subrange(0, i + 1);
            assert(done.drop_last() =~= g1_reprs(points@).subrange(0, i as int));
            assert(done.last() == points@[i as int]@);
            assert(writer@ =~= old(writer)@ + concat(done));
        }
        i = i + 1;
    }
    assert(g1_reprs(points@).subrange(0, n as int) =~= g1_reprs(points@));
}

/// Appends the uncompressed internal layouts of the points to `writer`.
fn write_points_raw(points: &Vec<G1Point>, writer: &mut Vec<u8>)
    requires
        all_g1_valid(g1_reprs(points@)),
    ensures
        final(writer)@ == old(writer)@ + concat(
            g1_reprs(points@).map_values(|p: Seq<u8>| g1_raw_repr(p)),
        ),
        forall|i: int|
            0 <= i < points@.len() ==> g1_raw_repr((#[trigger] points@[i])@).len()
                == crate::curve::G1_RAW_SIZE && crate::curve::g1_from_raw_repr(
                g1_raw_repr(points@[i]@),
            ) == Some(points@[i]@),
{
    let n = points.len();
    let mut i: usize = 0;
    let ghost raws = g1_reprs(points@).map_values(|p: Seq<u8>| g1_raw_repr(p));
    assert(raws.subrange(0, 0) =~= Seq::<Seq<u8>>::empty());
    while i < n
        invariant
            i <= n,
            n == points@.len(),
            all_g1_valid(g1_reprs(points@)),
            raws == g1_reprs(points@).map_values(|p: Seq<u8>| g1_raw_repr(p)),
            writer@ == old(writer)@ + concat(raws.subrange(0, i as int)),
            forall|j: int|
                0 <= j < i ==> g1_raw_repr((#[trigger] points@[j])@).len()
                    == crate::curve::G1_RAW_SIZE && crate::curve::g1_from_raw_repr(
                    g1_raw_repr(points@[j]@),
                ) == Some(points@[j]@),
        decreases n - i,
    {
        assert(g1_reprs(points@)[i as int] == points@[i as int]@);
        let raw = g1_to_raw(&points[i]);
        append(writer, raw.as_slice());
        proof {
            let done = raws.subrange(0, i + 1);
            assert(done.drop_last() =~= raws.subrange(0, i as int));
            assert(done.last() == raw@);
            assert(writer@ =~= old(writer)@ + concat(done));
        }
        i = i + 1;
    }
    assert(raws.subrange(0, n as int) =~= raws);
}

} // verus!
