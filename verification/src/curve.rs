//! BN254 group elements and scalars, held as their canonical byte encodings,
//! and the operations on them that the curve arithmetic provides.
//!
//! Every function marked `external_body` here calls into `halo2curves`; its
//! contract is taken on trust from that crate's source, not proved.

use vstd::prelude::*;
use halo2curves::ff::{Field, PrimeField};
use halo2curves::group::{Curve, Group, GroupEncoding};
use halo2curves::group::prime::PrimeCurveAffine;
use halo2curves::pairing::MillerLoopResult;
use halo2curves::serde::SerdeObject;
use halo2curves::CurveAffine;

verus! {

/// Length in bytes of a compressed G1 point.
pub const G1_SIZE: usize = 32;

/// Length in bytes of a compressed G2 point.
pub const G2_SIZE: usize = 64;

/// Length in bytes of a scalar or base-field element.
pub const FIELD_SIZE: usize = 32;

/// Two-adicity of the scalar field: the largest `k` with a domain of size `2^k`.
pub const MAX_K: u32 = 28;

/// The canonical encoding of the G1 point that 32 bytes decode to, if any.
pub uninterp spec fn g1_decode(bytes: Seq<u8>) -> Option<Seq<u8>>;

/// The canonical encoding of the G2 point that 64 bytes decompress to, if
/// any, where both halves of the x-coordinate are canonical.
pub uninterp spec fn g2_decompress(bytes: Seq<u8>) -> Option<Seq<u8>>;

/// The canonical encoding of the scalar that 32 little-endian bytes hold, if
/// they are below the group order.
pub uninterp spec fn fr_decode(bytes: Seq<u8>) -> Option<Seq<u8>>;

/// The encoding of the negation of an encoded G1 point.
pub uninterp spec fn g1_neg_repr(p: Seq<u8>) -> Seq<u8>;

/// The encoding of the negation of an encoded G2 point.
pub uninterp spec fn g2_neg_repr(p: Seq<u8>) -> Seq<u8>;

/// Whether the y-coordinate of the first encoded G1 point orders below that
/// of the second, where both have coordinates.
pub uninterp spec fn g1_y_less(a: Seq<u8>, b: Seq<u8>) -> Option<bool>;

/// Whether the y-coordinate of the first encoded G2 point orders below that
/// of the second, where both have coordinates.
pub uninterp spec fn g2_y_less(a: Seq<u8>, b: Seq<u8>) -> Option<bool>;

/// The encoding of the sum of two encoded G1 points.
pub uninterp spec fn g1_add_repr(a: Seq<u8>, b: Seq<u8>) -> Seq<u8>;

/// The encoding of an encoded G1 point times an encoded scalar.
pub uninterp spec fn g1_mul_repr(p: Seq<u8>, s: Seq<u8>) -> Seq<u8>;

/// The encoding of an encoded scalar raised to the power `e`.
pub uninterp spec fn fr_pow_repr(base: Seq<u8>, e: u64) -> Seq<u8>;

/// Whether an encoded scalar has multiplicative order `2^log_n`.
pub uninterp spec fn fr_primitive_root(omega: Seq<u8>, log_n: u32) -> bool;

/// The encoding of the inverse of the primitive root of unity of order
/// `2^28`, raised to the power `e`.
pub uninterp spec fn fr_root_of_unity_inv_pow_repr(e: u64) -> Seq<u8>;

/// The encoding of the inverse of two, raised to the power `k`.
pub uninterp spec fn fr_two_inv_pow_repr(k: u32) -> Seq<u8>;

/// The canonical encoding of the base-field element that 32 little-endian
/// bytes hold, if they are below the field modulus.
pub uninterp spec fn fq_decode(bytes: Seq<u8>) -> Option<Seq<u8>>;

/// The encoding of the negation of an encoded base-field element.
pub uninterp spec fn fq_neg_repr(a: Seq<u8>) -> Seq<u8>;

/// The encoding of the product of two encoded base-field elements.
pub uninterp spec fn fq_mul_repr(a: Seq<u8>, b: Seq<u8>) -> Seq<u8>;

/// The encoding of the inverse of an encoded base-field element, if it has one.
pub uninterp spec fn fq_invert_repr(a: Seq<u8>) -> Option<Seq<u8>>;

/// The encoding of the G1 point with the given encoded coordinates, if they
/// satisfy the curve equation.
pub uninterp spec fn g1_from_xy_repr(x: Seq<u8>, y: Seq<u8>) -> Option<Seq<u8>>;

/// The encoding of the G2 point with coordinates `x0 + x1 * u` and
/// `y0 + y1 * u`, if they satisfy the curve equation.
pub uninterp spec fn g2_from_xy_repr(x0: Seq<u8>, x1: Seq<u8>, y0: Seq<u8>, y1: Seq<u8>) -> Option<
    Seq<u8>,
>;

/// The encoding of the G1 point that bytes in the uncompressed internal
/// layout hold, if any.
pub uninterp spec fn g1_from_raw_repr(raw: Seq<u8>) -> Option<Seq<u8>>;

/// The encoding of the G2 point that bytes in the uncompressed internal
/// layout hold, if any.
pub uninterp spec fn g2_from_raw_repr(raw: Seq<u8>) -> Option<Seq<u8>>;

/// The uncompressed internal layout of an encoded G1 point.
pub uninterp spec fn g1_raw_repr(p: Seq<u8>) -> Seq<u8>;

/// The uncompressed internal layout of an encoded G2 point.
pub uninterp spec fn g2_raw_repr(p: Seq<u8>) -> Seq<u8>;

/// Whether `e(lhs, s_g2) * e(rhs, -g2)` is the identity of the target group,
/// for `neg_g2` the encoding of `-g2`; `None` where the Miller loop yields a
/// value without an inverse, for which the pairing is not defined.
pub uninterp spec fn pairing_ratio(
    lhs: Seq<u8>,
    s_g2: Seq<u8>,
    rhs: Seq<u8>,
    neg_g2: Seq<u8>,
) -> Option<bool>;

/// The upper half of a compressed G2 point without its two flag bits.
pub open spec fn clear_flags(half: Seq<u8>) -> Seq<u8> {
    half.update(FIELD_SIZE - 1, half[FIELD_SIZE - 1] & 0x3f)
}

/// Both halves of the x-coordinate of a compressed G2 point are canonical
/// field elements.
pub open spec fn g2_halves_canonical(bytes: Seq<u8>) -> bool {
    &&& bytes.len() == G2_SIZE
    &&& fq_decode(bytes.subrange(0, FIELD_SIZE as int)) is Some
    &&& fq_decode(clear_flags(bytes.subrange(FIELD_SIZE as int, G2_SIZE as int))) is Some
}

/// The canonical encoding of the G2 point that 64 bytes decode to, if any.
pub open spec fn g2_decode(bytes: Seq<u8>) -> Option<Seq<u8>> {
    if g2_halves_canonical(bytes) {
        g2_decompress(bytes)
    } else {
        None
    }
}

/// The encoding of the identity of G1: no coordinate bits, and the
/// identity flag in the last byte.
pub open spec fn g1_identity_repr() -> Seq<u8> {
    Seq::new(G1_SIZE as nat, |i: int| if i == G1_SIZE - 1 { 0x40u8 } else { 0u8 })
}

/// The encoding of the sum of `coeffs[i] * bases[i]` over all `i`, taken
/// from the identity in the order of the indices.
pub open spec fn spec_linear_combination(coeffs: Seq<Seq<u8>>, bases: Seq<Seq<u8>>) -> Seq<u8>
    decreases bases.len(),
{
    if bases.len() == 0 {
        g1_identity_repr()
    } else {
        g1_add_repr(
            spec_linear_combination(coeffs.drop_last(), bases.drop_last()),
            g1_mul_repr(bases.last(), coeffs.last()),
        )
    }
}

/// The `i`-th value of the discrete Fourier transform of points at `omega`:
/// the sum of `omega^(i * j) * points[j]` over all `j`.
pub open spec fn spec_transform(points: Seq<Seq<u8>>, omega: Seq<u8>, i: int) -> Seq<u8> {
    spec_linear_combination(
        Seq::new(points.len(), |j: int| fr_pow_repr(omega, (i * j) as u64)),
        points,
    )
}

/// `bytes` is the canonical encoding of a G1 point.
pub open spec fn g1_valid(bytes: Seq<u8>) -> bool {
    bytes.len() == G1_SIZE && g1_decode(bytes) == Some(bytes)
}

/// `bytes` is the canonical encoding of a G2 point.
pub open spec fn g2_valid(bytes: Seq<u8>) -> bool {
    bytes.len() == G2_SIZE && g2_decode(bytes) == Some(bytes)
}

/// `bytes` is the canonical encoding of a scalar.
pub open spec fn fr_valid(bytes: Seq<u8>) -> bool {
    bytes.len() == FIELD_SIZE && fr_decode(bytes) == Some(bytes)
}

/// `bytes` is the canonical encoding of a base-field element.
pub open spec fn fq_valid(bytes: Seq<u8>) -> bool {
    bytes.len() == FIELD_SIZE && fq_decode(bytes) == Some(bytes)
}

/// Length in bytes of a G1 point in the uncompressed internal layout.
pub const G1_RAW_SIZE: usize = 64;

/// Length in bytes of a G2 point in the uncompressed internal layout.
pub const G2_RAW_SIZE: usize = 128;

/// The encoding of the base-field element one.
pub open spec fn fq_one_repr() -> Seq<u8> {
    Seq::new(FIELD_SIZE as nat, |i: int| if i == 0 { 1u8 } else { 0u8 })
}

/// An element of the base field of G1, as its little-endian encoding.
#[derive(Clone, Debug, PartialEq, Eq)]
pub struct Fq {
    pub repr: Vec<u8>,
}

impl View for Fq {
    type V = Seq<u8>;

    open spec fn view(&self) -> Seq<u8> {
        self.repr@
    }
}

impl Fq {
    /// The bytes held are the canonical encoding of a field element.
    pub open spec fn wf(&self) -> bool {
        fq_valid(self@)
    }

    /// Decodes a field element; `None` where the bytes are not 32 in number
    /// or are not below the modulus.
    pub fn from_bytes(bytes: &[u8]) -> (r: Option<Fq>)
        ensures
            r is Some <==> bytes@.len() == FIELD_SIZE && fq_decode(bytes@) is Some,
            r matches Some(x) ==> x.wf() && Some(x@) == fq_decode(bytes@),
    {
        if bytes.len() != FIELD_SIZE {
            return None;
        }
        fq_from_bytes(bytes)
    }
}

/// A point of G1, as its compressed encoding.
#[derive(Clone, Debug, PartialEq, Eq)]
pub struct G1Point {
    pub repr: Vec<u8>,
}

/// A point of G2, as its compressed encoding.
#[derive(Clone, Debug, PartialEq, Eq)]
pub struct G2Point {
    pub repr: Vec<u8>,
}

/// An element of the scalar field, as its little-endian encoding.
#[derive(Clone, Debug, PartialEq, Eq)]
pub struct Scalar {
    pub repr: Vec<u8>,
}

impl View for G1Point {
    type V = Seq<u8>;

    open spec fn view(&self) -> Seq<u8> {
        self.repr@
    }
}

impl View for G2Point {
    type V = Seq<u8>;

    open spec fn view(&self) -> Seq<u8> {
        self.repr@
    }
}

impl View for Scalar {
    type V = Seq<u8>;

    open spec fn view(&self) -> Seq<u8> {
        self.repr@
    }
}

/// The encodings of a sequence of G1 points.
pub open spec fn g1_reprs(v: Seq<G1Point>) -> Seq<Seq<u8>> {
    Seq::new(v.len(), |i: int| v[i]@)
}

/// The encodings of a sequence of G2 points.
pub open spec fn g2_reprs(v: Seq<G2Point>) -> Seq<Seq<u8>> {
    Seq::new(v.len(), |i: int| v[i]@)
}

/// The encodings of a sequence of scalars.
pub open spec fn scalar_reprs(v: Seq<Scalar>) -> Seq<Seq<u8>> {
    Seq::new(v.len(), |i: int| v[i]@)
}

/// Every element is the canonical encoding of a G1 point.
pub open spec fn all_g1_valid(v: Seq<Seq<u8>>) -> bool {
    forall|i: int| 0 <= i < v.len() ==> g1_valid(#[trigger] v[i])
}

/// Every element is the canonical encoding of a G2 point.
pub open spec fn all_g2_valid(v: Seq<Seq<u8>>) -> bool {
    forall|i: int| 0 <= i < v.len() ==> g2_valid(#[trigger] v[i])
}

/// Every element is the canonical encoding of a scalar.
pub open spec fn all_fr_valid(v: Seq<Seq<u8>>) -> bool {
    forall|i: int| 0 <= i < v.len() ==> fr_valid(#[trigger] v[i])
}

impl G1Point {
    /// The bytes held are the canonical encoding of a point.
    pub open spec fn wf(&self) -> bool {
        g1_valid(self@)
    }

    /// Decodes a compressed point; `None` where the bytes are not 32 in
    /// number or do not encode a point.
    pub fn from_bytes(bytes: &[u8]) -> (r: Option<G1Point>)
        ensures
            r is Some <==> bytes@.len() == G1_SIZE && g1_decode(bytes@) is Some,
            r matches Some(p) ==> p.wf() && Some(p@) == g1_decode(bytes@),
    {
        if bytes.len() != G1_SIZE {
            return None;
        }
        g1_from_bytes(bytes)
    }

    /// A copy of the point.
    pub fn duplicate(&self) -> (r: G1Point)
        ensures
            r@ == self@,
    {
        G1Point { repr: clone_bytes(&self.repr) }
    }

    /// Whether the bytes held are the canonical encoding of a point.
    pub fn is_valid(&self) -> (r: bool)
        ensures
            r == self.wf(),
    {
        match G1Point::from_bytes(self.repr.as_slice()) {
            Some(p) => bytes_equal(p.repr.as_slice(), self.repr.as_slice()),
            None => false,
        }
    }

    /// The point in the uncompressed internal layout.
    pub fn to_raw_bytes(&self) -> (r: Vec<u8>)
        requires
            self.wf(),
        ensures
            r@ == g1_raw_repr(self@),
            r@.len() == G1_RAW_SIZE,
    {
        g1_to_raw(self)
    }
}

impl G2Point {
    /// The bytes held are the canonical encoding of a point.
    pub open spec fn wf(&self) -> bool {
        g2_valid(self@)
    }

    /// Decodes a compressed point; `None` where the bytes are not 64 in
    /// number or do not encode a point.
    pub fn from_bytes(bytes: &[u8]) -> (r: Option<G2Point>)
        ensures
            r is Some <==> bytes@.len() == G2_SIZE && g2_decode(bytes@) is Some,
            r matches Some(p) ==> p.wf() && Some(p@) == g2_decode(bytes@),
    {
        if bytes.len() != G2_SIZE {
            return None;
        }
        g2_decode_bytes(bytes)
    }

    /// A copy of the point.
    pub fn duplicate(&self) -> (r: G2Point)
        ensures
            r@ == self@,
    {
        G2Point { repr: clone_bytes(&self.repr) }
    }

    /// Whether the bytes held are the canonical encoding of a point.
    pub fn is_valid(&self) -> (r: bool)
        ensures
            r == self.wf(),
    {
        match G2Point::from_bytes(self.repr.as_slice()) {
            Some(p) => bytes_equal(p.repr.as_slice(), self.repr.as_slice()),
            None => false,
        }
    }

    /// The point in the uncompressed internal layout.
    pub fn to_raw_bytes(&self) -> (r: Vec<u8>)
        requires
            self.wf(),
        ensures
            r@ == g2_raw_repr(self@),
            r@.len() == G2_RAW_SIZE,
    {
        g2_to_raw(self)
    }
}

impl Scalar {
    /// The bytes held are the canonical encoding of a scalar.
    pub open spec fn wf(&self) -> bool {
        fr_valid(self@)
    }

    /// Whether the bytes held are the canonical encoding of a scalar.
    pub fn is_valid(&self) -> (r: bool)
        ensures
            r == self.wf(),
    {
        match Scalar::from_bytes(self.repr.as_slice()) {
            Some(s) => bytes_equal(s.repr.as_slice(), self.repr.as_slice()),
            None => false,
        }
    }

    /// Decodes a scalar; `None` where the bytes are not 32 in number or are
    /// not below the group order.
    pub fn from_bytes(bytes: &[u8]) -> (r: Option<Scalar>)
        ensures
            r is Some <==> bytes@.len() == FIELD_SIZE && fr_decode(bytes@) is Some,
            r matches Some(s) ==> s.wf() && Some(s@) == fr_decode(bytes@),
    {
        if bytes.len() != FIELD_SIZE {
            return None;
        }
        fr_from_bytes(bytes)
    }
}

/// Whether two byte strings are the same.
pub fn bytes_equal(a: &[u8], b: &[u8]) -> (r: bool)
    ensures
        r == (a@ == b@),
{
    if a.len() != b.len() {
        return false;
    }
    let n = a.len();
    let mut i: usize = 0;
    while i < n
        invariant
            i <= n,
            n == a@.len(),
            n == b@.len(),
            forall|j: int| 0 <= j < i ==> a@[j] == b@[j],
        decreases n - i,
    {
        if a[i] != b[i] {
            return false;
        }
        i = i + 1;
    }
    assert(a@ =~= b@);
    true
}

/// Whether two sequences of G1 points hold the same points in the same order.
pub fn g1_points_equal(a: &Vec<G1Point>, b: &Vec<G1Point>) -> (r: bool)
    ensures
        r == (g1_reprs(a@) == g1_reprs(b@)),
{
    if a.len() != b.len() {
        assert(g1_reprs(a@).len() != g1_reprs(b@).len());
        return false;
    }
    let n = a.len();
    let mut i: usize = 0;
    while i < n
        invariant
            i <= n,
            n == a@.len(),
            n == b@.len(),
            forall|j: int| 0 <= j < i ==> (#[trigger] a@[j])@ == b@[j]@,
        decreases n - i,
    {
        if !bytes_equal(a[i].repr.as_slice(), b[i].repr.as_slice()) {
            assert(g1_reprs(a@)[i as int] != g1_reprs(b@)[i as int]);
            return false;
        }
        i = i + 1;
    }
    assert(g1_reprs(a@) =~= g1_reprs(b@));
    true
}

/// A copy of a byte vector.
pub fn clone_bytes(v: &Vec<u8>) -> (r: Vec<u8>)
    ensures
        r@ == v@,
{
    vstd::slice::slice_to_vec(v.as_slice())
}

/// `GroupEncoding::from_bytes` of `bn256::G1Affine`, the point then encoded
/// again with `to_bytes`. Trusted: the result is the named decoding of the
/// input, and the encoding of a point decodes to itself.
#[verifier::external_body]
pub(crate) fn g1_from_bytes(bytes: &[u8]) -> (r: Option<G1Point>)
    requires
        bytes@.len() == G1_SIZE,
    ensures
        r is Some <==> g1_decode(bytes@) is Some,
        r matches Some(p) ==> g1_valid(p@) && Some(p@) == g1_decode(bytes@),
{
    let p: Option<halo2curves::bn256::G1Affine> =
        halo2curves::bn256::G1Affine::from_bytes(&bytes.into()).into();
    p.map(|p| G1Point { repr: p.to_bytes().as_ref().to_vec() })
}

/// Decodes 64 bytes into a G2 point: `None` where a half of the
/// x-coordinate is not canonical or the bytes do not decompress.
pub fn g2_decode_bytes(bytes: &[u8]) -> (r: Option<G2Point>)
    requires
        bytes@.len() == G2_SIZE,
    ensures
        r is Some <==> g2_decode(bytes@) is Some,
        r matches Some(p) ==> g2_valid(p@) && Some(p@) == g2_decode(bytes@),
{
    let low = fq_from_bytes(vstd::slice::slice_subrange(bytes, 0, FIELD_SIZE));
    let mut high = vstd::slice::slice_to_vec(vstd::slice::slice_subrange(bytes, FIELD_SIZE, G2_SIZE));
    let top: u8 = high[FIELD_SIZE - 1] & 0x3f;
    high.set(FIELD_SIZE - 1, top);
    let high = fq_from_bytes(high.as_slice());
    if low.is_none() || high.is_none() {
        return None;
    }
    g2_from_bytes(bytes)
}

/// `GroupEncoding::from_bytes` of `bn256::G2Affine`, the point then encoded
/// again with `to_bytes`. It is called only where both halves of the
/// x-coordinate are canonical. Trusted: the result is the named
/// decompression of the input, and the encoding of a point decodes to
/// itself.
#[verifier::external_body]
pub(crate) fn g2_from_bytes(bytes: &[u8]) -> (r: Option<G2Point>)
    requires
        g2_halves_canonical(bytes@),
    ensures
        r is Some <==> g2_decompress(bytes@) is Some,
        r matches Some(p) ==> g2_valid(p@) && Some(p@) == g2_decompress(bytes@),
{
    let p: Option<halo2curves::bn256::G2Affine> =
        halo2curves::bn256::G2Affine::from_bytes(&bytes.into()).into();
    p.map(|p| G2Point { repr: p.to_bytes().as_ref().to_vec() })
}

/// `PrimeField::from_repr` of `bn256::Fr`, the scalar then encoded again with
/// `to_repr`. Trusted: the result is the named decoding of the input, and the
/// encoding of a scalar decodes to itself.
#[verifier::external_body]
pub(crate) fn fr_from_bytes(bytes: &[u8]) -> (r: Option<Scalar>)
    requires
        bytes@.len() == FIELD_SIZE,
    ensures
        r is Some <==> fr_decode(bytes@) is Some,
        r matches Some(s) ==> fr_valid(s@) && Some(s@) == fr_decode(bytes@),
{
    let s: Option<halo2curves::bn256::Fr> =
        halo2curves::bn256::Fr::from_repr(bytes.into()).into();
    s.map(|s| Scalar { repr: s.to_repr().as_ref().to_vec() })
}

/// Negation of a `bn256::G1Affine`. Trusted: the result is a valid point,
/// named by the input's encoding.
#[verifier::external_body]
pub(crate) fn g1_neg(p: &G1Point) -> (r: G1Point)
    requires
        p.wf(),
    ensures
        r.wf(),
        r@ == g1_neg_repr(p@),
{
    let q = -halo2curves::bn256::G1Affine::from_bytes(&p.repr.as_slice().into()).unwrap();
    G1Point { repr: q.to_bytes().as_ref().to_vec() }
}

/// Negation of a `bn256::G2Affine`. Trusted: the result is a valid point,
/// named by the input's encoding.
#[verifier::external_body]
pub(crate) fn g2_neg(p: &G2Point) -> (r: G2Point)
    requires
        p.wf(),
    ensures
        r.wf(),
        r@ == g2_neg_repr(p@),
{
    let q = -halo2curves::bn256::G2Affine::from_bytes(&p.repr.as_slice().into()).unwrap();
    G2Point { repr: q.to_bytes().as_ref().to_vec() }
}

/// `CurveAffine::coordinates` of two `bn256::G1Affine` points and the order
/// of `bn256::Fq` on their y-coordinates. Trusted: the result is named by the
/// two encodings; it is `None` where a point has no coordinates.
#[verifier::external_body]
pub(crate) fn g1_y_lt(a: &G1Point, b: &G1Point) -> (r: Option<bool>)
    requires
        a.wf(),
        b.wf(),
    ensures
        r == g1_y_less(a@, b@),
{
    let a = halo2curves::bn256::G1Affine::from_bytes(&a.repr.as_slice().into()).unwrap();
    let b = halo2curves::bn256::G1Affine::from_bytes(&b.repr.as_slice().into()).unwrap();
    let ca: Option<halo2curves::Coordinates<_>> = a.coordinates().into();
    let cb: Option<halo2curves::Coordinates<_>> = b.coordinates().into();
    ca.zip(cb).map(|(ca, cb)| ca.y() < cb.y())
}

/// `CurveAffine::coordinates` of two `bn256::G2Affine` points and the order
/// of `bn256::Fq2` on their y-coordinates. Trusted: the result is named by
/// the two encodings; it is `None` where a point has no coordinates.
#[verifier::external_body]
pub(crate) fn g2_y_lt(a: &G2Point, b: &G2Point) -> (r: Option<bool>)
    requires
        a.wf(),
        b.wf(),
    ensures
        r == g2_y_less(a@, b@),
{
    let a = halo2curves::bn256::G2Affine::from_bytes(&a.repr.as_slice().into()).unwrap();
    let b = halo2curves::bn256::G2Affine::from_bytes(&b.repr.as_slice().into()).unwrap();
    let ca: Option<halo2curves::Coordinates<_>> = a.coordinates().into();
    let cb: Option<halo2curves::Coordinates<_>> = b.coordinates().into();
    ca.zip(cb).map(|(ca, cb)| ca.y() < cb.y())
}

/// `halo2curves::msm::msm_best` on `bn256::G1Affine`, for bases none of which
/// is the identity: its windowed path takes no point at infinity. Trusted:
/// the result is a valid point, the linear combination of the bases with
/// the coefficients.
#[verifier::external_body]
pub(crate) fn g1_msm(coeffs: &[Scalar], bases: &[G1Point]) -> (r: G1Point)
    requires
        coeffs@.len() == bases@.len(),
        coeffs@.len() > 0,
        all_fr_valid(scalar_reprs(coeffs@)),
        all_g1_valid(g1_reprs(bases@)),
        forall|i: int| 0 <= i < bases@.len() ==> (#[trigger] bases@[i])@ != g1_identity_repr(),
    ensures
        r.wf(),
        r@ == spec_linear_combination(scalar_reprs(coeffs@), g1_reprs(bases@)),
{
    let cs: Vec<halo2curves::bn256::Fr> = coeffs.iter().map(
        |c| halo2curves::bn256::Fr::from_repr(c.repr.as_slice().into()).unwrap(),
    ).collect();
    let bs: Vec<halo2curves::bn256::G1Affine> = bases.iter().map(
        |b| halo2curves::bn256::G1Affine::from_bytes(&b.repr.as_slice().into()).unwrap(),
    ).collect();
    let sum = halo2curves::msm::msm_best(&cs, &bs).to_affine();
    G1Point { repr: sum.to_bytes().as_ref().to_vec() }
}

/// `PrimeCurveAffine::identity` of `bn256::G1Affine`. Trusted: its encoding
/// is all zero but for the identity flag, and is valid.
#[verifier::external_body]
pub(crate) fn g1_identity() -> (r: G1Point)
    ensures
        r.wf(),
        r@ == g1_identity_repr(),
{
    G1Point { repr: halo2curves::bn256::G1Affine::identity().to_bytes().as_ref().to_vec() }
}

/// Addition of two `bn256::G1Affine`. Trusted: the result is a valid point,
/// named by the two encodings.
#[verifier::external_body]
pub(crate) fn g1_add(a: &G1Point, b: &G1Point) -> (r: G1Point)
    requires
        a.wf(),
        b.wf(),
    ensures
        r.wf(),
        r@ == g1_add_repr(a@, b@),
{
    let a = halo2curves::bn256::G1Affine::from_bytes(&a.repr.as_slice().into()).unwrap();
    let b = halo2curves::bn256::G1Affine::from_bytes(&b.repr.as_slice().into()).unwrap();
    G1Point { repr: (a + b).to_affine().to_bytes().as_ref().to_vec() }
}

/// Multiplication of a `bn256::G1Affine` by a `bn256::Fr`. Trusted: the
/// result is a valid point, named by the two encodings.
#[verifier::external_body]
pub(crate) fn g1_mul(p: &G1Point, s: &Scalar) -> (r: G1Point)
    requires
        p.wf(),
        s.wf(),
    ensures
        r.wf(),
        r@ == g1_mul_repr(p@, s@),
{
    let p = halo2curves::bn256::G1Affine::from_bytes(&p.repr.as_slice().into()).unwrap();
    let s = halo2curves::bn256::Fr::from_repr(s.repr.as_slice().into()).unwrap();
    G1Point { repr: (p * s).to_affine().to_bytes().as_ref().to_vec() }
}

/// `halo2curves::fft::best_fft` on `bn256::G1` with a `bn256::Fr` root of
/// order `2^log_n`. Trusted: the result has the input's length, holds valid
/// points, and its `i`-th point is the value of the input, read as the
/// coefficients of a polynomial, at the `i`-th power of the root.
#[verifier::external_body]
pub(crate) fn g1_fft(points: &[G1Point], omega: &Scalar, log_n: u32) -> (r: Vec<G1Point>)
    requires
        log_n <= MAX_K,
        points@.len() == vstd::arithmetic::power2::pow2(log_n as nat),
        all_g1_valid(g1_reprs(points@)),
        omega.wf(),
        fr_primitive_root(omega@, log_n),
    ensures
        r@.len() == points@.len(),
        all_g1_valid(g1_reprs(r@)),
        forall|i: int|
            0 <= i < r@.len() ==> (#[trigger] r@[i])@ == spec_linear_combination(
                Seq::new(points@.len(), |j: int| fr_pow_repr(omega@, (i * j) as u64)),
                g1_reprs(points@),
            ),
{
    let mut a: Vec<halo2curves::bn256::G1> = points.iter().map(
        |p| halo2curves::bn256::G1Affine::from_bytes(&p.repr.as_slice().into()).unwrap().to_curve(),
    ).collect();
    let omega = halo2curves::bn256::Fr::from_repr(omega.repr.as_slice().into()).unwrap();
    halo2curves::fft::best_fft(&mut a, omega, log_n);
    a.iter().map(|p| G1Point { repr: p.to_affine().to_bytes().as_ref().to_vec() }).collect()
}

/// `Field::pow_vartime` on the constant `PrimeField::ROOT_OF_UNITY_INV` of
/// `bn256::Fr`, which has order `2^28`. Trusted: the result is a valid
/// scalar, named by the exponent, and for the exponent `2^(28 - k)` it has
/// order `2^k`.
#[verifier::external_body]
pub(crate) fn fr_root_of_unity_inv_pow(e: u64) -> (r: Scalar)
    ensures
        r.wf(),
        r@ == fr_root_of_unity_inv_pow_repr(e),
        forall|k: u32|
            k <= MAX_K && e == vstd::arithmetic::power2::pow2((MAX_K - k) as nat)
                ==> #[trigger] fr_primitive_root(r@, k),
{
    let s = halo2curves::bn256::Fr::ROOT_OF_UNITY_INV.pow_vartime([e]);
    Scalar { repr: s.to_repr().as_ref().to_vec() }
}

/// `Field::pow_vartime` on the constant `PrimeField::TWO_INV` of `bn256::Fr`.
/// Trusted: the result is a valid scalar, named by the exponent.
#[verifier::external_body]
pub(crate) fn fr_two_inv_pow(k: u32) -> (r: Scalar)
    ensures
        r.wf(),
        r@ == fr_two_inv_pow_repr(k),
{
    let s = halo2curves::bn256::Fr::TWO_INV.pow_vartime([u64::from(k)]);
    Scalar { repr: s.to_repr().as_ref().to_vec() }
}

/// `Field::random` of `bn256::Fr` on `rand_core::OsRng`. Trusted: the result
/// is a valid scalar; nothing is claimed of its value. Where the operating
/// system's source fails, the call does not return.
#[verifier::external_body]
pub(crate) fn fr_random() -> (r: Scalar)
    ensures
        r.wf(),
{
    Scalar { repr: halo2curves::bn256::Fr::random(rand_core::OsRng).to_repr().as_ref().to_vec() }
}

/// `PrimeField::from_repr` of `bn256::Fq`, the element then encoded again
/// with `to_repr`. Trusted: the result is the named decoding of the input,
/// and the encoding of an element decodes to itself.
#[verifier::external_body]
pub(crate) fn fq_from_bytes(bytes: &[u8]) -> (r: Option<Fq>)
    requires
        bytes@.len() == FIELD_SIZE,
    ensures
        r is Some <==> fq_decode(bytes@) is Some,
        r matches Some(x) ==> fq_valid(x@) && Some(x@) == fq_decode(bytes@),
{
    let x: Option<halo2curves::bn256::Fq> =
        halo2curves::bn256::Fq::from_repr(bytes.into()).into();
    x.map(|x| Fq { repr: x.to_repr().as_ref().to_vec() })
}

/// The constant `Field::ONE` of `bn256::Fq`. Trusted: its encoding is the
/// byte one followed by zeros, and is valid.
#[verifier::external_body]
pub(crate) fn fq_one() -> (r: Fq)
    ensures
        r.wf(),
        r@ == fq_one_repr(),
{
    Fq { repr: halo2curves::bn256::Fq::ONE.to_repr().as_ref().to_vec() }
}

/// Negation of a `bn256::Fq`. Trusted: the result is a valid element, named
/// by the input's encoding.
#[verifier::external_body]
pub(crate) fn fq_neg(a: &Fq) -> (r: Fq)
    requires
        a.wf(),
    ensures
        r.wf(),
        r@ == fq_neg_repr(a@),
{
    let a = halo2curves::bn256::Fq::from_repr(a.repr.as_slice().into()).unwrap();
    Fq { repr: (-a).to_repr().as_ref().to_vec() }
}

/// Multiplication of two `bn256::Fq`. Trusted: the result is a valid
/// element, named by the two encodings.
#[verifier::external_body]
pub(crate) fn fq_mul(a: &Fq, b: &Fq) -> (r: Fq)
    requires
        a.wf(),
        b.wf(),
    ensures
        r.wf(),
        r@ == fq_mul_repr(a@, b@),
{
    let a = halo2curves::bn256::Fq::from_repr(a.repr.as_slice().into()).unwrap();
    let b = halo2curves::bn256::Fq::from_repr(b.repr.as_slice().into()).unwrap();
    Fq { repr: (a * b).to_repr().as_ref().to_vec() }
}

/// `Field::invert` of `bn256::Fq`. Trusted: the result is the named inverse
/// of the input, valid where there is one.
#[verifier::external_body]
pub(crate) fn fq_invert(a: &Fq) -> (r: Option<Fq>)
    requires
        a.wf(),
    ensures
        r is Some <==> fq_invert_repr(a@) is Some,
        r matches Some(x) ==> fq_valid(x@) && Some(x@) == fq_invert_repr(a@),
{
    let a = halo2curves::bn256::Fq::from_repr(a.repr.as_slice().into()).unwrap();
    let inv: Option<halo2curves::bn256::Fq> = a.invert().into();
    inv.map(|x| Fq { repr: x.to_repr().as_ref().to_vec() })
}

/// `CurveAffine::from_xy` of `bn256::G1Affine`. Trusted: the result is the
/// named point of the two coordinates, valid where there is one.
#[verifier::external_body]
pub(crate) fn g1_from_xy(x: &Fq, y: &Fq) -> (r: Option<G1Point>)
    requires
        x.wf(),
        y.wf(),
    ensures
        r is Some <==> g1_from_xy_repr(x@, y@) is Some,
        r matches Some(p) ==> g1_valid(p@) && Some(p@) == g1_from_xy_repr(x@, y@),
{
    let x = halo2curves::bn256::Fq::from_repr(x.repr.as_slice().into()).unwrap();
    let y = halo2curves::bn256::Fq::from_repr(y.repr.as_slice().into()).unwrap();
    let p: Option<halo2curves::bn256::G1Affine> =
        halo2curves::bn256::G1Affine::from_xy(x, y).into();
    p.map(|p| G1Point { repr: p.to_bytes().as_ref().to_vec() })
}

/// `CurveAffine::from_xy` of `bn256::G2Affine`, on coordinates built with
/// `bn256::Fq2::new`. Trusted: the result is the named point of the four
/// components, valid where there is one.
#[verifier::external_body]
pub(crate) fn g2_from_xy(x0: &Fq, x1: &Fq, y0: &Fq, y1: &Fq) -> (r: Option<G2Point>)
    requires
        x0.wf(),
        x1.wf(),
        y0.wf(),
        y1.wf(),
    ensures
        r is Some <==> g2_from_xy_repr(x0@, x1@, y0@, y1@) is Some,
        r matches Some(p) ==> g2_valid(p@) && Some(p@) == g2_from_xy_repr(x0@, x1@, y0@, y1@),
{
    let c = [x0, x1, y0, y1].map(
        |c| halo2curves::bn256::Fq::from_repr(c.repr.as_slice().into()).unwrap(),
    );
    let x = halo2curves::bn256::Fq2::new(c[0], c[1]);
    let y = halo2curves::bn256::Fq2::new(c[2], c[3]);
    let p: Option<halo2curves::bn256::G2Affine> =
        halo2curves::bn256::G2Affine::from_xy(x, y).into();
    p.map(|p| G2Point { repr: p.to_bytes().as_ref().to_vec() })
}

/// `SerdeObject::from_raw_bytes` of `bn256::G1Affine`. Trusted: the result
/// is the named point of the bytes, valid where there is one.
#[verifier::external_body]
pub(crate) fn g1_from_raw(raw: &[u8]) -> (r: Option<G1Point>)
    ensures
        r is Some <==> g1_from_raw_repr(raw@) is Some,
        r matches Some(p) ==> g1_valid(p@) && Some(p@) == g1_from_raw_repr(raw@),
{
    let p = halo2curves::bn256::G1Affine::from_raw_bytes(raw);
    p.map(|p| G1Point { repr: p.to_bytes().as_ref().to_vec() })
}

/// `SerdeObject::from_raw_bytes` of `bn256::G2Affine`. Trusted: the result
/// is the named point of the bytes, valid where there is one.
#[verifier::external_body]
pub(crate) fn g2_from_raw(raw: &[u8]) -> (r: Option<G2Point>)
    ensures
        r is Some <==> g2_from_raw_repr(raw@) is Some,
        r matches Some(p) ==> g2_valid(p@) && Some(p@) == g2_from_raw_repr(raw@),
{
    let p = halo2curves::bn256::G2Affine::from_raw_bytes(raw);
    p.map(|p| G2Point { repr: p.to_bytes().as_ref().to_vec() })
}

/// `SerdeObject::to_raw_bytes` of `bn256::G1Affine`. Trusted: the result is
/// 64 bytes, named by the point's encoding, and reads back as the point.
#[verifier::external_body]
pub(crate) fn g1_to_raw(p: &G1Point) -> (r: Vec<u8>)
    requires
        p.wf(),
    ensures
        r@ == g1_raw_repr(p@),
        r@.len() == G1_RAW_SIZE,
        g1_from_raw_repr(r@) == Some(p@),
{
    halo2curves::bn256::G1Affine::from_bytes(&p.repr.as_slice().into()).unwrap().to_raw_bytes()
}

/// `SerdeObject::to_raw_bytes` of `bn256::G2Affine`. Trusted: the result is
/// 128 bytes, named by the point's encoding, and reads back as the point.
#[verifier::external_body]
pub(crate) fn g2_to_raw(p: &G2Point) -> (r: Vec<u8>)
    requires
        p.wf(),
    ensures
        r@ == g2_raw_repr(p@),
        r@.len() == G2_RAW_SIZE,
        g2_from_raw_repr(r@) == Some(p@),
{
    halo2curves::bn256::G2Affine::from_bytes(&p.repr.as_slice().into()).unwrap().to_raw_bytes()
}

/// `bn256::multi_miller_loop` on two pairs, `Field::invert` of its value to
/// tell whether the final exponentiation is defined, then
/// `final_exponentiation` and `is_identity`. Trusted: the answer is named by
/// the four encodings.
#[verifier::external_body]
pub(crate) fn pairing_ratio_check(
    lhs: &G1Point,
    s_g2: &G2Point,
    rhs: &G1Point,
    neg_g2: &G2Point,
) -> (r: Option<bool>)
    requires
        lhs.wf(),
        s_g2.wf(),
        rhs.wf(),
        neg_g2.wf(),
    ensures
        r == pairing_ratio(lhs@, s_g2@, rhs@, neg_g2@),
{
    let l = halo2curves::bn256::G1Affine::from_bytes(&lhs.repr.as_slice().into()).unwrap();
    let r = halo2curves::bn256::G1Affine::from_bytes(&rhs.repr.as_slice().into()).unwrap();
    let s = halo2curves::bn256::G2Affine::from_bytes(&s_g2.repr.as_slice().into()).unwrap();
    let g = halo2curves::bn256::G2Affine::from_bytes(&neg_g2.repr.as_slice().into()).unwrap();
    let f = halo2curves::bn256::multi_miller_loop(&[(&l, &s), (&r, &g)]);
    let defined: Option<halo2curves::bn256::Fq12> = f.invert().into();
    defined.map(|_| bool::from(f.final_exponentiation().is_identity()))
}

} // verus!
