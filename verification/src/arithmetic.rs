//! Linear combinations of points, the change from the monomial to the
//! Lagrange basis, and the pairing check that ties an SRS to one secret.

use vstd::prelude::*;
use vstd::arithmetic::power2::pow2;
use vstd::slice::slice_subrange;
use crate::curve::{
    all_fr_valid, all_g1_valid, bytes_equal, fr_pow_repr, fr_random, fr_root_of_unity_inv_pow,
    fr_root_of_unity_inv_pow_repr, fr_two_inv_pow, fr_two_inv_pow_repr, g1_add, g1_fft,
    g1_identity, g1_identity_repr, g1_msm, g1_mul, g1_mul_repr, g1_reprs, g2_neg, g2_neg_repr, pairing_ratio,
    pairing_ratio_check, scalar_reprs, spec_linear_combination, spec_transform, G1Point,
    G2Point, Scalar, MAX_K,
};
use crate::util::pow2_below_64;

verus! {

/// The inverse of the generator of the domain of size `2^k`: the inverse of
/// the root of unity of order `2^28`, raised to `2^(28 - k)`.
pub open spec fn spec_omega_inv(k: u32) -> Seq<u8> {
    fr_root_of_unity_inv_pow_repr(pow2((MAX_K - k) as nat) as u64)
}

/// The Lagrange-basis points of the domain of size `2^k`: the inverse
/// discrete Fourier transform of the monomial points, that is their
/// transform at the inverse generator, each value scaled by `2^-k`.
pub open spec fn spec_g_to_lagrange(g: Seq<Seq<u8>>, k: u32) -> Seq<Seq<u8>> {
    Seq::new(
        g.len(),
        |i: int| g1_mul_repr(spec_transform(g, spec_omega_inv(k), i), fr_two_inv_pow_repr(k)),
    )
}

/// Whether the same-ratio check with coefficients `coeffs` accepts: with
/// `L` the combination of all points but the last and `R` that of all but
/// the first, `e(L, s_g2) * e(R, -g2)` is defined and is the identity. A
/// single point leaves nothing to compare and is accepted.
pub open spec fn spec_same_ratio(
    g: Seq<Seq<u8>>,
    g2: Seq<u8>,
    s_g2: Seq<u8>,
    coeffs: Seq<Seq<u8>>,
) -> bool {
    g.len() <= 1 || pairing_ratio(
        spec_linear_combination(coeffs, g.subrange(0, g.len() - 1)),
        s_g2,
        spec_linear_combination(coeffs, g.subrange(1, g.len() as int)),
        g2_neg_repr(g2),
    ) == Some(true)
}

/// The length of the ranges into which `n` items are split for `workers`
/// workers: `n / workers` rounded up, and one for no items.
pub open spec fn spec_chunk_len(n: int, workers: int) -> int {
    if n == 0 {
        1
    } else {
        (n - 1) / workers + 1
    }
}

/// The lesser of two numbers.
pub open spec fn lesser(a: int, b: int) -> int {
    if a <= b {
        a
    } else {
        b
    }
}

/// Splits `0..n` into the contiguous ranges that workers take: each of the
/// chunk length but the last, which ends at `n`; no more ranges than
/// workers, none of them empty, and none at all for no items.
pub fn chunk_ranges(n: usize, workers: usize) -> (r: Vec<(usize, usize)>)
    requires
        workers > 0,
    ensures
        r@.len() <= workers,
        (r@.len() == 0) == (n == 0),
        forall|i: int|
            0 <= i < r@.len() ==> (#[trigger] r@[i]).0 == i * spec_chunk_len(
                n as int,
                workers as int,
            ) && r@[i].1 == lesser((i + 1) * spec_chunk_len(n as int, workers as int), n as int)
                && r@[i].0 < r@[i].1,
        r@.len() > 0 ==> r@[0].0 == 0 && r@[r@.len() - 1].1 == n,
        forall|i: int| 0 <= i < r@.len() - 1 ==> (#[trigger] r@[i]).1 == r@[i + 1].0,
{
    let chunk: usize = if n == 0 {
        1
    } else {
        (n - 1) / workers + 1
    };
    let mut out: Vec<(usize, usize)> = Vec::new();
    let mut start: usize = 0;
    proof {
        if n > 0 {
            assert(n <= workers * chunk) by (nonlinear_arith)
                requires
                    n > 0,
                    workers > 0,
                    chunk == (n - 1) / (workers as int) + 1,
            ;
        }
    }
    while start < n
        invariant
            chunk == spec_chunk_len(n as int, workers as int),
            chunk >= 1,
            start <= n,
            n <= workers * chunk,
            start < n ==> start == out@.len() * chunk,
            start == n && n > 0 ==> out@.len() > 0 && out@[out@.len() - 1].1 == n,
            (out@.len() == 0) == (start == 0),
            out@.len() <= workers,
            start < n ==> out@.len() < workers,
            forall|i: int|
                0 <= i < out@.len() ==> (#[trigger] out@[i]).0 == i * chunk && out@[i].1 == lesser(
                    (i + 1) * chunk,
                    n as int,
                ) && out@[i].0 < out@[i].1,
        decreases n - start,
    {
        let end: usize = if n - start <= chunk {
            n
        } else {
            start + chunk
        };
        proof {
            let count = out@.len() as int;
            assert((count + 1) * chunk == count * chunk + chunk) by (nonlinear_arith);
            if end < n {
                assert(count + 1 < workers) by (nonlinear_arith)
                    requires
                        (count + 1) * chunk < n,
                        n <= workers * chunk,
                        chunk >= 1,
                ;
            }
        }
        out.push((start, end));
        start = end;
    }
    proof {
        assert forall|i: int| 0 <= i < out@.len() - 1 implies (#[trigger] out@[i]).1 == out@[i
            + 1].0 by {
            assert(out@[i + 1].0 < out@[i + 1].1);
        }
    }
    out
}

/// The number of terms from which the windowed method is used.
pub const WINDOWED_FROM: usize = 32;

/// Whether some base is the identity.
pub fn holds_identity(bases: &[G1Point]) -> (r: bool)
    ensures
        r == exists|i: int| 0 <= i < bases@.len() && (#[trigger] bases@[i])@ == g1_identity_repr(),
{
    let identity = g1_identity();
    let n = bases.len();
    let mut i: usize = 0;
    while i < n
        invariant
            i <= n,
            n == bases@.len(),
            identity@ == g1_identity_repr(),
            forall|j: int| 0 <= j < i ==> (#[trigger] bases@[j])@ != g1_identity_repr(),
        decreases n - i,
    {
        if bytes_equal(bases[i].repr.as_slice(), identity.repr.as_slice()) {
            return true;
        }
        i = i + 1;
    }
    false
}

/// The sum of `coeffs[i] * bases[i]`: by the windowed bucket method for many
/// terms none of whose bases is the identity, and accumulated term by term
/// otherwise. The result does not depend on the method.
pub fn best_multiexp(coeffs: &[Scalar], bases: &[G1Point]) -> (r: G1Point)
    requires
        coeffs@.len() == bases@.len(),
        all_fr_valid(scalar_reprs(coeffs@)),
        all_g1_valid(g1_reprs(bases@)),
    ensures
        r.wf(),
        r@ == spec_linear_combination(scalar_reprs(coeffs@), g1_reprs(bases@)),
{
    let n = bases.len();
    if n >= WINDOWED_FROM && !holds_identity(bases) {
        return g1_msm(coeffs, bases);
    }
    let ghost cs = scalar_reprs(coeffs@);
    let ghost bs = g1_reprs(bases@);
    let mut acc = g1_identity();
    let mut i: usize = 0;
    assert(bs.subrange(0, 0) =~= Seq::<Seq<u8>>::empty());
    while i < n
        invariant
            i <= n,
            n == bases@.len(),
            n == coeffs@.len(),
            cs == scalar_reprs(coeffs@),
            bs == g1_reprs(bases@),
            all_fr_valid(cs),
            all_g1_valid(bs),
            acc.wf(),
            acc@ == spec_linear_combination(cs.subrange(0, i as int), bs.subrange(0, i as int)),
        decreases n - i,
    {
        assert(bs[i as int] == bases@[i as int]@);
        assert(cs[i as int] == coeffs@[i as int]@);
        let term = g1_mul(&bases[i], &coeffs[i]);
        acc = g1_add(&acc, &term);
        proof {
            let done_c = cs.subrange(0, i + 1);
            let done_b = bs.subrange(0, i + 1);
            assert(done_c.drop_last() =~= cs.subrange(0, i as int));
            assert(done_b.drop_last() =~= bs.subrange(0, i as int));
        }
        i = i + 1;
    }
    assert(cs.subrange(0, n as int) =~= cs);
    assert(bs.subrange(0, n as int) =~= bs);
    acc
}

/// Turns the monomial points `g[i] = s^i * G` of a domain of size `2^k`
/// into the commitments to its Lagrange basis polynomials.
pub fn g_to_lagrange(g: &[G1Point], k: u32) -> (r: Vec<G1Point>)
    requires
        k <= MAX_K,
        g@.len() == pow2(k as nat),
        all_g1_valid(g1_reprs(g@)),
    ensures
        r@.len() == g@.len(),
        all_g1_valid(g1_reprs(r@)),
        g1_reprs(r@) == spec_g_to_lagrange(g1_reprs(g@), k),
{
    let n_inv = fr_two_inv_pow(k);
    let omega_inv = fr_root_of_unity_inv_pow(pow2_below_64(MAX_K - k));
    let transformed = g1_fft(g, &omega_inv, k);
    let n = transformed.len();
    let mut out: Vec<G1Point> = Vec::new();
    let mut i: usize = 0;
    while i < n
        invariant
            i <= n,
            n == transformed@.len(),
            n_inv.wf(),
            all_g1_valid(g1_reprs(transformed@)),
            out@.len() == i,
            forall|j: int| 0 <= j < i ==> (#[trigger] out@[j]).wf(),
            forall|j: int|
                0 <= j < i ==> (#[trigger] out@[j])@ == g1_mul_repr(transformed@[j]@, n_inv@),
        decreases n - i,
    {
        assert(g1_reprs(transformed@)[i as int] == transformed@[i as int]@);
        let p = g1_mul(&transformed[i], &n_inv);
        out.push(p);
        i = i + 1;
    }
    proof {
        assert forall|j: int| 0 <= j < n implies g1_reprs(out@)[j] == g1_mul_repr(
            spec_transform(g1_reprs(g@), spec_omega_inv(k), j),
            fr_two_inv_pow_repr(k),
        ) by {
            assert(out@[j]@ == g1_mul_repr(transformed@[j]@, n_inv@));
            assert(Seq::new(g@.len(), |i: int| fr_pow_repr(omega_inv@, (j * i) as u64))
                =~= Seq::new(
                g1_reprs(g@).len(),
                |i: int| fr_pow_repr(spec_omega_inv(k), (j * i) as u64),
            ));
        }
        assert(g1_reprs(out@) =~= spec_g_to_lagrange(g1_reprs(g@), k));
        assert forall|j: int| 0 <= j < n implies crate::curve::g1_valid(
            #[trigger] g1_reprs(out@)[j],
        ) by {
            assert(out@[j].wf());
        }
    }
    out
}

/// The same-ratio check with given coefficients: accepts exactly when the
/// pairing product of the two shifted combinations is the identity.
pub fn same_ratio_with(g1s: &[G1Point], g2: &G2Point, s_g2: &G2Point, coeffs: &[Scalar]) -> (r:
    bool)
    requires
        g1s@.len() >= 1,
        coeffs@.len() == g1s@.len() - 1,
        all_g1_valid(g1_reprs(g1s@)),
        all_fr_valid(scalar_reprs(coeffs@)),
        g2.wf(),
        s_g2.wf(),
    ensures
        r == spec_same_ratio(g1_reprs(g1s@), g2@, s_g2@, scalar_reprs(coeffs@)),
{
    let n = g1s.len();
    if n <= 1 {
        return true;
    }
    let head = slice_subrange(g1s, 0, n - 1);
    let tail = slice_subrange(g1s, 1, n);
    proof {
        assert(g1_reprs(head@) =~= g1_reprs(g1s@).subrange(0, n - 1));
        assert(g1_reprs(tail@) =~= g1_reprs(g1s@).subrange(1, n as int));
        assert forall|j: int| 0 <= j < head@.len() implies crate::curve::g1_valid(
            #[trigger] g1_reprs(head@)[j],
        ) by {
            assert(g1_reprs(head@)[j] == g1_reprs(g1s@)[j]);
        }
        assert forall|j: int| 0 <= j < tail@.len() implies crate::curve::g1_valid(
            #[trigger] g1_reprs(tail@)[j],
        ) by {
            assert(g1_reprs(tail@)[j] == g1_reprs(g1s@)[j + 1]);
        }
    }
    let lhs = best_multiexp(coeffs, head);
    let rhs = best_multiexp(coeffs, tail);
    let neg_g2 = g2_neg(g2);
    match pairing_ratio_check(&lhs, s_g2, &rhs, &neg_g2) {
        Some(holds) => holds,
        None => false,
    }
}

/// Draws `n` scalars from the operating system's random source.
pub fn random_scalars(n: usize) -> (r: Vec<Scalar>)
    ensures
        r@.len() == n,
        all_fr_valid(scalar_reprs(r@)),
{
    let mut out: Vec<Scalar> = Vec::new();
    let mut i: usize = 0;
    while i < n
        invariant
            i <= n,
            out@.len() == i,
            forall|j: int| 0 <= j < i ==> (#[trigger] out@[j]).wf(),
        decreases n - i,
    {
        out.push(fr_random());
        i = i + 1;
    }
    assert forall|j: int| 0 <= j < n implies crate::curve::fr_valid(
        #[trigger] scalar_reprs(out@)[j],
    ) by {
        assert(out@[j].wf());
    }
    out
}

/// The same-ratio check with fresh random coefficients. Whatever was drawn,
/// the answer is that of the check with those coefficients.
pub fn same_ratio(g1s: &[G1Point], g2: &G2Point, s_g2: &G2Point) -> (r: bool)
    requires
        g1s@.len() >= 1,
        all_g1_valid(g1_reprs(g1s@)),
        g2.wf(),
        s_g2.wf(),
    ensures
        exists|coeffs: Seq<Seq<u8>>|
            coeffs.len() == g1s@.len() - 1 && all_fr_valid(coeffs) && r == #[trigger] spec_same_ratio(
                g1_reprs(g1s@),
                g2@,
                s_g2@,
                coeffs,
            ),
        g1s@.len() == 1 ==> r,
{
    let coeffs = random_scalars(g1s.len() - 1);
    let r = same_ratio_with(g1s, g2, s_g2, coeffs.as_slice());
    assert(r == spec_same_ratio(g1_reprs(g1s@), g2@, s_g2@, scalar_reprs(coeffs@)));
    r
}

} // verus!
