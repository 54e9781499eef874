use halo2_kzg_srs::arithmetic::{
    best_multiexp, chunk_ranges, g_to_lagrange, holds_identity, random_scalars, same_ratio,
    same_ratio_with,
};
use halo2_kzg_srs::curve::{Fq as FqBytes, G1Point, G2Point, Scalar};
use halo2_kzg_srs::stream::ByteStream;
use halo2_kzg_srs::util::{
    ec_point_repr_size, field_repr_size, modulus, mont_r, mont_r_inv, perpetual_powers_of_tau,
    pow2_below_64, pse, snarkjs, Group,
};
use halo2_kzg_srs::{Error, Srs, SrsFormat};
use halo2curves::bn256::{Fq, Fq2, Fr, G1Affine, G2Affine, G1, G2};
use halo2curves::ff::{Field, PrimeField};
use halo2curves::group::{Curve, Group as CurveGroup, GroupEncoding};
use halo2curves::serde::SerdeObject;
use halo2curves::CurveAffine;

fn secret() -> Fr {
    Fr::from(0x1234_5678_9abc_def1u64) * Fr::from(0x0fed_cba9_8765_4321u64) + Fr::from(7u64)
}

fn g1_powers(s: Fr, count: usize) -> Vec<G1Affine> {
    let mut out = Vec::new();
    let mut power = Fr::ONE;
    for _ in 0..count {
        out.push((G1::generator() * power).to_affine());
        power *= s;
    }
    out
}

fn g2_powers(s: Fr, count: usize) -> Vec<G2Affine> {
    let mut out = Vec::new();
    let mut power = Fr::ONE;
    for _ in 0..count {
        out.push((G2::generator() * power).to_affine());
        power *= s;
    }
    out
}

fn g1_point(p: &G1Affine) -> G1Point {
    G1Point { repr: p.to_bytes().as_ref().to_vec() }
}

fn g2_point(p: &G2Affine) -> G2Point {
    G2Point { repr: p.to_bytes().as_ref().to_vec() }
}

fn scalar(s: &Fr) -> Scalar {
    Scalar { repr: s.to_repr().as_ref().to_vec() }
}

/// The stored block of a point: its compressed encoding in reversed byte
/// order.
fn ceremony_g1(p: &G1Affine) -> Vec<u8> {
    let mut bytes = p.to_bytes().as_ref().to_vec();
    bytes.reverse();
    bytes
}

fn ceremony_g2(p: &G2Affine) -> Vec<u8> {
    let mut bytes = p.to_bytes().as_ref().to_vec();
    bytes.reverse();
    bytes
}

/// The point that the stored block of `p` stands for: of the two points
/// with its x, the one whose y is the larger exactly where the top bit of
/// the block's final byte is set.
fn stored_g1(p: &G1Affine) -> G1Affine {
    let flag = ceremony_g1(p)[31] & 0x80 != 0;
    let negated = -*p;
    let larger = p.coordinates().unwrap().y() > negated.coordinates().unwrap().y();
    if larger == flag {
        *p
    } else {
        negated
    }
}

fn stored_g2(p: &G2Affine) -> G2Affine {
    let flag = ceremony_g2(p)[63] & 0x80 != 0;
    let negated = -*p;
    let larger = p.coordinates().unwrap().y() > negated.coordinates().unwrap().y();
    if larger == flag {
        *p
    } else {
        negated
    }
}

/// The SRS that a ceremony file made with `s` stands for at degree `k`,
/// where the points it stands for are powers of one secret.
fn ceremony_srs(s: Fr, k: u32) -> Option<Srs> {
    let n = 1usize << k;
    let g: Vec<G1Affine> = g1_powers(s, n).iter().map(stored_g1).collect();
    let g2s: Vec<G2Affine> = g2_powers(s, 2).iter().map(stored_g2).collect();
    let t = if n > 1 && g[1] == (G1::generator() * s).to_affine() { s } else { -s };
    let consistent = g == g1_powers(t, n) && (g2s[0] * t).to_affine() == g2s[1];
    consistent.then(|| Srs {
        k,
        g: g.iter().map(g1_point).collect(),
        g_lagrange: expected_lagrange_from(&g[0], t, k),
        g2: g2_point(&g2s[0]),
        s_g2: g2_point(&g2s[1]),
    })
}

/// A secret whose ceremony file stands for powers of one secret at degree
/// `k`, or with `consistent` false one whose file does not.
fn ceremony_secret(k: u32, consistent: bool) -> Fr {
    let mut s = secret();
    while ceremony_srs(s, k).is_some() != consistent {
        s += Fr::ONE;
    }
    s
}

fn ceremony_file(s: Fr, k: u32) -> Vec<u8> {
    let n = 1usize << k;
    let mut file = vec![0xabu8; 64];
    for p in g1_powers(s, 2 * n - 1) {
        file.extend(ceremony_g1(&p));
    }
    for p in g2_powers(s, 2) {
        file.extend(ceremony_g2(&p));
    }
    file
}

fn radix() -> Fq {
    Fq::from(2u64).pow([256u64])
}

fn residue(x: &Fq) -> Vec<u8> {
    (*x * radix()).to_repr().as_ref().to_vec()
}

fn community_file(s: Fr, k: u32) -> Vec<u8> {
    let n = 1usize << k;
    let mut file = vec![0x11u8; 16];
    file.extend(44u64.to_le_bytes());
    let mut header = vec![0x22u8; 44];
    header[36..40].copy_from_slice(&k.to_le_bytes());
    file.extend(header);
    file.extend(vec![0x33u8; 12]);
    for p in g1_powers(s, 2 * n - 1) {
        let c = p.coordinates().unwrap();
        file.extend(residue(c.x()));
        file.extend(residue(c.y()));
    }
    file.extend(vec![0x44u8; 12]);
    for p in g2_powers(s, 2) {
        let c = p.coordinates().unwrap();
        file.extend(residue(&c.x().c0()));
        file.extend(residue(&c.x().c1()));
        file.extend(residue(&c.y().c0()));
        file.extend(residue(&c.y().c1()));
    }
    file
}

fn expected_lagrange(s: Fr, k: u32) -> Vec<G1Point> {
    expected_lagrange_from(&G1Affine::generator(), s, k)
}

fn expected_lagrange_from(base: &G1Affine, s: Fr, k: u32) -> Vec<G1Point> {
    let n = 1u64 << k;
    let mut omega = Fr::ROOT_OF_UNITY;
    for _ in k..Fr::S {
        omega = omega.square();
    }
    let vanishing = s.pow([n]) - Fr::ONE;
    let n_inv = Fr::from(n).invert().unwrap();
    let mut out = Vec::new();
    let mut root = Fr::ONE;
    for _ in 0..n {
        let value = vanishing * root * n_inv * (s - root).invert().unwrap();
        out.push(g1_point(&(*base * value).to_affine()));
        root *= omega;
    }
    out
}

fn genuine(k: u32) -> Srs {
    let s = secret();
    let n = 1usize << k;
    let g: Vec<G1Point> = g1_powers(s, n).iter().map(g1_point).collect();
    let g2s = g2_powers(s, 2);
    Srs {
        k,
        g_lagrange: expected_lagrange(s, k),
        g,
        g2: g2_point(&g2s[0]),
        s_g2: g2_point(&g2s[1]),
    }
}

#[test]
fn test_perpetual_powers_of_tau() {
    let s = ceremony_secret(2, true);
    let file = ceremony_file(s, 2);
    let from_perpetual_powers_of_tau =
        Srs::read(&mut ByteStream::new(file), SrsFormat::PerpetualPowerOfTau(2)).unwrap();
    let from_pse = {
        let mut buf = Vec::new();
        from_perpetual_powers_of_tau.write(&mut buf);
        Srs::read(&mut ByteStream::new(buf), SrsFormat::Pse).unwrap()
    };
    assert_eq!(from_perpetual_powers_of_tau, from_pse);
    assert_eq!(from_perpetual_powers_of_tau, ceremony_srs(s, 2).unwrap());
}

#[test]
fn ceremony_file_decodes_by_the_flag_of_the_final_byte() {
    let s = secret();
    let file = ceremony_file(s, 8);
    let decoded =
        Srs::parse(&mut ByteStream::new(file), SrsFormat::PerpetualPowerOfTau(8), 8).unwrap();
    let g: Vec<G1Point> = g1_powers(s, 256).iter().map(|p| g1_point(&stored_g1(p))).collect();
    let g2s: Vec<G2Point> = g2_powers(s, 2).iter().map(|p| g2_point(&stored_g2(p))).collect();
    assert_eq!(decoded.k, 8);
    assert_eq!(decoded.g, g);
    assert_eq!(decoded.g_lagrange.len(), 256);
    assert_eq!(decoded.g2, g2s[0]);
    assert_eq!(decoded.s_g2, g2s[1]);
    assert!(g1_powers(s, 256).iter().any(|p| stored_g1(p) != *p));
    assert!(g1_powers(s, 256).iter().any(|p| stored_g1(p) == *p));
    let mut buf = Vec::new();
    decoded.write(&mut buf);
    assert_eq!(Srs::parse(&mut ByteStream::new(buf), SrsFormat::Pse, 8), Ok(decoded));
}

#[test]
fn ceremony_file_of_mixed_signs_fails_validation() {
    let s = ceremony_secret(2, false);
    let file = ceremony_file(s, 2);
    let r = Srs::read(&mut ByteStream::new(file), SrsFormat::PerpetualPowerOfTau(2));
    assert_eq!(r, Err(Error::ValidationFailure));
}

#[test]
fn test_snarkjs() {
    let file = community_file(secret(), 8);
    let from_snarkjs = Srs::read(&mut ByteStream::new(file), SrsFormat::SnarkJs).unwrap();
    let from_pse = {
        let mut buf = Vec::new();
        from_snarkjs.write(&mut buf);
        Srs::read(&mut ByteStream::new(buf), SrsFormat::Pse).unwrap()
    };
    assert_eq!(from_snarkjs, from_pse);
    assert_eq!(from_snarkjs, genuine(8));
}

#[test]
fn raw_encoding_round_trip() {
    let srs = genuine(3);
    let mut buf = Vec::new();
    srs.write_raw(&mut buf);
    assert_eq!(buf.len(), 4 + 2 * 8 * 64 + 2 * 128);
    assert_eq!(&buf[..4], &[3u8, 0, 0, 0][..]);
    let expected = G1Affine::from_bytes(&srs.g[1].repr.as_slice().into()).unwrap().to_raw_bytes();
    assert_eq!(&buf[68..132], expected.as_slice());
    let back = Srs::read(&mut ByteStream::new(buf), SrsFormat::PseRaw).unwrap();
    assert_eq!(back, srs);
}

#[test]
fn canonical_encoding_layout() {
    let srs = genuine(2);
    let mut buf = vec![9u8];
    srs.write(&mut buf);
    assert_eq!(buf.len(), 1 + 4 + 4 * 32 + 4 * 32 + 64 + 64);
    assert_eq!(&buf[1..5], &[2u8, 0, 0, 0][..]);
    assert_eq!(&buf[5..37], srs.g[0].repr.as_slice());
    assert_eq!(&buf[5 + 128..5 + 160], srs.g_lagrange[0].repr.as_slice());
    assert_eq!(&buf[5 + 256..5 + 320], srs.g2.repr.as_slice());
    assert_eq!(&buf[5 + 320..], srs.s_g2.repr.as_slice());
}

#[test]
fn partial_read_recomputes_lagrange() {
    let mut buf = Vec::new();
    genuine(4).write(&mut buf);
    let srs = Srs::read_partial(&mut ByteStream::new(buf), SrsFormat::Pse, 2).unwrap();
    assert_eq!(srs, genuine(2));
    assert_eq!(srs.g.len(), 4);
    assert_eq!(srs.g_lagrange.len(), 4);
}

#[test]
fn partial_read_of_ceremony_file() {
    let s = ceremony_secret(1, true);
    let file = ceremony_file(s, 3);
    let srs =
        Srs::read_partial(&mut ByteStream::new(file), SrsFormat::PerpetualPowerOfTau(3), 1).unwrap();
    assert_eq!(srs, ceremony_srs(s, 1).unwrap());
}

#[test]
fn degree_zero_is_accepted() {
    let file = community_file(secret(), 2);
    let srs = Srs::read_partial(&mut ByteStream::new(file), SrsFormat::SnarkJs, 0).unwrap();
    assert_eq!(srs, genuine(0));
    assert!(srs.validate());
}

#[test]
fn degree_exceeding_file_is_rejected() {
    let mut buf = Vec::new();
    genuine(2).write(&mut buf);
    let r = Srs::read_partial(&mut ByteStream::new(buf), SrsFormat::Pse, 3);
    assert_eq!(r, Err(Error::DegreeTooLarge));
    let r = Srs::read_partial(
        &mut ByteStream::new(ceremony_file(secret(), 2)),
        SrsFormat::PerpetualPowerOfTau(2),
        3,
    );
    assert_eq!(r, Err(Error::DegreeTooLarge));
    let r = Srs::read_partial(&mut ByteStream::new(community_file(secret(), 2)), SrsFormat::SnarkJs, 3);
    assert_eq!(r, Err(Error::DegreeTooLarge));
    let r = Srs::parse(
        &mut ByteStream::new(ceremony_file(secret(), 1)),
        SrsFormat::PerpetualPowerOfTau(40),
        29,
    );
    assert_eq!(r, Err(Error::DegreeTooLarge));
}

#[test]
fn truncated_file_is_an_io_error() {
    let mut buf = Vec::new();
    genuine(2).write(&mut buf);
    buf.truncate(buf.len() - 1);
    assert_eq!(Srs::read(&mut ByteStream::new(buf.clone()), SrsFormat::Pse), Err(Error::Io));
    buf.truncate(3);
    assert_eq!(Srs::read(&mut ByteStream::new(buf), SrsFormat::Pse), Err(Error::Io));
    let mut file = community_file(secret(), 1);
    file.truncate(20);
    assert_eq!(Srs::read(&mut ByteStream::new(file), SrsFormat::SnarkJs), Err(Error::Io));
    let mut file = community_file(secret(), 1);
    file[16..24].copy_from_slice(&u64::MAX.to_le_bytes());
    assert_eq!(Srs::read(&mut ByteStream::new(file), SrsFormat::SnarkJs), Err(Error::Io));
    let file = ceremony_file(secret(), 1);
    let r = Srs::read(&mut ByteStream::new(file), SrsFormat::PerpetualPowerOfTau(2));
    assert_eq!(r, Err(Error::Io));
}

#[test]
fn off_curve_bytes_are_malformed() {
    let mut buf = Vec::new();
    genuine(2).write(&mut buf);
    for b in buf[4 + 32..4 + 64].iter_mut() {
        *b = 0xff;
    }
    assert_eq!(Srs::read(&mut ByteStream::new(buf), SrsFormat::Pse), Err(Error::MalformedPoint));
    let mut file = ceremony_file(secret(), 1);
    for b in file[64..96].iter_mut() {
        *b = 0x7f;
    }
    let r = Srs::read(&mut ByteStream::new(file), SrsFormat::PerpetualPowerOfTau(1));
    assert_eq!(r, Err(Error::MalformedPoint));
    let mut file = community_file(secret(), 1);
    file[80] ^= 1;
    assert_eq!(Srs::read(&mut ByteStream::new(file), SrsFormat::SnarkJs), Err(Error::MalformedPoint));
}

#[test]
fn perturbed_point_fails_validation() {
    for index in 0..4usize {
        let mut srs = genuine(2);
        srs.g[index] = g1_point(&(G1::generator() * Fr::from(5u64)).to_affine());
        let mut buf = Vec::new();
        srs.write(&mut buf);
        for _ in 0..3 {
            let r = Srs::read(&mut ByteStream::new(buf.clone()), SrsFormat::Pse);
            assert_eq!(r, Err(Error::ValidationFailure));
        }
        assert!(!srs.validate());
        assert_eq!(Srs::parse(&mut ByteStream::new(buf), SrsFormat::Pse, 2), Ok(srs));
    }
}

#[test]
fn wrong_secret_in_g2_fails_validation() {
    let mut srs = genuine(2);
    srs.s_g2 = g2_point(&(G2::generator() * Fr::from(3u64)).to_affine());
    assert!(!srs.validate());
    let coeffs = vec![scalar(&Fr::from(1u64)), scalar(&Fr::from(2u64)), scalar(&Fr::from(3u64))];
    assert!(!srs.validate_with(&coeffs));
    assert!(genuine(2).validate_with(&coeffs));
}

#[test]
fn same_ratio_accepts_genuine_powers() {
    let srs = genuine(3);
    for _ in 0..3 {
        assert!(same_ratio(&srs.g, &srs.g2, &srs.s_g2));
    }
    let coeffs = random_scalars(7);
    assert_eq!(coeffs.len(), 7);
    assert!(same_ratio_with(&srs.g, &srs.g2, &srs.s_g2, &coeffs));
    assert!(same_ratio(&srs.g[..1], &srs.g2, &srs.s_g2));
    let mut swapped = srs.g.clone();
    swapped.swap(2, 5);
    assert!(!same_ratio(&swapped, &srs.g2, &srs.s_g2));
}

#[test]
fn multiexp_is_the_linear_combination() {
    for count in [0usize, 1, 5, 31, 32, 40] {
        let bases = g1_powers(secret(), count);
        let coeffs: Vec<Fr> = (0..count as u64).map(|i| Fr::from(3 * i + 2)).collect();
        let mut expected = G1::identity();
        for (c, b) in coeffs.iter().zip(bases.iter()) {
            expected += *b * *c;
        }
        let got = best_multiexp(
            &coeffs.iter().map(scalar).collect::<Vec<_>>(),
            &bases.iter().map(g1_point).collect::<Vec<_>>(),
        );
        assert_eq!(got, g1_point(&expected.to_affine()));
    }
}

#[test]
fn multiexp_with_identity_bases() {
    let identity = best_multiexp(&[], &[]);
    assert!(holds_identity(&[g1_point(&G1Affine::generator()), identity.clone()]));
    assert!(!holds_identity(&[g1_point(&G1Affine::generator())]));
    assert!(!holds_identity(&[]));
    let points = g1_powers(secret(), 40);
    let mut bases: Vec<G1Point> = points.iter().map(g1_point).collect();
    bases[7] = identity.clone();
    bases[39] = identity.clone();
    let coeffs: Vec<Fr> = (0..40u64).map(|i| Fr::from(5 * i + 1)).collect();
    let mut expected = G1::identity();
    for (i, (c, b)) in coeffs.iter().zip(points.iter()).enumerate() {
        if i != 7 && i != 39 {
            expected += *b * *c;
        }
    }
    let got = best_multiexp(&coeffs.iter().map(scalar).collect::<Vec<_>>(), &bases);
    assert_eq!(got, g1_point(&expected.to_affine()));
    let all_identity = vec![identity.clone(); 33];
    let coeffs: Vec<Scalar> = (0..33u64).map(|i| scalar(&Fr::from(i + 1))).collect();
    assert_eq!(best_multiexp(&coeffs, &all_identity), identity);
}

#[test]
fn empty_combination_is_the_identity() {
    let mut identity = vec![0u8; 32];
    identity[31] = 0x40;
    assert_eq!(best_multiexp(&[], &[]), G1Point { repr: identity });
    let zero = scalar(&Fr::ZERO);
    let p = g1_point(&G1Affine::generator());
    assert_eq!(best_multiexp(&[zero], &[p]), best_multiexp(&[], &[]));
}

#[test]
fn lagrange_basis_matches_closed_form() {
    for k in 0..4u32 {
        let g: Vec<G1Point> = g1_powers(secret(), 1 << k).iter().map(g1_point).collect();
        assert_eq!(g_to_lagrange(&g, k), expected_lagrange(secret(), k));
    }
}

#[test]
fn downsize_truncates_and_recomputes() {
    let mut srs = genuine(4);
    srs.downsize(4);
    assert_eq!(srs, genuine(4));
    srs.downsize(2);
    assert_eq!(srs, genuine(2));
    assert_eq!(srs.k, 2);
    assert_eq!(srs.g.len(), 4);
    assert_eq!(srs.g_lagrange.len(), 4);
    assert!(srs.validate());
    srs.downsize(0);
    assert_eq!(srs, genuine(0));
}

#[test]
fn downsize_in_two_steps_equals_one_step() {
    let mut stepwise = genuine(4);
    stepwise.downsize(3);
    stepwise.downsize(1);
    let mut direct = genuine(4);
    direct.downsize(1);
    assert_eq!(stepwise, direct);
}

#[test]
fn sizes_and_offsets() {
    assert_eq!(field_repr_size(), 32);
    assert_eq!(ec_point_repr_size(Group::G1), 32);
    assert_eq!(ec_point_repr_size(Group::G2), 64);
    assert_eq!(pse::G1_OFFSET, 4);
    assert_eq!(perpetual_powers_of_tau::G1_OFFSET, 64);
    assert_eq!(snarkjs::HEADER_SIZE_OFFSET, 16);
    assert_eq!(snarkjs::HEADER_OFFSET, 24);
    assert_eq!(perpetual_powers_of_tau::g2_offset(0), 96);
    assert_eq!(perpetual_powers_of_tau::g2_offset(8), 64 + 32 * 511);
    assert_eq!(perpetual_powers_of_tau::g2_offset(28), 17179869216);
    assert_eq!(pow2_below_64(0), 1);
    assert_eq!(pow2_below_64(63), 1u64 << 63);
}

#[test]
fn community_header_offsets() {
    let file = community_file(secret(), 3);
    let mut reader = ByteStream::new(file);
    assert_eq!(snarkjs::read_header_size(&mut reader), Ok(44));
    assert_eq!(snarkjs::read_k(&mut reader), Ok(3));
    assert_eq!(snarkjs::read_g1_offset(&mut reader), Ok(80));
    assert_eq!(snarkjs::read_g2_offset(&mut reader), Ok(80 + 64 * 15 + 12));
    assert_eq!(reader.pos, 24);
    let mut short = ByteStream::new(vec![0u8; 23]);
    assert_eq!(snarkjs::read_header_size(&mut short), Err(Error::Io));
    assert_eq!(snarkjs::read_g1_offset(&mut short), Err(Error::Io));
}

#[test]
fn community_header_reads_leave_the_position_behind_the_bytes_read() {
    let mut bytes = vec![0u8; 24];
    bytes[16] = 1;
    bytes[17] = 2;
    let mut reader = ByteStream::new(bytes);
    reader.seek(5);
    assert_eq!(snarkjs::read_header_size(&mut reader), Ok(513));
    assert_eq!(reader.pos, 24);

    let mut bytes = vec![0u8; 24];
    bytes[17] = 1;
    bytes[20] = 1;
    let mut reader = ByteStream::new(bytes);
    assert_eq!(snarkjs::read_g1_offset(&mut reader), Ok(4294967588));
    assert_eq!(reader.pos, 24);

    let mut bytes = vec![0u8; 44];
    bytes[16] = 20;
    bytes[36] = 7;
    let mut reader = ByteStream::new(bytes);
    assert_eq!(snarkjs::read_k(&mut reader), Ok(7));
    assert_eq!(reader.pos, 40);
}

#[test]
fn community_readers_in_place_and_by_offset() {
    let s = secret();
    let mut reader = ByteStream::new(community_file(s, 1));
    let expected_g1: Vec<G1Point> = g1_powers(s, 3).iter().map(g1_point).collect();
    let expected_g2: Vec<G2Point> = g2_powers(s, 2).iter().map(g2_point).collect();
    assert_eq!(snarkjs::read_g1s::<false>(&mut reader, 2), Ok(expected_g1[..2].to_vec()));
    assert_eq!(reader.pos, 80 + 2 * 64);
    assert_eq!(snarkjs::read_g1s::<true>(&mut reader, 1), Ok(expected_g1[2..].to_vec()));
    assert_eq!(reader.pos, 80 + 3 * 64);
    assert_eq!(snarkjs::read_g2s::<false>(&mut reader, 1), Ok(expected_g2[..1].to_vec()));
    assert_eq!(reader.pos, 80 + 3 * 64 + 12 + 128);
    assert_eq!(snarkjs::read_g2s::<true>(&mut reader, 1), Ok(expected_g2[1..].to_vec()));
    assert_eq!(reader.pos, 80 + 3 * 64 + 12 + 256);
    assert_eq!(snarkjs::read_g2s::<false>(&mut reader, 2), Ok(expected_g2));
    assert_eq!(reader.pos, 80 + 3 * 64 + 12 + 256);
}

#[test]
fn native_readers_in_place_and_by_offset() {
    let srs = genuine(2);
    let mut buf = Vec::new();
    srs.write(&mut buf);
    let mut reader = ByteStream::new(buf);
    assert_eq!(pse::read_k(&mut reader), Ok(2));
    assert_eq!(pse::read_g1s::<false, true>(&mut reader, 4), Ok(srs.g.clone()));
    assert_eq!(pse::read_g1s::<false, true>(&mut reader, 4), Ok(srs.g_lagrange.clone()));
    assert_eq!(
        pse::read_g2s::<false, true>(&mut reader, 2),
        Ok(vec![srs.g2.clone(), srs.s_g2.clone()])
    );
    assert_eq!(pse::read_g1s::<false, true>(&mut reader, 1), Err(Error::Io));
    assert_eq!(pse::read_g1s::<false, false>(&mut reader, 2), Ok(srs.g[..2].to_vec()));
    assert_eq!(pse::read_g2s::<false, false>(&mut reader, 1), Ok(vec![srs.g2.clone()]));
    assert_eq!(pse::read_g1s::<false, false>(&mut reader, 0), Ok(vec![]));
}

#[test]
fn ceremony_readers_in_place_and_by_offset() {
    let s = secret();
    let file = ceremony_file(s, 2);
    let g2_at = perpetual_powers_of_tau::g2_offset(2);
    let mut reader = ByteStream::new(file.clone());
    let expected_g1: Vec<G1Point> =
        g1_powers(s, 7).iter().map(|p| g1_point(&stored_g1(p))).collect();
    let expected_g2: Vec<G2Point> =
        g2_powers(s, 2).iter().map(|p| g2_point(&stored_g2(p))).collect();
    assert_eq!(perpetual_powers_of_tau::read_g1s::<false>(&mut reader, 7), Ok(expected_g1));
    assert_eq!(reader.pos, g2_at);
    assert_eq!(
        perpetual_powers_of_tau::read_g2s::<true>(&mut reader, 2, 2),
        Ok(expected_g2.clone())
    );
    assert_eq!(reader.pos, g2_at + 128);
    assert_eq!(perpetual_powers_of_tau::read_g2s::<false>(&mut reader, 2, 1), Ok(expected_g2[..1].to_vec()));
    assert_eq!(reader.pos, g2_at + 64);
    let mut tail = ByteStream::new(file[g2_at as usize..].to_vec());
    assert!(perpetual_powers_of_tau::read_g2s::<true>(&mut tail, 28, 2).is_ok());
}

#[test]
fn sign_flag_selects_between_candidate_and_negation() {
    assert!(!perpetual_powers_of_tau::select_sign(false, false));
    assert!(perpetual_powers_of_tau::select_sign(true, false));
    assert!(perpetual_powers_of_tau::select_sign(false, true));
    assert!(!perpetual_powers_of_tau::select_sign(true, true));
    assert_eq!(perpetual_powers_of_tau::reversed(&[1, 2, 3]), vec![3, 2, 1]);
    let mut flags_seen = [false, false];
    for i in 1..17u64 {
        let p = (G1::generator() * Fr::from(i)).to_affine();
        let stored = ceremony_g1(&p);
        let flag = stored[31] & 0x80 != 0;
        flags_seen[flag as usize] = true;
        let got = perpetual_powers_of_tau::decode_g1(&stored).unwrap();
        assert_eq!(got, g1_point(&stored_g1(&p)));
        let point = G1Affine::from_bytes(&got.repr.as_slice().into()).unwrap();
        assert!(point == p || point == -p);
        let larger = point.coordinates().unwrap().y() > (-point).coordinates().unwrap().y();
        assert_eq!(larger, flag);
        let mut other_sign = stored.clone();
        other_sign[0] ^= 0x80;
        assert_eq!(perpetual_powers_of_tau::decode_g1(&other_sign), Some(got));
        assert_eq!(perpetual_powers_of_tau::decode_g1(&ceremony_g1(&-p)), Some(g1_point(&point)));

        let q = (G2::generator() * Fr::from(i)).to_affine();
        let stored = ceremony_g2(&q);
        let flag = stored[63] & 0x80 != 0;
        let got = perpetual_powers_of_tau::decode_g2(&stored).unwrap();
        assert_eq!(got, g2_point(&stored_g2(&q)));
        let point = G2Affine::from_bytes(&got.repr.as_slice().into()).unwrap();
        assert!(point == q || point == -q);
        let larger = point.coordinates().unwrap().y() > (-point).coordinates().unwrap().y();
        assert_eq!(larger, flag);
        let mut other_sign = stored.clone();
        other_sign[0] ^= 0x80;
        assert_eq!(perpetual_powers_of_tau::decode_g2(&other_sign), Some(got));
    }
    assert_eq!(flags_seen, [true, true]);
}

#[test]
fn montgomery_constants() {
    let p_minus_one = (-Fq::ONE).to_repr().as_ref().to_vec();
    let mut expected = p_minus_one.clone();
    expected[0] += 1;
    assert_eq!(modulus(), expected);
    assert_eq!(mont_r(), Some(FqBytes { repr: radix().to_repr().as_ref().to_vec() }));
    let inverse = radix().invert().unwrap();
    assert_eq!(mont_r_inv(), Some(FqBytes { repr: inverse.to_repr().as_ref().to_vec() }));
    let x = Fq::from(123456789u64);
    assert_eq!(
        snarkjs::recover(&residue(&x), &mont_r_inv().unwrap()),
        Some(FqBytes { repr: x.to_repr().as_ref().to_vec() })
    );
    assert_eq!(snarkjs::recover(&[0xffu8; 32], &mont_r_inv().unwrap()), None);
}

#[test]
fn community_block_decoding() {
    let r_inv = mont_r_inv();
    let p = (G1::generator() * Fr::from(11u64)).to_affine();
    let c = p.coordinates().unwrap();
    let mut block = residue(c.x());
    block.extend(residue(c.y()));
    assert_eq!(snarkjs::decode_g1(&block, &r_inv), Some(g1_point(&p)));
    let mut plain = c.x().to_repr().as_ref().to_vec();
    plain.extend(c.y().to_repr().as_ref());
    assert_eq!(snarkjs::decode_g1(&plain, &r_inv), None);
    let q = (G2::generator() * Fr::from(11u64)).to_affine();
    let c = q.coordinates().unwrap();
    let mut block = residue(&c.x().c0());
    block.extend(residue(&c.x().c1()));
    block.extend(residue(&c.y().c0()));
    block.extend(residue(&c.y().c1()));
    assert_eq!(snarkjs::decode_g2(&block, &r_inv), Some(g2_point(&q)));
    let _ = Fq2::ONE;
}

#[test]
fn point_and_scalar_decoding() {
    let p = G1Affine::generator();
    let bytes = p.to_bytes();
    assert_eq!(G1Point::from_bytes(bytes.as_ref()), Some(g1_point(&p)));
    assert_eq!(G1Point::from_bytes(&bytes.as_ref()[..31]), None);
    assert_eq!(G1Point::from_bytes(&[0xffu8; 32]), None);
    let q = G2Affine::generator();
    assert_eq!(G2Point::from_bytes(q.to_bytes().as_ref()), Some(g2_point(&q)));
    assert_eq!(G2Point::from_bytes(&[0xffu8; 64]), None);
    assert_eq!(g2_point(&q).duplicate(), g2_point(&q));
    assert_eq!(g1_point(&p).duplicate(), g1_point(&p));
    let s = Fr::from(99u64);
    assert_eq!(Scalar::from_bytes(s.to_repr().as_ref()), Some(scalar(&s)));
    assert_eq!(Scalar::from_bytes(&[0xffu8; 32]), None);
    assert_eq!(FqBytes::from_bytes(&[0xffu8; 32]), None);
}

#[test]
fn stream_reads_and_seeks() {
    let mut reader = ByteStream::new(vec![1, 0, 0, 0, 2, 0, 0, 0, 0, 0, 0, 0, 9]);
    assert_eq!(reader.len(), 13);
    assert_eq!(reader.read_u32_le(), Ok(1));
    assert_eq!(reader.read_u64_le(), Ok(2));
    assert_eq!(reader.read_exact(2), Err(Error::Io));
    assert_eq!(reader.pos, 12);
    assert_eq!(reader.read_exact(1), Ok(vec![9]));
    reader.seek(100);
    assert_eq!(reader.read_exact(1), Err(Error::Io));
    assert_eq!(reader.read_exact(0), Err(Error::Io));
    reader.rewind();
    assert_eq!(reader.read_blocks(2, 2), Ok(vec![1, 0, 0, 0]));
    assert_eq!(reader.read_blocks(usize::MAX, 2), Err(Error::Io));
    reader.seek(1);
    assert_eq!(reader.read_u32_le(), Ok(0x0200_0000));
}

#[test]
fn well_formedness_is_tested_point_by_point() {
    let srs = genuine(2);
    assert!(srs.is_well_formed());
    let mut short = genuine(2);
    short.g.pop();
    assert!(!short.is_well_formed());
    let mut broken = genuine(2);
    broken.g_lagrange[1].repr[3] ^= 0xff;
    broken.g_lagrange[1].repr[31] = 0xff;
    assert!(!broken.is_well_formed());
    let mut wrong_degree = genuine(2);
    wrong_degree.k = 3;
    assert!(!wrong_degree.is_well_formed());
    assert!(g1_point(&G1Affine::generator()).is_valid());
    assert!(!G1Point { repr: vec![1, 2, 3] }.is_valid());
    assert!(!G2Point { repr: vec![0xff; 64] }.is_valid());
    assert!(scalar(&Fr::from(5u64)).is_valid());
    assert!(!Scalar { repr: vec![0xff; 32] }.is_valid());
}

#[test]
fn checked_downsize_refuses_what_it_cannot_do() {
    let mut srs = genuine(3);
    assert!(!srs.try_downsize(4));
    assert_eq!(srs, genuine(3));
    assert!(srs.try_downsize(1));
    assert_eq!(srs, genuine(1));
    let mut short = genuine(2);
    short.g_lagrange.pop();
    let before = short.clone();
    assert!(!short.try_downsize(1));
    assert_eq!(short, before);
}

#[test]
fn raw_layout_of_single_points() {
    let p = (G1::generator() * Fr::from(17u64)).to_affine();
    assert_eq!(g1_point(&p).to_raw_bytes(), p.to_raw_bytes());
    assert_eq!(g1_point(&p).to_raw_bytes().len(), 64);
    let q = (G2::generator() * Fr::from(17u64)).to_affine();
    assert_eq!(g2_point(&q).to_raw_bytes(), q.to_raw_bytes());
    assert_eq!(g2_point(&q).to_raw_bytes().len(), 128);
}

#[test]
fn ranges_for_workers_cover_all_items() {
    assert_eq!(chunk_ranges(0, 4), vec![]);
    assert_eq!(chunk_ranges(10, 4), vec![(0, 3), (3, 6), (6, 9), (9, 10)]);
    assert_eq!(chunk_ranges(8, 4), vec![(0, 2), (2, 4), (4, 6), (6, 8)]);
    assert_eq!(chunk_ranges(3, 8), vec![(0, 1), (1, 2), (2, 3)]);
    assert_eq!(chunk_ranges(9, 4), vec![(0, 3), (3, 6), (6, 9)]);
    assert_eq!(chunk_ranges(5, 1), vec![(0, 5)]);
    assert_eq!(chunk_ranges(usize::MAX, 1), vec![(0, usize::MAX)]);
}

#[test]
fn equality_compares_all_five_fields() {
    let srs = genuine(2);
    assert!(srs == genuine(2));
    let mut other = genuine(2);
    other.k = 3;
    assert!(srs != other);
    let mut other = genuine(2);
    other.g.swap(0, 1);
    assert!(srs != other);
    let mut other = genuine(2);
    other.g_lagrange.pop();
    assert!(srs != other);
    let mut other = genuine(2);
    other.g2 = other.s_g2.clone();
    assert!(srs != other);
    let mut other = genuine(2);
    other.s_g2 = other.g2.clone();
    assert!(srs != other);
}
