//! Laws that relate encoding, decoding and downsizing.

use vstd::prelude::*;
use vstd::arithmetic::power2::{lemma_pow2_strictly_increases, pow2};
use crate::curve::{g1_from_raw_repr, g1_raw_repr, g2_from_raw_repr, g2_raw_repr, G1_RAW_SIZE, G2_RAW_SIZE};
use crate::stream::{lemma_u32_le_round_trip, spec_u32_from_le, spec_u32_to_le};
use crate::util::pse;
use crate::util::{
    block, decode_g1_block, decode_g2_block, g1_block_size, g2_block_size, spec_read_g1_points,
    spec_read_g2_points, Codec,
};
use crate::{
    concat, decodes_to_itself, spec_downsize, spec_encode, spec_encode_raw, spec_file_degree,
    spec_parse, spec_read_result, Srs, SrsFormat, SrsView,
};

verus! {

/// Downsizing in two steps gives what downsizing in one step gives.
pub proof fn lemma_downsize_composes(v: SrsView, k1: u32, k2: u32)
    requires
        v.wf(),
        k2 <= k1 <= v.k,
    ensures
        spec_downsize(spec_downsize(v, k1), k2) == spec_downsize(v, k2),
{
    if k1 < v.k {
        lemma_pow2_strictly_increases(k1 as nat, v.k as nat);
    }
    if k2 < k1 {
        lemma_pow2_strictly_increases(k2 as nat, k1 as nat);
        let n2 = pow2(k2 as nat) as int;
        assert(spec_downsize(v, k1).g.subrange(0, n2) =~= v.g.subrange(0, n2));
    }
}

/// Downsizing keeps the invariant's lengths: both bases hold `2^k` points.
pub proof fn lemma_downsize_lengths(v: SrsView, k: u32)
    requires
        v.wf(),
        k <= v.k,
    ensures
        spec_downsize(v, k).k == k,
        spec_downsize(v, k).g.len() == pow2(k as nat),
        spec_downsize(v, k).g_lagrange.len() == pow2(k as nat),
{
    if k < v.k {
        lemma_pow2_strictly_increases(k as nat, v.k as nat);
    }
}

/// The concatenation of blocks of one size has their total length.
pub proof fn lemma_concat_len(blocks: Seq<Seq<u8>>, size: nat)
    requires
        forall|i: int| 0 <= i < blocks.len() ==> (#[trigger] blocks[i]).len() == size,
    ensures
        concat(blocks).len() == blocks.len() * size,
    decreases blocks.len(),
{
    if blocks.len() > 0 {
        lemma_concat_len(blocks.drop_last(), size);
        assert(blocks.len() * size == (blocks.len() - 1) * size + size) by (nonlinear_arith);
    }
}

/// Between a prefix and a suffix, the `i`-th block of a concatenation of
/// blocks of one size is the `i`-th of them.
pub proof fn lemma_block_of_concat(
    prefix: Seq<u8>,
    blocks: Seq<Seq<u8>>,
    suffix: Seq<u8>,
    size: nat,
    i: int,
)
    requires
        forall|j: int| 0 <= j < blocks.len() ==> (#[trigger] blocks[j]).len() == size,
        0 <= i < blocks.len(),
    ensures
        block(prefix + concat(blocks) + suffix, prefix.len() as int, size as int, i) == blocks[i],
    decreases blocks.len(),
{
    let init = blocks.drop_last();
    let whole = prefix + concat(blocks) + suffix;
    lemma_concat_len(init, size);
    lemma_concat_len(blocks, size);
    assert(blocks.len() * size == (blocks.len() - 1) * size + size) by (nonlinear_arith);
    if i == blocks.len() - 1 {
        assert(block(whole, prefix.len() as int, size as int, i) =~= blocks[i]);
    } else {
        lemma_block_of_concat(prefix, init, blocks.last() + suffix, size, i);
        assert((i + 1) * size <= (blocks.len() - 1) * size) by (nonlinear_arith)
            requires
                i + 1 <= blocks.len() - 1,
        ;
        assert(i * size + size == (i + 1) * size) by (nonlinear_arith);
        assert(whole =~= prefix + concat(init) + (blocks.last() + suffix));
        assert(init[i] == blocks[i]);
    }
}

/// G1 points whose stored blocks lie one after another from `start` are
/// read back in order.
pub proof fn lemma_read_back_g1(data: Seq<u8>, start: int, points: Seq<Seq<u8>>, codec: Codec)
    requires
        0 <= start,
        start + points.len() * g1_block_size(codec) <= data.len(),
        forall|i: int|
            0 <= i < points.len() ==> decode_g1_block(
                codec,
                #[trigger] block(data, start, g1_block_size(codec) as int, i),
            ) == Some(points[i]),
    ensures
        spec_read_g1_points(data, start, points.len() as int, codec) == Ok::<
            Seq<Seq<u8>>,
            crate::Error,
        >(points),
{
    let got = Seq::new(
        points.len(),
        |i: int| decode_g1_block(codec, block(data, start, g1_block_size(codec) as int, i)).unwrap(),
    );
    assert(got =~= points);
}

/// G2 points whose stored blocks lie one after another from `start` are
/// read back in order.
pub proof fn lemma_read_back_g2(data: Seq<u8>, start: int, points: Seq<Seq<u8>>, codec: Codec)
    requires
        0 <= start,
        start + points.len() * g2_block_size(codec) <= data.len(),
        forall|i: int|
            0 <= i < points.len() ==> decode_g2_block(
                codec,
                #[trigger] block(data, start, g2_block_size(codec) as int, i),
            ) == Some(points[i]),
    ensures
        spec_read_g2_points(data, start, points.len() as int, codec) == Ok::<
            Seq<Seq<u8>>,
            crate::Error,
        >(points),
{
    let got = Seq::new(
        points.len(),
        |i: int| decode_g2_block(codec, block(data, start, g2_block_size(codec) as int, i)).unwrap(),
    );
    assert(got =~= points);
}

/// G1 points stored block after block between a prefix and a suffix are
/// read back in order from the end of the prefix.
pub proof fn lemma_region_reads_back_g1(
    prefix: Seq<u8>,
    blocks: Seq<Seq<u8>>,
    suffix: Seq<u8>,
    points: Seq<Seq<u8>>,
    codec: Codec,
)
    requires
        blocks.len() == points.len(),
        forall|i: int|
            0 <= i < blocks.len() ==> (#[trigger] blocks[i]).len() == g1_block_size(codec)
                && decode_g1_block(codec, blocks[i]) == Some(points[i]),
    ensures
        spec_read_g1_points(
            prefix + concat(blocks) + suffix,
            prefix.len() as int,
            points.len() as int,
            codec,
        ) == Ok::<Seq<Seq<u8>>, crate::Error>(points),
{
    let data = prefix + concat(blocks) + suffix;
    let size = g1_block_size(codec) as nat;
    lemma_concat_len(blocks, size);
    assert forall|i: int| 0 <= i < points.len() implies decode_g1_block(
        codec,
        #[trigger] block(data, prefix.len() as int, size as int, i),
    ) == Some(points[i]) by {
        lemma_block_of_concat(prefix, blocks, suffix, size, i);
    }
    lemma_read_back_g1(data, prefix.len() as int, points, codec);
}

/// G2 points stored block after block between a prefix and a suffix are
/// read back in order from the end of the prefix.
pub proof fn lemma_region_reads_back_g2(
    prefix: Seq<u8>,
    blocks: Seq<Seq<u8>>,
    suffix: Seq<u8>,
    points: Seq<Seq<u8>>,
    codec: Codec,
)
    requires
        blocks.len() == points.len(),
        forall|i: int|
            0 <= i < blocks.len() ==> (#[trigger] blocks[i]).len() == g2_block_size(codec)
                && decode_g2_block(codec, blocks[i]) == Some(points[i]),
    ensures
        spec_read_g2_points(
            prefix + concat(blocks) + suffix,
            prefix.len() as int,
            points.len() as int,
            codec,
        ) == Ok::<Seq<Seq<u8>>, crate::Error>(points),
{
    let data = prefix + concat(blocks) + suffix;
    let size = g2_block_size(codec) as nat;
    lemma_concat_len(blocks, size);
    assert forall|i: int| 0 <= i < points.len() implies decode_g2_block(
        codec,
        #[trigger] block(data, prefix.len() as int, size as int, i),
    ) == Some(points[i]) by {
        lemma_block_of_concat(prefix, blocks, suffix, size, i);
    }
    lemma_read_back_g2(data, prefix.len() as int, points, codec);
}

/// The degree of a native file is the number that its first four bytes
/// hold.
pub proof fn lemma_native_degree(head: Seq<u8>, rest: Seq<u8>)
    requires
        head.len() == 4,
    ensures
        pse::spec_k(head + rest) == Ok::<u32, crate::Error>(spec_u32_from_le(head)),
{
    assert((head + rest).subrange(0, 4) =~= head);
}

/// In a file of a header, two blocks of G1 points and a pair of G2 points,
/// all three regions are read back from the offsets of the native layout.
pub proof fn lemma_native_regions(
    v: SrsView,
    raw: bool,
    head: Seq<u8>,
    g: Seq<Seq<u8>>,
    g_lagrange: Seq<Seq<u8>>,
    pair: Seq<Seq<u8>>,
)
    requires
        v.wf(),
        head.len() == 4,
        g.len() == v.g.len(),
        g_lagrange.len() == v.g_lagrange.len(),
        pair.len() == 2,
        forall|i: int|
            0 <= i < g.len() ==> (#[trigger] g[i]).len() == g1_block_size(pse::spec_codec(raw))
                && decode_g1_block(pse::spec_codec(raw), g[i]) == Some(v.g[i]),
        forall|i: int|
            0 <= i < g_lagrange.len() ==> (#[trigger] g_lagrange[i]).len() == g1_block_size(
                pse::spec_codec(raw),
            ) && decode_g1_block(pse::spec_codec(raw), g_lagrange[i]) == Some(v.g_lagrange[i]),
        pair[0].len() == g2_block_size(pse::spec_codec(raw)),
        pair[1].len() == g2_block_size(pse::spec_codec(raw)),
        decode_g2_block(pse::spec_codec(raw), pair[0]) == Some(v.g2),
        decode_g2_block(pse::spec_codec(raw), pair[1]) == Some(v.s_g2),
    ensures
        ({
            let data = head + concat(g) + concat(g_lagrange) + concat(pair);
            let codec = pse::spec_codec(raw);
            let n = pow2(v.k as nat) as int;
            &&& spec_read_g1_points(data, 4, n, codec) == Ok::<Seq<Seq<u8>>, crate::Error>(v.g)
            &&& spec_read_g1_points(data, 4 + n * g1_block_size(codec), n, codec) == Ok::<
                Seq<Seq<u8>>,
                crate::Error,
            >(v.g_lagrange)
            &&& spec_read_g2_points(data, pse::spec_g2_offset(v.k, raw), 2, codec) == Ok::<
                Seq<Seq<u8>>,
                crate::Error,
            >(seq![v.g2, v.s_g2])
        }),
{
    let codec = pse::spec_codec(raw);
    let size = g1_block_size(codec) as nat;
    let a = concat(g);
    let b = concat(g_lagrange);
    let c = concat(pair);
    let data = head + a + b + c;
    let n = pow2(v.k as nat) as int;
    let points = seq![v.g2, v.s_g2];
    lemma_concat_len(g, size);
    lemma_concat_len(g_lagrange, size);

    lemma_region_reads_back_g1(head, g, b + c, v.g, codec);
    assert(data =~= head + a + (b + c));

    lemma_region_reads_back_g1(head + a, g_lagrange, c, v.g_lagrange, codec);
    assert(data =~= (head + a) + b + c);
    assert((head + a).len() == 4 + n * size);

    lemma_region_reads_back_g2(head + a + b, pair, Seq::empty(), points, codec);
    assert(data =~= (head + a + b) + c + Seq::<u8>::empty());
    let at = pse::spec_g2_offset(v.k, raw);
    assert(at == 4 + n * size + n * size) by (nonlinear_arith)
        requires
            at == 4 + size * 2 * n,
    ;
    assert((head + a + b).len() == at);
}

/// A file in the native layout, compressed or raw, whose stored blocks
/// decode to the points of a well-formed SRS, decodes to that SRS at its
/// own degree.
pub proof fn lemma_native_layout(
    v: SrsView,
    raw: bool,
    head: Seq<u8>,
    g: Seq<Seq<u8>>,
    g_lagrange: Seq<Seq<u8>>,
    pair: Seq<Seq<u8>>,
)
    requires
        v.wf(),
        head.len() == 4,
        spec_u32_from_le(head) == v.k,
        g.len() == v.g.len(),
        g_lagrange.len() == v.g_lagrange.len(),
        pair.len() == 2,
        forall|i: int|
            0 <= i < g.len() ==> (#[trigger] g[i]).len() == g1_block_size(pse::spec_codec(raw))
                && decode_g1_block(pse::spec_codec(raw), g[i]) == Some(v.g[i]),
        forall|i: int|
            0 <= i < g_lagrange.len() ==> (#[trigger] g_lagrange[i]).len() == g1_block_size(
                pse::spec_codec(raw),
            ) && decode_g1_block(pse::spec_codec(raw), g_lagrange[i]) == Some(v.g_lagrange[i]),
        pair[0].len() == g2_block_size(pse::spec_codec(raw)),
        pair[1].len() == g2_block_size(pse::spec_codec(raw)),
        decode_g2_block(pse::spec_codec(raw), pair[0]) == Some(v.g2),
        decode_g2_block(pse::spec_codec(raw), pair[1]) == Some(v.s_g2),
    ensures
        pse::spec_k(head + concat(g) + concat(g_lagrange) + concat(pair)) == Ok::<
            u32,
            crate::Error,
        >(v.k),
        spec_parse(
            head + concat(g) + concat(g_lagrange) + concat(pair),
            if raw {
                SrsFormat::PseRaw
            } else {
                SrsFormat::Pse
            },
            v.k,
        ) == Ok::<SrsView, crate::Error>(v),
{
    let data = head + concat(g) + concat(g_lagrange) + concat(pair);
    lemma_native_degree(head, concat(g) + concat(g_lagrange) + concat(pair));
    assert(data =~= head + (concat(g) + concat(g_lagrange) + concat(pair)));
    lemma_native_regions(v, raw, head, g, g_lagrange, pair);
}

/// The concatenation of two blocks is one after the other.
pub proof fn lemma_concat_pair(first: Seq<u8>, second: Seq<u8>)
    ensures
        concat(seq![first, second]) == first + second,
{
    let pair = seq![first, second];
    assert(concat(pair.drop_last().drop_last()) =~= Seq::<u8>::empty());
    assert(pair.drop_last().last() == first);
    assert(concat(pair.drop_last()) =~= first);
    assert(concat(pair) =~= first + second);
}

/// Decoding the canonical encoding of a well-formed SRS at its own degree
/// gives that SRS back, field for field.
pub proof fn lemma_write_then_parse(v: SrsView)
    requires
        v.wf(),
    ensures
        decodes_to_itself(v),
        spec_file_degree(spec_encode(v), SrsFormat::Pse) == Ok::<u32, crate::Error>(v.k),
{
    let pair = seq![v.g2, v.s_g2];
    assert forall|i: int| 0 <= i < v.g.len() implies (#[trigger] v.g[i]).len() == g1_block_size(
        Codec::Compressed,
    ) && decode_g1_block(Codec::Compressed, v.g[i]) == Some(v.g[i]) by {
        assert(crate::curve::g1_valid(v.g[i]));
    }
    assert forall|i: int| 0 <= i < v.g_lagrange.len() implies (#[trigger] v.g_lagrange[i]).len()
        == g1_block_size(Codec::Compressed) && decode_g1_block(
        Codec::Compressed,
        v.g_lagrange[i],
    ) == Some(v.g_lagrange[i]) by {
        assert(crate::curve::g1_valid(v.g_lagrange[i]));
    }
    lemma_concat_pair(v.g2, v.s_g2);
    lemma_u32_le_round_trip(v.k);
    lemma_native_layout(v, false, spec_u32_to_le(v.k), v.g, v.g_lagrange, pair);
    assert(spec_encode(v) =~= spec_u32_to_le(v.k) + concat(v.g) + concat(v.g_lagrange)
        + concat(pair));
}

/// A validated read of the canonical encoding of a well-formed SRS, at the
/// degree that the encoding stores, gives that SRS back, field for field,
/// or fails validation on the coefficients drawn; it fails in no other
/// way, and not at all for an SRS of a single point.
pub proof fn lemma_read_after_write(v: SrsView, r: Result<Srs, crate::Error>)
    requires
        v.wf(),
        spec_read_result(spec_encode(v), SrsFormat::Pse, v.k, r),
    ensures
        spec_file_degree(spec_encode(v), SrsFormat::Pse) == Ok::<u32, crate::Error>(v.k),
        match r {
            Ok(s) => s@ == v,
            Err(e) => e == crate::Error::ValidationFailure && v.k != 0,
        },
{
    lemma_write_then_parse(v);
}

/// Every point of the SRS, put in the uncompressed internal layout, has the
/// length of that layout and reads back as the point.
pub open spec fn raw_reads_back(v: SrsView) -> bool {
    &&& forall|i: int|
        0 <= i < v.g.len() ==> g1_raw_repr(#[trigger] v.g[i]).len() == G1_RAW_SIZE
            && g1_from_raw_repr(g1_raw_repr(v.g[i])) == Some(v.g[i])
    &&& forall|i: int|
        0 <= i < v.g_lagrange.len() ==> g1_raw_repr(#[trigger] v.g_lagrange[i]).len()
            == G1_RAW_SIZE && g1_from_raw_repr(g1_raw_repr(v.g_lagrange[i])) == Some(
            v.g_lagrange[i],
        )
    &&& g2_raw_repr(v.g2).len() == G2_RAW_SIZE
    &&& g2_from_raw_repr(g2_raw_repr(v.g2)) == Some(v.g2)
    &&& g2_raw_repr(v.s_g2).len() == G2_RAW_SIZE
    &&& g2_from_raw_repr(g2_raw_repr(v.s_g2)) == Some(v.s_g2)
}

/// Decoding the raw encoding of a well-formed SRS at its own degree gives
/// that SRS back, where each of its points reads back from the raw layout.
pub proof fn lemma_write_raw_then_parse(v: SrsView)
    requires
        v.wf(),
        raw_reads_back(v),
    ensures
        spec_parse(spec_encode_raw(v), SrsFormat::PseRaw, v.k) == Ok::<SrsView, crate::Error>(v),
{
    let g = v.g.map_values(|p: Seq<u8>| g1_raw_repr(p));
    let g_lagrange = v.g_lagrange.map_values(|p: Seq<u8>| g1_raw_repr(p));
    let pair = seq![g2_raw_repr(v.g2), g2_raw_repr(v.s_g2)];
    assert forall|i: int| 0 <= i < g.len() implies (#[trigger] g[i]).len() == g1_block_size(
        Codec::Raw,
    ) && decode_g1_block(Codec::Raw, g[i]) == Some(v.g[i]) by {
        assert(g[i] == g1_raw_repr(v.g[i]));
    }
    assert forall|i: int| 0 <= i < g_lagrange.len() implies (#[trigger] g_lagrange[i]).len()
        == g1_block_size(Codec::Raw) && decode_g1_block(Codec::Raw, g_lagrange[i]) == Some(
        v.g_lagrange[i],
    ) by {
        assert(g_lagrange[i] == g1_raw_repr(v.g_lagrange[i]));
    }
    lemma_concat_pair(g2_raw_repr(v.g2), g2_raw_repr(v.s_g2));
    lemma_u32_le_round_trip(v.k);
    lemma_native_layout(v, true, spec_u32_to_le(v.k), g, g_lagrange, pair);
    assert(spec_encode_raw(v) =~= spec_u32_to_le(v.k) + concat(g) + concat(g_lagrange)
        + concat(pair));
}

} // verus!
