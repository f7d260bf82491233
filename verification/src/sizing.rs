//! How the sizes of blocks relate to each other and to their parts.

use vstd::prelude::*;
use vstd::string::*;

use crate::config::{self, CkvDtype, CompressionScheme, MlaBlockConfig};
use crate::multiples;

verus! {

// ---- precisions

/// Elements are packed without gaps: the bytes suffice for all bits, and one byte less would not.
/// Each of the scalar precisions has half the bits of the one before it, and an FP8 element takes
/// one byte.
pub proof fn elements_are_packed(dtype: CkvDtype, n: nat)
    requires
        dtype != CkvDtype::MixedBf16Fp8Fp4,
    ensures
        8 * dtype.packed_bytes(n) >= n * dtype.element_bits(),
        8 * dtype.packed_bytes(n) < n * dtype.element_bits() + 8,
        CkvDtype::Fp8E4m3.packed_bytes(n) == n,
        CkvDtype::Bf16.element_bits() == 2 * CkvDtype::Fp8E4m3.element_bits(),
        CkvDtype::Fp8E4m3.element_bits() == 2 * CkvDtype::Fp4E2m1.element_bits(),
        CkvDtype::Fp8E4m3.element_bits() == 8,
{
    assert(n * 16 == 16 * n && n * 8 == 8 * n && n * 4 == 4 * n) by (nonlinear_arith);
    match dtype {
        CkvDtype::Bf16 => {
            assert(n * dtype.element_bits() == n * 16);
        },
        CkvDtype::Fp8E4m3 => {
            assert(n * dtype.element_bits() == n * 8);
        },
        CkvDtype::Fp4E2m1 => {
            assert(n * dtype.element_bits() == n * 4);
        },
        CkvDtype::MixedBf16Fp8Fp4 => {},
    }
}

/// The bytes of one element are the fewest that hold its bits. The mixed layout has no element of
/// its own: it counts no bits and no bytes.
pub proof fn element_takes_whole_bytes(dtype: CkvDtype, n: nat)
    ensures
        8 * dtype.element_bytes() >= dtype.element_bits(),
        8 * dtype.element_bytes() < dtype.element_bits() + 8,
        dtype.element_bits() == 0 <==> dtype == CkvDtype::MixedBf16Fp8Fp4,
        dtype == CkvDtype::MixedBf16Fp8Fp4 ==> dtype.packed_bytes(n) == 0,
{
}

/// Exactly the precisions below BF16 need scale factors.
pub proof fn quantised_precisions_are_scaled(dtype: CkvDtype)
    ensures
        dtype.is_scaled() <==> dtype.element_bits() < CkvDtype::Bf16.element_bits(),
{
}

// ---- bytes per token

/// A V4 entry takes one byte for each dimension of the head and a second one for each RoPE
/// dimension.
pub proof fn entry_holds_head_and_rope(head_dim: u32, rope_dim: u32)
    requires
        rope_dim <= head_dim,
    ensures
        config::entry_bytes(head_dim, rope_dim) == head_dim + rope_dim,
{
}

/// Bytes of the V4 schemes: a window layer stores one entry per token; a compressed layer stores
/// one entry for several tokens, and counts the whole bytes of a token's share.
pub proof fn v4_tokens_share_entries(scheme: CompressionScheme)
    ensures
        scheme matches CompressionScheme::V4Swa { head_dim, rope_dim, .. } ==> (rope_dim <= head_dim
            ==> scheme.layer_token_bytes() == head_dim + rope_dim),
        scheme matches CompressionScheme::V4Hca { k2, head_dim, rope_dim, .. } ==> (rope_dim
            <= head_dim && k2 > 0 ==> {
            &&& scheme.layer_token_bytes() * k2 <= head_dim + rope_dim
            &&& head_dim + rope_dim < (scheme.layer_token_bytes() + 1) * k2
        }),
        scheme matches CompressionScheme::V4Csa { k1, head_dim, rope_dim, indexer_head_dim, .. } ==> (
        rope_dim <= head_dim && k1 > 0 ==> {
            let entry = head_dim + rope_dim + (indexer_head_dim + 1) / 2;
            &&& scheme.layer_token_bytes() * k1 <= entry
            &&& entry < (scheme.layer_token_bytes() + 1) * k1
        }),
        !(scheme is V4Swa || scheme is V4Hca || scheme is V4Csa) ==> scheme.layer_token_bytes()
            == 0,
{
    match scheme {
        CompressionScheme::V4Hca { k2, head_dim, rope_dim, .. } => {
            if rope_dim <= head_dim && k2 > 0 {
                quotient_bounds((head_dim + rope_dim) as nat, k2 as nat);
            }
        },
        CompressionScheme::V4Csa { k1, head_dim, rope_dim, indexer_head_dim, .. } => {
            if rope_dim <= head_dim && k1 > 0 {
                quotient_bounds(
                    (head_dim + rope_dim + (indexer_head_dim + 1) / 2) as nat,
                    k1 as nat,
                );
            }
        },
        _ => {},
    }
}

proof fn quotient_bounds(n: nat, k: nat)
    requires
        k > 0,
    ensures
        (n / k) * k <= n,
        n < (n / k + 1) * k,
{
    assert((n / k) * k <= n && n < (n / k + 1) * k) by (nonlinear_arith)
        requires
            k > 0,
    ;
}

/// Bytes of one layer: the latent for MLA, a key and a value for every dimension of every head for
/// MHA, each element in the given precision; V4 schemes bring their own precision.
pub proof fn one_layer_of_primary(scheme: CompressionScheme, dtype_bytes: nat)
    ensures
        scheme matches CompressionScheme::MlaLatent { latent_dim, .. } ==> scheme.primary_token_bytes(
            1,
            dtype_bytes,
        ) == latent_dim * dtype_bytes,
        scheme matches CompressionScheme::MhaFull { num_heads, head_dim } ==> {
            let keys = num_heads * head_dim * dtype_bytes;
            let values = num_heads * head_dim * dtype_bytes;
            scheme.primary_token_bytes(1, dtype_bytes) == keys + values
        },
        scheme.in_v4_family() ==> scheme.primary_token_bytes(1, dtype_bytes)
            == scheme.layer_token_bytes(),
        scheme.in_v4_family() <==> scheme is V4Csa || scheme is V4Hca || scheme is V4Swa,
{
    match scheme {
        CompressionScheme::MlaLatent { latent_dim, .. } => {
            assert(latent_dim as nat * 1 * dtype_bytes == latent_dim * dtype_bytes)
                by (nonlinear_arith);
        },
        CompressionScheme::MhaFull { num_heads, head_dim } => {
            let h = num_heads as nat;
            let d = head_dim as nat;
            assert(2 * h * d * 1 * dtype_bytes == h * d * dtype_bytes + h * d * dtype_bytes)
                by (nonlinear_arith);
        },
        _ => {},
    }
}

/// Only MLA has a position-dependent part: two bytes for each dimension of the RoPE key.
pub proof fn one_layer_of_rope(scheme: CompressionScheme)
    ensures
        scheme.rope_token_bytes(1) == (match scheme {
            CompressionScheme::MlaLatent { rope_key_dim, .. } => rope_key_dim + rope_key_dim,
            _ => 0,
        }),
{
}

/// Layers add up: what `a + b` layers take is what `a` and `b` layers take together.
pub proof fn layers_add_up(scheme: CompressionScheme, a: nat, b: nat, dtype_bytes: nat)
    ensures
        scheme.primary_token_bytes(a + b, dtype_bytes) == scheme.primary_token_bytes(a, dtype_bytes)
            + scheme.primary_token_bytes(b, dtype_bytes),
        scheme.rope_token_bytes(a + b) == scheme.rope_token_bytes(a) + scheme.rope_token_bytes(b),
        scheme.primary_token_bytes(0, dtype_bytes) == 0,
{
    match scheme {
        CompressionScheme::MlaLatent { latent_dim, rope_key_dim } => {
            let l = latent_dim as nat;
            let k = rope_key_dim as nat;
            assert(l * (a + b) * dtype_bytes == l * a * dtype_bytes + l * b * dtype_bytes)
                by (nonlinear_arith);
            assert(k * (a + b) * 2 == k * a * 2 + k * b * 2) by (nonlinear_arith);
            assert(l * 0 * dtype_bytes == 0) by (nonlinear_arith);
        },
        CompressionScheme::MhaFull { num_heads, head_dim } => {
            let e = 2 * num_heads as nat * head_dim as nat;
            assert(e * (a + b) * dtype_bytes == e * a * dtype_bytes + e * b * dtype_bytes)
                by (nonlinear_arith);
            assert(e * 0 * dtype_bytes == 0) by (nonlinear_arith);
        },
        _ => {
            let e = scheme.layer_token_bytes();
            assert(e * (a + b) == e * a + e * b) by (nonlinear_arith);
            assert(e * 0 == 0) by (nonlinear_arith);
        },
    }
}

// ---- blocks

/// Whether every layer of the list has the scheme `scheme`.
pub open spec fn uniform(schemes: Seq<CompressionScheme>, scheme: CompressionScheme) -> bool {
    forall|i: int| 0 <= i < schemes.len() ==> #[trigger] schemes[i] == scheme
}

/// A list of layers is as large as its parts together, in whatever order they stand.
pub proof fn listed_layers_add_up(
    a: Seq<CompressionScheme>,
    b: Seq<CompressionScheme>,
    dtype_bytes: nat,
    tokens: nat,
)
    ensures
        config::primary_sum(a + b, dtype_bytes, tokens) == config::primary_sum(
            a,
            dtype_bytes,
            tokens,
        ) + config::primary_sum(b, dtype_bytes, tokens),
        config::rope_sum(a + b, tokens) == config::rope_sum(a, tokens) + config::rope_sum(
            b,
            tokens,
        ),
    decreases b.len(),
{
    if b.len() == 0 {
        assert(a + b =~= a);
    } else {
        assert((a + b).drop_last() =~= a + b.drop_last());
        assert((a + b).last() == b.last());
        listed_layers_add_up(a, b.drop_last(), dtype_bytes, tokens);
    }
}

/// Listing the same scheme for each layer gives the size of a configuration with that scheme on
/// all layers.
pub proof fn listing_one_scheme_changes_no_size(
    schemes: Seq<CompressionScheme>,
    scheme: CompressionScheme,
    dtype_bytes: nat,
    tokens: nat,
)
    requires
        uniform(schemes, scheme),
    ensures
        config::primary_sum(schemes, dtype_bytes, tokens) == scheme.primary_token_bytes(
            schemes.len(),
            dtype_bytes,
        ) * tokens,
        config::rope_sum(schemes, tokens) == scheme.rope_token_bytes(schemes.len()) * tokens,
    decreases schemes.len(),
{
    if schemes.len() == 0 {
        layers_add_up(scheme, 0, 0, dtype_bytes);
        assert(0 * tokens == 0) by (nonlinear_arith);
    } else {
        let n = (schemes.len() - 1) as nat;
        let rest = schemes.drop_last();
        assert forall|i: int| 0 <= i < rest.len() implies #[trigger] rest[i] == scheme by {
            assert(rest[i] == schemes[i]);
        }
        listing_one_scheme_changes_no_size(rest, scheme, dtype_bytes, tokens);
        layers_add_up(scheme, n, 1, dtype_bytes);
        assert(schemes[schemes.len() - 1] == scheme);
        let p = scheme.primary_token_bytes(n, dtype_bytes);
        let q = scheme.primary_token_bytes(1, dtype_bytes);
        let r = scheme.rope_token_bytes(n);
        let t = scheme.rope_token_bytes(1);
        assert((p + q) * tokens == p * tokens + q * tokens) by (nonlinear_arith);
        assert((r + t) * tokens == r * tokens + t * tokens) by (nonlinear_arith);
    }
}

/// A block stores what its tokens take: a block of `n` times the tokens is `n` times as large,
/// header and scale factors aside, and a block of one token is what the layers take per token.
pub proof fn tokens_add_up(one: MlaBlockConfig, many: MlaBlockConfig)
    requires
        one.schemes_per_layer is None,
        one.block_size_tokens == 1,
        many.schemes_per_layer is None,
        many.scheme == one.scheme,
        many.num_layers == one.num_layers,
        many.ckv_dtype == one.ckv_dtype,
    ensures
        one.primary_size() == one.scheme.primary_token_bytes(
            one.num_layers as nat,
            one.ckv_dtype.element_bytes() as nat,
        ),
        one.rope_size() == one.scheme.rope_token_bytes(one.num_layers as nat),
        many.primary_size() == one.primary_size() * many.block_size_tokens,
        many.rope_size() == one.rope_size() * many.block_size_tokens,
        many.scale_size() == one.scale_size(),
{
    let p = one.scheme.primary_token_bytes(
        one.num_layers as nat,
        one.ckv_dtype.element_bytes() as nat,
    );
    let r = one.scheme.rope_token_bytes(one.num_layers as nat);
    assert(p * 1 == p && r * 1 == r) by (nonlinear_arith);
}

/// The size of a block with per-layer schemes is that of its layers: each takes what a block with
/// this one layer takes.
pub proof fn block_is_the_sum_of_its_layers(c: MlaBlockConfig, i: int, layer: MlaBlockConfig)
    requires
        c.schemes_per_layer matches Some(schemes) && 0 <= i < schemes@.len() && layer.scheme
            == schemes@[i],
        layer.schemes_per_layer is None,
        layer.num_layers == 1,
        layer.block_size_tokens == c.block_size_tokens,
        layer.ckv_dtype == c.ckv_dtype,
    ensures
        c.primary_size() == layer.primary_size() + config::primary_sum(
            c.schemes_per_layer->0@.remove(i),
            c.ckv_dtype.element_bytes() as nat,
            c.block_size_tokens as nat,
        ),
        c.rope_size() == layer.rope_size() + config::rope_sum(
            c.schemes_per_layer->0@.remove(i),
            c.block_size_tokens as nat,
        ),
{
    let schemes = c.schemes_per_layer->0@;
    let b = c.ckv_dtype.element_bytes() as nat;
    let t = c.block_size_tokens as nat;
    let low = schemes.take(i);
    let own = seq![schemes[i]];
    let high = schemes.skip(i + 1);
    assert(schemes =~= low + own + high);
    assert(schemes.remove(i) =~= low + high);
    listed_layers_add_up(low + own, high, b, t);
    listed_layers_add_up(low, own, b, t);
    listed_layers_add_up(low, high, b, t);
    assert(uniform(own, schemes[i]));
    listing_one_scheme_changes_no_size(own, schemes[i], b, t);
}

/// A block holds its header of 64 bytes, its two regions, and four bytes of scale factor per layer
/// if the precision needs them.
pub proof fn block_is_the_sum_of_its_parts(c: MlaBlockConfig)
    ensures
        c.block_size() == 64 + c.primary_size() + c.rope_size() + c.scale_size(),
        c.ckv_dtype == CkvDtype::Bf16 ==> c.scale_size() == 0,
        c.ckv_dtype != CkvDtype::Bf16 ==> c.scale_size() == c.num_layers + c.num_layers
            + c.num_layers + c.num_layers,
{
}

/// Every layer uses the scheme that is listed for it; without a list, or past its end, the
/// configuration's own.
pub proof fn layers_use_their_schemes(c: MlaBlockConfig, layer: nat)
    ensures
        c.schemes_per_layer is None ==> c.layer_scheme(layer) == c.scheme,
        c.schemes_per_layer matches Some(schemes) ==> {
            &&& layer < schemes@.len() ==> c.layer_scheme(layer) == schemes@[layer as int]
            &&& layer >= schemes@.len() ==> c.layer_scheme(layer) == c.scheme
        },
{
}

// ---- validation

/// A configuration is valid if and only if it has layers and tokens, every dimension of its scheme
/// is positive, and its entries fill a block without a remainder. MLA blocks have 64 tokens; the
/// RoPE part of a V4 head fits the head; the deprecated scheme is never valid.
pub proof fn valid_configurations(scheme: CompressionScheme, num_layers: u32, tokens: u32)
    ensures
        config::config_fault(scheme, num_layers, tokens) is None <==> {
            &&& num_layers > 0
            &&& tokens > 0
            &&& match scheme {
                CompressionScheme::MlaLatent { latent_dim, rope_key_dim } => latent_dim > 0
                    && rope_key_dim > 0 && tokens == 64,
                CompressionScheme::DsaHierarchical { .. } => false,
                CompressionScheme::MhaFull { num_heads, head_dim } => num_heads > 0 && head_dim
                    > 0,
                CompressionScheme::V4Csa { k1, head_dim, rope_dim, .. } => 0 < rope_dim <= head_dim
                    && k1 > 0 && exists|q: nat| tokens == #[trigger] (k1 as nat * q),
                CompressionScheme::V4Hca { k2, head_dim, rope_dim, .. } => 0 < rope_dim <= head_dim
                    && k2 > 0 && exists|q: nat| tokens == #[trigger] (k2 as nat * q),
                CompressionScheme::V4Swa { window, head_dim, rope_dim, .. } => 0 < rope_dim
                    <= head_dim && window > 0,
            }
        },
{
    match scheme {
        CompressionScheme::V4Csa { k1, .. } => {
            if k1 > 0 {
                multiples::divides_iff_no_remainder(k1 as nat, tokens as nat);
                assert(multiples::divides(k1 as nat, tokens as nat) <==> exists|q: nat|
                    tokens as nat == #[trigger] (k1 as nat * q));
            }
        },
        CompressionScheme::V4Hca { k2, .. } => {
            if k2 > 0 {
                multiples::divides_iff_no_remainder(k2 as nat, tokens as nat);
                assert(multiples::divides(k2 as nat, tokens as nat) <==> exists|q: nat|
                    tokens as nat == #[trigger] (k2 as nat * q));
            }
        },
        _ => {},
    }
}

// ---- compression ratio

/// Whether `c` stores full keys and values in BF16, with the given heads.
pub open spec fn stores_mha(c: MlaBlockConfig, num_heads: u32, head_dim: u32) -> bool {
    &&& c.schemes_per_layer is None
    &&& c.scheme == (CompressionScheme::MhaFull { num_heads, head_dim })
    &&& c.ckv_dtype == CkvDtype::Bf16
}

/// The baseline of the compression ratio is what full keys and values in BF16 take for the same
/// layers and tokens: with its own heads for MHA, with the scheme's heads of dimension 128 for V4,
/// with 128 heads of dimension 128 for MLA.
pub proof fn baseline_is_uncompressed_mha(c: MlaBlockConfig, mha: MlaBlockConfig)
    requires
        mha.num_layers == c.num_layers,
        mha.block_size_tokens == c.block_size_tokens,
        match c.scheme {
            CompressionScheme::MhaFull { num_heads, head_dim } => stores_mha(
                mha,
                num_heads,
                head_dim,
            ),
            CompressionScheme::V4Csa { num_heads, .. } => stores_mha(mha, num_heads, 128),
            CompressionScheme::V4Hca { num_heads, .. } => stores_mha(mha, num_heads, 128),
            CompressionScheme::V4Swa { num_heads, .. } => stores_mha(mha, num_heads, 128),
            CompressionScheme::MlaLatent { .. } => stores_mha(mha, 128, 128),
            CompressionScheme::DsaHierarchical { .. } => false,
        },
    ensures
        c.baseline_size() == mha.primary_size(),
{
    let (h, d) = c.baseline_heads();
    let l = c.num_layers as nat;
    let t = c.block_size_tokens as nat;
    let e = 2 * h as nat * d as nat;
    assert(e * l * t * 2 == e * l * 2 * t) by (nonlinear_arith);
}

/// Storing full keys and values in BF16 is no compression: the block is the baseline and its
/// header.
pub proof fn uncompressed_blocks_have_ratio_one(c: MlaBlockConfig, num_heads: u32, head_dim: u32)
    requires
        stores_mha(c, num_heads, head_dim),
    ensures
        c.block_size() == c.baseline_size() + 64,
        c.primary_size() == c.baseline_size(),
{
    baseline_is_uncompressed_mha(c, c);
    assert(c.rope_size() == 0) by {
        let t = c.block_size_tokens as nat;
        assert(0 * t == 0) by (nonlinear_arith);
    }
}

// ---- alignment

/// Whether `k` is the compression ratio of a layer with the given scheme. Only CSA and HCA layers
/// have one.
pub open spec fn is_ratio(scheme: CompressionScheme, k: u32) -> bool {
    match scheme {
        CompressionScheme::V4Csa { k1, .. } => k == k1,
        CompressionScheme::V4Hca { k2, .. } => k == k2,
        _ => false,
    }
}

proof fn ratios_are_collected(schemes: Seq<CompressionScheme>, k: u32)
    ensures
        config::spans_of(schemes).contains(k) <==> exists|i: int|
            0 <= i < schemes.len() && is_ratio(#[trigger] schemes[i], k),
    decreases schemes.len(),
{
    if schemes.len() > 0 {
        let rest = schemes.drop_last();
        let before = config::spans_of(rest);
        let all = config::spans_of(schemes);
        ratios_are_collected(rest, k);
        assert(all.contains(k) <==> before.contains(k) || is_ratio(schemes.last(), k)) by {
            if let Some(own) = config::span_of(schemes.last()) {
                assert(all == before.push(own));
                assert(all[before.len() as int] == own);
                if before.contains(k) {
                    let i = choose|i: int| 0 <= i < before.len() && before[i] == k;
                    assert(all[i] == k);
                }
                if all.contains(k) && k != own {
                    let i = choose|i: int| 0 <= i < all.len() && all[i] == k;
                    assert(before[i] == k);
                }
            }
        }
        if before.contains(k) {
            let i = choose|i: int| 0 <= i < rest.len() && is_ratio(#[trigger] rest[i], k);
            assert(is_ratio(schemes[i], k));
        }
        if is_ratio(schemes.last(), k) {
            assert(is_ratio(schemes[schemes.len() - 1], k));
        }
        if exists|i: int| 0 <= i < schemes.len() && is_ratio(#[trigger] schemes[i], k) {
            let i = choose|i: int| 0 <= i < schemes.len() && is_ratio(#[trigger] schemes[i], k);
            if i < rest.len() {
                assert(is_ratio(rest[i], k));
            }
        }
    }
}

/// The ratios of the layers: those of a configuration with a list are the ratios on the list,
/// otherwise the one of its scheme.
pub proof fn ratios_come_from_the_layers(c: MlaBlockConfig, k: u32)
    ensures
        c.schemes_per_layer matches Some(schemes) ==> (c.spans().contains(k) <==> exists|i: int|
            0 <= i < schemes@.len() && is_ratio(#[trigger] schemes@[i], k)),
        c.schemes_per_layer is None ==> (c.spans().contains(k) <==> is_ratio(c.scheme, k)),
{
    match c.schemes_per_layer {
        Some(schemes) => {
            ratios_are_collected(schemes@, k);
        },
        None => {
            ratios_are_collected(seq![c.scheme], k);
            assert(seq![c.scheme][0] == c.scheme);
        },
    }
}

/// The aligned block size is the least common multiple of the ratios. If some number of tokens is a
/// multiple of every ratio, then so is the aligned size, and it divides that number. Without ratios
/// it is one.
pub proof fn aligned_size_is_the_least(c: MlaBlockConfig, tokens: u32, k: u32)
    requires
        tokens > 0,
        forall|r: u32| #[trigger] c.spans().contains(r) ==> r > 0 && tokens as nat % r as nat == 0,
    ensures
        multiples::fold_lcm(c.spans()) > 0,
        tokens as nat % multiples::fold_lcm(c.spans()) as nat == 0,
        c.spans().contains(k) ==> multiples::fold_lcm(c.spans()) as nat % k as nat == 0,
        c.spans().len() == 0 ==> multiples::fold_lcm(c.spans()) == 1,
{
    let ks = c.spans();
    assert forall|i: int| 0 <= i < ks.len() implies #[trigger] ks[i] > 0 && multiples::divides(
        ks[i] as nat,
        tokens as nat,
    ) by {
        assert(ks.contains(ks[i]));
        multiples::divides_iff_no_remainder(ks[i] as nat, tokens as nat);
    }
    multiples::fold_divides_common_multiple(ks, tokens);
    multiples::divides_iff_no_remainder(multiples::fold_lcm(ks) as nat, tokens as nat);
    if ks.contains(k) {
        let i = choose|i: int| 0 <= i < ks.len() && ks[i] == k;
        multiples::divides_iff_no_remainder(ks[i] as nat, multiples::fold_lcm(ks) as nat);
    }
}

// ---- sizes that fit

proof fn factors_are_smaller(a: nat, b: nat)
    requires
        b > 0,
    ensures
        a <= a * b,
{
    assert(a <= a * b) by (nonlinear_arith)
        requires
            b > 0,
    ;
}

proof fn scheme_fits_with_its_size(
    scheme: CompressionScheme,
    layers: nat,
    dtype_bytes: nat,
    limit: nat,
)
    requires
        !(scheme is DsaHierarchical),
        layers > 0,
        dtype_bytes > 0,
        limit <= u64::MAX,
        scheme.primary_token_bytes(layers, dtype_bytes) <= limit,
    ensures
        scheme.primary_token_fits(layers, dtype_bytes),
{
    if let CompressionScheme::MhaFull { num_heads, head_dim } = scheme {
        let e = 2 * num_heads as nat * head_dim as nat;
        factors_are_smaller(e, layers);
        factors_are_smaller(e * layers, dtype_bytes);
    }
}

/// The sizes of a configuration in a scalar precision are defined if and only if the size of a
/// block fits 64 bits: no number on the way to it is larger. A configuration with the deprecated
/// scheme has no sizes.
pub proof fn sizes_are_defined_if_the_block_fits(c: MlaBlockConfig)
    requires
        c.schemes_per_layer is None,
        c.num_layers > 0,
        c.block_size_tokens > 0,
        c.ckv_dtype != CkvDtype::MixedBf16Fp8Fp4,
    ensures
        c.scheme is DsaHierarchical ==> !c.fits(),
        !(c.scheme is DsaHierarchical) ==> (c.fits() <==> c.block_size() <= u64::MAX),
{
    let l = c.num_layers as nat;
    let b = c.ckv_dtype.element_bytes() as nat;
    let t = c.block_size_tokens as nat;
    if !(c.scheme is DsaHierarchical) && c.block_size() <= u64::MAX {
        factors_are_smaller(c.scheme.primary_token_bytes(l, b), t);
        factors_are_smaller(c.scheme.rope_token_bytes(l), t);
        scheme_fits_with_its_size(c.scheme, l, b, u64::MAX as nat);
    }
}

/// The compression ratio of a configuration is defined if and only if both of its numbers are.
pub proof fn baseline_is_defined_if_it_fits(c: MlaBlockConfig)
    requires
        c.num_layers > 0,
        c.block_size_tokens > 0,
    ensures
        c.scheme is DsaHierarchical ==> !c.baseline_fits(),
        !(c.scheme is DsaHierarchical) ==> (c.baseline_fits() <==> c.baseline_size() <= u64::MAX),
{
    let (h, d) = c.baseline_heads();
    let l = c.num_layers as nat;
    let t = c.block_size_tokens as nat;
    let e = 2 * h as nat * d as nat;
    factors_are_smaller(e, l);
    factors_are_smaller(e * l, t);
    factors_are_smaller(e * l * t, 2);
}

/// The sizes of a configuration with a list of schemes are defined if and only if the size of a
/// block fits 64 bits and no layer has the deprecated scheme.
pub proof fn listed_sizes_are_defined_if_the_block_fits(c: MlaBlockConfig)
    requires
        c.schemes_per_layer is Some,
        c.block_size_tokens > 0,
        c.ckv_dtype != CkvDtype::MixedBf16Fp8Fp4,
    ensures
        c.fits() <==> c.block_size() <= u64::MAX && forall|i: int|
            0 <= i < c.schemes_per_layer->0@.len() ==> !(
            #[trigger] c.schemes_per_layer->0@[i] is DsaHierarchical),
{
    let schemes = c.schemes_per_layer->0@;
    let b = c.ckv_dtype.element_bytes() as nat;
    let t = c.block_size_tokens as nat;
    if c.block_size() <= u64::MAX && forall|i: int|
        0 <= i < schemes.len() ==> !(#[trigger] schemes[i] is DsaHierarchical) {
        assert forall|i: int| 0 <= i < schemes.len() implies (
        #[trigger] schemes[i]).primary_token_fits(1, b) && schemes[i].rope_token_fits(1) by {
            let low = schemes.take(i);
            let own = seq![schemes[i]];
            let high = schemes.skip(i + 1);
            assert(schemes =~= low + own + high);
            listed_layers_add_up(low + own, high, b, t);
            listed_layers_add_up(low, own, b, t);
            listing_one_scheme_changes_no_size(own, schemes[i], b, t);
            factors_are_smaller(schemes[i].primary_token_bytes(1, b), t);
            factors_are_smaller(schemes[i].rope_token_bytes(1), t);
            scheme_fits_with_its_size(schemes[i], 1, b, u64::MAX as nat);
        }
    }
    if c.fits() {
        assert forall|i: int| 0 <= i < schemes.len() implies !(
        #[trigger] schemes[i] is DsaHierarchical) by {
            assert(schemes[i].primary_token_fits(1, b));
        }
    }
}

/// A configuration without layers is refused as such, one without tokens as such; only after that
/// the scheme is looked at.
pub proof fn faults_come_in_order(scheme: CompressionScheme, num_layers: u32, tokens: u32)
    ensures
        num_layers == 0 ==> config::config_fault(scheme, num_layers, tokens) == Some(
            "num_layers must be > 0"@,
        ),
        num_layers > 0 && tokens == 0 ==> config::config_fault(scheme, num_layers, tokens) == Some(
            "block_size_tokens must be > 0"@,
        ),
        num_layers > 0 && tokens > 0 ==> config::config_fault(scheme, num_layers, tokens)
            == config::config_fault(scheme, 1, tokens),
{
}

} // verus!
