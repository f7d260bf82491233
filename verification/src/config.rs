//! Configuration types for the block manager.
//!
//! [`CompressionScheme`] says how one token's KV is stored, [`CkvDtype`] in which precision, and
//! [`MlaBlockConfig`] puts both together with the layer count and the block size. All block
//! sizes are exact byte counts.

use std::sync::Arc;

use vstd::prelude::*;
use vstd::string::*;

use crate::error::{Result, TesseraError};
use crate::multiples;
use crate::text;

verus! {

/// FlashMLA's native paged block size.
pub const REQUIRED_BLOCK_SIZE_TOKENS: u32 = 64;

/// Bytes of the header that precedes the regions of a block.
pub const HEADER_BYTES: u64 = 64;

/// Supported on-device storage dtypes for the primary KV region.
#[derive(Debug, Clone, Copy, PartialEq, Eq, Structural)]
#[non_exhaustive]
pub enum CkvDtype {
    /// bfloat16, 2 bytes per element. Needs no calibration.
    Bf16,
    /// FP8 E4M3, 1 byte per element. Needs per-layer scale factors from calibration.
    Fp8E4m3,
    /// FP4 E2M1, 4 bits per element, packed two to a byte. Needs scale factors.
    Fp4E2m1,
    /// The scheme carries its own mixed-precision layout; the scalar dtype is informational.
    MixedBf16Fp8Fp4,
}

impl CkvDtype {
    /// Bits per element; zero means that the scheme has to be asked.
    pub open spec fn element_bits(self) -> u32 {
        match self {
            CkvDtype::Bf16 => 16,
            CkvDtype::Fp8E4m3 => 8,
            CkvDtype::Fp4E2m1 => 4,
            CkvDtype::MixedBf16Fp8Fp4 => 0,
        }
    }

    /// Bytes that hold one element.
    pub open spec fn element_bytes(self) -> u32 {
        match self {
            CkvDtype::Bf16 => 2,
            CkvDtype::Fp8E4m3 => 1,
            CkvDtype::Fp4E2m1 => 1,
            CkvDtype::MixedBf16Fp8Fp4 => 0,
        }
    }

    /// Bytes that hold `n` elements packed without gaps, the last byte filled up.
    pub open spec fn packed_bytes(self, n: nat) -> nat {
        match self {
            CkvDtype::Bf16 => 2 * n,
            CkvDtype::Fp8E4m3 => n,
            CkvDtype::Fp4E2m1 => (n + 1) / 2,
            CkvDtype::MixedBf16Fp8Fp4 => 0,
        }
    }

    /// Whether every block stores per-layer scale factors under this dtype.
    pub open spec fn is_scaled(self) -> bool {
        self != CkvDtype::Bf16
    }

    /// Bits per element of storage under this dtype; 0 for the mixed layout.
    pub fn bits(self) -> (r: u32)
        ensures
            r == self.element_bits(),
    {
        match self {
            CkvDtype::Bf16 => 16,
            CkvDtype::Fp8E4m3 => 8,
            CkvDtype::Fp4E2m1 => 4,
            CkvDtype::MixedBf16Fp8Fp4 => 0,
        }
    }

    /// Bytes per element, rounding up for sub-byte dtypes; 0 for the mixed layout.
    pub fn bytes(self) -> (r: u32)
        ensures
            r == self.element_bytes(),
    {
        match self {
            CkvDtype::Bf16 => 2,
            CkvDtype::Fp8E4m3 => 1,
            CkvDtype::Fp4E2m1 => 1,
            CkvDtype::MixedBf16Fp8Fp4 => 0,
        }
    }

    /// Exact byte count to store `n` elements of this dtype, honouring sub-byte packing.
    pub fn bytes_for_elements(self, n: u64) -> (r: u64)
        requires
            self is Bf16 ==> n * 2 <= u64::MAX,
            self is Fp4E2m1 ==> n + 1 <= u64::MAX,
        ensures
            r == self.packed_bytes(n as nat),
    {
        match self {
            CkvDtype::Bf16 => n * 2,
            CkvDtype::Fp8E4m3 => n,
            CkvDtype::Fp4E2m1 => (n + 1) / 2,
            CkvDtype::MixedBf16Fp8Fp4 => 0,
        }
    }

    /// Whether per-layer scale factors must be present on every block. Every quantised dtype
    /// needs them, and the mixed layout inherits the need from its parts.
    pub fn requires_per_layer_scales(self) -> (r: bool)
        ensures
            r == self.is_scaled(),
    {
        match self {
            CkvDtype::Fp8E4m3 | CkvDtype::Fp4E2m1 | CkvDtype::MixedBf16Fp8Fp4 => true,
            CkvDtype::Bf16 => false,
        }
    }
}

/// How a single token's KV is stored in the block layout.
#[derive(Debug, Clone, Copy, PartialEq, Eq, Structural)]
#[non_exhaustive]
pub enum CompressionScheme {
    /// MLA: a position-independent latent `c_kv` plus a decoupled `k_rope` key.
    MlaLatent {
        /// Latent dimension.
        latent_dim: u32,
        /// Decoupled RoPE key dimension.
        rope_key_dim: u32,
    },
    /// Deprecated placeholder, superseded by [`CompressionScheme::V4Csa`],
    /// [`CompressionScheme::V4Hca`] and [`CompressionScheme::V4Swa`]. It can be written down so
    /// that old configuration files parse; [`MlaBlockConfig::new`] rejects it.
    DsaHierarchical {
        /// Coarse-grain compressed dimension.
        coarse_dim: u32,
        /// Fine-grain compressed dimension.
        fine_dim: u32,
        /// Local sliding-window size in tokens.
        swa_window: u32,
    },
    /// MHA fallback for non-MLA models: full K and V tensors.
    MhaFull {
        /// Number of attention heads.
        num_heads: u32,
        /// Per-head dimension.
        head_dim: u32,
    },
    /// V4 CSA layer: `k1` consecutive tokens share one main entry, with `head_dim - rope_dim`
    /// FP8 elements and `rope_dim` BF16 elements, and one indexer entry of `indexer_head_dim`
    /// FP4 elements.
    V4Csa {
        /// Token compression ratio.
        k1: u32,
        /// Per-head dimension.
        head_dim: u32,
        /// Number of query heads.
        num_heads: u32,
        /// Trailing dimensions reserved for RoPE.
        rope_dim: u32,
        /// Indexer head dimension.
        indexer_head_dim: u32,
        /// Number of indexer query heads.
        num_indexer_heads: u32,
        /// Compressed entries selected by sparse attention; does not affect sizes.
        top_k: u32,
    },
    /// V4 HCA layer: `k2` consecutive tokens share one entry like the main entry of CSA.
    V4Hca {
        /// Token compression ratio.
        k2: u32,
        /// Per-head dimension.
        head_dim: u32,
        /// Number of query heads.
        num_heads: u32,
        /// Trailing dimensions reserved for RoPE.
        rope_dim: u32,
    },
    /// V4 SWA layer: one uncompressed entry per token, kept for the last `window` tokens.
    V4Swa {
        /// Window size in tokens.
        window: u32,
        /// Per-head dimension.
        head_dim: u32,
        /// Number of query heads.
        num_heads: u32,
        /// Trailing dimensions reserved for RoPE.
        rope_dim: u32,
    },
}

/// Bytes of one V4 entry: the RoPE part in BF16 and the rest of the head in FP8.
pub open spec fn entry_bytes(head_dim: u32, rope_dim: u32) -> nat {
    let content = if head_dim > rope_dim {
        (head_dim - rope_dim) as nat
    } else {
        0nat
    };
    CkvDtype::Bf16.packed_bytes(rope_dim as nat) + CkvDtype::Fp8E4m3.packed_bytes(content)
}

/// `n`, or 1 in place of 0.
pub open spec fn at_least_one(n: u32) -> nat {
    if n == 0 {
        1
    } else {
        n as nat
    }
}

impl CompressionScheme {
    /// Whether the scheme belongs to the V4 hybrid family.
    pub open spec fn in_v4_family(self) -> bool {
        self is V4Csa || self is V4Hca || self is V4Swa
    }

    /// Bytes per original token and layer of a V4 scheme; zero for the others.
    pub open spec fn layer_token_bytes(self) -> nat {
        match self {
            CompressionScheme::V4Csa { k1, head_dim, rope_dim, indexer_head_dim, .. } => (
            entry_bytes(head_dim, rope_dim) + CkvDtype::Fp4E2m1.packed_bytes(
                indexer_head_dim as nat,
            )) / at_least_one(k1),
            CompressionScheme::V4Hca { k2, head_dim, rope_dim, .. } => entry_bytes(
                head_dim,
                rope_dim,
            ) / at_least_one(k2),
            CompressionScheme::V4Swa { head_dim, rope_dim, .. } => entry_bytes(head_dim, rope_dim),
            _ => 0,
        }
    }

    /// Bytes of the primary region per token over `layers` layers.
    pub open spec fn primary_token_bytes(self, layers: nat, dtype_bytes: nat) -> nat {
        match self {
            CompressionScheme::MlaLatent { latent_dim, .. } => latent_dim as nat * layers
                * dtype_bytes,
            CompressionScheme::MhaFull { num_heads, head_dim } => 2 * num_heads as nat
                * head_dim as nat * layers * dtype_bytes,
            _ => self.layer_token_bytes() * layers,
        }
    }

    /// Bytes of the position-dependent region per token over `layers` layers.
    pub open spec fn rope_token_bytes(self, layers: nat) -> nat {
        match self {
            CompressionScheme::MlaLatent { rope_key_dim, .. } => rope_key_dim as nat * layers * 2,
            _ => 0,
        }
    }

    /// Whether the primary size, and each product on the way to it, fits 64 bits.
    pub open spec fn primary_token_fits(self, layers: nat, dtype_bytes: nat) -> bool {
        &&& !(self is DsaHierarchical)
        &&& self matches CompressionScheme::MhaFull { num_heads, head_dim } ==> {
            &&& 2 * num_heads as nat * head_dim as nat <= u64::MAX
            &&& 2 * num_heads as nat * head_dim as nat * layers <= u64::MAX
        }
        &&& self.primary_token_bytes(layers, dtype_bytes) <= u64::MAX
    }

    /// Whether the size of the position-dependent region fits 64 bits.
    pub open spec fn rope_token_fits(self, layers: nat) -> bool {
        &&& !(self is DsaHierarchical)
        &&& self.rope_token_bytes(layers) <= u64::MAX
    }

    /// Bytes of `c_kv` (or the equivalent primary region) stored per token across all layers.
    /// V4 schemes carry their own precision and ignore `dtype_bytes`.
    pub fn primary_bytes_per_token(self, num_layers: u32, dtype_bytes: u32) -> (r: u64)
        requires
            self.primary_token_fits(num_layers as nat, dtype_bytes as nat),
        ensures
            r == self.primary_token_bytes(num_layers as nat, dtype_bytes as nat),
    {
        match self {
            CompressionScheme::MlaLatent { latent_dim, .. } => {
                proof {
                    product_fits(latent_dim, num_layers);
                }
                latent_dim as u64 * num_layers as u64 * dtype_bytes as u64
            },
            CompressionScheme::MhaFull { num_heads, head_dim } => {
                2 * num_heads as u64 * head_dim as u64 * num_layers as u64 * dtype_bytes as u64
            },
            CompressionScheme::V4Csa { .. }
            | CompressionScheme::V4Hca { .. }
            | CompressionScheme::V4Swa { .. } => {
                self.bytes_per_token_per_layer() * num_layers as u64
            },
            CompressionScheme::DsaHierarchical { .. } => 0,
        }
    }

    /// Bytes of the secondary, position-dependent region per token. Zero for schemes that do
    /// not split storage in two; V4 entries hold their RoPE part themselves.
    pub fn rope_bytes_per_token(self, num_layers: u32) -> (r: u64)
        requires
            self.rope_token_fits(num_layers as nat),
        ensures
            r == self.rope_token_bytes(num_layers as nat),
    {
        match self {
            CompressionScheme::MlaLatent { rope_key_dim, .. } => {
                proof {
                    product_fits(rope_key_dim, num_layers);
                }
                rope_key_dim as u64 * num_layers as u64 * 2
            },
            _ => 0,
        }
    }

    /// [`CompressionScheme::primary_bytes_per_token`], or `None` where it is not defined.
    fn checked_primary_bytes(self, num_layers: u32, dtype_bytes: u32) -> (r: Option<u64>)
        ensures
            r is Some <==> self.primary_token_fits(num_layers as nat, dtype_bytes as nat),
            r matches Some(n) ==> n == self.primary_token_bytes(
                num_layers as nat,
                dtype_bytes as nat,
            ),
    {
        match self {
            CompressionScheme::MlaLatent { latent_dim, .. } => {
                proof {
                    product_fits(latent_dim, num_layers);
                }
                (latent_dim as u64 * num_layers as u64).checked_mul(dtype_bytes as u64)
            },
            CompressionScheme::MhaFull { num_heads, head_dim } => {
                match (2 * num_heads as u64).checked_mul(head_dim as u64) {
                    Some(per_layer) => match per_layer.checked_mul(num_layers as u64) {
                        Some(elements) => elements.checked_mul(dtype_bytes as u64),
                        None => None,
                    },
                    None => None,
                }
            },
            CompressionScheme::V4Csa { .. }
            | CompressionScheme::V4Hca { .. }
            | CompressionScheme::V4Swa { .. } => {
                self.bytes_per_token_per_layer().checked_mul(num_layers as u64)
            },
            CompressionScheme::DsaHierarchical { .. } => None,
        }
    }

    /// [`CompressionScheme::rope_bytes_per_token`], or `None` where it is not defined.
    fn checked_rope_bytes(self, num_layers: u32) -> (r: Option<u64>)
        ensures
            r is Some <==> self.rope_token_fits(num_layers as nat),
            r matches Some(n) ==> n == self.rope_token_bytes(num_layers as nat),
    {
        match self {
            CompressionScheme::MlaLatent { rope_key_dim, .. } => {
                proof {
                    product_fits(rope_key_dim, num_layers);
                }
                (rope_key_dim as u64 * num_layers as u64).checked_mul(2)
            },
            CompressionScheme::DsaHierarchical { .. } => None,
            _ => Some(0),
        }
    }

    /// Per-layer byte cost per original token under the scheme's own precision split. Zero for
    /// schemes outside the V4 family.
    pub fn bytes_per_token_per_layer(self) -> (r: u64)
        ensures
            r == self.layer_token_bytes(),
            r <= 0x3_0000_0000,
    {
        match self {
            CompressionScheme::V4Csa { k1, head_dim, rope_dim, indexer_head_dim, .. } => {
                let bf16 = CkvDtype::Bf16.bytes_for_elements(rope_dim as u64);
                let fp8 = CkvDtype::Fp8E4m3.bytes_for_elements(
                    (head_dim as u64).saturating_sub(rope_dim as u64),
                );
                let fp4 = CkvDtype::Fp4E2m1.bytes_for_elements(indexer_head_dim as u64);
                let bytes_per_entry: u64 = bf16 + fp8 + fp4;
                let k: u64 = if k1 == 0 {
                    1
                } else {
                    k1 as u64
                };
                proof {
                    quotient_is_smaller(bytes_per_entry, k);
                }
                bytes_per_entry / k
            },
            CompressionScheme::V4Hca { k2, head_dim, rope_dim, .. } => {
                let bf16 = CkvDtype::Bf16.bytes_for_elements(rope_dim as u64);
                let fp8 = CkvDtype::Fp8E4m3.bytes_for_elements(
                    (head_dim as u64).saturating_sub(rope_dim as u64),
                );
                let k: u64 = if k2 == 0 {
                    1
                } else {
                    k2 as u64
                };
                proof {
                    quotient_is_smaller((bf16 + fp8) as u64, k);
                }
                (bf16 + fp8) / k
            },
            CompressionScheme::V4Swa { head_dim, rope_dim, .. } => {
                let bf16 = CkvDtype::Bf16.bytes_for_elements(rope_dim as u64);
                let fp8 = CkvDtype::Fp8E4m3.bytes_for_elements(
                    (head_dim as u64).saturating_sub(rope_dim as u64),
                );
                bf16 + fp8
            },
            _ => 0,
        }
    }

    /// MLA latent dimension, if this is the MLA scheme.
    pub fn mla_latent_dim(self) -> (r: Option<u32>)
        ensures
            r == (match self {
                CompressionScheme::MlaLatent { latent_dim, .. } => Some(latent_dim),
                _ => None,
            }),
    {
        match self {
            CompressionScheme::MlaLatent { latent_dim, .. } => Some(latent_dim),
            _ => None,
        }
    }

    /// MLA RoPE-key dimension, if this is the MLA scheme.
    pub fn mla_rope_key_dim(self) -> (r: Option<u32>)
        ensures
            r == (match self {
                CompressionScheme::MlaLatent { rope_key_dim, .. } => Some(rope_key_dim),
                _ => None,
            }),
    {
        match self {
            CompressionScheme::MlaLatent { rope_key_dim, .. } => Some(rope_key_dim),
            _ => None,
        }
    }

    /// Whether the scheme belongs to the V4 hybrid family.
    pub fn is_v4(self) -> (r: bool)
        ensures
            r == self.in_v4_family(),
    {
        match self {
            CompressionScheme::V4Csa { .. }
            | CompressionScheme::V4Hca { .. }
            | CompressionScheme::V4Swa { .. } => true,
            _ => false,
        }
    }
}

proof fn product_fits(a: u32, b: u32)
    ensures
        a as nat * b as nat <= u64::MAX,
{
    assert(a as nat * b as nat <= 0xffff_ffff * 0xffff_ffff) by (nonlinear_arith);
}

proof fn quotient_is_smaller(n: u64, k: u64)
    requires
        k >= 1,
    ensures
        n / k <= n,
{
    assert(n / k <= n) by (nonlinear_arith)
        requires
            k >= 1,
    ;
}

/// What a validated scheme got wrong, as the text of the error.
pub open spec fn scheme_fault(scheme: CompressionScheme, block_size_tokens: u32) -> Option<
    Seq<char>,
> {
    match scheme {
        CompressionScheme::MlaLatent { latent_dim, rope_key_dim } => if latent_dim == 0
            || rope_key_dim == 0 {
            Some("MLA latent_dim and rope_key_dim must both be > 0"@)
        } else if block_size_tokens != REQUIRED_BLOCK_SIZE_TOKENS {
            Some(
                "block_size_tokens must equal "@ + text::decimal(
                    REQUIRED_BLOCK_SIZE_TOKENS as nat,
                ) + " for MLA (got "@ + text::decimal(block_size_tokens as nat)
                    + ") — FlashMLA's paged block size is fixed."@,
            )
        } else {
            None
        },
        CompressionScheme::MhaFull { num_heads, head_dim } => if num_heads == 0 || head_dim == 0 {
            Some("MHA num_heads and head_dim must both be > 0"@)
        } else {
            None
        },
        CompressionScheme::DsaHierarchical { .. } => Some(
            "DsaHierarchical is deprecated (Sprint 5). Migrate to CompressionScheme::V4Csa / V4Hca / V4Swa per-layer. See ADR-0020."@,
        ),
        CompressionScheme::V4Csa { k1, head_dim, rope_dim, .. } => if bad_dims(
            k1,
            head_dim,
            rope_dim,
        ) {
            Some(dims_fault("V4Csa"@, "k1"@, k1, head_dim, rope_dim))
        } else if block_size_tokens % k1 != 0 {
            Some(
                "V4Csa: block_size_tokens ("@ + text::decimal(block_size_tokens as nat)
                    + ") must be a multiple of k1 ("@ + text::decimal(k1 as nat)
                    + ") so compressed entries align to block boundaries."@,
            )
        } else {
            None
        },
        CompressionScheme::V4Hca { k2, head_dim, rope_dim, .. } => if bad_dims(
            k2,
            head_dim,
            rope_dim,
        ) {
            Some(dims_fault("V4Hca"@, "k2"@, k2, head_dim, rope_dim))
        } else if block_size_tokens % k2 != 0 {
            Some(
                "V4Hca: block_size_tokens ("@ + text::decimal(block_size_tokens as nat)
                    + ") must be a multiple of k2 ("@ + text::decimal(k2 as nat) + ")."@,
            )
        } else {
            None
        },
        CompressionScheme::V4Swa { window, head_dim, rope_dim, .. } => if bad_dims(
            window,
            head_dim,
            rope_dim,
        ) {
            Some(dims_fault("V4Swa"@, "window"@, window, head_dim, rope_dim))
        } else {
            None
        },
    }
}

/// Whether V4 dimensions are out of bounds: all must be positive, and the RoPE part must fit
/// the head.
pub open spec fn bad_dims(span: u32, head_dim: u32, rope_dim: u32) -> bool {
    span == 0 || head_dim == 0 || rope_dim == 0 || rope_dim > head_dim
}

/// The text that reports V4 dimensions out of bounds.
pub open spec fn dims_fault(
    scheme: Seq<char>,
    span_name: Seq<char>,
    span: u32,
    head_dim: u32,
    rope_dim: u32,
) -> Seq<char> {
    scheme + ": "@ + span_name
        + ", head_dim, rope_dim must be > 0 with rope_dim ≤ head_dim (got "@ + span_name + "="@
        + text::decimal(span as nat) + " head_dim="@ + text::decimal(head_dim as nat)
        + " rope_dim="@ + text::decimal(rope_dim as nat) + ")"@
}

/// What a homogeneous configuration got wrong, as the text of the error.
pub open spec fn config_fault(
    scheme: CompressionScheme,
    num_layers: u32,
    block_size_tokens: u32,
) -> Option<Seq<char>> {
    if num_layers == 0 {
        Some("num_layers must be > 0"@)
    } else if block_size_tokens == 0 {
        Some("block_size_tokens must be > 0"@)
    } else {
        scheme_fault(scheme, block_size_tokens)
    }
}

fn dims_error(
    scheme: &str,
    span_name: &str,
    span: u32,
    head_dim: u32,
    rope_dim: u32,
) -> (e: TesseraError)
    ensures
        e.is_invalid_config(dims_fault(scheme@, span_name@, span, head_dim, rope_dim)),
{
    let mut s = String::from_str(scheme);
    s.append(": ");
    s.append(span_name);
    s.append(", head_dim, rope_dim must be > 0 with rope_dim ≤ head_dim (got ");
    s.append(span_name);
    s.append("=");
    text::push_decimal(&mut s, span as u64);
    s.append(" head_dim=");
    text::push_decimal(&mut s, head_dim as u64);
    s.append(" rope_dim=");
    text::push_decimal(&mut s, rope_dim as u64);
    s.append(")");
    TesseraError::InvalidConfig(s)
}

/// Validated block manager configuration. Construct via [`MlaBlockConfig::new`] for one scheme
/// on every layer, or via [`MlaBlockConfig::with_per_layer_schemes`].
#[derive(Debug, Clone)]
pub struct MlaBlockConfig {
    /// Scheme of every layer, or of the first layer when layers have their own.
    pub scheme: CompressionScheme,
    /// Number of transformer layers.
    pub num_layers: u32,
    /// Block size in tokens.
    pub block_size_tokens: u32,
    /// Storage dtype for the primary region; informational for V4 schemes.
    pub ckv_dtype: CkvDtype,
    /// CUDA device ordinal.
    pub device: i32,
    /// Scheme of each layer, or `None` when [`MlaBlockConfig::scheme`] applies to all of them.
    pub schemes_per_layer: Option<Arc<Vec<CompressionScheme>>>,
}

/// Primary bytes of one block summed over the layers.
pub open spec fn primary_sum(schemes: Seq<CompressionScheme>, dtype_bytes: nat, tokens: nat) -> nat
    decreases schemes.len(),
{
    if schemes.len() == 0 {
        0
    } else {
        primary_sum(schemes.drop_last(), dtype_bytes, tokens)
            + schemes.last().primary_token_bytes(1, dtype_bytes) * tokens
    }
}

/// Position-dependent bytes of one block summed over the layers.
pub open spec fn rope_sum(schemes: Seq<CompressionScheme>, tokens: nat) -> nat
    decreases schemes.len(),
{
    if schemes.len() == 0 {
        0
    } else {
        rope_sum(schemes.drop_last(), tokens) + schemes.last().rope_token_bytes(1) * tokens
    }
}

proof fn primary_sum_grows(
    schemes: Seq<CompressionScheme>,
    dtype_bytes: nat,
    tokens: nat,
    i: int,
)
    requires
        0 <= i < schemes.len(),
    ensures
        primary_sum(schemes.take(i), dtype_bytes, tokens) + schemes[i].primary_token_bytes(
            1,
            dtype_bytes,
        ) * tokens == primary_sum(schemes.take(i + 1), dtype_bytes, tokens),
        primary_sum(schemes.take(i + 1), dtype_bytes, tokens) <= primary_sum(
            schemes,
            dtype_bytes,
            tokens,
        ),
    decreases schemes.len(),
{
    assert(schemes.take(i + 1).drop_last() =~= schemes.take(i));
    if i + 1 == schemes.len() {
        assert(schemes.take(i + 1) =~= schemes);
    } else {
        let shorter = schemes.drop_last();
        primary_sum_grows(shorter, dtype_bytes, tokens, i);
        assert(shorter.take(i + 1) =~= schemes.take(i + 1));
    }
}

proof fn rope_sum_grows(schemes: Seq<CompressionScheme>, tokens: nat, i: int)
    requires
        0 <= i < schemes.len(),
    ensures
        rope_sum(schemes.take(i), tokens) + schemes[i].rope_token_bytes(1) * tokens == rope_sum(
            schemes.take(i + 1),
            tokens,
        ),
        rope_sum(schemes.take(i + 1), tokens) <= rope_sum(schemes, tokens),
    decreases schemes.len(),
{
    assert(schemes.take(i + 1).drop_last() =~= schemes.take(i));
    if i + 1 == schemes.len() {
        assert(schemes.take(i + 1) =~= schemes);
    } else {
        let shorter = schemes.drop_last();
        rope_sum_grows(shorter, tokens, i);
        assert(shorter.take(i + 1) =~= schemes.take(i + 1));
    }
}

impl MlaBlockConfig {
    /// Bytes of the primary region of one block.
    pub open spec fn primary_size(self) -> nat {
        match self.schemes_per_layer {
            Some(schemes) => primary_sum(
                schemes@,
                self.ckv_dtype.element_bytes() as nat,
                self.block_size_tokens as nat,
            ),
            None => self.scheme.primary_token_bytes(
                self.num_layers as nat,
                self.ckv_dtype.element_bytes() as nat,
            ) * self.block_size_tokens as nat,
        }
    }

    /// Bytes of the position-dependent region of one block.
    pub open spec fn rope_size(self) -> nat {
        match self.schemes_per_layer {
            Some(schemes) => rope_sum(schemes@, self.block_size_tokens as nat),
            None => self.scheme.rope_token_bytes(self.num_layers as nat)
                * self.block_size_tokens as nat,
        }
    }

    /// Bytes of the scale factors of one block: a 32-bit number per layer, if the dtype needs
    /// them.
    pub open spec fn scale_size(self) -> nat {
        if self.ckv_dtype.is_scaled() {
            self.num_layers as nat * 4
        } else {
            0
        }
    }

    /// Bytes of one block with its header.
    pub open spec fn block_size(self) -> nat {
        HEADER_BYTES as nat + self.primary_size() + self.rope_size() + self.scale_size()
    }

    /// Whether the primary size of a block, and each number on the way to it, fits 64 bits.
    pub open spec fn primary_fits(self) -> bool {
        &&& self.primary_size() <= u64::MAX
        &&& match self.schemes_per_layer {
            Some(schemes) => forall|i: int|
                0 <= i < schemes@.len() ==> (#[trigger] schemes@[i]).primary_token_fits(
                    1,
                    self.ckv_dtype.element_bytes() as nat,
                ),
            None => self.scheme.primary_token_fits(
                self.num_layers as nat,
                self.ckv_dtype.element_bytes() as nat,
            ),
        }
    }

    /// Whether the position-dependent size of a block, and each number on the way to it, fits
    /// 64 bits.
    pub open spec fn rope_fits(self) -> bool {
        &&& self.rope_size() <= u64::MAX
        &&& match self.schemes_per_layer {
            Some(schemes) => forall|i: int|
                0 <= i < schemes@.len() ==> (#[trigger] schemes@[i]).rope_token_fits(1),
            None => self.scheme.rope_token_fits(self.num_layers as nat),
        }
    }

    /// Whether the sizes of a block fit 64 bits.
    pub open spec fn fits(self) -> bool {
        &&& self.primary_fits()
        &&& self.rope_fits()
        &&& self.block_size() <= u64::MAX
    }

    /// Scheme of layer `layer_idx`.
    pub open spec fn layer_scheme(self, layer_idx: nat) -> CompressionScheme {
        match self.schemes_per_layer {
            Some(schemes) => if layer_idx < schemes@.len() {
                schemes@[layer_idx as int]
            } else {
                self.scheme
            },
            None => self.scheme,
        }
    }

    /// Construct after validating every rule; the message of the error names the first one that
    /// was broken.
    pub fn new(
        scheme: CompressionScheme,
        num_layers: u32,
        block_size_tokens: u32,
        ckv_dtype: CkvDtype,
        device: i32,
    ) -> (r: Result<MlaBlockConfig>)
        ensures
            match r {
                Ok(c) => {
                    &&& config_fault(scheme, num_layers, block_size_tokens) is None
                    &&& c == (MlaBlockConfig {
                        scheme,
                        num_layers,
                        block_size_tokens,
                        ckv_dtype,
                        device,
                        schemes_per_layer: None,
                    })
                },
                Err(e) => {
                    &&& config_fault(scheme, num_layers, block_size_tokens) matches Some(text)
                    &&& e.is_invalid_config(text)
                },
            },
    {
        if num_layers == 0 {
            return Err(TesseraError::invalid_config("num_layers must be > 0"));
        }
        if block_size_tokens == 0 {
            return Err(TesseraError::invalid_config("block_size_tokens must be > 0"));
        }
        match scheme {
            CompressionScheme::MlaLatent { latent_dim, rope_key_dim } => {
                if latent_dim == 0 || rope_key_dim == 0 {
                    return Err(
                        TesseraError::invalid_config(
                            "MLA latent_dim and rope_key_dim must both be > 0",
                        ),
                    );
                }
                if block_size_tokens != REQUIRED_BLOCK_SIZE_TOKENS {
                    let mut s = String::from_str("block_size_tokens must equal ");
                    text::push_decimal(&mut s, REQUIRED_BLOCK_SIZE_TOKENS as u64);
                    s.append(" for MLA (got ");
                    text::push_decimal(&mut s, block_size_tokens as u64);
                    s.append(") — FlashMLA's paged block size is fixed.");
                    return Err(TesseraError::InvalidConfig(s));
                }
            },
            CompressionScheme::MhaFull { num_heads, head_dim } => {
                if num_heads == 0 || head_dim == 0 {
                    return Err(
                        TesseraError::invalid_config("MHA num_heads and head_dim must both be > 0"),
                    );
                }
            },
            CompressionScheme::DsaHierarchical { .. } => {
                return Err(
                    TesseraError::invalid_config(
                        "DsaHierarchical is deprecated (Sprint 5). Migrate to CompressionScheme::V4Csa / V4Hca / V4Swa per-layer. See ADR-0020.",
                    ),
                );
            },
            CompressionScheme::V4Csa { k1, head_dim, rope_dim, .. } => {
                if k1 == 0 || head_dim == 0 || rope_dim == 0 || rope_dim > head_dim {
                    return Err(dims_error("V4Csa", "k1", k1, head_dim, rope_dim));
                }
                if block_size_tokens % k1 != 0 {
                    let mut s = String::from_str("V4Csa: block_size_tokens (");
                    text::push_decimal(&mut s, block_size_tokens as u64);
                    s.append(") must be a multiple of k1 (");
                    text::push_decimal(&mut s, k1 as u64);
                    s.append(") so compressed entries align to block boundaries.");
                    return Err(TesseraError::InvalidConfig(s));
                }
            },
            CompressionScheme::V4Hca { k2, head_dim, rope_dim, .. } => {
                if k2 == 0 || head_dim == 0 || rope_dim == 0 || rope_dim > head_dim {
                    return Err(dims_error("V4Hca", "k2", k2, head_dim, rope_dim));
                }
                if block_size_tokens % k2 != 0 {
                    let mut s = String::from_str("V4Hca: block_size_tokens (");
                    text::push_decimal(&mut s, block_size_tokens as u64);
                    s.append(") must be a multiple of k2 (");
                    text::push_decimal(&mut s, k2 as u64);
                    s.append(").");
                    return Err(TesseraError::InvalidConfig(s));
                }
            },
            CompressionScheme::V4Swa { window, head_dim, rope_dim, .. } => {
                if window == 0 || head_dim == 0 || rope_dim == 0 || rope_dim > head_dim {
                    return Err(dims_error("V4Swa", "window", window, head_dim, rope_dim));
                }
            },
        }
        Ok(
            MlaBlockConfig {
                scheme,
                num_layers,
                block_size_tokens,
                ckv_dtype,
                device,
                schemes_per_layer: None,
            },
        )
    }

    /// Construct with one scheme per layer. Each layer is validated by the rules of
    /// [`MlaBlockConfig::new`]; the error names the first layer that breaks one.
    pub fn with_per_layer_schemes(
        schemes: Vec<CompressionScheme>,
        block_size_tokens: u32,
        ckv_dtype: CkvDtype,
        device: i32,
    ) -> (r: Result<MlaBlockConfig>)
        ensures
            match r {
                Ok(c) => {
                    &&& 0 < schemes@.len() <= u32::MAX
                    &&& forall|i: int|
                        0 <= i < schemes@.len() ==> config_fault(
                            #[trigger] schemes@[i],
                            1,
                            block_size_tokens,
                        ) is None
                    &&& c.scheme == schemes@[0]
                    &&& c.num_layers == schemes@.len()
                    &&& c.block_size_tokens == block_size_tokens
                    &&& c.ckv_dtype == ckv_dtype
                    &&& c.device == device
                    &&& c.schemes_per_layer matches Some(kept)
                    &&& kept@ == schemes@
                },
                Err(e) => if schemes@.len() == 0 {
                    e.is_invalid_config("with_per_layer_schemes: schemes vector must be non-empty"@)
                } else if schemes@.len() > u32::MAX {
                    e.is_invalid_config("num_layers does not fit in u32"@)
                } else {
                    exists|i: int|
                        {
                            &&& 0 <= i < schemes@.len()
                            &&& forall|j: int|
                                0 <= j < i ==> config_fault(
                                    #[trigger] schemes@[j],
                                    1,
                                    block_size_tokens,
                                ) is None
                            &&& config_fault(
                                #[trigger] schemes@[i],
                                1,
                                block_size_tokens,
                            ) matches Some(text)
                            &&& e.is_invalid_config(
                                "with_per_layer_schemes: layer "@ + text::decimal(i as nat)
                                    + " rejected: "@ + ("invalid configuration: "@ + text),
                            )
                        }
                },
            },
    {
        if schemes.len() == 0 {
            return Err(
                TesseraError::invalid_config(
                    "with_per_layer_schemes: schemes vector must be non-empty",
                ),
            );
        }
        if schemes.len() as u64 > u32::MAX as u64 {
            return Err(TesseraError::invalid_config("num_layers does not fit in u32"));
        }
        let num_layers: u32 = schemes.len() as u32;
        let mut i: usize = 0;
        while i < schemes.len()
            invariant
                i <= schemes@.len() <= u32::MAX,
                0 < schemes@.len(),
                forall|j: int|
                    0 <= j < i ==> config_fault(
                        #[trigger] schemes@[j],
                        1,
                        block_size_tokens,
                    ) is None,
            decreases schemes.len() - i,
        {
            let probe = MlaBlockConfig::new(schemes[i], 1, block_size_tokens, ckv_dtype, device);
            if let Err(e) = probe {
                let mut s = String::from_str("with_per_layer_schemes: layer ");
                text::push_decimal(&mut s, i as u64);
                s.append(" rejected: ");
                let inner = e.to_string();
                s.append(inner.as_str());
                assert(config_fault(schemes@[i as int], 1, block_size_tokens) is Some);
                return Err(TesseraError::InvalidConfig(s));
            }
            i += 1;
        }
        Ok(
            MlaBlockConfig {
                scheme: schemes[0],
                num_layers,
                block_size_tokens,
                ckv_dtype,
                device,
                schemes_per_layer: Some(Arc::new(schemes)),
            },
        )
    }

    /// Whether this config uses per-layer schemes.
    pub fn has_per_layer_schemes(&self) -> (r: bool)
        ensures
            r == (self.schemes_per_layer is Some),
    {
        self.schemes_per_layer.is_some()
    }

    /// Resolve the scheme for a specific layer index. A layer without an entry of its own uses
    /// [`MlaBlockConfig::scheme`].
    pub fn scheme_for_layer(&self, layer_idx: u32) -> (r: CompressionScheme)
        ensures
            r == self.layer_scheme(layer_idx as nat),
    {
        match &self.schemes_per_layer {
            Some(schemes) => {
                if (layer_idx as u64) < schemes.len() as u64 {
                    schemes[layer_idx as usize]
                } else {
                    self.scheme
                }
            },
            None => self.scheme,
        }
    }

    /// Bytes used by the primary region of one block, summed over the layers.
    pub fn primary_block_bytes(&self) -> (r: u64)
        requires
            self.primary_fits(),
        ensures
            r == self.primary_size(),
    {
        let dtype_bytes: u32 = self.ckv_dtype.bytes();
        match &self.schemes_per_layer {
            Some(schemes) => {
                let mut total: u64 = 0;
                let mut i: usize = 0;
                while i < schemes.len()
                    invariant
                        i <= schemes@.len(),
                        dtype_bytes == self.ckv_dtype.element_bytes(),
                        self.schemes_per_layer == Some(*schemes),
                        self.primary_fits(),
                        total == primary_sum(
                            schemes@.take(i as int),
                            dtype_bytes as nat,
                            self.block_size_tokens as nat,
                        ),
                    decreases schemes.len() - i,
                {
                    proof {
                        primary_sum_grows(
                            schemes@,
                            dtype_bytes as nat,
                            self.block_size_tokens as nat,
                            i as int,
                        );
                    }
                    let per_token = schemes[i].primary_bytes_per_token(1, dtype_bytes);
                    total = total + per_token * self.block_size_tokens as u64;
                    i += 1;
                }
                proof {
                    assert(schemes@.take(schemes@.len() as int) =~= schemes@);
                }
                total
            },
            None => {
                self.scheme.primary_bytes_per_token(self.num_layers, dtype_bytes)
                    * self.block_size_tokens as u64
            },
        }
    }

    /// Bytes used by the secondary, position-dependent region of one block.
    pub fn rope_block_bytes(&self) -> (r: u64)
        requires
            self.rope_fits(),
        ensures
            r == self.rope_size(),
    {
        match &self.schemes_per_layer {
            Some(schemes) => {
                let mut total: u64 = 0;
                let mut i: usize = 0;
                while i < schemes.len()
                    invariant
                        i <= schemes@.len(),
                        self.schemes_per_layer == Some(*schemes),
                        self.rope_fits(),
                        total == rope_sum(
                            schemes@.take(i as int),
                            self.block_size_tokens as nat,
                        ),
                    decreases schemes.len() - i,
                {
                    proof {
                        rope_sum_grows(schemes@, self.block_size_tokens as nat, i as int);
                    }
                    let per_token = schemes[i].rope_bytes_per_token(1);
                    total = total + per_token * self.block_size_tokens as u64;
                    i += 1;
                }
                proof {
                    assert(schemes@.take(schemes@.len() as int) =~= schemes@);
                }
                total
            },
            None => {
                self.scheme.rope_bytes_per_token(self.num_layers) * self.block_size_tokens as u64
            },
        }
    }

    /// Bytes of per-layer scale factors stored per block; 0 unless the dtype needs them.
    pub fn fp8_scale_block_bytes(&self) -> (r: u64)
        ensures
            r == self.scale_size(),
    {
        if self.ckv_dtype.requires_per_layer_scales() {
            self.num_layers as u64 * 4
        } else {
            0
        }
    }

    /// Total bytes consumed by a single block, including its header.
    pub fn total_block_bytes(&self) -> (r: u64)
        requires
            self.fits(),
        ensures
            r == self.block_size(),
    {
        HEADER_BYTES + self.primary_block_bytes() + self.rope_block_bytes()
            + self.fp8_scale_block_bytes()
    }

    /// [`MlaBlockConfig::primary_block_bytes`], or `None` where it is not defined.
    pub fn checked_primary_block_bytes(&self) -> (r: Option<u64>)
        ensures
            r is Some <==> self.primary_fits(),
            r matches Some(n) ==> n == self.primary_size(),
    {
        let dtype_bytes: u32 = self.ckv_dtype.bytes();
        let tokens: u64 = self.block_size_tokens as u64;
        match &self.schemes_per_layer {
            Some(schemes) => {
                let mut total: u64 = 0;
                let mut i: usize = 0;
                while i < schemes.len()
                    invariant
                        i <= schemes@.len(),
                        dtype_bytes == self.ckv_dtype.element_bytes(),
                        tokens == self.block_size_tokens,
                        self.schemes_per_layer == Some(*schemes),
                        total == primary_sum(
                            schemes@.take(i as int),
                            dtype_bytes as nat,
                            tokens as nat,
                        ),
                        forall|j: int|
                            0 <= j < i ==> (#[trigger] schemes@[j]).primary_token_fits(
                                1,
                                dtype_bytes as nat,
                            ),
                    decreases schemes.len() - i,
                {
                    proof {
                        primary_sum_grows(schemes@, dtype_bytes as nat, tokens as nat, i as int);
                    }
                    let per_token: u64 = match schemes[i].checked_primary_bytes(1, dtype_bytes) {
                        Some(n) => n,
                        None => {
                            assert(!schemes@[i as int].primary_token_fits(1, dtype_bytes as nat));
                            return None;
                        },
                    };
                    let layer: u64 = match per_token.checked_mul(tokens) {
                        Some(n) => n,
                        None => {
                            return None;
                        },
                    };
                    total = match total.checked_add(layer) {
                        Some(n) => n,
                        None => {
                            return None;
                        },
                    };
                    i += 1;
                }
                proof {
                    assert(schemes@.take(schemes@.len() as int) =~= schemes@);
                }
                Some(total)
            },
            None => match self.scheme.checked_primary_bytes(self.num_layers, dtype_bytes) {
                Some(per_token) => per_token.checked_mul(tokens),
                None => None,
            },
        }
    }

    /// [`MlaBlockConfig::rope_block_bytes`], or `None` where it is not defined.
    pub fn checked_rope_block_bytes(&self) -> (r: Option<u64>)
        ensures
            r is Some <==> self.rope_fits(),
            r matches Some(n) ==> n == self.rope_size(),
    {
        let tokens: u64 = self.block_size_tokens as u64;
        match &self.schemes_per_layer {
            Some(schemes) => {
                let mut total: u64 = 0;
                let mut i: usize = 0;
                while i < schemes.len()
                    invariant
                        i <= schemes@.len(),
                        tokens == self.block_size_tokens,
                        self.schemes_per_layer == Some(*schemes),
                        total == rope_sum(schemes@.take(i as int), tokens as nat),
                        forall|j: int|
                            0 <= j < i ==> (#[trigger] schemes@[j]).rope_token_fits(1),
                    decreases schemes.len() - i,
                {
                    proof {
                        rope_sum_grows(schemes@, tokens as nat, i as int);
                    }
                    let per_token: u64 = match schemes[i].checked_rope_bytes(1) {
                        Some(n) => n,
                        None => {
                            assert(!schemes@[i as int].rope_token_fits(1));
                            return None;
                        },
                    };
                    let layer: u64 = match per_token.checked_mul(tokens) {
                        Some(n) => n,
                        None => {
                            return None;
                        },
                    };
                    total = match total.checked_add(layer) {
                        Some(n) => n,
                        None => {
                            return None;
                        },
                    };
                    i += 1;
                }
                proof {
                    assert(schemes@.take(schemes@.len() as int) =~= schemes@);
                }
                Some(total)
            },
            None => match self.scheme.checked_rope_bytes(self.num_layers) {
                Some(per_token) => per_token.checked_mul(tokens),
                None => None,
            },
        }
    }

    /// Total bytes consumed by a single block, or `None` if the sizes of its parts are not
    /// defined or do not fit 64 bits.
    pub fn checked_total_block_bytes(&self) -> (r: Option<u64>)
        ensures
            r is Some <==> self.fits(),
            r matches Some(n) ==> n == self.block_size(),
    {
        let primary: u64 = match self.checked_primary_block_bytes() {
            Some(n) => n,
            None => {
                return None;
            },
        };
        let rope: u64 = match self.checked_rope_block_bytes() {
            Some(n) => n,
            None => {
                return None;
            },
        };
        let fixed: u64 = HEADER_BYTES + self.fp8_scale_block_bytes();
        match primary.checked_add(rope) {
            Some(parts) => parts.checked_add(fixed),
            None => None,
        }
    }

    /// Heads and head dimension of the MHA baseline that the compression ratio compares with.
    pub open spec fn baseline_heads(self) -> (u32, u32) {
        match self.scheme {
            CompressionScheme::MhaFull { num_heads, head_dim } => (num_heads, head_dim),
            CompressionScheme::V4Csa { num_heads, .. } => (num_heads, 128),
            CompressionScheme::V4Hca { num_heads, .. } => (num_heads, 128),
            CompressionScheme::V4Swa { num_heads, .. } => (num_heads, 128),
            _ => (128, 128),
        }
    }

    /// Bytes of a block of the MHA baseline: K and V in BF16 for every head, layer and token.
    pub open spec fn baseline_size(self) -> nat {
        let (num_heads, head_dim) = self.baseline_heads();
        2 * num_heads as nat * head_dim as nat * self.num_layers as nat
            * self.block_size_tokens as nat * 2
    }

    /// Whether the baseline size, and each product on the way to it, fits 64 bits.
    pub open spec fn baseline_fits(self) -> bool {
        let (num_heads, head_dim) = self.baseline_heads();
        &&& !(self.scheme is DsaHierarchical)
        &&& 2 * num_heads as nat * head_dim as nat <= u64::MAX
        &&& 2 * num_heads as nat * head_dim as nat * self.num_layers as nat <= u64::MAX
        &&& 2 * num_heads as nat * head_dim as nat * self.num_layers as nat
            * self.block_size_tokens as nat <= u64::MAX
        &&& self.baseline_size() <= u64::MAX
    }

    /// Compression ratio relative to an MHA baseline in BF16 with the same number of tokens and
    /// layers, as the exact fraction of baseline bytes over block bytes. The MLA baseline has
    /// 128 heads of dimension 128; the V4 baseline has the scheme's heads, of dimension 128.
    pub fn compression_ratio_vs_mha_bf16(&self) -> (r: (u64, u64))
        requires
            self.fits(),
            self.baseline_fits(),
        ensures
            r.0 == self.baseline_size(),
            r.1 == self.block_size(),
    {
        let (num_heads, head_dim): (u32, u32) = match self.scheme {
            CompressionScheme::MhaFull { num_heads, head_dim } => (num_heads, head_dim),
            CompressionScheme::V4Csa { num_heads, .. } => (num_heads, 128),
            CompressionScheme::V4Hca { num_heads, .. } => (num_heads, 128),
            CompressionScheme::V4Swa { num_heads, .. } => (num_heads, 128),
            _ => (128, 128),
        };
        let mha_bytes: u64 = 2 * num_heads as u64 * head_dim as u64 * self.num_layers as u64
            * self.block_size_tokens as u64 * 2;
        (mha_bytes, self.total_block_bytes())
    }

    /// Whether [`MlaBlockConfig::compression_ratio_vs_mha_bf16`] is defined.
    pub fn has_compression_ratio(&self) -> (r: bool)
        ensures
            r == (self.fits() && self.baseline_fits()),
    {
        if self.checked_total_block_bytes().is_none() {
            return false;
        }
        let (num_heads, head_dim): (u32, u32) = match self.scheme {
            CompressionScheme::MhaFull { num_heads, head_dim } => (num_heads, head_dim),
            CompressionScheme::V4Csa { num_heads, .. } => (num_heads, 128),
            CompressionScheme::V4Hca { num_heads, .. } => (num_heads, 128),
            CompressionScheme::V4Swa { num_heads, .. } => (num_heads, 128),
            CompressionScheme::DsaHierarchical { .. } => {
                return false;
            },
            _ => (128, 128),
        };
        match (2 * num_heads as u64).checked_mul(head_dim as u64) {
            Some(per_layer) => match per_layer.checked_mul(self.num_layers as u64) {
                Some(per_token) => match per_token.checked_mul(self.block_size_tokens as u64) {
                    Some(elements) => elements.checked_mul(2).is_some(),
                    None => false,
                },
                None => false,
            },
            None => false,
        }
    }

    /// Compression ratios of the V4 layers, in layer order.
    pub open spec fn spans(self) -> Seq<u32> {
        match self.schemes_per_layer {
            Some(schemes) => spans_of(schemes@),
            None => spans_of(seq![self.scheme]),
        }
    }

    /// Least common multiple of the compression ratios of the CSA and HCA layers; 1 when there
    /// is no such layer. A multiple that does not fit 32 bits is cut off at `u32::MAX`.
    pub fn v4_block_size_lcm(&self) -> (r: u32)
        ensures
            r == multiples::fold_lcm(self.spans()),
    {
        match &self.schemes_per_layer {
            Some(schemes) => {
                let mut acc: u32 = 1;
                let mut i: usize = 0;
                while i < schemes.len()
                    invariant
                        i <= schemes@.len(),
                        acc == multiples::fold_lcm(spans_of(schemes@.take(i as int))),
                    decreases schemes.len() - i,
                {
                    proof {
                        assert(schemes@.take(i + 1).drop_last() =~= schemes@.take(i as int));
                    }
                    acc = fold_span(acc, schemes[i]);
                    proof {
                        fold_step(schemes@.take(i + 1));
                    }
                    i += 1;
                }
                proof {
                    assert(schemes@.take(schemes@.len() as int) =~= schemes@);
                }
                acc
            },
            None => {
                proof {
                    assert(seq![self.scheme].drop_last() =~= Seq::<CompressionScheme>::empty());
                    fold_step(seq![self.scheme]);
                    assert(multiples::fold_lcm(spans_of(Seq::<CompressionScheme>::empty())) == 1);
                }
                fold_span(1, self.scheme)
            },
        }
    }
}

/// Compression ratio of a CSA or HCA layer.
pub open spec fn span_of(scheme: CompressionScheme) -> Option<u32> {
    match scheme {
        CompressionScheme::V4Csa { k1, .. } => Some(k1),
        CompressionScheme::V4Hca { k2, .. } => Some(k2),
        _ => None,
    }
}

/// Compression ratios of the CSA and HCA layers among `schemes`, in order.
pub open spec fn spans_of(schemes: Seq<CompressionScheme>) -> Seq<u32>
    decreases schemes.len(),
{
    if schemes.len() == 0 {
        Seq::empty()
    } else {
        let before = spans_of(schemes.drop_last());
        match span_of(schemes.last()) {
            Some(k) => before.push(k),
            None => before,
        }
    }
}

proof fn fold_step(schemes: Seq<CompressionScheme>)
    requires
        schemes.len() > 0,
    ensures
        multiples::fold_lcm(spans_of(schemes)) == (match span_of(schemes.last()) {
            Some(k) => multiples::lcm(
                multiples::fold_lcm(spans_of(schemes.drop_last())),
                k,
            ),
            None => multiples::fold_lcm(spans_of(schemes.drop_last())),
        }),
{
    let before = spans_of(schemes.drop_last());
    if let Some(k) = span_of(schemes.last()) {
        assert(before.push(k).drop_last() =~= before);
    }
}

fn fold_span(acc: u32, scheme: CompressionScheme) -> (r: u32)
    ensures
        r == (match span_of(scheme) {
            Some(k) => multiples::lcm(acc, k),
            None => acc,
        }),
{
    match scheme {
        CompressionScheme::V4Csa { k1, .. } => multiples::least_common_multiple(acc, k1),
        CompressionScheme::V4Hca { k2, .. } => multiples::least_common_multiple(acc, k2),
        _ => acc,
    }
}

/// Whether the configuration passed validation.
pub open spec fn validated(c: MlaBlockConfig) -> bool {
    &&& c.block_size_tokens > 0
    &&& match c.schemes_per_layer {
        Some(schemes) => forall|i: int|
            0 <= i < schemes@.len() ==> scheme_fault(
                #[trigger] schemes@[i],
                c.block_size_tokens,
            ) is None,
        None => scheme_fault(c.scheme, c.block_size_tokens) is None,
    }
}

proof fn spans_divide_block(schemes: Seq<CompressionScheme>, tokens: u32)
    requires
        tokens > 0,
        forall|i: int|
            0 <= i < schemes.len() ==> scheme_fault(#[trigger] schemes[i], tokens) is None,
    ensures
        forall|i: int|
            0 <= i < spans_of(schemes).len() ==> #[trigger] spans_of(schemes)[i] > 0
                && multiples::divides(spans_of(schemes)[i] as nat, tokens as nat),
    decreases schemes.len(),
{
    if schemes.len() > 0 {
        let rest = schemes.drop_last();
        assert forall|i: int| 0 <= i < rest.len() implies scheme_fault(
            #[trigger] rest[i],
            tokens,
        ) is None by {
            assert(rest[i] == schemes[i]);
        }
        spans_divide_block(rest, tokens);
        assert(scheme_fault(schemes[schemes.len() - 1], tokens) is None);
        if let Some(k) = span_of(schemes.last()) {
            multiples::divides_iff_no_remainder(k as nat, tokens as nat);
            assert forall|i: int| 0 <= i < spans_of(schemes).len() implies #[trigger] spans_of(
                schemes,
            )[i] > 0 && multiples::divides(spans_of(schemes)[i] as nat, tokens as nat) by {
                if i < spans_of(rest).len() {
                    assert(spans_of(schemes)[i] == spans_of(rest)[i]);
                }
            }
        }
    }
}

/// Compressed entries align to block boundaries: the block size of a validated configuration is
/// a multiple of the least common multiple of its compression ratios.
pub proof fn block_size_is_multiple_of_lcm(c: MlaBlockConfig)
    requires
        validated(c),
    ensures
        multiples::fold_lcm(c.spans()) > 0,
        c.block_size_tokens as nat % multiples::fold_lcm(c.spans()) as nat == 0,
        forall|i: int|
            0 <= i < c.spans().len() ==> multiples::divides(
                #[trigger] c.spans()[i] as nat,
                multiples::fold_lcm(c.spans()) as nat,
            ),
{
    match c.schemes_per_layer {
        Some(schemes) => {
            spans_divide_block(schemes@, c.block_size_tokens);
        },
        None => {
            assert(seq![c.scheme][0] == c.scheme);
            spans_divide_block(seq![c.scheme], c.block_size_tokens);
        },
    }
    multiples::fold_divides_common_multiple(c.spans(), c.block_size_tokens);
    multiples::divides_iff_no_remainder(
        multiples::fold_lcm(c.spans()) as nat,
        c.block_size_tokens as nat,
    );
}

/// Storing an MLA or MHA block in FP8 takes half the primary bytes of BF16.
pub proof fn fp8_halves_primary_size(bf16: MlaBlockConfig, fp8: MlaBlockConfig)
    requires
        bf16.ckv_dtype == CkvDtype::Bf16,
        fp8.ckv_dtype == CkvDtype::Fp8E4m3,
        fp8.scheme == bf16.scheme,
        fp8.num_layers == bf16.num_layers,
        fp8.block_size_tokens == bf16.block_size_tokens,
        bf16.schemes_per_layer is None,
        fp8.schemes_per_layer is None,
        bf16.scheme is MlaLatent || bf16.scheme is MhaFull,
    ensures
        bf16.primary_size() == 2 * fp8.primary_size(),
        fp8.scale_size() == 4 * fp8.num_layers,
        bf16.scale_size() == 0,
{
    let layers = bf16.num_layers as nat;
    let tokens = bf16.block_size_tokens as nat;
    let a = bf16.scheme.primary_token_bytes(layers, 2);
    let b = bf16.scheme.primary_token_bytes(layers, 1);
    match bf16.scheme {
        CompressionScheme::MlaLatent { latent_dim, .. } => {
            let p = latent_dim as nat * layers;
            assert(p * 2 == 2 * (p * 1)) by (nonlinear_arith);
        },
        CompressionScheme::MhaFull { num_heads, head_dim } => {
            let p = 2 * num_heads as nat * head_dim as nat * layers;
            assert(p * 2 == 2 * (p * 1)) by (nonlinear_arith);
        },
        _ => {},
    }
    assert(a == 2 * b);
    assert(a * tokens == 2 * (b * tokens)) by (nonlinear_arith)
        requires
            a == 2 * b,
    ;
}

} // verus!
