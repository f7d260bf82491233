//! Sizes and validation of block configurations.

use tessera::config::{HEADER_BYTES, REQUIRED_BLOCK_SIZE_TOKENS};
use tessera::{CkvDtype, CompressionScheme, MlaBlockConfig, TesseraError};

fn ds_v3_scheme() -> CompressionScheme {
    CompressionScheme::MlaLatent {
        latent_dim: 512,
        rope_key_dim: 64,
    }
}

fn v4_pro_csa() -> CompressionScheme {
    CompressionScheme::V4Csa {
        k1: 4,
        head_dim: 512,
        num_heads: 128,
        rope_dim: 64,
        indexer_head_dim: 128,
        num_indexer_heads: 64,
        top_k: 1024,
    }
}

fn v4_pro_hca() -> CompressionScheme {
    CompressionScheme::V4Hca {
        k2: 128,
        head_dim: 512,
        num_heads: 128,
        rope_dim: 64,
    }
}

fn v4_pro_swa() -> CompressionScheme {
    CompressionScheme::V4Swa {
        window: 128,
        head_dim: 512,
        num_heads: 128,
        rope_dim: 64,
    }
}

fn dsa_scheme() -> CompressionScheme {
    CompressionScheme::DsaHierarchical {
        coarse_dim: 128,
        fine_dim: 32,
        swa_window: 128,
    }
}

fn text_of(r: Result<MlaBlockConfig, TesseraError>) -> String {
    match r {
        Err(TesseraError::InvalidConfig(s)) => s,
        other => panic!("expected InvalidConfig, got {other:?}"),
    }
}

fn ratio(cfg: &MlaBlockConfig) -> f64 {
    let (full, stored) = cfg.compression_ratio_vs_mha_bf16();
    full as f64 / stored as f64
}

#[test]
fn deepseek_v3_compression_ratio_is_about_57x() {
    let cfg = MlaBlockConfig::new(ds_v3_scheme(), 61, 64, CkvDtype::Bf16, 0).unwrap();
    let ratio = ratio(&cfg);
    assert!(
        (55.0..58.0).contains(&ratio),
        "compression ratio {ratio} not in (55, 58)"
    );
}

#[test]
fn compression_ratio_deepseek_v3_is_about_57x() {
    let cfg = MlaBlockConfig::new(ds_v3_scheme(), 61, 64, CkvDtype::Bf16, 0)
        .expect("DeepSeek-V3 reference config is valid");
    let r = ratio(&cfg);
    assert!(
        (55.0..58.0).contains(&r),
        "compression ratio {r} not in the (55, 58) band"
    );
}

#[test]
fn invalid_block_size_rejected_for_mla() {
    let err = MlaBlockConfig::new(ds_v3_scheme(), 61, 16, CkvDtype::Bf16, 0)
        .expect_err("block_size != 64 must fail under MLA");
    assert!(matches!(err, TesseraError::InvalidConfig(_)));
}

#[test]
fn dsa_variant_is_rejected_by_new() {
    let err = MlaBlockConfig::new(dsa_scheme(), 61, 64, CkvDtype::Bf16, 0)
        .expect_err("DsaHierarchical is deprecated; must be rejected");
    assert!(matches!(err, TesseraError::InvalidConfig(_)));
}

#[test]
fn fp8_halves_primary_bytes() {
    let bf16_cfg = MlaBlockConfig::new(ds_v3_scheme(), 61, 64, CkvDtype::Bf16, 0).unwrap();
    let fp8_cfg = MlaBlockConfig::new(ds_v3_scheme(), 61, 64, CkvDtype::Fp8E4m3, 0).unwrap();
    assert_eq!(
        bf16_cfg.primary_block_bytes(),
        2 * fp8_cfg.primary_block_bytes()
    );
    assert_eq!(fp8_cfg.fp8_scale_block_bytes(), 61 * 4);
    assert_eq!(bf16_cfg.fp8_scale_block_bytes(), 0);
}

#[test]
fn v4_csa_per_token_bytes_match_paper() {
    // BF16(64) = 128 B; FP8(448) = 448 B; FP4(128) = 64 B; 640 B per entry of 4 tokens.
    assert_eq!(v4_pro_csa().bytes_per_token_per_layer(), 160);
}

#[test]
fn v4_hca_per_token_bytes_match_paper() {
    // BF16(64) = 128 B; FP8(448) = 448 B; 576 B per entry of 128 tokens, rounded down.
    assert_eq!(v4_pro_hca().bytes_per_token_per_layer(), 4);
}

#[test]
fn v4_swa_per_token_bytes_match_paper() {
    // Uncompressed per token: 128 + 448.
    assert_eq!(v4_pro_swa().bytes_per_token_per_layer(), 576);
}

#[test]
fn v4_csa_passes_validation_with_block_size_multiple_of_k1() {
    let cfg = MlaBlockConfig::new(v4_pro_csa(), 61, 128, CkvDtype::MixedBf16Fp8Fp4, 0).unwrap();
    assert_eq!(cfg.scheme.is_v4(), true);
    assert_eq!(cfg.block_size_tokens, 128);
}

#[test]
fn v4_csa_rejects_block_size_not_multiple_of_k1() {
    // 30 % 4 != 0
    let err = MlaBlockConfig::new(v4_pro_csa(), 61, 30, CkvDtype::MixedBf16Fp8Fp4, 0).unwrap_err();
    assert!(matches!(err, TesseraError::InvalidConfig(_)));
}

#[test]
fn v4_hca_rejects_block_size_not_multiple_of_k2() {
    let err = MlaBlockConfig::new(v4_pro_hca(), 61, 64, CkvDtype::MixedBf16Fp8Fp4, 0).unwrap_err();
    assert!(matches!(err, TesseraError::InvalidConfig(_)));
}

#[test]
fn v4_pro_per_layer_lcm_is_128() {
    // Two leading HCA layers, then CSA and HCA in turn.
    let mut layers = Vec::with_capacity(61);
    layers.push(v4_pro_hca());
    layers.push(v4_pro_hca());
    for i in 0..59 {
        layers.push(if i % 2 == 0 { v4_pro_csa() } else { v4_pro_hca() });
    }
    let cfg =
        MlaBlockConfig::with_per_layer_schemes(layers, 128, CkvDtype::MixedBf16Fp8Fp4, 0).unwrap();
    assert_eq!(cfg.num_layers, 61);
    assert_eq!(cfg.v4_block_size_lcm(), 128);
    assert!(cfg.has_per_layer_schemes());
}

#[test]
fn ckv_dtype_fp4_packs_two_elements_per_byte() {
    assert_eq!(CkvDtype::Fp4E2m1.bytes_for_elements(2), 1);
    assert_eq!(CkvDtype::Fp4E2m1.bytes_for_elements(3), 2);
    assert_eq!(CkvDtype::Fp4E2m1.bytes_for_elements(128), 64);
    assert_eq!(CkvDtype::Fp4E2m1.bits(), 4);
}

#[test]
fn mixed_dtype_signals_scheme_level_accounting() {
    assert_eq!(CkvDtype::MixedBf16Fp8Fp4.bytes(), 0);
    assert_eq!(CkvDtype::MixedBf16Fp8Fp4.bytes_for_elements(1000), 0);
    assert!(CkvDtype::MixedBf16Fp8Fp4.requires_per_layer_scales());
}

#[test]
fn rejects_zero_layers() {
    let err = MlaBlockConfig::new(ds_v3_scheme(), 0, 64, CkvDtype::Bf16, 0).unwrap_err();
    assert!(matches!(err, TesseraError::InvalidConfig(_)));
}

#[test]
fn rejects_wrong_block_size_under_mla() {
    let err = MlaBlockConfig::new(
        CompressionScheme::MlaLatent {
            latent_dim: 512,
            rope_key_dim: 64,
        },
        61,
        16,
        CkvDtype::Bf16,
        0,
    )
    .unwrap_err();
    assert!(matches!(err, TesseraError::InvalidConfig(_)));
}

#[test]
fn allows_mha_fallback() {
    let cfg = MlaBlockConfig::new(
        CompressionScheme::MhaFull {
            num_heads: 32,
            head_dim: 128,
        },
        24,
        16,
        CkvDtype::Bf16,
        0,
    )
    .expect("MHA fallback config should validate");
    assert!(cfg.primary_block_bytes() > 0);
    assert_eq!(cfg.rope_block_bytes(), 0);
}

#[test]
fn rejects_dsa_as_deprecated() {
    let err = MlaBlockConfig::new(dsa_scheme(), 61, 64, CkvDtype::Bf16, 0).unwrap_err();
    assert!(matches!(err, TesseraError::InvalidConfig(_)));
}

#[test]
fn accepts_v4_csa_with_block_size_multiple_of_k1() {
    let cfg = MlaBlockConfig::new(v4_pro_csa(), 61, 128, CkvDtype::MixedBf16Fp8Fp4, 0)
        .expect("V4 CSA with block_size=128 must validate");
    assert!(cfg.scheme.is_v4());
    assert_eq!(cfg.block_size_tokens, 128);
}

#[test]
fn accepts_v4_hybrid_per_layer_schemes() {
    let layers = vec![v4_pro_hca(), v4_pro_csa()];
    let cfg = MlaBlockConfig::with_per_layer_schemes(layers, 128, CkvDtype::MixedBf16Fp8Fp4, 0)
        .expect("V4 per-layer hybrid config must validate");
    assert!(cfg.has_per_layer_schemes());
    assert_eq!(cfg.num_layers, 2);
    assert_eq!(cfg.v4_block_size_lcm(), 128);
}

#[test]
fn dsa_mla_config_new_returns_invalid_config_with_adr_0020_link() {
    let err = MlaBlockConfig::new(dsa_scheme(), 4, 64, CkvDtype::Bf16, 0)
        .expect_err("DSA scheme must be rejected by MlaBlockConfig::new");
    assert!(
        matches!(err, TesseraError::InvalidConfig(_)),
        "expected InvalidConfig, got: {err:?}"
    );
    if let TesseraError::InvalidConfig(msg) = &err {
        assert!(
            msg.contains("ADR-0020") || msg.contains("deprecated"),
            "error message should reference ADR-0020; got: {msg}"
        );
        assert!(
            msg.contains("V4Csa") || msg.contains("V4Hca") || msg.contains("V4Swa"),
            "error message should point at V4 migration target; got: {msg}"
        );
    }
}

#[test]
fn sizes_of_the_reference_configuration() {
    let cfg = MlaBlockConfig::new(ds_v3_scheme(), 61, 64, CkvDtype::Bf16, 0).unwrap();
    assert_eq!(cfg.primary_block_bytes(), 512 * 61 * 2 * 64);
    assert_eq!(cfg.rope_block_bytes(), 64 * 61 * 2 * 64);
    assert_eq!(
        cfg.total_block_bytes(),
        HEADER_BYTES + 512 * 61 * 2 * 64 + 64 * 61 * 2 * 64
    );
    assert_eq!(REQUIRED_BLOCK_SIZE_TOKENS, 64);
    assert_eq!(cfg.scheme.mla_latent_dim(), Some(512));
    assert_eq!(cfg.scheme.mla_rope_key_dim(), Some(64));
    assert_eq!(v4_pro_hca().mla_latent_dim(), None);
    assert_eq!(v4_pro_hca().mla_rope_key_dim(), None);
    assert!(!cfg.scheme.is_v4());
    assert!(!cfg.has_per_layer_schemes());
    assert_eq!(cfg.v4_block_size_lcm(), 1);
}

#[test]
fn per_layer_sizes_are_summed() {
    let cfg = MlaBlockConfig::with_per_layer_schemes(
        vec![v4_pro_hca(), v4_pro_csa(), v4_pro_swa()],
        128,
        CkvDtype::MixedBf16Fp8Fp4,
        0,
    )
    .unwrap();
    assert_eq!(cfg.primary_block_bytes(), (4 + 160 + 576) * 128);
    assert_eq!(cfg.rope_block_bytes(), 0);
    assert_eq!(cfg.fp8_scale_block_bytes(), 3 * 4);
    assert_eq!(cfg.scheme_for_layer(1), v4_pro_csa());
    assert_eq!(cfg.scheme_for_layer(99), v4_pro_hca());
}

#[test]
fn per_token_sizes() {
    let mha = CompressionScheme::MhaFull {
        num_heads: 32,
        head_dim: 128,
    };
    assert_eq!(mha.primary_bytes_per_token(24, 2), 2 * 32 * 128 * 24 * 2);
    assert_eq!(mha.rope_bytes_per_token(24), 0);
    assert_eq!(mha.bytes_per_token_per_layer(), 0);
    assert_eq!(ds_v3_scheme().primary_bytes_per_token(61, 2), 512 * 61 * 2);
    assert_eq!(ds_v3_scheme().rope_bytes_per_token(61), 64 * 61 * 2);
    assert_eq!(v4_pro_csa().primary_bytes_per_token(61, 2), 160 * 61);
}

#[test]
fn every_rule_names_itself() {
    let new = |s, layers, tokens| MlaBlockConfig::new(s, layers, tokens, CkvDtype::Bf16, 0);
    assert_eq!(
        text_of(new(ds_v3_scheme(), 0, 64)),
        "num_layers must be > 0"
    );
    assert_eq!(
        text_of(new(ds_v3_scheme(), 1, 0)),
        "block_size_tokens must be > 0"
    );
    let flat = CompressionScheme::MlaLatent {
        latent_dim: 0,
        rope_key_dim: 64,
    };
    assert_eq!(
        text_of(new(flat, 1, 64)),
        "MLA latent_dim and rope_key_dim must both be > 0"
    );
    assert_eq!(
        text_of(new(ds_v3_scheme(), 1, 16)),
        "block_size_tokens must equal 64 for MLA (got 16) — FlashMLA's paged block size is fixed."
    );
    let headless = CompressionScheme::MhaFull {
        num_heads: 0,
        head_dim: 1,
    };
    assert_eq!(
        text_of(new(headless, 1, 64)),
        "MHA num_heads and head_dim must both be > 0"
    );
    let wide = CompressionScheme::V4Swa {
        window: 128,
        head_dim: 64,
        num_heads: 1,
        rope_dim: 65,
    };
    assert_eq!(
        text_of(new(wide, 1, 64)),
        "V4Swa: window, head_dim, rope_dim must be > 0 with rope_dim ≤ head_dim \
         (got window=128 head_dim=64 rope_dim=65)"
    );
    assert_eq!(
        text_of(new(v4_pro_csa(), 1, 30)),
        "V4Csa: block_size_tokens (30) must be a multiple of k1 (4) \
         so compressed entries align to block boundaries."
    );
    assert_eq!(
        text_of(new(v4_pro_hca(), 1, 64)),
        "V4Hca: block_size_tokens (64) must be a multiple of k2 (128)."
    );
    assert_eq!(
        text_of(MlaBlockConfig::with_per_layer_schemes(
            vec![],
            128,
            CkvDtype::Bf16,
            0
        )),
        "with_per_layer_schemes: schemes vector must be non-empty"
    );
    assert_eq!(
        text_of(MlaBlockConfig::with_per_layer_schemes(
            vec![v4_pro_hca(), v4_pro_csa(), flat],
            128,
            CkvDtype::Bf16,
            0
        )),
        "with_per_layer_schemes: layer 2 rejected: \
         invalid configuration: MLA latent_dim and rope_key_dim must both be > 0"
    );
}

#[test]
fn common_multiples_are_least() {
    assert_eq!(tessera::multiples::greatest_common_divisor(12, 18), 6);
    assert_eq!(tessera::multiples::greatest_common_divisor(7, 0), 7);
    assert_eq!(tessera::multiples::least_common_multiple(4, 6), 12);
    assert_eq!(
        tessera::multiples::least_common_multiple(u32::MAX, u32::MAX - 1),
        u32::MAX
    );
}

#[test]
fn sizes_are_reported_only_if_they_fit() {
    let cfg = MlaBlockConfig::new(ds_v3_scheme(), 61, 64, CkvDtype::Bf16, 0).unwrap();
    assert_eq!(cfg.checked_total_block_bytes(), Some(cfg.total_block_bytes()));
    assert!(cfg.has_compression_ratio());

    let schemes = vec![v4_pro_csa(), v4_pro_hca(), v4_pro_swa()];
    let cfg =
        MlaBlockConfig::with_per_layer_schemes(schemes, 128, CkvDtype::MixedBf16Fp8Fp4, 0).unwrap();
    assert_eq!(cfg.checked_total_block_bytes(), Some(cfg.total_block_bytes()));
    assert!(cfg.has_compression_ratio());

    let huge = CompressionScheme::MlaLatent {
        latent_dim: u32::MAX,
        rope_key_dim: 1,
    };
    let cfg = MlaBlockConfig::new(huge, u32::MAX, 64, CkvDtype::Bf16, 0).unwrap();
    assert_eq!(cfg.checked_total_block_bytes(), None);
    assert!(!cfg.has_compression_ratio());

    let huge = CompressionScheme::MhaFull {
        num_heads: u32::MAX,
        head_dim: u32::MAX,
    };
    let cfg = MlaBlockConfig::new(huge, 1, 64, CkvDtype::Bf16, 0).unwrap();
    assert_eq!(cfg.checked_total_block_bytes(), None);
}
