use bio_match::compiler::generate_functions_const_length;
use bio_match::compiler::generate_functions_stop_early;
use bio_match::compiler::CompiledFeature;
use bio_match::config::bmdb1;
use bio_match::config::Config;
use bio_match::engine::compute_total_and_delta;
use bio_match::engine::decrypt_boolean_block;
use bio_match::engine::decrypt_boolean_block_client_key;
use bio_match::engine::encrypt;
use bio_match::engine::encrypt_ciphertextlist;
use bio_match::engine::encrypt_cuda_ciphertextlist;
use bio_match::engine::generate_cuda_lookup_tables;
use bio_match::engine::generate_lookup_tables;
use bio_match::engine::generate_lookup_tables_individual;
use bio_match::engine::make_context_gpu;
use bio_match::engine::ClientKey;
use bio_match::engine::CudaBooleanBlock;
use bio_match::engine::GlweSecretKey;
use bio_match::engine::LweCiphertext;
use bio_match::engine::LweSecretKey;
use bio_match::engine::ServerKey;
use bio_match::engine::ShortintEngine;
use bio_match::engine::ShortintParameterSet;
use bio_match::pipeline::flatten_and_repeat;
use bio_match::strategy::device;
use bio_match::strategy::host;
use bio_match::strategy::mixed;

fn params_2_2() -> ShortintParameterSet {
    ShortintParameterSet { message_modulus: 4, carry_modulus: 4 }
}

fn client_key_2_2() -> ClientKey {
    ClientKey {
        glwe_secret_key: GlweSecretKey {},
        lwe_secret_key: LweSecretKey {},
        parameters: params_2_2(),
    }
}

fn server_key_2_2() -> ServerKey {
    ServerKey { message_modulus: 4, carry_modulus: 4, max_degree: 15 }
}

/// 36 synthetic 4x4 score tables: +1 on the diagonal, -1 elsewhere, so the
/// per-table offset is 1 and a matching code contributes 2 after
/// normalization.
fn synthetic_tables(n: usize) -> Vec<Vec<Vec<i32>>> {
    let mut tables = Vec::new();
    for _ in 0..n {
        let mut table = Vec::new();
        for i in 0..4 {
            let mut row = Vec::new();
            for j in 0..4 {
                row.push(if i == j { 1 } else { -1 });
            }
            table.push(row);
        }
        tables.push(table);
    }
    tables
}

/// Encrypt the replicated probe codes of each feature for the grouped
/// (host) pipeline.
fn encrypt_grouped_probe(
    codes: &[u8],
    features: &Vec<CompiledFeature>,
    engine: &mut ShortintEngine,
) -> Vec<Vec<LweCiphertext>> {
    let (total, delta) = compute_total_and_delta(params_2_2());
    let sk = LweSecretKey {};
    let mut out = Vec::new();
    for (f, feature) in features.iter().enumerate() {
        let mut inner = Vec::new();
        for _ in 0..feature.num_lookups {
            inner.push(encrypt(codes[f] as u64, engine, &sk, params_2_2(), total, delta));
        }
        out.push(inner);
    }
    out
}

fn run_host(
    codes: &[u8],
    features: &Vec<CompiledFeature>,
    threshold: usize,
    num_sum_blocks: usize,
) -> bool {
    let mut engine = ShortintEngine {};
    let client_key = client_key_2_2();
    let probe = encrypt_grouped_probe(codes, features, &mut engine);
    let luts = generate_lookup_tables_individual(
        features,
        &client_key,
        params_2_2(),
        &mut engine,
    );
    let d = host::authenticate(server_key_2_2(), probe, luts, threshold, num_sum_blocks);
    decrypt_boolean_block_client_key(&d, &client_key)
}

// End-to-end match on the BMDB preset: a probe identical to the template
// scores 2 per feature after normalization (72 total against the shifted
// threshold 14 + 36 = 50), so the final boolean decrypts to true.
#[test]
fn end_to_end_match_accepts_identical_probe() {
    let config = bmdb1();
    assert_eq!(config.block_length, 2);
    assert_eq!(config.num_blocks, 6);
    assert_eq!(config.num_tables, 36);
    assert_eq!(config.threshold, 14);
    let tables = synthetic_tables(config.num_tables);
    let template: Vec<u8> = (0..config.num_tables).map(|f| (f % 4) as u8).collect();
    let (features, threshold) = generate_functions_const_length(&template, tables, &config);
    assert_eq!(threshold, 50);
    let verdict = run_host(&template, &features, threshold, config.num_blocks_sum);
    assert!(verdict);
}

// Non-match rejection: a probe that disagrees with the template on every
// feature scores 0 per feature, far below the shifted threshold, and the
// final boolean decrypts to false.
#[test]
fn end_to_end_rejects_low_scoring_probe() {
    let config = bmdb1();
    let tables = synthetic_tables(config.num_tables);
    let template: Vec<u8> = (0..config.num_tables).map(|f| (f % 4) as u8).collect();
    let probe: Vec<u8> = template.iter().map(|c| (c + 1) % 4).collect();
    let (features, threshold) = generate_functions_const_length(&template, tables, &config);
    let verdict = run_host(&probe, &features, threshold, config.num_blocks_sum);
    assert!(!verdict);
}

// Early-stop equivalence: on tables whose extremal cell really bounds every
// entry, the early-stop compilation produces the same decrypted digits and
// the same final verdict as the full fixed-length compilation.
#[test]
fn early_stop_matches_const_length_end_to_end() {
    let config = bmdb1();
    let tables = synthetic_tables(config.num_tables);
    let template: Vec<u8> = (0..config.num_tables).map(|f| (f % 4) as u8).collect();
    let (early, thr_early) =
        generate_functions_stop_early(&template, tables.clone(), &config);
    let (full, thr_full) = generate_functions_const_length(&template, tables, &config);
    assert_eq!(thr_early, thr_full);
    // the extremal cell 2 has one nonzero digit, so one lookup per feature
    assert_eq!(early[0].num_lookups, 1);
    assert_eq!(full[0].num_lookups, 6);
    for probe_shift in 0..4u8 {
        let probe: Vec<u8> = template.iter().map(|c| (c + probe_shift) % 4).collect();
        let v_early = run_host(&probe, &early, thr_early, config.num_blocks_sum);
        let v_full = run_host(&probe, &full, thr_full, config.num_blocks_sum);
        assert_eq!(v_early, v_full);
    }
}

// Padding/order correctness: three features with differing block counts
// (1, 2 and 3 digit lookups) are each zero-extended to the common width and
// sum with no cross-feature digit misalignment; the verdict flips exactly
// at the cleartext total.
#[test]
fn padding_aligns_features_of_differing_widths() {
    let config = Config {
        data_set_name: "synthetic",
        num_blocks: 3,
        num_blocks_sum: 3,
        block_length: 2,
        num_tables: 3,
        threshold: 0,
    };
    // Normalized diagonal scores 2, 9 and 26: one, two and three base-4
    // digits respectively; every off-diagonal normalizes to 0 and each
    // extremal cell sits at [0][0] for a diagonal template.
    let mut tables: Vec<Vec<Vec<i32>>> = Vec::new();
    for &diag in [1i32, 8, 25].iter() {
        let mut table = Vec::new();
        for i in 0..4 {
            let mut row = Vec::new();
            for j in 0..4i32 {
                row.push(if i == j { diag } else { -1 });
            }
            table.push(row);
        }
        tables.push(table);
    }
    let template: Vec<u8> = vec![0, 0, 0];
    let (features, base_threshold) = generate_functions_stop_early(&template, tables, &config);
    assert_eq!(base_threshold, 3);
    assert_eq!(features[0].num_lookups, 1);
    assert_eq!(features[1].num_lookups, 2);
    assert_eq!(features[2].num_lookups, 3);
    // cleartext total for the matching probe: 2 + 9 + 26
    let total_score = 37usize;
    assert!(run_host(&template, &features, total_score, config.num_blocks_sum));
    assert!(!run_host(&template, &features, total_score + 1, config.num_blocks_sum));
}

// The accelerator-only and mixed placements run the same protocol over the
// same flat buffer and agree with the host verdict on every probe.
#[test]
fn flat_placements_agree_with_host() {
    let config = Config {
        data_set_name: "synthetic",
        num_blocks: 3,
        num_blocks_sum: 3,
        block_length: 2,
        num_tables: 5,
        threshold: 2,
    };
    let tables = synthetic_tables(config.num_tables);
    let template: Vec<u8> = vec![0, 1, 2, 3, 0];
    let (features, threshold) = generate_functions_const_length(&template, tables, &config);
    let (total, delta) = compute_total_and_delta(params_2_2());
    for probe_shift in 0..4u8 {
        let probe: Vec<u8> = template.iter().map(|c| (c + probe_shift) % 4).collect();
        let expected = run_host(&probe, &features, threshold, config.num_blocks_sum);

        let (stream, mut engine) = make_context_gpu();
        let sk = LweSecretKey {};
        let (flat_codes, slots) = flatten_and_repeat(&probe, &features);
        let flat_values: Vec<u64> = flat_codes.clone();

        // accelerator-only run
        let cuda_probe = encrypt_cuda_ciphertextlist(
            flat_values.clone(),
            &mut engine,
            &sk,
            total,
            delta,
            params_2_2(),
            &stream,
        );
        let cuda_luts = generate_cuda_lookup_tables(
            &slots,
            &features,
            &GlweSecretKey {},
            params_2_2(),
            &mut engine,
            &stream,
        );
        let d_device: CudaBooleanBlock = device::authenticate(
            bio_match::engine::CudaLweBootstrapKey {},
            bio_match::engine::CudaLweKeyswitchKey {},
            cuda_probe,
            cuda_luts,
            config.num_blocks,
            4,
            4,
            threshold as u64,
            &stream,
        );
        let device_verdict =
            decrypt_boolean_block(&d_device, &sk, params_2_2(), delta, &stream);
        assert_eq!(device_verdict, expected);

        // mixed placement run
        let host_probe = encrypt_ciphertextlist(
            flat_values,
            &mut engine,
            &sk,
            total,
            delta,
            params_2_2(),
        );
        let host_luts = generate_lookup_tables(
            &slots,
            &features,
            &GlweSecretKey {},
            params_2_2(),
            &mut engine,
        );
        let d_mixed = mixed::authenticate(
            bio_match::engine::FourierLweMultiBitBootstrapKey {},
            bio_match::engine::LweKeyswitchKey {},
            bio_match::engine::CudaLweMultiBitBootstrapKey {},
            bio_match::engine::CudaLweKeyswitchKey {},
            host_probe,
            host_luts,
            config.num_blocks,
            4,
            4,
            threshold as u64,
            1,
            1,
            &stream,
        );
        let mixed_verdict = decrypt_boolean_block(&d_mixed, &sk, params_2_2(), delta, &stream);
        assert_eq!(mixed_verdict, expected);
    }
}
