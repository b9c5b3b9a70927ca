use bio_match::compiler::generate_functions_const_length;
use bio_match::config::Config;
use bio_match::engine::make_cuda_lweciphertextlist;
use bio_match::engine::make_context_gpu;
use bio_match::engine::make_lweciphertextlist;
use bio_match::engine::CudaLweCiphertextList;
use bio_match::engine::LweCiphertext;
use bio_match::engine::ShortintParameterSet;
use bio_match::pipeline::repeat_probes_to_match_functions;
use bio_match::pipeline::flatten_and_repeat;
use bio_match::strategy::device;

fn params_2_2() -> ShortintParameterSet {
    ShortintParameterSet { message_modulus: 4, carry_modulus: 4 }
}

fn keys_2_2() -> bio_match::engine::Keys {
    let (stream, mut engine) = make_context_gpu();
    device::make_keys(params_2_2(), stream, &mut engine)
}

/// A little-endian radix ciphertext of the given digit values.
fn digits_ct(digits: &[u64], delta: u64) -> CudaLweCiphertextList {
    CudaLweCiphertextList {
        cts: digits.iter().map(|&d| LweCiphertext { body: d * delta }).collect(),
    }
}

fn decrypt_digits(cts: &CudaLweCiphertextList, delta: u64) -> Vec<u64> {
    cts.cts.iter().map(|ct| ct.body / delta).collect()
}

fn test_features() -> Vec<bio_match::compiler::CompiledFeature> {
    let config = Config {
        data_set_name: "synthetic",
        num_blocks: 2,
        num_blocks_sum: 2,
        block_length: 2,
        num_tables: 2,
        threshold: 0,
    };
    let tables: Vec<Vec<Vec<i32>>> = vec![
        vec![vec![6, 0], vec![9, 0]],
        vec![vec![3, 0], vec![12, 0]],
    ];
    let template: Vec<u8> = vec![0, 1];
    let (features, _thr) = generate_functions_const_length(&template, tables, &config);
    features
}

#[test]
fn repeat_replicates_one_code_per_lookup() {
    let features = test_features();
    let probe: Vec<u8> = vec![1, 0];
    let repeated = repeat_probes_to_match_functions(&probe, &features);
    assert_eq!(repeated, vec![vec![1u64, 1], vec![0u64, 0]]);
}

#[test]
fn flatten_keeps_feature_then_block_order() {
    let features = test_features();
    let probe: Vec<u8> = vec![1, 0];
    let (flat_probe, slots) = flatten_and_repeat(&probe, &features);
    assert_eq!(flat_probe, vec![1u64, 1, 0, 0]);
    let pairs: Vec<(usize, usize)> = slots.iter().map(|s| (s.feature, s.block)).collect();
    assert_eq!(pairs, vec![(0, 0), (0, 1), (1, 0), (1, 1)]);
}

#[test]
fn empty_ciphertext_lists_hold_zeros() {
    let host = make_lweciphertextlist(3);
    assert_eq!(host.cts.len(), 3);
    assert!(host.cts.iter().all(|ct| ct.body == 0));
    let (stream, _engine) = make_context_gpu();
    let dev = make_cuda_lweciphertextlist(2, &stream);
    assert_eq!(dev.cts.len(), 2);
    assert!(dev.cts.iter().all(|ct| ct.body == 0));
}

#[test]
fn make_indices_counts_up_per_buffer() {
    let keys = keys_2_2();
    let indices = device::make_indices(4, 3, 4, &keys);
    assert_eq!(indices.len(), 3);
    for buf in &indices {
        assert_eq!(buf, &vec![0u64, 1, 2, 3]);
    }
}

#[test]
fn expand_pads_with_trivial_zero_digits() {
    let keys = keys_2_2();
    let mut ct = digits_ct(&[3, 1], keys.delta);
    device::expand_radix_with_trivial_zeros(&keys, 5, &mut ct);
    assert_eq!(decrypt_digits(&ct, keys.delta), vec![3, 1, 0, 0, 0]);
}

#[test]
fn sum_adds_radix_groups_with_carries() {
    let keys = keys_2_2();
    // three 2-digit base-4 integers: 7 = (3,1), 6 = (2,1), 11 = (3,2)
    let mut flat = digits_ct(&[3, 1, 2, 1, 3, 2], keys.delta);
    let sum = device::do_sum(&keys, 2, 3, &mut flat);
    // 7 + 6 + 11 = 24; the two kept digits hold 24 mod 16 = 8 = (0, 2)
    assert_eq!(decrypt_digits(&sum, keys.delta), vec![0, 2]);
}

#[test]
fn sum_is_exact_when_the_total_fits() {
    let keys = keys_2_2();
    // 5 = (1,1) and 9 = (1,2); 5 + 9 = 14 = (2,3) fits two digits
    let mut flat = digits_ct(&[1, 1, 1, 2], keys.delta);
    let sum = device::do_sum(&keys, 2, 2, &mut flat);
    assert_eq!(decrypt_digits(&sum, keys.delta), vec![2, 3]);
}

#[test]
fn propagate_absorbs_pending_carries() {
    let keys = keys_2_2();
    // digit messages (5, 1) in base 4 carry a pending carry in the low
    // block: the value 5 + 4*1 = 9 renormalizes to the canonical (1, 2)
    let mut ct = digits_ct(&[5, 1], keys.delta);
    device::propagate(&keys, &mut ct, 2);
    assert_eq!(decrypt_digits(&ct, keys.delta), vec![1, 2]);
}

#[test]
fn propagate_drops_carry_beyond_the_width() {
    let keys = keys_2_2();
    // 5 + 4*3 = 17; the carry out of the top block is lost: 17 mod 16 = 1
    let mut ct = digits_ct(&[5, 3], keys.delta);
    device::propagate(&keys, &mut ct, 2);
    assert_eq!(decrypt_digits(&ct, keys.delta), vec![1, 0]);
}

#[test]
fn propagate_keeps_canonical_digits() {
    let keys = keys_2_2();
    let mut ct = digits_ct(&[3, 2], keys.delta);
    device::propagate(&keys, &mut ct, 2);
    assert_eq!(decrypt_digits(&ct, keys.delta), vec![3, 2]);
}

#[test]
fn comparison_accepts_pending_carries() {
    let keys = keys_2_2();
    // value 9, held non-canonically as (5, 1)
    let mut ct = digits_ct(&[5, 1], keys.delta);
    let at = device::do_comparison(&keys, &mut ct, 2, 9);
    assert_eq!(decrypt_digits(&ct, keys.delta), vec![1, 2]);
    assert_eq!(at.ct.body / keys.delta, 1);
    let mut ct2 = digits_ct(&[5, 1], keys.delta);
    let above = device::do_comparison(&keys, &mut ct2, 2, 10);
    assert_eq!(above.ct.body / keys.delta, 0);
}

#[test]
fn compare_decides_threshold_exactly() {
    let keys = keys_2_2();
    // value 14 = (2,3) base 4
    let ct = digits_ct(&[2, 3], keys.delta);
    let exactly = device::async_compare(&keys, &ct, 14, 2);
    let above = device::async_compare(&keys, &ct, 15, 2);
    let below = device::async_compare(&keys, &ct, 13, 2);
    assert_eq!(exactly.ct.body / keys.delta, 1);
    assert_eq!(above.ct.body / keys.delta, 0);
    assert_eq!(below.ct.body / keys.delta, 1);
}

#[test]
fn compare_rejects_obviously_bigger_scalar() {
    let keys = keys_2_2();
    // maximal 2-digit value 15 still loses against a scalar with digits
    // beyond the total's width
    let ct = digits_ct(&[3, 3], keys.delta);
    let verdict = device::async_compare(&keys, &ct, 16, 2);
    assert_eq!(verdict.ct.body / keys.delta, 0);
}

#[test]
fn comparison_preserves_the_total() {
    let keys = keys_2_2();
    let mut ct = digits_ct(&[1, 2], keys.delta);
    let verdict = device::do_comparison(&keys, &mut ct, 2, 9);
    assert_eq!(decrypt_digits(&ct, keys.delta), vec![1, 2]);
    assert_eq!(verdict.ct.body / keys.delta, 1);
}

#[test]
fn keyswitch_and_pbs_preserve_and_evaluate_messages() {
    let keys = keys_2_2();
    let features = test_features();
    let probe: Vec<u8> = vec![0, 1];
    let (flat_probe, slots) = flatten_and_repeat(&probe, &features);
    let (stream, mut engine) = make_context_gpu();
    let sk = bio_match::engine::LweSecretKey {};
    let input = bio_match::engine::encrypt_cuda_ciphertextlist(
        flat_probe,
        &mut engine,
        &sk,
        keys.total_modulus,
        keys.delta,
        params_2_2(),
        &stream,
    );
    let luts = bio_match::engine::generate_cuda_lookup_tables(
        &slots,
        &features,
        &bio_match::engine::GlweSecretKey {},
        params_2_2(),
        &mut engine,
        &stream,
    );
    let indices = device::make_indices(4, 5, 4, &keys);
    let mut buffer = make_cuda_lweciphertextlist(4, &stream);
    device::do_keyswitch(&keys, &input, &mut buffer, &indices[0..2].to_vec());
    assert_eq!(decrypt_digits(&buffer, keys.delta), vec![0, 0, 1, 1]);
    let mut evaluated = make_cuda_lweciphertextlist(4, &stream);
    device::do_pbs(&keys, &buffer, &mut evaluated, &luts, &indices[0..3].to_vec());
    // feature 0, template 0, probe 0: normalized 6 = (2, 1)
    // feature 1, template 1, probe 1: normalized 0 = (0, 0)
    assert_eq!(decrypt_digits(&evaluated, keys.delta), vec![2, 1, 0, 0]);
}
