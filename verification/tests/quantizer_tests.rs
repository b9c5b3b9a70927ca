use bio_match::quantizer::probe_and_template_generation_radix_prepare;
use bio_match::quantizer::quantize_feature;
use bio_match::quantizer::quantize_feature_vector;

#[test]
fn quantize_first_boundary_wins() {
    let bins: Vec<i64> = vec![10, 50, 100];
    assert_eq!(quantize_feature(0, &bins), 0);
    assert_eq!(quantize_feature(10, &bins), 0);
    assert_eq!(quantize_feature(11, &bins), 1);
    assert_eq!(quantize_feature(50, &bins), 1);
    assert_eq!(quantize_feature(51, &bins), 2);
    assert_eq!(quantize_feature(100, &bins), 2);
    assert_eq!(quantize_feature(101, &bins), 3);
}

#[test]
fn quantize_negative_values() {
    let bins: Vec<i64> = vec![-5, 0, 5];
    assert_eq!(quantize_feature(-10, &bins), 0);
    assert_eq!(quantize_feature(-5, &bins), 0);
    assert_eq!(quantize_feature(-4, &bins), 1);
    assert_eq!(quantize_feature(6, &bins), 3);
}

#[test]
fn quantize_empty_bins_degenerates_to_zero() {
    let bins: Vec<i64> = Vec::new();
    assert_eq!(quantize_feature(-1000, &bins), 0);
    assert_eq!(quantize_feature(0, &bins), 0);
    assert_eq!(quantize_feature(1000, &bins), 0);
}

#[test]
fn quantize_is_stable_across_repeated_calls() {
    let bins: Vec<i64> = vec![3, 7, 20, 90];
    for v in [-4i64, 0, 3, 4, 7, 8, 20, 21, 90, 91] {
        let first = quantize_feature(v, &bins);
        let second = quantize_feature(v, &bins);
        let third = quantize_feature(v, &bins);
        assert_eq!(first, second);
        assert_eq!(second, third);
    }
}

#[test]
fn quantize_vector_is_elementwise() {
    let bins: Vec<i64> = vec![10, 50, 100];
    let values: Vec<i64> = vec![5, 10, 11, 99, 200];
    let codes = quantize_feature_vector(&values, &bins);
    assert_eq!(codes, vec![0, 0, 1, 2, 3]);
}

#[test]
fn prepare_quantizes_probe_and_template() {
    let bins: Vec<i64> = vec![10, 50, 100];
    let probe: Vec<i64> = vec![5, 60, 200];
    let template: Vec<i64> = vec![40, 40, 101];
    let (probe_codes, template_codes) =
        probe_and_template_generation_radix_prepare(&probe, &template, &bins);
    assert_eq!(probe_codes, vec![0u8, 2, 3]);
    assert_eq!(template_codes, vec![1u8, 1, 3]);
}
