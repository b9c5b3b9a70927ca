//! Feature quantizer.
//!
//! A continuous biometric measurement is replaced by the index of the first
//! bin boundary it does not exceed (right-open bucketing): `quantize` returns
//! the smallest index `i` with `v <= bins[i]`, or `bins.len()` when the value
//! exceeds every boundary.  Empty bins degenerate to index `0` for every
//! value.
//!
//! Measurements and boundaries are taken as signed integer keys.  Any
//! order-preserving encoding of the raw real measurements (for instance a
//! fixed-point scaling, applied identically to values and boundaries) leaves
//! every comparison `v <= bins[i]`, and hence every code, unchanged.

use vstd::prelude::*;

verus! {

/// The bin index for value `v`: the smallest `i` with `v <= bins[i]`,
/// or `bins.len()` if no boundary is large enough.
pub open spec fn spec_quantize(v: i64, bins: Seq<i64>) -> nat
    decreases bins.len(),
{
    if bins.len() == 0 {
        0
    } else if v <= bins[0] {
        0
    } else {
        1 + spec_quantize(v, bins.drop_first())
    }
}

/// Any index that satisfies the first-boundary characterization is the
/// quantization index: the result is uniquely determined by the inputs.
pub proof fn lemma_quantize_unique(v: i64, bins: Seq<i64>, r: nat)
    requires
        r <= bins.len(),
        r < bins.len() ==> v <= bins[r as int],
        forall|j: int| 0 <= j < r ==> v > bins[j],
    ensures
        r == spec_quantize(v, bins),
    decreases bins.len(),
{
    if bins.len() == 0 {
    } else if v <= bins[0] {
    } else {
        lemma_quantize_unique(v, bins.drop_first(), (r - 1) as nat);
    }
}

/// Quantize one measurement.  The result is a pure function of `v` and
/// `bins` alone: repeated calls with identical inputs return the same index.
pub fn quantize_feature(v: i64, bins: &Vec<i64>) -> (r: usize)
    ensures
        r == spec_quantize(v, bins@),
        r <= bins@.len(),
{
    let n = bins.len();
    let mut i: usize = 0;
    while i < n
        invariant
            i <= n,
            n == bins@.len(),
            forall|j: int| 0 <= j < i ==> v > bins@[j],
        decreases n - i,
    {
        if v <= bins[i] {
            proof {
                lemma_quantize_unique(v, bins@, i as nat);
            }
            return i;
        }
        i = i + 1;
    }
    proof {
        lemma_quantize_unique(v, bins@, n as nat);
    }
    n
}

/// Quantize a whole feature vector elementwise; the output has one code per
/// input measurement.
pub fn quantize_feature_vector(raw_feature_vector: &Vec<i64>, qbins: &Vec<i64>) -> (r: Vec<usize>)
    ensures
        r@.len() == raw_feature_vector@.len(),
        forall|k: int|
            0 <= k < r@.len() ==> r@[k] == spec_quantize(raw_feature_vector@[k], qbins@),
{
    let mut out: Vec<usize> = Vec::new();
    let n = raw_feature_vector.len();
    let mut i: usize = 0;
    while i < n
        invariant
            i <= n,
            n == raw_feature_vector@.len(),
            out@.len() == i,
            forall|k: int|
                0 <= k < i ==> out@[k] == spec_quantize(raw_feature_vector@[k], qbins@),
        decreases n - i,
    {
        let c = quantize_feature(raw_feature_vector[i], qbins);
        out.push(c);
        i = i + 1;
    }
    out
}

/// Quantize a probe and a template feature vector into one-byte codes, the
/// form the score-table compiler and the pipeline consume.
///
/// With fewer than 256 bin boundaries every index fits a byte exactly.
pub fn probe_and_template_generation_radix_prepare(
    probe_features: &Vec<i64>,
    template_features: &Vec<i64>,
    bins: &Vec<i64>,
) -> (r: (Vec<u8>, Vec<u8>))
    requires
        bins@.len() < 256,
    ensures
        r.0@.len() == probe_features@.len(),
        r.1@.len() == template_features@.len(),
        forall|k: int|
            0 <= k < r.0@.len() ==> r.0@[k] == spec_quantize(probe_features@[k], bins@),
        forall|k: int|
            0 <= k < r.1@.len() ==> r.1@[k] == spec_quantize(template_features@[k], bins@),
{
    let probe_codes = quantize_codes(probe_features, bins);
    let template_codes = quantize_codes(template_features, bins);
    (probe_codes, template_codes)
}

fn quantize_codes(features: &Vec<i64>, bins: &Vec<i64>) -> (r: Vec<u8>)
    requires
        bins@.len() < 256,
    ensures
        r@.len() == features@.len(),
        forall|k: int| 0 <= k < r@.len() ==> r@[k] == spec_quantize(features@[k], bins@),
{
    let mut out: Vec<u8> = Vec::new();
    let n = features.len();
    let mut i: usize = 0;
    while i < n
        invariant
            i <= n,
            n == features@.len(),
            bins@.len() < 256,
            out@.len() == i,
            forall|k: int| 0 <= k < i ==> out@[k] == spec_quantize(features@[k], bins@),
        decreases n - i,
    {
        let c = quantize_feature(features[i], bins);
        out.push(c as u8);
        i = i + 1;
    }
    out
}

} // verus!
