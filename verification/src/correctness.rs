//! End-to-end correctness of the compiled pipeline.
//!
//! The protocol's central invariant: decrypting step 3's digits for every
//! feature, reinterpreting them as little-endian radix digits, and summing
//! across features yields the same integer a cleartext evaluation of
//! `Σ_f scoreTable[f][templateCode_f][probeCode_f] + TotalOffset` produces —
//! and therefore the final encrypted comparison decides exactly
//! `cleartextTotal >= sourceThreshold + TotalOffset`.  This module states
//! and proves that invariant over the library's own pieces: tables compiled
//! by the score-table compiler, lookup tables generated from them, and the
//! grouped score total the execution strategies are verified against.

use vstd::prelude::*;
use vstd::arithmetic::power::pow;
use vstd::arithmetic::power2::pow2;
use vstd::arithmetic::div_mod::lemma_small_mod;
use crate::compiler::CompiledFeature;
use crate::compiler::compiled_for;
use crate::compiler::local_offset;
use crate::compiler::normalized_entry;
use crate::compiler::table_wf;
use crate::compiler::total_offset;
use crate::engine::LookupTableOwned;
use crate::engine::LweCiphertext;
use crate::engine::ct_msg;
use crate::pipeline::eval_msg;
use crate::pipeline::feature_msgs;
use crate::pipeline::grouped_totals;
use crate::radix::digits_of;
use crate::radix::lemma_digits_bounded;
use crate::radix::lemma_digits_len;
use crate::radix::lemma_digits_split;
use crate::radix::lemma_radix_round_trip;
use crate::radix::lemma_value_of_padded;
use crate::radix::radix_value;
use crate::radix::zero_digits;

verus! {

/// The cleartext score total in the nonnegative domain: the sum over all
/// features of the offset-normalized table entry the template and probe
/// codes select.
pub open spec fn clear_total(
    tables: Seq<Seq<Seq<i32>>>,
    template: Seq<u8>,
    probe: Seq<u8>,
) -> int
    decreases tables.len(),
{
    if tables.len() == 0 {
        0
    } else {
        clear_total(tables.drop_last(), template.drop_last(), probe.drop_last())
            + normalized_entry(
            tables.last(),
            template.last() as int,
            probe.last() as int,
        )
    }
}

/// The cleartext score total in the source (signed) domain: the raw table
/// entries the template and probe codes select, summed across features.
pub open spec fn raw_total(tables: Seq<Seq<Seq<i32>>>, template: Seq<u8>, probe: Seq<u8>) -> int
    decreases tables.len(),
{
    if tables.len() == 0 {
        0
    } else {
        raw_total(tables.drop_last(), template.drop_last(), probe.drop_last())
            + tables.last()[template.last() as int][probe.last() as int]
    }
}

/// What one feature's evaluated digit group stands for: when the feature was
/// compiled from a table, its probe ciphertexts all carry an in-range probe
/// code, its lookup tables tabulate the feature's digit lookups, and the
/// selected normalized score fits the feature's emitted digits, then the
/// zero-extended digit group reconstructs exactly that normalized score.
pub proof fn lemma_feature_value(
    table: Seq<Seq<i32>>,
    template_code: u8,
    code: u8,
    feature: CompiledFeature,
    probes: Seq<LweCiphertext>,
    luts: Seq<LookupTableOwned>,
    delta: u64,
    total: u64,
    block_length: nat,
    num_blocks: nat,
    w: nat,
)
    requires
        compiled_for(feature, table, template_code, block_length, num_blocks),
        table_wf(table),
        feature.num_lookups <= num_blocks,
        feature.num_lookups <= w,
        probes.len() == feature.num_lookups,
        luts.len() == feature.num_lookups,
        delta >= 1,
        forall|b: int| 0 <= b < probes.len() ==> ct_msg(#[trigger] probes[b], delta) == code,
        forall|b: int| 0 <= b < luts.len() ==> (#[trigger] luts[b]).acc.vals@.len() == total,
        forall|b: int, i: int|
            0 <= b < luts.len() && 0 <= i < luts[b].acc.vals@.len()
                ==> #[trigger] luts[b].acc.vals@[i] == feature.spec_eval(b, i as u64),
        (code as int) < table[0].len(),
        (code as u64) < total,
        2 <= pow2(block_length) <= total,
        normalized_entry(table, template_code as int, code as int) < pow(
            pow2(block_length) as int,
            feature.num_lookups as nat,
        ),
    ensures
        radix_value(feature_msgs(probes, luts, delta, total, w), pow2(block_length) as int)
            == normalized_entry(table, template_code as int, code as int),
{
    let radix = pow2(block_length) as int;
    let v = normalized_entry(table, template_code as int, code as int);
    let k = feature.num_lookups as nat;
    let all_digits = digits_of(v, radix, num_blocks);
    lemma_digits_len(v, radix, num_blocks);
    lemma_digits_bounded(v, radix, num_blocks);
    lemma_digits_split(v, radix, k, (num_blocks - k) as nat);
    lemma_digits_len(v, radix, k);
    let head = digits_of(v, radix, k);
    assert(feature.dim() == table[0].len());
    assert(feature.digits@[template_code as int]@[code as int]@ == all_digits);
    assert forall|b: int| 0 <= b < probes.len() implies eval_msg(
        luts[b].acc,
        probes[b],
        delta,
        total,
    ) == head[b] by {
        assert(feature.spec_eval(b, code as u64) == all_digits[b]);
        assert(luts[b].acc.vals@[code as int] == feature.spec_eval(b, code as u64));
        assert(all_digits[b] == head[b]);
        assert(head[b] < radix);
        lemma_small_mod(head[b] as nat, total as nat);
    }
    assert(feature_msgs(probes, luts, delta, total, w) =~= head + zero_digits((w - k) as nat));
    lemma_value_of_padded(head, radix, (w - k) as nat);
    lemma_radix_round_trip(v, radix, k);
}

/// The end-to-end correctness invariant of the compiled pipeline.
///
/// For a feature set compiled from per-feature score tables for one
/// template, lookup tables generated from those features, and probe
/// ciphertexts carrying in-range probe codes replicated per feature, the
/// grouped score total the strategies compute under encryption equals the
/// cleartext sum of the offset-normalized scores the codes select.
pub proof fn lemma_pipeline_correctness(
    tables: Seq<Seq<Seq<i32>>>,
    template: Seq<u8>,
    probe_codes: Seq<u8>,
    features: Seq<CompiledFeature>,
    probe: Seq<Vec<LweCiphertext>>,
    luts: Seq<Vec<LookupTableOwned>>,
    delta: u64,
    total: u64,
    block_length: nat,
    num_blocks: nat,
    w: nat,
)
    requires
        tables.len() == template.len(),
        tables.len() == probe_codes.len(),
        tables.len() == features.len(),
        tables.len() == probe.len(),
        tables.len() == luts.len(),
        delta >= 1,
        2 <= pow2(block_length) <= total,
        forall|f: int|
            0 <= f < tables.len() ==> compiled_for(
                #[trigger] features[f],
                tables[f],
                template[f],
                block_length,
                num_blocks,
            ),
        forall|f: int| 0 <= f < tables.len() ==> table_wf(#[trigger] tables[f]),
        forall|f: int|
            0 <= f < features.len() ==> (#[trigger] features[f]).num_lookups <= num_blocks,
        forall|f: int| 0 <= f < features.len() ==> (#[trigger] features[f]).num_lookups <= w,
        forall|f: int|
            0 <= f < probe.len() ==> (#[trigger] probe[f])@.len() == features[f].num_lookups,
        forall|f: int|
            0 <= f < luts.len() ==> (#[trigger] luts[f])@.len() == features[f].num_lookups,
        forall|f: int, b: int|
            0 <= f < probe.len() && 0 <= b < probe[f]@.len() ==> ct_msg(
                #[trigger] probe[f]@[b],
                delta,
            ) == probe_codes[f],
        forall|f: int, b: int|
            0 <= f < luts.len() && 0 <= b < luts[f]@.len() ==> (
            #[trigger] luts[f]@[b]).acc.vals@.len() == total,
        forall|f: int, b: int, i: int|
            0 <= f < luts.len() && 0 <= b < luts[f]@.len() && 0 <= i < luts[f]@[b].acc.vals@.len()
                ==> #[trigger] luts[f]@[b].acc.vals@[i] == features[f].spec_eval(b, i as u64),
        forall|f: int| 0 <= f < tables.len() ==> (probe_codes[f] as int) < (#[trigger] tables[f])[0].len(),
        forall|f: int| 0 <= f < probe_codes.len() ==> (#[trigger] probe_codes[f] as u64) < total,
        forall|f: int|
            0 <= f < tables.len() ==> normalized_entry(
                #[trigger] tables[f],
                template[f] as int,
                probe_codes[f] as int,
            ) < pow(pow2(block_length) as int, features[f].num_lookups as nat),
    ensures
        grouped_totals(probe, luts, delta, total, pow2(block_length) as int, w) == clear_total(
            tables,
            template,
            probe_codes,
        ),
        clear_total(tables, template, probe_codes) >= 0,
    decreases tables.len(),
{
    if tables.len() == 0 {
    } else {
        let n = tables.len() as int;
        lemma_pipeline_correctness(
            tables.drop_last(),
            template.drop_last(),
            probe_codes.drop_last(),
            features.drop_last(),
            probe.drop_last(),
            luts.drop_last(),
            delta,
            total,
            block_length,
            num_blocks,
            w,
        );
        lemma_feature_value(
            tables.last(),
            template.last(),
            probe_codes.last(),
            features.last(),
            probe.last()@,
            luts.last()@,
            delta,
            total,
            block_length,
            num_blocks,
            w,
        );
    }
}

/// The end-to-end correctness invariant in the flat form the batched
/// placements use: when every feature emits the full `num_blocks` digit
/// lookups and the flat buffer holds each feature's replicated probe code at
/// its `num_blocks` consecutive positions, paired with that feature's digit
/// lookup tables in block order, the flat score total equals the cleartext
/// sum of the offset-normalized scores the codes select.
pub proof fn lemma_flat_pipeline_correctness(
    tables: Seq<Seq<Seq<i32>>>,
    template: Seq<u8>,
    probe_codes: Seq<u8>,
    features: Seq<CompiledFeature>,
    probe_cts: Seq<LweCiphertext>,
    luts: Seq<crate::engine::GlweCiphertext>,
    delta: u64,
    total: u64,
    block_length: nat,
    num_blocks: nat,
)
    requires
        tables.len() == template.len(),
        tables.len() == probe_codes.len(),
        tables.len() == features.len(),
        num_blocks >= 1,
        probe_cts.len() == tables.len() * num_blocks,
        luts.len() == tables.len() * num_blocks,
        delta >= 1,
        2 <= pow2(block_length) <= total,
        forall|f: int|
            0 <= f < tables.len() ==> compiled_for(
                #[trigger] features[f],
                tables[f],
                template[f],
                block_length,
                num_blocks,
            ),
        forall|f: int| 0 <= f < tables.len() ==> table_wf(#[trigger] tables[f]),
        forall|f: int|
            0 <= f < features.len() ==> (#[trigger] features[f]).num_lookups == num_blocks,
        forall|f: int, b: int|
            0 <= f < tables.len() && 0 <= b < num_blocks ==> ct_msg(
                #[trigger] probe_cts[f * num_blocks + b],
                delta,
            ) == probe_codes[f],
        forall|p: int| 0 <= p < luts.len() ==> (#[trigger] luts[p]).vals@.len() == total,
        forall|f: int, b: int, i: int|
            0 <= f < tables.len() && 0 <= b < num_blocks && 0 <= i < total
                ==> #[trigger] luts[f * num_blocks + b].vals@[i] == features[f].spec_eval(
                b,
                i as u64,
            ),
        forall|f: int| 0 <= f < tables.len() ==> (probe_codes[f] as int) < (#[trigger] tables[f])[0].len(),
        forall|f: int| 0 <= f < probe_codes.len() ==> (#[trigger] probe_codes[f] as u64) < total,
        forall|f: int|
            0 <= f < tables.len() ==> normalized_entry(
                #[trigger] tables[f],
                template[f] as int,
                probe_codes[f] as int,
            ) < pow(pow2(block_length) as int, num_blocks),
    ensures
        crate::pipeline::groups_total(
            crate::pipeline::evaluated_msgs(probe_cts, luts, delta, total),
            pow2(block_length) as int,
            num_blocks,
        ) == clear_total(tables, template, probe_codes),
        clear_total(tables, template, probe_codes) >= 0,
    decreases tables.len(),
{
    let radix = pow2(block_length) as int;
    let n = tables.len() as int;
    let msgs = crate::pipeline::evaluated_msgs(probe_cts, luts, delta, total);
    if n == 0 {
        assert(msgs =~= Seq::empty());
    } else {
        let cut = (n - 1) * num_blocks;
        assert(cut + num_blocks == n * num_blocks) by {
            vstd::arithmetic::mul::lemma_mul_is_distributive_sub_other_way(
                num_blocks as int,
                n,
                1,
            );
        }
        assert(0 <= cut) by {
            vstd::arithmetic::mul::lemma_mul_nonnegative(n - 1, num_blocks as int);
        }
        let head_cts = probe_cts.subrange(0, cut);
        let head_luts = luts.subrange(0, cut);
        assert forall|f: int, b: int| 0 <= f < n - 1 && 0 <= b < num_blocks implies ct_msg(
            #[trigger] head_cts[f * num_blocks + b],
            delta,
        ) == probe_codes.drop_last()[f] by {
            lemma_flat_index_in_head(f, b, n, num_blocks as int);
            assert(ct_msg(probe_cts[f * num_blocks + b], delta) == probe_codes[f]);
        }
        assert forall|f: int, b: int, i: int|
            0 <= f < n - 1 && 0 <= b < num_blocks && 0 <= i < total implies #[trigger] head_luts[f
            * num_blocks + b].vals@[i] == features.drop_last()[f].spec_eval(b, i as u64) by {
            lemma_flat_index_in_head(f, b, n, num_blocks as int);
            assert(luts[f * num_blocks + b].vals@[i] == features[f].spec_eval(b, i as u64));
        }
        assert forall|p: int| 0 <= p < head_luts.len() implies (#[trigger] head_luts[p]).vals@.len()
            == total by {
            assert(head_luts[p] == luts[p]);
        }
        lemma_flat_pipeline_correctness(
            tables.drop_last(),
            template.drop_last(),
            probe_codes.drop_last(),
            features.drop_last(),
            head_cts,
            head_luts,
            delta,
            total,
            block_length,
            num_blocks,
        );
        let head_msgs = crate::pipeline::evaluated_msgs(head_cts, head_luts, delta, total);
        let tail_msgs = msgs.skip(cut);
        assert(msgs =~= head_msgs + tail_msgs);
        assert((head_msgs.len() as int) % (num_blocks as int) == 0) by {
            vstd::arithmetic::div_mod::lemma_mod_multiples_basic(n - 1, num_blocks as int);
            vstd::arithmetic::mul::lemma_mul_is_commutative(n - 1, num_blocks as int);
        }
        crate::pipeline::lemma_groups_total_append(
            head_msgs,
            tail_msgs,
            radix,
            num_blocks,
        );
        // the last feature's digit group, read as one padded feature group
        let tail_probes = probe_cts.subrange(cut, cut + num_blocks as int);
        let tail_luts = Seq::new(
            num_blocks,
            |b: int| LookupTableOwned { acc: luts[cut + b], degree: 0u64 },
        );
        assert forall|b: int| 0 <= b < num_blocks implies ct_msg(
            #[trigger] tail_probes[b],
            delta,
        ) == probe_codes.last() by {
            assert(tail_probes[b] == probe_cts[(n - 1) * num_blocks + b]);
            assert(ct_msg(probe_cts[(n - 1) * num_blocks + b], delta) == probe_codes[n - 1]);
        }
        assert forall|b: int, i: int|
            0 <= b < num_blocks && 0 <= i < total implies #[trigger] tail_luts[b].acc.vals@[i]
            == features.last().spec_eval(b, i as u64) by {
            assert(luts[(n - 1) * num_blocks + b].vals@[i] == features[n - 1].spec_eval(
                b,
                i as u64,
            ));
        }
        assert forall|b: int| 0 <= b < num_blocks implies (#[trigger] tail_luts[b]).acc.vals@.len()
            == total by {
            assert(luts[(n - 1) * num_blocks + b].vals@.len() == total);
        }
        assert(tail_msgs =~= feature_msgs(tail_probes, tail_luts, delta, total, num_blocks));
        lemma_feature_value(
            tables.last(),
            template.last(),
            probe_codes.last(),
            features.last(),
            tail_probes,
            tail_luts,
            delta,
            total,
            block_length,
            num_blocks,
            num_blocks,
        );
        assert(crate::pipeline::groups_total(tail_msgs, radix, num_blocks) == radix_value(
            tail_msgs,
            radix,
        ));
    }
}

/// Early-stop equivalence, end to end: an early-stop compilation and a full
/// fixed-length compilation of the same tables for the same template, fed
/// the same probe codes, produce the same grouped score total — and hence,
/// through any strategy's verdict contract, the same final sum/compare
/// outcome for every threshold and sum width.
///
/// The hypothesis `normalized(tc, code) <= normalized(0, 0)` is the
/// early-stop policy's documented soundness condition: the cell the policy
/// inspects must bound the scores it cuts digits from.
pub proof fn lemma_early_stop_outcome_equivalence(
    tables: Seq<Seq<Seq<i32>>>,
    template: Seq<u8>,
    probe_codes: Seq<u8>,
    early: Seq<CompiledFeature>,
    probe_early: Seq<Vec<LweCiphertext>>,
    luts_early: Seq<Vec<LookupTableOwned>>,
    full: Seq<CompiledFeature>,
    probe_full: Seq<Vec<LweCiphertext>>,
    luts_full: Seq<Vec<LookupTableOwned>>,
    delta: u64,
    total: u64,
    block_length: nat,
    num_blocks: nat,
    w: nat,
)
    requires
        tables.len() == template.len(),
        tables.len() == probe_codes.len(),
        tables.len() == early.len(),
        tables.len() == probe_early.len(),
        tables.len() == luts_early.len(),
        tables.len() == full.len(),
        tables.len() == probe_full.len(),
        tables.len() == luts_full.len(),
        delta >= 1,
        2 <= pow2(block_length) <= total,
        num_blocks <= w,
        forall|f: int| 0 <= f < tables.len() ==> table_wf(#[trigger] tables[f]),
        forall|f: int| 0 <= f < tables.len() ==> (probe_codes[f] as int) < (#[trigger] tables[f])[0].len(),
        forall|f: int| 0 <= f < probe_codes.len() ==> (#[trigger] probe_codes[f] as u64) < total,
        // the early-stop compilation
        forall|f: int|
            0 <= f < tables.len() ==> compiled_for(
                #[trigger] early[f],
                tables[f],
                template[f],
                block_length,
                num_blocks,
            ),
        forall|f: int|
            0 <= f < early.len() ==> (#[trigger] early[f]).num_lookups
                == crate::compiler::early_block_count(
                normalized_entry(tables[f], 0, 0),
                pow2(block_length) as int,
                num_blocks,
            ),
        forall|f: int|
            0 <= f < probe_early.len() ==> (#[trigger] probe_early[f])@.len()
                == early[f].num_lookups,
        forall|f: int|
            0 <= f < luts_early.len() ==> (#[trigger] luts_early[f])@.len()
                == early[f].num_lookups,
        forall|f: int, b: int|
            0 <= f < probe_early.len() && 0 <= b < probe_early[f]@.len() ==> ct_msg(
                #[trigger] probe_early[f]@[b],
                delta,
            ) == probe_codes[f],
        forall|f: int, b: int|
            0 <= f < luts_early.len() && 0 <= b < luts_early[f]@.len() ==> (
            #[trigger] luts_early[f]@[b]).acc.vals@.len() == total,
        forall|f: int, b: int, i: int|
            0 <= f < luts_early.len() && 0 <= b < luts_early[f]@.len() && 0 <= i < luts_early[f]@[b].acc.vals@.len()
                ==> #[trigger] luts_early[f]@[b].acc.vals@[i] == early[f].spec_eval(b, i as u64),
        // the full fixed-length compilation
        forall|f: int|
            0 <= f < tables.len() ==> compiled_for(
                #[trigger] full[f],
                tables[f],
                template[f],
                block_length,
                num_blocks,
            ),
        forall|f: int| 0 <= f < full.len() ==> (#[trigger] full[f]).num_lookups == num_blocks,
        forall|f: int|
            0 <= f < probe_full.len() ==> (#[trigger] probe_full[f])@.len() == num_blocks,
        forall|f: int|
            0 <= f < luts_full.len() ==> (#[trigger] luts_full[f])@.len() == num_blocks,
        forall|f: int, b: int|
            0 <= f < probe_full.len() && 0 <= b < probe_full[f]@.len() ==> ct_msg(
                #[trigger] probe_full[f]@[b],
                delta,
            ) == probe_codes[f],
        forall|f: int, b: int|
            0 <= f < luts_full.len() && 0 <= b < luts_full[f]@.len() ==> (
            #[trigger] luts_full[f]@[b]).acc.vals@.len() == total,
        forall|f: int, b: int, i: int|
            0 <= f < luts_full.len() && 0 <= b < luts_full[f]@.len() && 0 <= i < luts_full[f]@[b].acc.vals@.len()
                ==> #[trigger] luts_full[f]@[b].acc.vals@[i] == full[f].spec_eval(b, i as u64),
        // soundness of the early-stop proxy, and scores fitting the full width
        forall|f: int|
            0 <= f < tables.len() ==> normalized_entry(
                #[trigger] tables[f],
                template[f] as int,
                probe_codes[f] as int,
            ) <= normalized_entry(tables[f], 0, 0),
        forall|f: int|
            0 <= f < tables.len() ==> normalized_entry(
                #[trigger] tables[f],
                template[f] as int,
                probe_codes[f] as int,
            ) < pow(pow2(block_length) as int, num_blocks),
    ensures
        grouped_totals(probe_early, luts_early, delta, total, pow2(block_length) as int, w)
            == grouped_totals(probe_full, luts_full, delta, total, pow2(block_length) as int, w),
        grouped_totals(probe_early, luts_early, delta, total, pow2(block_length) as int, w)
            == clear_total(tables, template, probe_codes),
{
    let radix = pow2(block_length) as int;
    assert forall|f: int| 0 <= f < tables.len() implies (#[trigger] early[f]).num_lookups
        <= num_blocks && normalized_entry(tables[f], template[f] as int, probe_codes[f] as int)
        < pow(radix, early[f].num_lookups as nat) by {
        let maxcell = normalized_entry(tables[f], 0, 0);
        let v = normalized_entry(tables[f], template[f] as int, probe_codes[f] as int);
        vstd::arithmetic::div_mod::lemma_mod_division_less_than_divisor(
            tables[f][0][0] + crate::compiler::local_offset(tables[f]),
            0x1_0000_0000,
        );
        crate::compiler::lemma_early_count_bound(maxcell, radix, num_blocks);
        let k = crate::compiler::early_block_count(maxcell, radix, num_blocks);
        if k < num_blocks {
            assert(maxcell < pow(radix, k));
        }
    }
    assert forall|f: int| 0 <= f < early.len() implies (#[trigger] early[f]).num_lookups <= w by {
        assert(early[f].num_lookups <= num_blocks);
    }
    lemma_pipeline_correctness(
        tables,
        template,
        probe_codes,
        early,
        probe_early,
        luts_early,
        delta,
        total,
        block_length,
        num_blocks,
        w,
    );
    lemma_pipeline_correctness(
        tables,
        template,
        probe_codes,
        full,
        probe_full,
        luts_full,
        delta,
        total,
        block_length,
        num_blocks,
        w,
    );
}

/// When the cleartext total also fits the common sum width — the purpose of
/// a configuration's `sumWidth` — the encrypted total is not merely equal
/// modulo the width but exactly the cleartext total, so the threshold
/// comparison every strategy performs decides `cleartextTotal >= threshold`.
pub proof fn lemma_sum_width_comparison_exact(
    tables: Seq<Seq<Seq<i32>>>,
    template: Seq<u8>,
    probe_codes: Seq<u8>,
    features: Seq<CompiledFeature>,
    probe: Seq<Vec<LweCiphertext>>,
    luts: Seq<Vec<LookupTableOwned>>,
    delta: u64,
    total: u64,
    block_length: nat,
    num_blocks: nat,
    w: nat,
)
    requires
        tables.len() == template.len(),
        tables.len() == probe_codes.len(),
        tables.len() == features.len(),
        tables.len() == probe.len(),
        tables.len() == luts.len(),
        delta >= 1,
        2 <= pow2(block_length) <= total,
        forall|f: int|
            0 <= f < tables.len() ==> compiled_for(
                #[trigger] features[f],
                tables[f],
                template[f],
                block_length,
                num_blocks,
            ),
        forall|f: int| 0 <= f < tables.len() ==> table_wf(#[trigger] tables[f]),
        forall|f: int|
            0 <= f < features.len() ==> (#[trigger] features[f]).num_lookups <= num_blocks,
        forall|f: int| 0 <= f < features.len() ==> (#[trigger] features[f]).num_lookups <= w,
        forall|f: int|
            0 <= f < probe.len() ==> (#[trigger] probe[f])@.len() == features[f].num_lookups,
        forall|f: int|
            0 <= f < luts.len() ==> (#[trigger] luts[f])@.len() == features[f].num_lookups,
        forall|f: int, b: int|
            0 <= f < probe.len() && 0 <= b < probe[f]@.len() ==> ct_msg(
                #[trigger] probe[f]@[b],
                delta,
            ) == probe_codes[f],
        forall|f: int, b: int|
            0 <= f < luts.len() && 0 <= b < luts[f]@.len() ==> (
            #[trigger] luts[f]@[b]).acc.vals@.len() == total,
        forall|f: int, b: int, i: int|
            0 <= f < luts.len() && 0 <= b < luts[f]@.len() && 0 <= i < luts[f]@[b].acc.vals@.len()
                ==> #[trigger] luts[f]@[b].acc.vals@[i] == features[f].spec_eval(b, i as u64),
        forall|f: int| 0 <= f < tables.len() ==> (probe_codes[f] as int) < (#[trigger] tables[f])[0].len(),
        forall|f: int| 0 <= f < probe_codes.len() ==> (#[trigger] probe_codes[f] as u64) < total,
        forall|f: int|
            0 <= f < tables.len() ==> normalized_entry(
                #[trigger] tables[f],
                template[f] as int,
                probe_codes[f] as int,
            ) < pow(pow2(block_length) as int, features[f].num_lookups as nat),
        clear_total(tables, template, probe_codes) < pow(pow2(block_length) as int, w),
    ensures
        grouped_totals(probe, luts, delta, total, pow2(block_length) as int, w) % pow(
            pow2(block_length) as int,
            w,
        ) == clear_total(tables, template, probe_codes),
{
    lemma_pipeline_correctness(
        tables,
        template,
        probe_codes,
        features,
        probe,
        luts,
        delta,
        total,
        block_length,
        num_blocks,
        w,
    );
    lemma_small_mod(
        clear_total(tables, template, probe_codes) as nat,
        pow(pow2(block_length) as int, w) as nat,
    );
}

/// Offset bookkeeping across features: whenever every selected entry obeys
/// the table generator's offset convention, the normalized cleartext total
/// is the raw (signed) score total shifted by the cumulated offset — so the
/// encrypted comparison against `sourceThreshold + TotalOffset` decides
/// exactly `rawTotal >= sourceThreshold`.
pub proof fn lemma_clear_total_shifts_raw_total(
    tables: Seq<Seq<Seq<i32>>>,
    template: Seq<u8>,
    probe: Seq<u8>,
)
    requires
        tables.len() == template.len(),
        tables.len() == probe.len(),
        forall|f: int| 0 <= f < tables.len() ==> table_wf(#[trigger] tables[f]),
        forall|f: int| 0 <= f < tables.len() ==> (template[f] as int) < (#[trigger] tables[f]).len(),
        forall|f: int|
            0 <= f < tables.len() ==> (probe[f] as int) < (#[trigger] tables[f])[template[f] as int].len(),
        forall|f: int|
            0 <= f < tables.len() ==> (#[trigger] tables[f])[template[f] as int][probe[f] as int]
                + local_offset(tables[f]) >= 0,
    ensures
        clear_total(tables, template, probe) == raw_total(tables, template, probe) + total_offset(
            tables,
        ),
    decreases tables.len(),
{
    if tables.len() > 0 {
        lemma_clear_total_shifts_raw_total(
            tables.drop_last(),
            template.drop_last(),
            probe.drop_last(),
        );
        crate::compiler::lemma_offset_soundness(
            tables.last(),
            template.last() as int,
            probe.last() as int,
        );
        lemma_total_offset_drop_last(tables);
    }
}

/// A position inside one of the first `n - 1` digit groups lies before the
/// last group's start.
proof fn lemma_flat_index_in_head(f: int, b: int, n: int, num_blocks: int)
    requires
        0 <= f < n - 1,
        0 <= b < num_blocks,
    ensures
        0 <= f * num_blocks + b,
        f * num_blocks + b < (n - 1) * num_blocks,
{
    vstd::arithmetic::mul::lemma_mul_nonnegative(f, num_blocks);
    vstd::arithmetic::mul::lemma_mul_inequality(f + 1, n - 1, num_blocks);
    vstd::arithmetic::mul::lemma_mul_is_commutative(f + 1, num_blocks);
    vstd::arithmetic::mul::lemma_mul_is_commutative(n - 1, num_blocks);
    vstd::arithmetic::mul::lemma_mul_is_distributive_add(num_blocks, f, 1);
    vstd::arithmetic::mul::lemma_mul_is_commutative(f, num_blocks);
}

/// The cumulated offset splits off its last table's offset.
proof fn lemma_total_offset_drop_last(tables: Seq<Seq<Seq<i32>>>)
    requires
        tables.len() >= 1,
    ensures
        total_offset(tables) == total_offset(tables.drop_last()) + local_offset(tables.last()),
    decreases tables.len(),
{
    if tables.len() == 1 {
        assert(tables.drop_first() =~= Seq::empty());
        assert(tables.drop_last() =~= Seq::empty());
    } else {
        lemma_total_offset_drop_last(tables.drop_first());
        assert(tables.drop_first().drop_last() =~= tables.drop_last().drop_first());
        assert(tables.drop_first().last() == tables.last());
        assert(tables.drop_last()[0] == tables[0]);
    }
}

} // verus!
