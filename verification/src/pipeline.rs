//! Shared steps of the matching pipeline.
//!
//! Every execution strategy runs the same seven protocol steps: replicate
//! each probe code once per digit lookup of its feature and flatten
//! (step 1), encrypt (step 2), evaluate each position's lookup under
//! encryption (step 3), regroup each feature's digits into one radix integer
//! and zero-extend it to the common sum width (step 4), add everything with
//! carries (step 5), compare against the shifted threshold (step 6), and
//! decrypt only the final boolean (step 7).  This module holds the step
//! implementations and the cleartext semantics they are verified against:
//! the digits any position decrypts to, the radix value of a digit group,
//! and the cross-feature score total.

use vstd::prelude::*;
use vstd::arithmetic::power::pow;
use vstd::arithmetic::power::lemma_pow_positive;
use vstd::arithmetic::mul::lemma_mul_inequality;
use vstd::arithmetic::mul::lemma_mul_is_commutative;
use crate::compiler::CompiledFeature;
use crate::compiler::LookupSlot;
use crate::compiler::slot_wf;
use crate::engine::GlweCiphertext;
use crate::engine::LweCiphertext;
use crate::engine::ct_msg;
use crate::engine::ct_wf;
use crate::radix::digits_of;
use crate::radix::radix_value;
use crate::radix::zero_digits;

verus! {

/// The messages a sequence of digit ciphertexts carries.
pub open spec fn msgs_of(cts: Seq<LweCiphertext>, delta: u64) -> Seq<u64> {
    Seq::new(cts.len(), |i: int| ct_msg(cts[i], delta))
}

/// The integer a little-endian sequence of digit ciphertexts stands for.
pub open spec fn cts_value(cts: Seq<LweCiphertext>, delta: u64, radix: int) -> int {
    radix_value(msgs_of(cts, delta), radix)
}

/// What evaluating lookup table `lut` on ciphertext `ct` decrypts to: the
/// table entry at the ciphertext's message, reduced into the message space.
pub open spec fn eval_msg(lut: GlweCiphertext, ct: LweCiphertext, delta: u64, total: u64) -> u64 {
    lut.vals@[ct_msg(ct, delta) as int] % total
}

/// The digit messages of a flat probe list after applying each position's
/// lookup (the cleartext content of step 3's output).
pub open spec fn evaluated_msgs(
    probe: Seq<LweCiphertext>,
    luts: Seq<GlweCiphertext>,
    delta: u64,
    total: u64,
) -> Seq<u64> {
    Seq::new(probe.len(), |i: int| eval_msg(luts[i], probe[i], delta, total))
}

/// The cross-feature score total of a flat digit-message list: the sum of
/// the radix values of its consecutive width-`nb` groups.
pub open spec fn groups_total(msgs: Seq<u64>, radix: int, nb: nat) -> int
    decreases msgs.len(),
    when nb >= 1
{
    if msgs.len() == 0 {
        0
    } else if msgs.len() <= nb {
        radix_value(msgs, radix)
    } else {
        radix_value(msgs.take(nb as int), radix) + groups_total(msgs.skip(nb as int), radix, nb)
    }
}

/// The digit messages one feature's evaluated lookups stand for,
/// zero-extended at the most-significant end to the common sum width `w`.
pub open spec fn feature_msgs(
    probes: Seq<LweCiphertext>,
    luts: Seq<crate::engine::LookupTableOwned>,
    delta: u64,
    total: u64,
    w: nat,
) -> Seq<u64> {
    Seq::new(probes.len(), |b: int| eval_msg(luts[b].acc, probes[b], delta, total)) + zero_digits(
        (w - probes.len()) as nat,
    )
}

/// The cross-feature score total in grouped form: each feature's evaluated
/// digits, padded to width `w`, reconstructed and summed.
pub open spec fn grouped_totals(
    probe: Seq<Vec<LweCiphertext>>,
    luts: Seq<Vec<crate::engine::LookupTableOwned>>,
    delta: u64,
    total: u64,
    radix: int,
    w: nat,
) -> int
    decreases probe.len(),
{
    if probe.len() == 0 {
        0
    } else {
        grouped_totals(probe.drop_last(), luts.drop_last(), delta, total, radix, w) + radix_value(
            feature_msgs(probe.last()@, luts.last()@, delta, total, w),
            radix,
        )
    }
}

/// A score total is never negative.
pub proof fn lemma_groups_total_nonneg(msgs: Seq<u64>, radix: int, nb: nat)
    requires
        nb >= 1,
        radix >= 0,
    ensures
        groups_total(msgs, radix, nb) >= 0,
    decreases msgs.len(),
{
    if msgs.len() == 0 {
    } else if msgs.len() <= nb {
        crate::radix::lemma_radix_value_nonneg(msgs, radix);
    } else {
        crate::radix::lemma_radix_value_nonneg(msgs.take(nb as int), radix);
        lemma_groups_total_nonneg(msgs.skip(nb as int), radix, nb);
    }
}

/// A grouped score total is never negative.
pub proof fn lemma_grouped_totals_nonneg(
    probe: Seq<Vec<LweCiphertext>>,
    luts: Seq<Vec<crate::engine::LookupTableOwned>>,
    delta: u64,
    total: u64,
    radix: int,
    w: nat,
)
    requires
        radix >= 0,
    ensures
        grouped_totals(probe, luts, delta, total, radix, w) >= 0,
    decreases probe.len(),
{
    if probe.len() > 0 {
        lemma_grouped_totals_nonneg(probe.drop_last(), luts.drop_last(), delta, total, radix, w);
        crate::radix::lemma_radix_value_nonneg(
            feature_msgs(probe.last()@, luts.last()@, delta, total, w),
            radix,
        );
    }
}

/// The score total of a flat digit list splits at any group boundary.
pub proof fn lemma_groups_total_append(s1: Seq<u64>, s2: Seq<u64>, radix: int, nb: nat)
    requires
        nb >= 1,
        (s1.len() as int) % (nb as int) == 0,
    ensures
        groups_total(s1 + s2, radix, nb) == groups_total(s1, radix, nb) + groups_total(
            s2,
            radix,
            nb,
        ),
    decreases s1.len(),
{
    if s1.len() == 0 {
        assert(s1 + s2 =~= s2);
    } else {
        assert(s1.len() >= nb) by {
            if s1.len() < nb {
                vstd::arithmetic::div_mod::lemma_small_mod(s1.len(), nb);
            }
        }
        let rest = s1.skip(nb as int);
        assert((rest.len() as int) % (nb as int) == 0) by {
            vstd::arithmetic::div_mod::lemma_mod_sub_multiples_vanish(s1.len() as int, nb as int);
        }
        assert((s1 + s2).take(nb as int) =~= s1.take(nb as int));
        assert((s1 + s2).skip(nb as int) =~= rest + s2);
        lemma_groups_total_append(rest, s2, radix, nb);
        if s1.len() == nb {
            assert(s1.take(nb as int) =~= s1);
            assert(rest =~= Seq::empty());
            if s2.len() == 0 {
                assert(s1 + s2 =~= s1);
            }
        }
    }
}

/// Step 1 in its grouped form: replicate feature `f`'s probe code once per
/// digit lookup the feature emits.
pub fn repeat_probes_to_match_functions(probe: &Vec<u8>, functions: &Vec<CompiledFeature>) -> (r:
    Vec<Vec<u64>>)
    requires
        probe@.len() == functions@.len(),
    ensures
        r@.len() == functions@.len(),
        forall|f: int|
            0 <= f < r@.len() ==> (#[trigger] r@[f])@.len() == functions@[f].num_lookups,
        forall|f: int, b: int|
            0 <= f < r@.len() && 0 <= b < r@[f]@.len() ==> #[trigger] r@[f]@[b] == probe@[f] as u64,
{
    let mut r_probe: Vec<Vec<u64>> = Vec::new();
    let n = functions.len();
    let mut f: usize = 0;
    while f < n
        invariant
            f <= n,
            n == functions@.len(),
            n == probe@.len(),
            r_probe@.len() == f,
            forall|k: int|
                0 <= k < f ==> (#[trigger] r_probe@[k])@.len() == functions@[k].num_lookups,
            forall|k: int, b: int|
                0 <= k < f && 0 <= b < r_probe@[k]@.len() ==> #[trigger] r_probe@[k]@[b]
                    == probe@[k] as u64,
        decreases n - f,
    {
        let code = probe[f] as u64;
        let k_f = functions[f].num_lookups;
        let mut inner: Vec<u64> = Vec::new();
        let mut b: usize = 0;
        while b < k_f
            invariant
                b <= k_f,
                inner@.len() == b,
                forall|m: int| 0 <= m < b ==> #[trigger] inner@[m] == code,
            decreases k_f - b,
        {
            inner.push(code);
            b = b + 1;
        }
        r_probe.push(inner);
        f = f + 1;
    }
    r_probe
}

/// The flat lookup-slot order of a feature set: feature by feature, block by
/// block — exactly the buffer layout every batched pass relies on.
pub open spec fn flat_slots(functions: Seq<CompiledFeature>) -> Seq<LookupSlot>
    decreases functions.len(),
{
    if functions.len() == 0 {
        Seq::empty()
    } else {
        flat_slots(functions.drop_last()) + Seq::new(
            functions.last().num_lookups as nat,
            |b: int| LookupSlot { feature: (functions.len() - 1) as usize, block: b as usize },
        )
    }
}

/// The flat replicated probe codes, in the same order as [`flat_slots`].
pub open spec fn flat_probe(probe: Seq<u8>, functions: Seq<CompiledFeature>) -> Seq<u64>
    decreases functions.len(),
{
    if functions.len() == 0 {
        Seq::empty()
    } else {
        flat_probe(probe.drop_last(), functions.drop_last()) + Seq::new(
            functions.last().num_lookups as nat,
            |b: int| probe.last() as u64,
        )
    }
}

/// The two flat sequences always have the same length.
pub proof fn lemma_flat_lens(probe: Seq<u8>, functions: Seq<CompiledFeature>)
    requires
        probe.len() == functions.len(),
    ensures
        flat_probe(probe, functions).len() == flat_slots(functions).len(),
    decreases functions.len(),
{
    if functions.len() > 0 {
        lemma_flat_lens(probe.drop_last(), functions.drop_last());
    }
}

/// Step 1 in its flat form: replicate each feature's probe code once per
/// digit lookup and concatenate across features into one flat list of
/// `(probe code, lookup slot)` pairs.  The order of this list is the order
/// every later step re-slices by.
pub fn flatten_and_repeat(probe: &Vec<u8>, functions: &Vec<CompiledFeature>) -> (r: (
    Vec<u64>,
    Vec<LookupSlot>,
))
    requires
        probe@.len() == functions@.len(),
    ensures
        r.0@ == flat_probe(probe@, functions@),
        r.1@ == flat_slots(functions@),
        r.0@.len() == r.1@.len(),
        forall|s: int|
            0 <= s < r.1@.len() && (forall|f: int|
                0 <= f < functions@.len() ==> (#[trigger] functions@[f]).wf()) ==> slot_wf(
                #[trigger] r.1@[s],
                functions@,
            ),
{
    let mut r_probe: Vec<u64> = Vec::new();
    let mut f_slots: Vec<LookupSlot> = Vec::new();
    let n = functions.len();
    let mut f: usize = 0;
    while f < n
        invariant
            f <= n,
            n == functions@.len(),
            n == probe@.len(),
            r_probe@ == flat_probe(probe@.take(f as int), functions@.take(f as int)),
            f_slots@ == flat_slots(functions@.take(f as int)),
            forall|s: int|
                0 <= s < f_slots@.len() ==> ((#[trigger] f_slots@[s]).feature as int) < f
                    && f_slots@[s].block < functions@[f_slots@[s].feature as int].num_lookups,
        decreases n - f,
    {
        let code = probe[f] as u64;
        let k_f = functions[f].num_lookups;
        let ghost probe_pre = r_probe@;
        let ghost slots_pre = f_slots@;
        let mut b: usize = 0;
        while b < k_f
            invariant
                b <= k_f,
                f < n,
                n == functions@.len(),
                n == probe@.len(),
                k_f == functions@[f as int].num_lookups,
                code == probe@[f as int] as u64,
                r_probe@ == probe_pre + Seq::new(b as nat, |m: int| code),
                f_slots@ == slots_pre + Seq::new(
                    b as nat,
                    |m: int| LookupSlot { feature: f, block: m as usize },
                ),
            decreases k_f - b,
        {
            proof {
                assert(probe_pre + Seq::new((b + 1) as nat, |m: int| code) =~= (probe_pre
                    + Seq::new(b as nat, |m: int| code)).push(code));
                assert(slots_pre + Seq::new(
                    (b + 1) as nat,
                    |m: int| LookupSlot { feature: f, block: m as usize },
                ) =~= (slots_pre + Seq::new(
                    b as nat,
                    |m: int| LookupSlot { feature: f, block: m as usize },
                )).push(LookupSlot { feature: f, block: b }));
            }
            r_probe.push(code);
            f_slots.push(LookupSlot { feature: f, block: b });
            b = b + 1;
        }
        proof {
            assert(functions@.take(f + 1).drop_last() =~= functions@.take(f as int));
            assert(probe@.take(f + 1).drop_last() =~= probe@.take(f as int));
            assert(functions@.take(f + 1).last() == functions@[f as int]);
            assert(probe@.take(f + 1).last() == probe@[f as int]);
            assert(r_probe@ =~= flat_probe(probe@.take(f + 1), functions@.take(f + 1)));
            assert(f_slots@ =~= flat_slots(functions@.take(f + 1)));
        }
        f = f + 1;
    }
    proof {
        assert(functions@.take(n as int) =~= functions@);
        assert(probe@.take(n as int) =~= probe@);
        lemma_flat_lens(probe@, functions@);
    }
    (r_probe, f_slots)
}

/// Step 3 for one position: apply a lookup table to a ciphertext.  The
/// result carries the table entry selected by the hidden message, reduced
/// into the message space — without revealing the message.
pub fn apply_lookup(ct: LweCiphertext, vals: &Vec<u64>, delta: u64, total: u64) -> (r:
    LweCiphertext)
    requires
        delta >= 1,
        1 <= total <= usize::MAX,
        (total - 1) * delta <= u64::MAX,
        ct_wf(ct, delta, total),
        vals@.len() == total,
    ensures
        ct_wf(r, delta, total),
        ct_msg(r, delta) == eval_msg(GlweCiphertext { vals: *vals }, ct, delta, total),
{
    let m = ct.body / delta;
    let v = vals[m as usize] % total;
    proof {
        lemma_mul_inequality(v as int, total - 1, delta as int);
        vstd::arithmetic::div_mod::lemma_mod_multiples_basic(v as int, delta as int);
        vstd::arithmetic::div_mod::lemma_div_by_multiple(v as int, delta as int);
        lemma_mul_is_commutative(v as int, delta as int);
    }
    LweCiphertext { body: v * delta }
}

/// Step 4/5 helper: the integer value of `nb` consecutive digit ciphertexts
/// starting at `start`, read little-endian.
pub fn group_radix_value(
    cts: &Vec<LweCiphertext>,
    start: usize,
    nb: usize,
    delta: u64,
    radix: u64,
) -> (v: u64)
    requires
        start + nb <= cts@.len(),
        delta >= 1,
        radix >= 2,
        pow(radix as int, nb as nat) <= u64::MAX,
        forall|i: int|
            start <= i < start + nb ==> ct_msg(#[trigger] cts@[i], delta) < radix,
    ensures
        v == cts_value(cts@.subrange(start as int, start + nb), delta, radix as int),
        v < pow(radix as int, nb as nat),
{
    let len = cts.len();
    let mut v: u64 = 0;
    let mut i: usize = nb;
    proof {
        lemma_pow_positive(radix as int, nb as nat);
        let empty: Seq<u64> = Seq::empty();
        assert(msgs_of(cts@.subrange(start + nb, start + nb), delta) =~= empty);
        vstd::arithmetic::power::lemma_pow0(radix as int);
    }
    while i > 0
        invariant
            i <= nb,
            start + nb <= cts@.len(),
            delta >= 1,
            radix >= 2,
            pow(radix as int, nb as nat) <= u64::MAX,
            forall|k: int|
                start <= k < start + nb ==> ct_msg(#[trigger] cts@[k], delta) < radix,
            len == cts@.len(),
            start + nb <= len,
            v == cts_value(cts@.subrange(start + i, start + nb), delta, radix as int),
            v < pow(radix as int, (nb - i) as nat),
        decreases i,
    {
        let m = cts[start + i - 1].body / delta;
        proof {
            let whole = msgs_of(cts@.subrange(start + i - 1, start + nb), delta);
            let rest = msgs_of(cts@.subrange(start + i, start + nb), delta);
            assert(whole.drop_first() =~= rest);
            assert(whole[0] == ct_msg(cts@[start + i - 1], delta));
            assert(radix * v + m < radix * pow(radix as int, (nb - i) as nat)) by {
                lemma_mul_inequality(v + 1, pow(radix as int, (nb - i) as nat), radix as int);
                vstd::arithmetic::mul::lemma_mul_is_distributive_add(radix as int, v as int, 1);
                lemma_mul_is_commutative(radix as int, v + 1);
                lemma_mul_is_commutative(radix as int, pow(radix as int, (nb - i) as nat));
            }
            assert(radix * pow(radix as int, (nb - i) as nat) == pow(
                radix as int,
                (nb - i + 1) as nat,
            )) by {
                vstd::arithmetic::power::lemma_pow1(radix as int);
                vstd::arithmetic::power::lemma_pow_adds(radix as int, 1, (nb - i) as nat);
            }
            if i < nb {
                vstd::arithmetic::power::lemma_pow_increases(
                    radix as nat,
                    (nb - i + 1) as nat,
                    nb as nat,
                );
            }
        }
        v = m + radix * v;
        i = i - 1;
    }
    v
}

/// Step 5.5 helper: the integer value of a digit ciphertext group whose
/// digits may still hold pending carries — each message merely below `cap`
/// (the full message space), not necessarily below the radix.
pub fn group_value_carried(
    cts: &Vec<LweCiphertext>,
    nb: usize,
    delta: u64,
    radix: u64,
    cap: u64,
) -> (v: u64)
    requires
        cts@.len() == nb,
        delta >= 1,
        radix >= 2,
        cap >= 1,
        cap * pow(radix as int, nb as nat) <= u64::MAX,
        forall|i: int| 0 <= i < nb ==> ct_msg(#[trigger] cts@[i], delta) < cap,
    ensures
        v == cts_value(cts@, delta, radix as int),
        v <= cap * pow(radix as int, nb as nat) - cap,
{
    let mut v: u64 = 0;
    let mut i: usize = nb;
    proof {
        lemma_pow_positive(radix as int, nb as nat);
        let empty: Seq<u64> = Seq::empty();
        assert(msgs_of(cts@.subrange(nb as int, nb as int), delta) =~= empty);
        vstd::arithmetic::power::lemma_pow0(radix as int);
    }
    while i > 0
        invariant
            i <= nb,
            cts@.len() == nb,
            delta >= 1,
            radix >= 2,
            cap >= 1,
            cap * pow(radix as int, nb as nat) <= u64::MAX,
            forall|k: int| 0 <= k < nb ==> ct_msg(#[trigger] cts@[k], delta) < cap,
            v == cts_value(cts@.subrange(i as int, nb as int), delta, radix as int),
            v <= cap * pow(radix as int, (nb - i) as nat) - cap,
        decreases i,
    {
        let m = cts[i - 1].body / delta;
        proof {
            let whole = msgs_of(cts@.subrange(i - 1, nb as int), delta);
            let rest = msgs_of(cts@.subrange(i as int, nb as int), delta);
            assert(whole.drop_first() =~= rest);
            assert(whole[0] == ct_msg(cts@[i - 1], delta));
            let p = pow(radix as int, (nb - i) as nat);
            let p1 = pow(radix as int, (nb - i + 1) as nat);
            lemma_pow_positive(radix as int, (nb - i) as nat);
            assert(radix * p == p1) by {
                vstd::arithmetic::power::lemma_pow1(radix as int);
                vstd::arithmetic::power::lemma_pow_adds(radix as int, 1, (nb - i) as nat);
            }
            assert(radix * v <= radix * (cap * p - cap)) by {
                lemma_mul_inequality(v as int, cap * p - cap, radix as int);
                lemma_mul_is_commutative(radix as int, v as int);
                lemma_mul_is_commutative(radix as int, cap * p - cap);
            }
            assert(radix * (cap * p - cap) == cap * p1 - radix * cap) by {
                vstd::arithmetic::mul::lemma_mul_is_distributive_sub(
                    radix as int,
                    cap * p,
                    cap as int,
                );
                vstd::arithmetic::mul::lemma_mul_is_associative(radix as int, cap as int, p);
                lemma_mul_is_commutative(radix as int, cap as int);
                vstd::arithmetic::mul::lemma_mul_is_associative(cap as int, radix as int, p);
            }
            assert(2 * cap <= radix * cap) by {
                lemma_mul_inequality(2, radix as int, cap as int);
                lemma_mul_is_commutative(2, cap as int);
                lemma_mul_is_commutative(radix as int, cap as int);
            }
            assert(cap * p1 <= cap * pow(radix as int, nb as nat)) by {
                if nb - i + 1 < nb {
                    vstd::arithmetic::power::lemma_pow_increases(
                        radix as nat,
                        (nb - i + 1) as nat,
                        nb as nat,
                    );
                }
                lemma_mul_inequality(p1, pow(radix as int, nb as nat), cap as int);
                lemma_mul_is_commutative(cap as int, p1);
                lemma_mul_is_commutative(cap as int, pow(radix as int, nb as nat));
            }
        }
        v = m + radix * v;
        i = i - 1;
    }
    proof {
        assert(cts@.subrange(0, nb as int) =~= cts@);
    }
    v
}

/// Step 4/5 helper: encrypt a value as `nb` little-endian digit ciphertexts.
pub fn encode_value_digits(v: u64, nb: usize, delta: u64, radix: u64, total: u64) -> (r: Vec<
    LweCiphertext,
>)
    requires
        delta >= 1,
        2 <= radix <= total,
        (total - 1) * delta <= u64::MAX,
    ensures
        r@.len() == nb,
        msgs_of(r@, delta) =~= digits_of(v as int, radix as int, nb as nat),
        forall|i: int| 0 <= i < nb ==> ct_wf(#[trigger] r@[i], delta, total),
        forall|i: int| 0 <= i < nb ==> ct_msg(#[trigger] r@[i], delta) < radix,
{
    let digits = crate::radix::decompose_value(v, radix, nb);
    proof {
        crate::radix::lemma_digits_bounded(v as int, radix as int, nb as nat);
    }
    let mut out: Vec<LweCiphertext> = Vec::new();
    let mut i: usize = 0;
    while i < nb
        invariant
            i <= nb,
            delta >= 1,
            2 <= radix <= total,
            (total - 1) * delta <= u64::MAX,
            digits@ == digits_of(v as int, radix as int, nb as nat),
            digits@.len() == nb,
            forall|k: int| 0 <= k < nb ==> #[trigger] digits@[k] < radix,
            out@.len() == i,
            forall|k: int| 0 <= k < i ==> ct_wf(#[trigger] out@[k], delta, total),
            forall|k: int| 0 <= k < i ==> ct_msg(#[trigger] out@[k], delta) == digits@[k],
        decreases nb - i,
    {
        let d = digits[i];
        proof {
            lemma_mul_inequality(d as int, total - 1, delta as int);
            vstd::arithmetic::div_mod::lemma_mod_multiples_basic(d as int, delta as int);
            vstd::arithmetic::div_mod::lemma_div_by_multiple(d as int, delta as int);
            lemma_mul_is_commutative(d as int, delta as int);
        }
        out.push(LweCiphertext { body: d * delta });
        i = i + 1;
    }
    proof {
        assert(msgs_of(out@, delta) =~= digits_of(v as int, radix as int, nb as nat));
    }
    out
}

} // verus!
