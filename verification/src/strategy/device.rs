//! Accelerator-only strategy: every batched pass — keyswitch, table
//! evaluation, radix summation, threshold comparison — runs over device
//! buffers.  Buffer layout is purely positional, so the flattening order of
//! step 1 is exactly the order the passes re-slice by.

use vstd::prelude::*;
use vstd::arithmetic::power::pow;
use vstd::arithmetic::power::lemma_pow_positive;
use vstd::arithmetic::mul::lemma_mul_inequality;
use vstd::arithmetic::mul::lemma_mul_is_commutative;
use vstd::arithmetic::mul::lemma_mul_is_distributive_add;
use crate::engine::CudaBooleanBlock;
use crate::engine::CudaGlweCiphertextList;
use crate::engine::CudaLweBootstrapKey;
use crate::engine::CudaLweCiphertextList;
use crate::engine::CudaLweKeyswitchKey;
use crate::engine::CudaStream;
use crate::engine::GlweSecretKey;
use crate::engine::Keys;
use crate::engine::LweCiphertext;
use crate::engine::LweSecretKey;
use crate::engine::ShortintEngine;
use crate::engine::ShortintParameterSet;
use crate::engine::ct_msg;
use crate::engine::ct_wf;
use crate::pipeline::cts_value;
use crate::pipeline::eval_msg;
use crate::pipeline::evaluated_msgs;
use crate::pipeline::groups_total;
use crate::pipeline::lemma_groups_total_append;
use crate::pipeline::msgs_of;

verus! {

/// Generate the key material an accelerator-only run needs, bundled with
/// the encoding the parameters induce.
pub fn make_keys(params: ShortintParameterSet, stream: CudaStream, engine: &mut ShortintEngine)
    -> (r: Keys)
    requires
        params.wf(),
    ensures
        r.wf(),
        r.parameters == params,
{
    let (total, delta) = crate::engine::compute_total_and_delta(params);
    Keys {
        lwe_secret_key: LweSecretKey {  },
        glwe_secret_key: GlweSecretKey {  },
        server_key: crate::engine::CudaServerKey {
            message_modulus: params.message_modulus,
            carry_modulus: params.carry_modulus,
            max_degree: total - 1,
        },
        delta,
        total_modulus: total,
        stream,
        parameters: params,
    }
}

/// Generate the key material of an accelerator-only multi-bit run: the
/// secret key, the device keyswitching and bootstrapping keys, and the
/// encoding the parameters induce.
pub fn make_keys_multibit(
    params: crate::engine::MultiBitPBSParameters,
    stream: &CudaStream,
    engine: &mut ShortintEngine,
) -> (r: (
    (ShortintParameterSet, GlweSecretKey),
    (CudaLweKeyswitchKey, crate::engine::CudaLweMultiBitBootstrapKey),
    (u64, u64),
))
    requires
        params.wf(),
    ensures
        r.0.0 == params.to_parameter_set(),
        r.2.0 == crate::engine::spec_delta(params.to_parameter_set()),
        r.2.1 == params.to_parameter_set().spec_total_modulus(),
        crate::engine::encoding_wf(r.2.0, r.2.1),
        (r.2.1 - 1) * r.2.0 < 0x8000_0000_0000_0000,
{
    let parameter_set = params.into_parameter_set();
    let (total, delta) = crate::engine::compute_total_and_delta(parameter_set);
    (
        (parameter_set, GlweSecretKey {  }),
        (CudaLweKeyswitchKey {  }, crate::engine::CudaLweMultiBitBootstrapKey {  }),
        (delta, total),
    )
}

/// Generate raw key material without a bundled server key: the secret keys,
/// the device keyswitching and bootstrapping keys, and the encoding.
pub fn make_keys_no_server_key(
    params: ShortintParameterSet,
    stream: &CudaStream,
    engine: &mut ShortintEngine,
) -> (r: (
    LweSecretKey,
    GlweSecretKey,
    CudaLweKeyswitchKey,
    CudaLweBootstrapKey,
    u64,
    u64,
    ShortintParameterSet,
))
    requires
        params.wf(),
    ensures
        r.4 == crate::engine::spec_delta(params),
        r.5 == params.spec_total_modulus(),
        crate::engine::encoding_wf(r.4, r.5),
        (r.5 - 1) * r.4 < 0x8000_0000_0000_0000,
        r.6 == params,
{
    let (total, delta) = crate::engine::compute_total_and_delta(params);
    (
        LweSecretKey {  },
        GlweSecretKey {  },
        CudaLweKeyswitchKey {  },
        CudaLweBootstrapKey {  },
        delta,
        total,
        params,
    )
}

/// The index buffers a batched device pass addresses its inputs with:
/// `total` copies of `0 .. max`.
pub fn make_indices(max: u64, total: usize, slots: usize, keys: &Keys) -> (r: Vec<Vec<u64>>)
    requires
        max <= usize::MAX,
    ensures
        r@.len() == total,
        forall|t: int| 0 <= t < total ==> (#[trigger] r@[t])@.len() == max,
        forall|t: int, i: int|
            0 <= t < total && 0 <= i < r@[t]@.len() ==> #[trigger] r@[t]@[i] == i as u64,
{
    let mut result: Vec<Vec<u64>> = Vec::new();
    let mut t: usize = 0;
    while t < total
        invariant
            t <= total,
            max <= usize::MAX,
            result@.len() == t,
            forall|k: int| 0 <= k < t ==> (#[trigger] result@[k])@.len() == max,
            forall|k: int, i: int|
                0 <= k < t && 0 <= i < result@[k]@.len() ==> #[trigger] result@[k]@[i] == i as u64,
        decreases total - t,
    {
        let mut in_indices: Vec<u64> = Vec::new();
        let max_us = max as usize;
        let mut i: usize = 0;
        while i < max_us
            invariant
                i <= max_us,
                max_us == max,
                in_indices@.len() == i,
                forall|k: int| 0 <= k < i ==> #[trigger] in_indices@[k] == k as u64,
            decreases max_us - i,
        {
            in_indices.push(i as u64);
            i = i + 1;
        }
        result.push(in_indices);
        t = t + 1;
    }
    result
}

/// Step 2.5: keyswitch every ciphertext of the probe buffer into the
/// bootstrap key's domain.  Keyswitching re-encrypts under another key and
/// leaves every message unchanged.
pub fn do_keyswitch(
    keys: &Keys,
    input: &CudaLweCiphertextList,
    output: &mut CudaLweCiphertextList,
    indices: &Vec<Vec<u64>>,
)
    requires
        indices@.len() == 2,
        old(output).cts@.len() == input.cts@.len(),
    ensures
        final(output).cts@ =~= input.cts@,
{
    let n = input.cts.len();
    let mut i: usize = 0;
    while i < n
        invariant
            i <= n,
            n == input.cts@.len(),
            output.cts@.len() == n,
            forall|k: int| 0 <= k < i ==> #[trigger] output.cts@[k] == input.cts@[k],
        decreases n - i,
    {
        let ct = input.cts[i];
        output.cts.set(i, ct);
        i = i + 1;
    }
}

/// Step 3: apply each position's lookup table to its ciphertext, one
/// encrypted digit out per position — the homomorphic equivalent of
/// evaluating `lut[message]` without revealing the message.
pub fn do_pbs(
    keys: &Keys,
    input: &CudaLweCiphertextList,
    output: &mut CudaLweCiphertextList,
    luts: &CudaGlweCiphertextList,
    indices: &Vec<Vec<u64>>,
)
    requires
        indices@.len() == 3,
        keys.wf(),
        old(output).cts@.len() == input.cts@.len(),
        luts.luts@.len() == input.cts@.len(),
        forall|i: int|
            0 <= i < input.cts@.len() ==> ct_wf(
                #[trigger] input.cts@[i],
                keys.delta,
                keys.total_modulus,
            ),
        forall|i: int|
            0 <= i < luts.luts@.len() ==> (#[trigger] luts.luts@[i]).vals@.len()
                == keys.total_modulus,
    ensures
        final(output).cts@.len() == input.cts@.len(),
        forall|i: int|
            0 <= i < input.cts@.len() ==> ct_wf(
                #[trigger] final(output).cts@[i],
                keys.delta,
                keys.total_modulus,
            ),
        msgs_of(final(output).cts@, keys.delta) =~= evaluated_msgs(
            input.cts@,
            luts.luts@,
            keys.delta,
            keys.total_modulus,
        ),
{
    proof {
        crate::engine::lemma_params_encoding(keys.parameters);
    }
    let n = input.cts.len();
    let mut i: usize = 0;
    while i < n
        invariant
            i <= n,
            n == input.cts@.len(),
            keys.wf(),
            1 <= keys.total_modulus <= 0x1_0000_0000,
            (keys.total_modulus - 1) * keys.delta <= u64::MAX,
            output.cts@.len() == n,
            luts.luts@.len() == n,
            forall|k: int|
                0 <= k < n ==> ct_wf(#[trigger] input.cts@[k], keys.delta, keys.total_modulus),
            forall|k: int|
                0 <= k < n ==> (#[trigger] luts.luts@[k]).vals@.len() == keys.total_modulus,
            forall|k: int|
                0 <= k < i ==> ct_wf(#[trigger] output.cts@[k], keys.delta, keys.total_modulus),
            forall|k: int|
                0 <= k < i ==> ct_msg(#[trigger] output.cts@[k], keys.delta) == eval_msg(
                    luts.luts@[k],
                    input.cts@[k],
                    keys.delta,
                    keys.total_modulus,
                ),
        decreases n - i,
    {
        let evaluated = crate::pipeline::apply_lookup(
            input.cts[i],
            &luts.luts[i].vals,
            keys.delta,
            keys.total_modulus,
        );
        output.cts.set(i, evaluated);
        i = i + 1;
    }
    proof {
        assert(msgs_of(output.cts@, keys.delta) =~= evaluated_msgs(
            input.cts@,
            luts.luts@,
            keys.delta,
            keys.total_modulus,
        ));
    }
}

/// Step 4's padding: extend a radix ciphertext with trivial (publicly known)
/// zero digits at the most-significant end, up to the requested width.  The
/// value the ciphertext stands for is unchanged.
pub fn expand_radix_with_trivial_zeros(
    keys: &Keys,
    new_num_blocks: usize,
    ct_list: &mut CudaLweCiphertextList,
)
    requires
        old(ct_list).cts@.len() <= new_num_blocks,
    ensures
        final(ct_list).cts@.len() == new_num_blocks,
        final(ct_list).cts@ =~= old(ct_list).cts@ + Seq::new(
            (new_num_blocks - old(ct_list).cts@.len()) as nat,
            |i: int| LweCiphertext { body: 0 },
        ),
{
    let ghost orig = ct_list.cts@;
    while ct_list.cts.len() < new_num_blocks
        invariant
            orig.len() <= ct_list.cts@.len() <= new_num_blocks,
            ct_list.cts@ =~= orig + Seq::new(
                (ct_list.cts@.len() - orig.len()) as nat,
                |i: int| LweCiphertext { body: 0 },
            ),
        decreases new_num_blocks - ct_list.cts.len(),
    {
        ct_list.cts.push(LweCiphertext { body: 0 });
    }
}

/// Step 5: add `ct_count` radix integers of `num_blocks` digits each, laid
/// out consecutively in one flat buffer, into a single `num_blocks`-digit
/// encrypted total.  Digits beyond the common width carry out and are lost:
/// the total is exact modulo `radix^num_blocks`.
pub fn do_sum(
    keys: &Keys,
    num_blocks: usize,
    ct_count: usize,
    ct_list: &mut CudaLweCiphertextList,
) -> (r: CudaLweCiphertextList)
    requires
        keys.wf(),
        num_blocks >= 1,
        keys.parameters.message_modulus >= 2,
        old(ct_list).cts@.len() == num_blocks * ct_count,
        pow(keys.parameters.message_modulus as int, num_blocks as nat) <= u64::MAX,
        pow(keys.parameters.message_modulus as int, num_blocks as nat) * ct_count <= u64::MAX,
        forall|i: int|
            0 <= i < old(ct_list).cts@.len() ==> ct_wf(
                #[trigger] old(ct_list).cts@[i],
                keys.delta,
                keys.total_modulus,
            ),
        forall|i: int|
            0 <= i < old(ct_list).cts@.len() ==> ct_msg(#[trigger] old(ct_list).cts@[i], keys.delta)
                < keys.parameters.message_modulus,
    ensures
        final(ct_list).cts@ == old(ct_list).cts@,
        r.cts@.len() == num_blocks,
        forall|i: int|
            0 <= i < r.cts@.len() ==> ct_wf(#[trigger] r.cts@[i], keys.delta, keys.total_modulus),
        forall|i: int|
            0 <= i < r.cts@.len() ==> ct_msg(#[trigger] r.cts@[i], keys.delta)
                < keys.parameters.message_modulus,
        cts_value(r.cts@, keys.delta, keys.parameters.message_modulus as int) == groups_total(
            msgs_of(old(ct_list).cts@, keys.delta),
            keys.parameters.message_modulus as int,
            num_blocks as nat,
        ) % pow(keys.parameters.message_modulus as int, num_blocks as nat),
{
    let radix = keys.parameters.message_modulus;
    let ghost rw = pow(radix as int, num_blocks as nat);
    proof {
        lemma_pow_positive(radix as int, num_blocks as nat);
        crate::engine::lemma_params_encoding(keys.parameters);
        if ct_count > 0 {
            lemma_mul_inequality(1, ct_count as int, rw);
            lemma_mul_is_commutative(rw, ct_count as int);
        }
    }
    let flat_len = ct_list.cts.len();
    let mut sum: u64 = 0;
    let mut g: usize = 0;
    proof {
        let empty: Seq<u64> = Seq::empty();
        assert(msgs_of(ct_list.cts@, keys.delta).take(0) =~= empty);
    }
    while g < ct_count
        invariant
            g <= ct_count,
            keys.wf(),
            num_blocks >= 1,
            radix == keys.parameters.message_modulus,
            radix >= 2,
            rw == pow(radix as int, num_blocks as nat),
            rw >= 1,
            ct_list.cts@ == old(ct_list).cts@,
            ct_list.cts@.len() == num_blocks * ct_count,
            flat_len == ct_list.cts@.len(),
            rw <= u64::MAX,
            rw * ct_count <= u64::MAX,
            forall|i: int|
                0 <= i < ct_list.cts@.len() ==> ct_wf(
                    #[trigger] ct_list.cts@[i],
                    keys.delta,
                    keys.total_modulus,
                ),
            forall|i: int|
                0 <= i < ct_list.cts@.len() ==> ct_msg(#[trigger] ct_list.cts@[i], keys.delta)
                    < radix,
            sum == groups_total(
                msgs_of(ct_list.cts@, keys.delta).take((g * num_blocks) as int),
                radix as int,
                num_blocks as nat,
            ),
            sum <= rw * g,
        decreases ct_count - g,
    {
        proof {
            lemma_mul_inequality(g + 1, ct_count as int, num_blocks as int);
            lemma_mul_is_commutative(num_blocks as int, ct_count as int);
            lemma_mul_is_commutative(num_blocks as int, g + 1);
            lemma_mul_is_distributive_add(num_blocks as int, g as int, 1);
            lemma_mul_is_commutative(num_blocks as int, g as int);
            lemma_mul_inequality(1, ct_count as int, rw);
            lemma_mul_is_commutative(rw, ct_count as int);
        }
        let v = crate::pipeline::group_radix_value(
            &ct_list.cts,
            g * num_blocks,
            num_blocks,
            keys.delta,
            radix,
        );
        proof {
            let msgs = msgs_of(ct_list.cts@, keys.delta);
            let pre = msgs.take((g * num_blocks) as int);
            let next = msgs.take(((g + 1) * num_blocks) as int);
            let grp = msgs_of(
                ct_list.cts@.subrange(
                    (g * num_blocks) as int,
                    (g * num_blocks) as int + num_blocks as int,
                ),
                keys.delta,
            );
            assert(next =~= pre + grp);
            assert((pre.len() as int) % (num_blocks as int) == 0) by {
                vstd::arithmetic::div_mod::lemma_mod_multiples_basic(
                    g as int,
                    num_blocks as int,
                );
                lemma_mul_is_commutative(g as int, num_blocks as int);
            }
            lemma_groups_total_append(pre, grp, radix as int, num_blocks as nat);
            assert(groups_total(grp, radix as int, num_blocks as nat) == v);
            assert(sum + v <= rw * g + rw);
            assert(rw * g + rw == rw * (g + 1)) by {
                lemma_mul_is_distributive_add(rw, g as int, 1);
            }
            assert(rw * (g + 1) <= rw * ct_count) by {
                lemma_mul_inequality(g + 1, ct_count as int, rw);
                lemma_mul_is_commutative(rw, g + 1);
                lemma_mul_is_commutative(rw, ct_count as int);
            }
        }
        sum = sum + v;
        g = g + 1;
    }
    proof {
        lemma_mul_is_commutative(ct_count as int, num_blocks as int);
        assert(msgs_of(ct_list.cts@, keys.delta).take((ct_count * num_blocks) as int) =~= msgs_of(
            ct_list.cts@,
            keys.delta,
        ));
    }
    let rw_exec = crate::radix::pow_u64(radix, num_blocks);
    let reduced = sum % rw_exec;
    proof {
        crate::engine::lemma_pow2_positive(keys.parameters.carry_modulus);
        lemma_mul_inequality(
            1,
            keys.parameters.carry_modulus as int,
            keys.parameters.message_modulus as int,
        );
        lemma_mul_is_commutative(
            keys.parameters.carry_modulus as int,
            keys.parameters.message_modulus as int,
        );
    }
    let out = crate::pipeline::encode_value_digits(
        reduced,
        num_blocks,
        keys.delta,
        radix,
        keys.total_modulus,
    );
    proof {
        crate::radix::lemma_radix_round_trip(reduced as int, radix as int, num_blocks as nat);
        vstd::arithmetic::div_mod::lemma_mod_division_less_than_divisor(sum as int, rw);
    }
    CudaLweCiphertextList { cts: out }
}

/// Step 5.5: propagate carries so every digit of the running total is
/// normalized.  Digits may arrive with carries pending (a message at or
/// above the radix but inside the full message space); afterwards every
/// digit is below the radix and the total's value is unchanged, modulo the
/// carried width — the canonical radix representation is restored.
pub fn propagate(keys: &Keys, ct_list: &mut CudaLweCiphertextList, num_blocks: usize)
    requires
        keys.wf(),
        num_blocks >= 1,
        keys.parameters.message_modulus >= 2,
        old(ct_list).cts@.len() == num_blocks,
        pow(keys.parameters.message_modulus as int, num_blocks as nat) <= u64::MAX,
        keys.total_modulus * pow(keys.parameters.message_modulus as int, num_blocks as nat)
            <= u64::MAX,
        forall|i: int|
            0 <= i < old(ct_list).cts@.len() ==> ct_wf(
                #[trigger] old(ct_list).cts@[i],
                keys.delta,
                keys.total_modulus,
            ),
    ensures
        final(ct_list).cts@.len() == num_blocks,
        forall|i: int|
            0 <= i < final(ct_list).cts@.len() ==> ct_wf(
                #[trigger] final(ct_list).cts@[i],
                keys.delta,
                keys.total_modulus,
            ),
        forall|i: int|
            0 <= i < final(ct_list).cts@.len() ==> ct_msg(#[trigger] final(ct_list).cts@[i], keys.delta)
                < keys.parameters.message_modulus,
        cts_value(final(ct_list).cts@, keys.delta, keys.parameters.message_modulus as int)
            == cts_value(old(ct_list).cts@, keys.delta, keys.parameters.message_modulus as int)
            % pow(keys.parameters.message_modulus as int, num_blocks as nat),
        msgs_of(final(ct_list).cts@, keys.delta) =~= crate::radix::digits_of(
            cts_value(old(ct_list).cts@, keys.delta, keys.parameters.message_modulus as int) % pow(
                keys.parameters.message_modulus as int,
                num_blocks as nat,
            ),
            keys.parameters.message_modulus as int,
            num_blocks as nat,
        ),
{
    let radix = keys.parameters.message_modulus;
    proof {
        crate::engine::lemma_params_encoding(keys.parameters);
        assert(radix <= keys.total_modulus) by {
            crate::engine::lemma_pow2_positive(keys.parameters.carry_modulus);
            lemma_mul_inequality(
                1,
                keys.parameters.carry_modulus as int,
                keys.parameters.message_modulus as int,
            );
            lemma_mul_is_commutative(
                keys.parameters.carry_modulus as int,
                keys.parameters.message_modulus as int,
            );
        }
        lemma_pow_positive(radix as int, num_blocks as nat);
        assert(keys.total_modulus * pow(radix as int, num_blocks as nat) >= pow(
            radix as int,
            num_blocks as nat,
        )) by {
            lemma_mul_inequality(
                1,
                keys.total_modulus as int,
                pow(radix as int, num_blocks as nat),
            );
            lemma_mul_is_commutative(
                keys.total_modulus as int,
                pow(radix as int, num_blocks as nat),
            );
        }
    }
    let v = crate::pipeline::group_value_carried(
        &ct_list.cts,
        num_blocks,
        keys.delta,
        radix,
        keys.total_modulus,
    );
    let rw = crate::radix::pow_u64(radix, num_blocks);
    let reduced = v % rw;
    let out = crate::pipeline::encode_value_digits(
        reduced,
        num_blocks,
        keys.delta,
        radix,
        keys.total_modulus,
    );
    proof {
        crate::radix::lemma_radix_round_trip(reduced as int, radix as int, num_blocks as nat);
        vstd::arithmetic::div_mod::lemma_mod_division_less_than_divisor(
            v as int,
            pow(radix as int, num_blocks as nat),
        );
    }
    ct_list.cts = out;
}

/// Step 6: compare an encrypted radix total against a public threshold,
/// producing an encrypted boolean that decrypts to `total >= threshold`.
///
/// A threshold with nonzero digits beyond the total's width is larger than
/// any representable total, so the result is trivially false there.
pub fn async_compare(keys: &Keys, ct_in: &CudaLweCiphertextList, scalar: u64, num_blocks: usize)
    -> (r: CudaBooleanBlock)
    requires
        keys.wf(),
        num_blocks >= 1,
        keys.parameters.message_modulus >= 2,
        pow(keys.parameters.message_modulus as int, num_blocks as nat) <= u64::MAX,
        ct_in.cts@.len() == num_blocks,
        forall|i: int|
            0 <= i < ct_in.cts@.len() ==> ct_wf(
                #[trigger] ct_in.cts@[i],
                keys.delta,
                keys.total_modulus,
            ),
        forall|i: int|
            0 <= i < ct_in.cts@.len() ==> ct_msg(#[trigger] ct_in.cts@[i], keys.delta)
                < keys.parameters.message_modulus,
    ensures
        ct_wf(r.ct, keys.delta, keys.total_modulus),
        ct_msg(r.ct, keys.delta) == 1 <==> cts_value(
            ct_in.cts@,
            keys.delta,
            keys.parameters.message_modulus as int,
        ) >= scalar,
        ct_msg(r.ct, keys.delta) == 0 || ct_msg(r.ct, keys.delta) == 1,
{
    let radix = keys.parameters.message_modulus;
    proof {
        crate::engine::lemma_params_encoding(keys.parameters);
    }
    let rw = crate::radix::pow_u64(radix, num_blocks);
    let verdict: u64 = if scalar >= rw {
        // The scalar is obviously bigger: it has nonzero digit blocks the
        // total cannot reach.
        0
    } else {
        let v = crate::pipeline::group_radix_value(&ct_in.cts, 0, num_blocks, keys.delta, radix);
        proof {
            assert(ct_in.cts@.subrange(0, num_blocks as int) =~= ct_in.cts@);
        }
        if v >= scalar {
            1
        } else {
            0
        }
    };
    proof {
        if scalar >= rw {
            let msgs = msgs_of(ct_in.cts@, keys.delta);
            crate::radix::lemma_radix_value_bound(msgs, radix as int);
        }
        vstd::arithmetic::div_mod::lemma_mod_multiples_basic(verdict as int, keys.delta as int);
        vstd::arithmetic::div_mod::lemma_div_by_multiple(verdict as int, keys.delta as int);
        assert(keys.total_modulus >= 2) by {
            crate::engine::lemma_pow2_positive(keys.parameters.carry_modulus);
            lemma_mul_inequality(1, keys.parameters.carry_modulus as int,
                keys.parameters.message_modulus as int);
            lemma_mul_is_commutative(
                keys.parameters.carry_modulus as int,
                keys.parameters.message_modulus as int,
            );
        }
        lemma_mul_inequality(verdict as int, keys.total_modulus - 1, keys.delta as int);
        lemma_mul_is_commutative(verdict as int, keys.delta as int);
    }
    CudaBooleanBlock { ct: LweCiphertext { body: verdict * keys.delta } }
}

/// The full accelerator-only authentication: keyswitch the flat encrypted
/// probe buffer, evaluate each position's lookup, sum the per-feature radix
/// integers, and compare the encrypted total against the shifted threshold.
///
/// The returned encrypted boolean decrypts to `true` exactly when the score
/// total that step 3's digits stand for — taken modulo the width the sum is
/// carried in — reaches the threshold.  When every score fits the sum width
/// (the configuration's `sumWidth` contract) that is exactly
/// `Σ_f score_f >= threshold`.
pub fn authenticate(
    bsk: CudaLweBootstrapKey,
    ksk: CudaLweKeyswitchKey,
    probe: CudaLweCiphertextList,
    luts: CudaGlweCiphertextList,
    num_blocks: usize,
    message_modulus: u64,
    carry_modulus: u64,
    threshold: u64,
    stream: &CudaStream,
) -> (r: CudaBooleanBlock)
    requires
        (ShortintParameterSet { message_modulus, carry_modulus }).wf(),
        message_modulus >= 2,
        num_blocks >= 1,
        probe.cts@.len() == luts.luts@.len(),
        (probe.cts@.len() as int) % (num_blocks as int) == 0,
        forall|i: int|
            0 <= i < probe.cts@.len() ==> ct_wf(
                #[trigger] probe.cts@[i],
                crate::engine::spec_delta(
                    ShortintParameterSet { message_modulus, carry_modulus },
                ) as u64,
                (message_modulus * carry_modulus) as u64,
            ),
        forall|i: int|
            0 <= i < luts.luts@.len() ==> (#[trigger] luts.luts@[i]).vals@.len() == message_modulus
                * carry_modulus,
        forall|i: int, j: int|
            0 <= i < luts.luts@.len() && 0 <= j < luts.luts@[i].vals@.len()
                ==> #[trigger] luts.luts@[i].vals@[j] < message_modulus,
        pow(message_modulus as int, num_blocks as nat) <= u64::MAX,
        pow(message_modulus as int, num_blocks as nat) * ((probe.cts@.len() as int) / (
        num_blocks as int)) <= u64::MAX,
        (message_modulus * carry_modulus) * pow(message_modulus as int, num_blocks as nat)
            <= u64::MAX,
    ensures
        ({
            let params = ShortintParameterSet { message_modulus, carry_modulus };
            let delta = crate::engine::spec_delta(params) as u64;
            let total = (message_modulus * carry_modulus) as u64;
            &&& ct_wf(r.ct, delta, total)
            &&& (ct_msg(r.ct, delta) == 0 || ct_msg(r.ct, delta) == 1)
            &&& (ct_msg(r.ct, delta) == 1 <==> groups_total(
                evaluated_msgs(probe.cts@, luts.luts@, delta, total),
                message_modulus as int,
                num_blocks as nat,
            ) % pow(message_modulus as int, num_blocks as nat) >= threshold)
            &&& (groups_total(
                evaluated_msgs(probe.cts@, luts.luts@, delta, total),
                message_modulus as int,
                num_blocks as nat,
            ) < pow(message_modulus as int, num_blocks as nat) ==> (ct_msg(r.ct, delta) == 1
                <==> groups_total(
                evaluated_msgs(probe.cts@, luts.luts@, delta, total),
                message_modulus as int,
                num_blocks as nat,
            ) >= threshold))
        }),
{
    let params = ShortintParameterSet { message_modulus, carry_modulus };
    let (total, delta) = crate::engine::compute_total_and_delta(params);
    let keys = Keys {
        lwe_secret_key: LweSecretKey {  },
        glwe_secret_key: GlweSecretKey {  },
        server_key: crate::engine::CudaServerKey {
            message_modulus,
            carry_modulus,
            max_degree: total - 1,
        },
        delta,
        total_modulus: total,
        stream: CudaStream {  },
        parameters: params,
    };
    let flat_length = probe.cts.len();
    let ct_count = flat_length / num_blocks;
    proof {
        vstd::arithmetic::div_mod::lemma_fundamental_div_mod(
            flat_length as int,
            num_blocks as int,
        );
        lemma_mul_is_commutative(num_blocks as int, ct_count as int);
    }
    let ks_indices = make_indices(flat_length as u64, 2, flat_length, &keys);
    let pbs_indices = make_indices(flat_length as u64, 3, flat_length, &keys);
    let mut buffer = crate::engine::make_cuda_lweciphertextlist(flat_length, stream);
    do_keyswitch(&keys, &probe, &mut buffer, &ks_indices);
    let mut evaluated = crate::engine::make_cuda_lweciphertextlist(flat_length, stream);
    do_pbs(&keys, &buffer, &mut evaluated, &luts, &pbs_indices);
    proof {
        assert(keys.parameters.message_modulus <= keys.total_modulus) by {
            crate::engine::lemma_pow2_positive(carry_modulus);
            lemma_mul_inequality(1, carry_modulus as int, message_modulus as int);
            lemma_mul_is_commutative(carry_modulus as int, message_modulus as int);
        }
        assert forall|i: int| 0 <= i < evaluated.cts@.len() implies ct_msg(
            #[trigger] evaluated.cts@[i],
            keys.delta,
        ) < keys.parameters.message_modulus by {
            assert(ct_msg(evaluated.cts@[i], keys.delta) == msgs_of(evaluated.cts@, keys.delta)[i]);
            assert(msgs_of(evaluated.cts@, keys.delta)[i] == eval_msg(
                luts.luts@[i],
                buffer.cts@[i],
                keys.delta,
                keys.total_modulus,
            ));
            let m = ct_msg(buffer.cts@[i], keys.delta);
            assert(luts.luts@[i].vals@[m as int] < message_modulus);
            vstd::arithmetic::div_mod::lemma_small_mod(
                luts.luts@[i].vals@[m as int] as nat,
                keys.total_modulus as nat,
            );
        }
        assert(evaluated_msgs(buffer.cts@, luts.luts@, keys.delta, keys.total_modulus)
            =~= evaluated_msgs(probe.cts@, luts.luts@, keys.delta, keys.total_modulus));
    }
    let mut sum = do_sum(&keys, num_blocks, ct_count, &mut evaluated);
    let result = do_comparison(&keys, &mut sum, num_blocks, threshold);
    proof {
        assert(msgs_of(evaluated.cts@, keys.delta) =~= evaluated_msgs(
            probe.cts@,
            luts.luts@,
            keys.delta,
            keys.total_modulus,
        ));
        lemma_pow_positive(message_modulus as int, num_blocks as nat);
        let gt = groups_total(
            evaluated_msgs(probe.cts@, luts.luts@, keys.delta, keys.total_modulus),
            message_modulus as int,
            num_blocks as nat,
        );
        vstd::arithmetic::div_mod::lemma_mod_twice(
            gt,
            pow(message_modulus as int, num_blocks as nat),
        );
        crate::pipeline::lemma_groups_total_nonneg(
            evaluated_msgs(probe.cts@, luts.luts@, keys.delta, keys.total_modulus),
            message_modulus as int,
            num_blocks as nat,
        );
        if gt < pow(message_modulus as int, num_blocks as nat) {
            vstd::arithmetic::div_mod::lemma_small_mod(
                gt as nat,
                pow(message_modulus as int, num_blocks as nat) as nat,
            );
        }
    }
    result
}

/// Steps 5.5 and 6 together: absorb the total's pending carries in place,
/// then compare the normalized total against the threshold.  The verdict is
/// decided by the input's value modulo the carried width.
pub fn do_comparison(
    keys: &Keys,
    ct_in: &mut CudaLweCiphertextList,
    num_blocks: usize,
    threshold: u64,
) -> (r: CudaBooleanBlock)
    requires
        keys.wf(),
        num_blocks >= 1,
        keys.parameters.message_modulus >= 2,
        pow(keys.parameters.message_modulus as int, num_blocks as nat) <= u64::MAX,
        keys.total_modulus * pow(keys.parameters.message_modulus as int, num_blocks as nat)
            <= u64::MAX,
        old(ct_in).cts@.len() == num_blocks,
        forall|i: int|
            0 <= i < old(ct_in).cts@.len() ==> ct_wf(
                #[trigger] old(ct_in).cts@[i],
                keys.delta,
                keys.total_modulus,
            ),
    ensures
        final(ct_in).cts@.len() == num_blocks,
        forall|i: int|
            0 <= i < final(ct_in).cts@.len() ==> ct_wf(
                #[trigger] final(ct_in).cts@[i],
                keys.delta,
                keys.total_modulus,
            ),
        forall|i: int|
            0 <= i < final(ct_in).cts@.len() ==> ct_msg(#[trigger] final(ct_in).cts@[i], keys.delta)
                < keys.parameters.message_modulus,
        cts_value(final(ct_in).cts@, keys.delta, keys.parameters.message_modulus as int)
            == cts_value(old(ct_in).cts@, keys.delta, keys.parameters.message_modulus as int)
            % pow(keys.parameters.message_modulus as int, num_blocks as nat),
        ct_wf(r.ct, keys.delta, keys.total_modulus),
        ct_msg(r.ct, keys.delta) == 1 <==> cts_value(
            old(ct_in).cts@,
            keys.delta,
            keys.parameters.message_modulus as int,
        ) % pow(keys.parameters.message_modulus as int, num_blocks as nat) >= threshold,
        ct_msg(r.ct, keys.delta) == 0 || ct_msg(r.ct, keys.delta) == 1,
{
    propagate(keys, ct_in, num_blocks);
    async_compare(keys, ct_in, threshold, num_blocks)
}

} // verus!
