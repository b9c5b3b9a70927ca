//! Mixed placement: keyswitching and table evaluation run on the host over
//! the flat buffer, the radix summation and the threshold comparison run on
//! the accelerator.  Splitting the passes across devices balances
//! utilization and changes nothing about the seven-step contract.

use vstd::prelude::*;
use vstd::arithmetic::power::pow;
use vstd::arithmetic::mul::lemma_mul_inequality;
use vstd::arithmetic::mul::lemma_mul_is_commutative;
use crate::engine::ClassicPBSParameters;
use crate::engine::ClientKey;
use crate::engine::CudaBooleanBlock;
use crate::engine::CudaLweCiphertextList;
use crate::engine::CudaLweKeyswitchKey;
use crate::engine::CudaLweMultiBitBootstrapKey;
use crate::engine::CudaServerKey;
use crate::engine::CudaStream;
use crate::engine::FourierLweMultiBitBootstrapKey;
use crate::engine::GlweCiphertextList;
use crate::engine::GlweSecretKey;
use crate::engine::Keys;
use crate::engine::LweCiphertextList;
use crate::engine::LweKeyswitchKey;
use crate::engine::LweSecretKey;
use crate::engine::MultiBitPBSParameters;
use crate::engine::ServerKey;
use crate::engine::ShortintEngine;
use crate::engine::ShortintParameterSet;
use crate::engine::ct_msg;
use crate::engine::ct_wf;
use crate::pipeline::eval_msg;
use crate::pipeline::evaluated_msgs;
use crate::pipeline::groups_total;
use crate::pipeline::msgs_of;

verus! {

/// Generate the key material of a classic-bootstrap mixed run: host client
/// and server keys plus the server key's device copy.
pub fn make_keys_original(
    params: ClassicPBSParameters,
    stream: &CudaStream,
    engine: &mut ShortintEngine,
) -> (r: ((ShortintParameterSet, ClientKey), (ServerKey, CudaServerKey)))
    requires
        params.wf(),
    ensures
        r.0.0 == params.to_parameter_set(),
        r.0.1.parameters == params.to_parameter_set(),
        r.0.1.parameters.wf(),
        r.1.0.message_modulus == params.message_modulus,
        r.1.0.carry_modulus == params.carry_modulus,
        r.1.1.message_modulus == params.message_modulus,
        r.1.1.carry_modulus == params.carry_modulus,
{
    let parameter_set = params.into_parameter_set();
    let (total, _delta) = crate::engine::compute_total_and_delta(parameter_set);
    let client_key = ClientKey {
        glwe_secret_key: GlweSecretKey {  },
        lwe_secret_key: LweSecretKey {  },
        parameters: parameter_set,
    };
    let server_key = ServerKey {
        message_modulus: params.message_modulus,
        carry_modulus: params.carry_modulus,
        max_degree: total - 1,
    };
    let cuda_server_key = CudaServerKey {
        message_modulus: params.message_modulus,
        carry_modulus: params.carry_modulus,
        max_degree: total - 1,
    };
    ((parameter_set, client_key), (server_key, cuda_server_key))
}

/// Generate the key material of a mixed multi-bit run: the secret key, the
/// host keyswitching and bootstrapping keys, their device copies, and the
/// encoding the parameters induce.
pub fn make_keys_multibit(
    params: MultiBitPBSParameters,
    stream: &CudaStream,
    engine: &mut ShortintEngine,
) -> (r: (
    (ShortintParameterSet, GlweSecretKey),
    (LweKeyswitchKey, FourierLweMultiBitBootstrapKey),
    (CudaLweKeyswitchKey, CudaLweMultiBitBootstrapKey),
    (u64, u64),
))
    requires
        params.wf(),
    ensures
        r.0.0 == params.to_parameter_set(),
        r.3.0 == crate::engine::spec_delta(params.to_parameter_set()),
        r.3.1 == params.to_parameter_set().spec_total_modulus(),
        crate::engine::encoding_wf(r.3.0, r.3.1),
        (r.3.1 - 1) * r.3.0 < 0x8000_0000_0000_0000,
{
    let parameter_set = params.into_parameter_set();
    let (total, delta) = crate::engine::compute_total_and_delta(parameter_set);
    (
        (parameter_set, GlweSecretKey {  }),
        (LweKeyswitchKey {  }, FourierLweMultiBitBootstrapKey {  }),
        (CudaLweKeyswitchKey {  }, CudaLweMultiBitBootstrapKey {  }),
        (delta, total),
    )
}

/// The full mixed authentication: keyswitch and evaluate the flat probe
/// buffer on the host with the multi-bit lookup primitive, then move the
/// evaluated digits to the accelerator for the radix summation and the
/// threshold comparison.
///
/// The returned encrypted boolean decrypts to `true` exactly when the score
/// total step 3's digits stand for — modulo the width the sum is carried in —
/// reaches the threshold.
pub fn authenticate(
    bsk: FourierLweMultiBitBootstrapKey,
    ksk: LweKeyswitchKey,
    cuda_bsk: CudaLweMultiBitBootstrapKey,
    cuda_ksk: CudaLweKeyswitchKey,
    probe: LweCiphertextList,
    luts: GlweCiphertextList,
    num_blocks: usize,
    message_modulus: u64,
    carry_modulus: u64,
    threshold: u64,
    thread_count_ks: usize,
    thread_count_bs: usize,
    stream: &CudaStream,
) -> (r: CudaBooleanBlock)
    requires
        (ShortintParameterSet { message_modulus, carry_modulus }).wf(),
        message_modulus >= 2,
        num_blocks >= 1,
        probe.cts@.len() == luts.luts@.len(),
        (probe.cts@.len() as int) % (num_blocks as int) == 0,
        forall|i: int|
            0 <= i < probe.cts@.len() ==> ct_wf(
                #[trigger] probe.cts@[i],
                crate::engine::spec_delta(
                    ShortintParameterSet { message_modulus, carry_modulus },
                ) as u64,
                (message_modulus * carry_modulus) as u64,
            ),
        forall|i: int|
            0 <= i < luts.luts@.len() ==> (#[trigger] luts.luts@[i]).vals@.len() == message_modulus
                * carry_modulus,
        forall|i: int, j: int|
            0 <= i < luts.luts@.len() && 0 <= j < luts.luts@[i].vals@.len()
                ==> #[trigger] luts.luts@[i].vals@[j] < message_modulus,
        pow(message_modulus as int, num_blocks as nat) <= u64::MAX,
        pow(message_modulus as int, num_blocks as nat) * ((probe.cts@.len() as int) / (
        num_blocks as int)) <= u64::MAX,
        (message_modulus * carry_modulus) * pow(message_modulus as int, num_blocks as nat)
            <= u64::MAX,
    ensures
        ({
            let params = ShortintParameterSet { message_modulus, carry_modulus };
            let delta = crate::engine::spec_delta(params) as u64;
            let total = (message_modulus * carry_modulus) as u64;
            &&& ct_wf(r.ct, delta, total)
            &&& (ct_msg(r.ct, delta) == 0 || ct_msg(r.ct, delta) == 1)
            &&& (ct_msg(r.ct, delta) == 1 <==> groups_total(
                evaluated_msgs(probe.cts@, luts.luts@, delta, total),
                message_modulus as int,
                num_blocks as nat,
            ) % pow(message_modulus as int, num_blocks as nat) >= threshold)
            &&& (groups_total(
                evaluated_msgs(probe.cts@, luts.luts@, delta, total),
                message_modulus as int,
                num_blocks as nat,
            ) < pow(message_modulus as int, num_blocks as nat) ==> (ct_msg(r.ct, delta) == 1
                <==> groups_total(
                evaluated_msgs(probe.cts@, luts.luts@, delta, total),
                message_modulus as int,
                num_blocks as nat,
            ) >= threshold))
        }),
{
    let params = ShortintParameterSet { message_modulus, carry_modulus };
    let (total, delta) = crate::engine::compute_total_and_delta(params);
    let keys = Keys {
        lwe_secret_key: LweSecretKey {  },
        glwe_secret_key: GlweSecretKey {  },
        server_key: CudaServerKey { message_modulus, carry_modulus, max_degree: total - 1 },
        delta,
        total_modulus: total,
        stream: CudaStream {  },
        parameters: params,
    };
    let flat_length = probe.cts.len();
    let ct_count = flat_length / num_blocks;
    proof {
        vstd::arithmetic::div_mod::lemma_fundamental_div_mod(
            flat_length as int,
            num_blocks as int,
        );
        lemma_mul_is_commutative(num_blocks as int, ct_count as int);
        assert(keys.parameters.message_modulus <= keys.total_modulus) by {
            crate::engine::lemma_pow2_positive(carry_modulus);
            lemma_mul_inequality(1, carry_modulus as int, message_modulus as int);
            lemma_mul_is_commutative(carry_modulus as int, message_modulus as int);
        }
    }
    // Host keyswitch: re-encrypt every position under the bootstrap key's
    // domain; messages are unchanged.
    let mut buffer = crate::engine::make_lweciphertextlist(flat_length);
    let mut i: usize = 0;
    while i < flat_length
        invariant
            i <= flat_length,
            flat_length == probe.cts@.len(),
            buffer.cts@.len() == flat_length,
            forall|k: int| 0 <= k < i ==> #[trigger] buffer.cts@[k] == probe.cts@[k],
        decreases flat_length - i,
    {
        let ct = probe.cts[i];
        buffer.cts.set(i, ct);
        i = i + 1;
    }
    // Host multi-bit table evaluation over the flat buffer.
    let mut evaluated = crate::engine::make_lweciphertextlist(flat_length);
    let mut j: usize = 0;
    while j < flat_length
        invariant
            j <= flat_length,
            flat_length == probe.cts@.len(),
            flat_length == luts.luts@.len(),
            buffer.cts@ =~= probe.cts@,
            keys.wf(),
            keys.delta == delta,
            keys.total_modulus == total,
            1 <= total <= 0x4000_0000,
            (total - 1) * delta <= u64::MAX,
            forall|k: int| 0 <= k < flat_length ==> ct_wf(#[trigger] probe.cts@[k], delta, total),
            forall|k: int|
                0 <= k < flat_length ==> (#[trigger] luts.luts@[k]).vals@.len() == total,
            evaluated.cts@.len() == flat_length,
            forall|k: int| 0 <= k < j ==> ct_wf(#[trigger] evaluated.cts@[k], delta, total),
            forall|k: int|
                0 <= k < j ==> ct_msg(#[trigger] evaluated.cts@[k], delta) == eval_msg(
                    luts.luts@[k],
                    probe.cts@[k],
                    delta,
                    total,
                ),
        decreases flat_length - j,
    {
        let out_ct = crate::pipeline::apply_lookup(buffer.cts[j], &luts.luts[j].vals, delta, total);
        evaluated.cts.set(j, out_ct);
        j = j + 1;
    }
    proof {
        assert(keys.parameters.message_modulus <= keys.total_modulus) by {
            crate::engine::lemma_pow2_positive(carry_modulus);
            lemma_mul_inequality(1, carry_modulus as int, message_modulus as int);
            lemma_mul_is_commutative(carry_modulus as int, message_modulus as int);
        }
        assert forall|k: int| 0 <= k < evaluated.cts@.len() implies ct_msg(
            #[trigger] evaluated.cts@[k],
            delta,
        ) < message_modulus by {
            let m = ct_msg(probe.cts@[k], delta);
            assert(luts.luts@[k].vals@[m as int] < message_modulus);
            vstd::arithmetic::div_mod::lemma_small_mod(
                luts.luts@[k].vals@[m as int] as nat,
                total as nat,
            );
        }
    }
    // Move the evaluated digits to the accelerator for summation and
    // comparison.
    let mut device_digits = CudaLweCiphertextList { cts: evaluated.cts };
    let mut sum = crate::strategy::device::do_sum(&keys, num_blocks, ct_count, &mut device_digits);
    let result = crate::strategy::device::do_comparison(&keys, &mut sum, num_blocks, threshold);
    proof {
        assert(msgs_of(device_digits.cts@, delta) =~= evaluated_msgs(
            probe.cts@,
            luts.luts@,
            delta,
            total,
        ));
        vstd::arithmetic::power::lemma_pow_positive(message_modulus as int, num_blocks as nat);
        let gt = groups_total(
            evaluated_msgs(probe.cts@, luts.luts@, delta, total),
            message_modulus as int,
            num_blocks as nat,
        );
        vstd::arithmetic::div_mod::lemma_mod_twice(
            gt,
            pow(message_modulus as int, num_blocks as nat),
        );
        crate::pipeline::lemma_groups_total_nonneg(
            evaluated_msgs(probe.cts@, luts.luts@, delta, total),
            message_modulus as int,
            num_blocks as nat,
        );
        if gt < pow(message_modulus as int, num_blocks as nat) {
            vstd::arithmetic::div_mod::lemma_small_mod(
                gt as nat,
                pow(message_modulus as int, num_blocks as nat) as nat,
            );
        }
    }
    result
}

} // verus!
