//! Host-only strategy: lookup evaluation runs feature by feature in host
//! memory, each feature's digit ciphertexts are regrouped into one radix
//! integer and zero-extended to the common sum width, and the padded
//! integers are summed and compared on the host keys.
//!
//! Features may emit different numbers of digit lookups (early stop), so the
//! regrouping must collect exactly each feature's own digits before padding —
//! the padding/order contract of the grouped score total below.

use vstd::prelude::*;
use vstd::arithmetic::power::pow;
use vstd::arithmetic::power::lemma_pow_positive;
use vstd::arithmetic::mul::lemma_mul_inequality;
use vstd::arithmetic::mul::lemma_mul_is_commutative;
use vstd::arithmetic::mul::lemma_mul_is_distributive_add;
use crate::engine::BooleanBlock;
use crate::engine::ClassicPBSParameters;
use crate::engine::ClientKey;
use crate::engine::GlweSecretKey;
use crate::engine::LweCiphertext;
use crate::engine::LweSecretKey;
use crate::engine::LookupTableOwned;
use crate::engine::MultiBitPBSParameters;
use crate::engine::ServerKey;
use crate::engine::ShortintEngine;
use crate::engine::ShortintParameterSet;
use crate::engine::ct_msg;
use crate::engine::ct_wf;
use crate::pipeline::eval_msg;
use crate::pipeline::feature_msgs;
use crate::pipeline::grouped_totals;
use crate::pipeline::msgs_of;

verus! {

/// Generate a client/server key pair for the classic (single-digit lookup)
/// bootstrap.
pub fn make_keys_classic(params: ClassicPBSParameters, engine: &mut ShortintEngine) -> (r: (
    ClientKey,
    ServerKey,
))
    requires
        params.wf(),
    ensures
        r.0.parameters == params.to_parameter_set(),
        r.0.parameters.wf(),
        r.1.message_modulus == params.message_modulus,
        r.1.carry_modulus == params.carry_modulus,
        r.1.max_degree == params.message_modulus * params.carry_modulus - 1,
{
    let parameter_set = params.into_parameter_set();
    let (total, _delta) = crate::engine::compute_total_and_delta(parameter_set);
    let client_key = ClientKey {
        glwe_secret_key: GlweSecretKey {  },
        lwe_secret_key: LweSecretKey {  },
        parameters: parameter_set,
    };
    let server_key = ServerKey {
        message_modulus: params.message_modulus,
        carry_modulus: params.carry_modulus,
        max_degree: total - 1,
    };
    (client_key, server_key)
}

/// Generate a client/server key pair for the multi-bit lookup bootstrap,
/// the higher-throughput primitive, with the requested bootstrap thread
/// count.
pub fn make_keys_multibit(
    params: MultiBitPBSParameters,
    thread_count_bs: usize,
    engine: &mut ShortintEngine,
) -> (r: (ClientKey, ServerKey))
    requires
        params.wf(),
    ensures
        r.0.parameters == params.to_parameter_set(),
        r.0.parameters.wf(),
        r.1.message_modulus == params.message_modulus,
        r.1.carry_modulus == params.carry_modulus,
        r.1.max_degree == params.message_modulus * params.carry_modulus - 1,
{
    let parameter_set = params.into_parameter_set();
    let (total, _delta) = crate::engine::compute_total_and_delta(parameter_set);
    let client_key = ClientKey {
        glwe_secret_key: GlweSecretKey {  },
        lwe_secret_key: LweSecretKey {  },
        parameters: parameter_set,
    };
    let server_key = ServerKey {
        message_modulus: params.message_modulus,
        carry_modulus: params.carry_modulus,
        max_degree: total - 1,
    };
    (client_key, server_key)
}

/// The full host-scheduled authentication over per-feature groups.
///
/// Feature `f` arrives as its own list of `k_f` replicated probe ciphertexts
/// paired with its `k_f` digit lookup tables; block counts may differ across
/// features.  Each feature's digits are evaluated, regrouped into one radix
/// integer, zero-extended to `num_sum_blocks` digits, and summed; the
/// encrypted total is compared against the shifted threshold.
///
/// The returned encrypted boolean decrypts to `true` exactly when the
/// grouped score total — each feature's own digits padded to the sum width,
/// with no cross-feature digit misalignment — reaches the threshold, modulo
/// the sum width.
pub fn authenticate(
    server_key: ServerKey,
    probe: Vec<Vec<LweCiphertext>>,
    luts: Vec<Vec<LookupTableOwned>>,
    threshold: usize,
    num_sum_blocks: usize,
) -> (r: BooleanBlock)
    requires
        ({
            let params = ShortintParameterSet {
                message_modulus: server_key.message_modulus,
                carry_modulus: server_key.carry_modulus,
            };
            let delta = crate::engine::spec_delta(params) as u64;
            let total = (server_key.message_modulus * server_key.carry_modulus) as u64;
            &&& params.wf()
            &&& server_key.message_modulus >= 2
            &&& num_sum_blocks >= 1
            &&& probe@.len() == luts@.len()
            &&& forall|f: int|
                0 <= f < probe@.len() ==> (#[trigger] probe@[f])@.len() == luts@[f]@.len()
            &&& forall|f: int|
                0 <= f < probe@.len() ==> (#[trigger] probe@[f])@.len() <= num_sum_blocks
            &&& forall|f: int, b: int|
                0 <= f < probe@.len() && 0 <= b < probe@[f]@.len() ==> ct_wf(
                    #[trigger] probe@[f]@[b],
                    delta,
                    total,
                )
            &&& forall|f: int, b: int|
                0 <= f < luts@.len() && 0 <= b < luts@[f]@.len() ==> (
                #[trigger] luts@[f]@[b]).acc.vals@.len() == total
            &&& forall|f: int, b: int, j: int|
                0 <= f < luts@.len() && 0 <= b < luts@[f]@.len() && 0 <= j
                    < luts@[f]@[b].acc.vals@.len() ==> #[trigger] luts@[f]@[b].acc.vals@[j]
                    < server_key.message_modulus
            &&& pow(server_key.message_modulus as int, num_sum_blocks as nat) <= u64::MAX
            &&& pow(server_key.message_modulus as int, num_sum_blocks as nat) * probe@.len()
                <= u64::MAX
        }),
    ensures
        ({
            let params = ShortintParameterSet {
                message_modulus: server_key.message_modulus,
                carry_modulus: server_key.carry_modulus,
            };
            let delta = crate::engine::spec_delta(params) as u64;
            let total = (server_key.message_modulus * server_key.carry_modulus) as u64;
            let radix = server_key.message_modulus as int;
            &&& ct_wf(r.ct, delta, total)
            &&& (ct_msg(r.ct, delta) == 0 || ct_msg(r.ct, delta) == 1)
            &&& (ct_msg(r.ct, delta) == 1 <==> grouped_totals(
                probe@,
                luts@,
                delta,
                total,
                radix,
                num_sum_blocks as nat,
            ) % pow(radix, num_sum_blocks as nat) >= threshold)
            &&& (grouped_totals(probe@, luts@, delta, total, radix, num_sum_blocks as nat) < pow(
                radix,
                num_sum_blocks as nat,
            ) ==> (ct_msg(r.ct, delta) == 1 <==> grouped_totals(
                probe@,
                luts@,
                delta,
                total,
                radix,
                num_sum_blocks as nat,
            ) >= threshold))
        }),
{
    let params = ShortintParameterSet {
        message_modulus: server_key.message_modulus,
        carry_modulus: server_key.carry_modulus,
    };
    let (total, delta) = crate::engine::compute_total_and_delta(params);
    let radix = server_key.message_modulus;
    let ghost rw = pow(radix as int, num_sum_blocks as nat);
    proof {
        lemma_pow_positive(radix as int, num_sum_blocks as nat);
        assert(radix <= total) by {
            crate::engine::lemma_pow2_positive(server_key.carry_modulus);
            lemma_mul_inequality(
                1,
                server_key.carry_modulus as int,
                server_key.message_modulus as int,
            );
            lemma_mul_is_commutative(
                server_key.carry_modulus as int,
                server_key.message_modulus as int,
            );
        }
    }
    let n = probe.len();
    let mut sum: u64 = 0;
    let mut f: usize = 0;
    while f < n
        invariant
            f <= n,
            n == probe@.len(),
            n == luts@.len(),
            params == (ShortintParameterSet {
                message_modulus: server_key.message_modulus,
                carry_modulus: server_key.carry_modulus,
            }),
            params.wf(),
            radix == server_key.message_modulus,
            radix >= 2,
            total == params.spec_total_modulus(),
            radix <= total,
            delta == crate::engine::spec_delta(params),
            crate::engine::encoding_wf(delta, total),
            (total - 1) * delta < 0x8000_0000_0000_0000,
            num_sum_blocks >= 1,
            rw == pow(radix as int, num_sum_blocks as nat),
            rw >= 1,
            rw <= u64::MAX,
            rw * n <= u64::MAX,
            forall|k: int| 0 <= k < n ==> (#[trigger] probe@[k])@.len() == luts@[k]@.len(),
            forall|k: int| 0 <= k < n ==> (#[trigger] probe@[k])@.len() <= num_sum_blocks,
            forall|k: int, b: int|
                0 <= k < n && 0 <= b < probe@[k]@.len() ==> ct_wf(
                    #[trigger] probe@[k]@[b],
                    delta,
                    total,
                ),
            forall|k: int, b: int|
                0 <= k < n && 0 <= b < luts@[k]@.len() ==> (#[trigger] luts@[k]@[b]).acc.vals@.len()
                    == total,
            forall|k: int, b: int, j: int|
                0 <= k < n && 0 <= b < luts@[k]@.len() && 0 <= j < luts@[k]@[b].acc.vals@.len()
                    ==> #[trigger] luts@[k]@[b].acc.vals@[j] < radix,
            sum == grouped_totals(
                probe@.take(f as int),
                luts@.take(f as int),
                delta,
                total,
                radix as int,
                num_sum_blocks as nat,
            ),
            sum <= rw * f,
        decreases n - f,
    {
        let probes_f = &probe[f];
        let luts_f = &luts[f];
        let k_f = probes_f.len();
        let mut as_radix: Vec<LweCiphertext> = Vec::new();
        let mut b: usize = 0;
        while b < k_f
            invariant
                b <= k_f,
                f < n,
                n == probe@.len(),
                n == luts@.len(),
                probes_f == probe@[f as int],
                luts_f == luts@[f as int],
                k_f == probes_f@.len(),
                k_f == luts_f@.len(),
                params.wf(),
                radix == server_key.message_modulus,
                radix >= 2,
                total == params.spec_total_modulus(),
                radix <= total,
                crate::engine::encoding_wf(delta, total),
                (total - 1) * delta < 0x8000_0000_0000_0000,
                forall|m: int| 0 <= m < k_f ==> ct_wf(#[trigger] probes_f@[m], delta, total),
                forall|m: int|
                    0 <= m < k_f ==> (#[trigger] luts_f@[m]).acc.vals@.len() == total,
                forall|m: int, j: int|
                    0 <= m < k_f && 0 <= j < luts_f@[m].acc.vals@.len()
                        ==> #[trigger] luts_f@[m].acc.vals@[j] < radix,
                as_radix@.len() == b,
                forall|m: int| 0 <= m < b ==> ct_wf(#[trigger] as_radix@[m], delta, total),
                forall|m: int|
                    0 <= m < b ==> ct_msg(#[trigger] as_radix@[m], delta) == eval_msg(
                        luts_f@[m].acc,
                        probes_f@[m],
                        delta,
                        total,
                    ),
                forall|m: int| 0 <= m < b ==> ct_msg(#[trigger] as_radix@[m], delta) < radix,
            decreases k_f - b,
        {
            let evaluated = crate::pipeline::apply_lookup(
                probes_f[b],
                &luts_f[b].acc.vals,
                delta,
                total,
            );
            proof {
                let m = ct_msg(probes_f@[b as int], delta);
                vstd::arithmetic::div_mod::lemma_small_mod(
                    luts_f@[b as int].acc.vals@[m as int] as nat,
                    total as nat,
                );
            }
            as_radix.push(evaluated);
            b = b + 1;
        }
        while as_radix.len() < num_sum_blocks
            invariant
                k_f <= as_radix@.len() <= num_sum_blocks,
                crate::engine::encoding_wf(delta, total),
                delta >= 1,
                radix >= 2,
                radix <= total,
                forall|m: int| 0 <= m < as_radix@.len() ==> ct_wf(
                    #[trigger] as_radix@[m],
                    delta,
                    total,
                ),
                forall|m: int| 0 <= m < as_radix@.len() ==> ct_msg(
                    #[trigger] as_radix@[m],
                    delta,
                ) < radix,
                msgs_of(as_radix@, delta).take(k_f as int) =~= msgs_of(
                    as_radix@.subrange(0, k_f as int),
                    delta,
                ),
                as_radix@.subrange(0, k_f as int) =~= as_radix@.take(k_f as int),
                forall|m: int|
                    k_f <= m < as_radix@.len() ==> ct_msg(#[trigger] as_radix@[m], delta) == 0,
                forall|m: int|
                    0 <= m < k_f ==> ct_msg(#[trigger] as_radix@[m], delta) == eval_msg(
                        luts_f@[m].acc,
                        probes_f@[m],
                        delta,
                        total,
                    ),
            decreases num_sum_blocks - as_radix.len(),
        {
            proof {
                vstd::arithmetic::div_mod::lemma_small_mod(0nat, delta as nat);
                vstd::arithmetic::div_mod::lemma_basic_div(0, delta as int);
            }
            as_radix.push(LweCiphertext { body: 0 });
        }
        let v = crate::pipeline::group_radix_value(&as_radix, 0, num_sum_blocks, delta, radix);
        proof {
            assert(as_radix@.subrange(0, num_sum_blocks as int) =~= as_radix@);
            assert(msgs_of(as_radix@, delta) =~= feature_msgs(
                probes_f@,
                luts_f@,
                delta,
                total,
                num_sum_blocks as nat,
            ));
            assert(probe@.take(f + 1).drop_last() =~= probe@.take(f as int));
            assert(luts@.take(f + 1).drop_last() =~= luts@.take(f as int));
            assert(probe@.take(f + 1).last() == probe@[f as int]);
            assert(luts@.take(f + 1).last() == luts@[f as int]);
            assert(sum + v <= rw * f + rw);
            assert(rw * f + rw == rw * (f + 1)) by {
                lemma_mul_is_distributive_add(rw, f as int, 1);
            }
            assert(rw * (f + 1) <= rw * n) by {
                lemma_mul_inequality(f + 1, n as int, rw);
                lemma_mul_is_commutative(rw, f + 1);
                lemma_mul_is_commutative(rw, n as int);
            }
        }
        sum = sum + v;
        f = f + 1;
    }
    proof {
        assert(probe@.take(n as int) =~= probe@);
        assert(luts@.take(n as int) =~= luts@);
    }
    let rw_exec = crate::radix::pow_u64(radix, num_sum_blocks);
    let reduced = sum % rw_exec;
    let verdict: u64 = if reduced >= threshold as u64 {
        1
    } else {
        0
    };
    proof {
        vstd::arithmetic::div_mod::lemma_mod_division_less_than_divisor(sum as int, rw);
        if (sum as int) < rw {
            vstd::arithmetic::div_mod::lemma_small_mod(sum as nat, rw as nat);
        }
        vstd::arithmetic::div_mod::lemma_mod_multiples_basic(verdict as int, delta as int);
        vstd::arithmetic::div_mod::lemma_div_by_multiple(verdict as int, delta as int);
        assert(total >= 2) by {
            crate::engine::lemma_pow2_positive(server_key.carry_modulus);
            lemma_mul_inequality(
                1,
                server_key.carry_modulus as int,
                server_key.message_modulus as int,
            );
            lemma_mul_is_commutative(
                server_key.carry_modulus as int,
                server_key.message_modulus as int,
            );
        }
        lemma_mul_inequality(verdict as int, total - 1, delta as int);
        lemma_mul_is_commutative(verdict as int, delta as int);
    }
    BooleanBlock { ct: LweCiphertext { body: verdict * delta } }
}

} // verus!
