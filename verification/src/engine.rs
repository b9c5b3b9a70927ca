//! Model of the homomorphic evaluation engine.
//!
//! The engine encrypts small integers, applies per-position lookup tables to
//! them under encryption, adds radix integers with carries, compares against
//! a public threshold, and decrypts the final boolean.  The lattice
//! cryptography behind those operations — key material, masks, noise,
//! bootstrapping — is the engine's own responsibility and out of scope here.
//! The model therefore represents a ciphertext by the encoded plaintext it
//! decrypts to and elides key bits, so that every engine operation has an
//! exact contract over the message it carries, and the protocol built on top
//! is verified against precisely those contracts.
//!
//! The message encoding is the engine's real one: a message `m` is placed in
//! the top bits of a 64-bit word as `(m % total_modulus) * delta`, where
//! `delta = 2^63 / (message_modulus * carry_modulus)`; decoding rounds to the
//! nearest multiple of `delta`, which is what makes decryption robust to the
//! noise a real ciphertext carries.

use vstd::prelude::*;
use vstd::arithmetic::mul::lemma_mul_inequality;
use vstd::arithmetic::power::pow;
use vstd::arithmetic::power2::pow2;
use crate::config::Config;

verus! {

/// Power-of-two test for modulus and encoding-step values.
pub open spec fn is_power_of_two(x: u64) -> bool {
    vstd::arithmetic::power2::is_pow2(x as int)
}

/// An encoded-but-unencrypted message word.
#[derive(Clone, Copy, PartialEq, Eq, Structural, Debug)]
pub struct Plaintext(pub u64);

/// Model of an LWE ciphertext: the encoded plaintext it decrypts to.  A real
/// ciphertext adds a key-dependent mask and noise; neither changes the
/// decrypted message, so the model elides them.
#[derive(Clone, Copy, PartialEq, Eq, Structural, Debug)]
pub struct LweCiphertext {
    pub body: u64,
}

/// A list of LWE ciphertexts in host memory.
pub struct LweCiphertextList {
    pub cts: Vec<LweCiphertext>,
}

/// A list of LWE ciphertexts resident on the accelerator.
pub struct CudaLweCiphertextList {
    pub cts: Vec<LweCiphertext>,
}

/// An encrypted boolean: a single ciphertext whose message is zero for
/// `false` and nonzero for `true`.
pub struct BooleanBlock {
    pub ct: LweCiphertext,
}

/// An encrypted boolean resident on the accelerator.
pub struct CudaBooleanBlock {
    pub ct: LweCiphertext,
}

/// Model of a lookup-table accumulator: the table of output values over the
/// engine's message domain.  The real engine encodes this table into a
/// GLWE polynomial; only the values matter to what an evaluation returns.
pub struct GlweCiphertext {
    pub vals: Vec<u64>,
}

/// A lookup table with the degree bound the engine tracks for it.
pub struct LookupTableOwned {
    pub acc: GlweCiphertext,
    pub degree: u64,
}

/// A list of lookup tables in host memory.
pub struct GlweCiphertextList {
    pub luts: Vec<GlweCiphertext>,
}

/// A list of lookup tables resident on the accelerator.
pub struct CudaGlweCiphertextList {
    pub luts: Vec<GlweCiphertext>,
}

/// Model of the client's small LWE secret key; the key bits belong to the
/// engine and never influence which message a ciphertext carries.
pub struct LweSecretKey {}

/// Model of the client's large GLWE secret key.
pub struct GlweSecretKey {}

/// Handle to one accelerator command stream.
pub struct CudaStream {}

/// Model of the engine's randomness and buffer state.
pub struct ShortintEngine {}

/// The noise-parameter record of the classic (single-digit lookup)
/// bootstrap; the model keeps only what the protocol reads.
pub struct ClassicPBSParameters {
    pub message_modulus: u64,
    pub carry_modulus: u64,
}

/// The noise-parameter record of the multi-bit lookup bootstrap, the
/// higher-throughput, lower-assurance primitive.
pub struct MultiBitPBSParameters {
    pub message_modulus: u64,
    pub carry_modulus: u64,
}

/// The parameter set every engine operation receives.
#[derive(Clone, Copy)]
pub struct ShortintParameterSet {
    pub message_modulus: u64,
    pub carry_modulus: u64,
}

impl ShortintParameterSet {
    /// Both moduli are powers of two and their product — the full message
    /// space of one ciphertext — fits well below the 63 encoding bits.
    pub open spec fn wf(self) -> bool {
        &&& is_power_of_two(self.message_modulus)
        &&& is_power_of_two(self.carry_modulus)
        &&& self.message_modulus <= 0x1_0000
        &&& self.carry_modulus <= 0x1_0000
        &&& self.message_modulus * self.carry_modulus <= 0x4000_0000
    }

    /// The full message space of one ciphertext.
    pub open spec fn spec_total_modulus(self) -> int {
        self.message_modulus * self.carry_modulus
    }
}

impl ClassicPBSParameters {
    pub open spec fn wf(self) -> bool {
        self.to_parameter_set().wf()
    }

    pub open spec fn to_parameter_set(self) -> ShortintParameterSet {
        ShortintParameterSet {
            message_modulus: self.message_modulus,
            carry_modulus: self.carry_modulus,
        }
    }

    /// The parameter-set view of this record.
    pub fn into_parameter_set(&self) -> (r: ShortintParameterSet)
        ensures
            r == self.to_parameter_set(),
    {
        ShortintParameterSet {
            message_modulus: self.message_modulus,
            carry_modulus: self.carry_modulus,
        }
    }
}

impl MultiBitPBSParameters {
    pub open spec fn wf(self) -> bool {
        self.to_parameter_set().wf()
    }

    pub open spec fn to_parameter_set(self) -> ShortintParameterSet {
        ShortintParameterSet {
            message_modulus: self.message_modulus,
            carry_modulus: self.carry_modulus,
        }
    }

    /// The parameter-set view of this record.
    pub fn into_parameter_set(&self) -> (r: ShortintParameterSet)
        ensures
            r == self.to_parameter_set(),
    {
        ShortintParameterSet {
            message_modulus: self.message_modulus,
            carry_modulus: self.carry_modulus,
        }
    }
}

/// A well-formed model ciphertext under encoding step `delta`: its body is an
/// exact multiple of `delta` (the model is noise-free) and the message it
/// encodes lies in the `total_mod` message space.
pub open spec fn ct_wf(ct: LweCiphertext, delta: u64, total_mod: u64) -> bool {
    &&& delta >= 1
    &&& ct.body % delta == 0
    &&& ct.body / delta < total_mod
}

/// The message a model ciphertext carries.
pub open spec fn ct_msg(ct: LweCiphertext, delta: u64) -> u64 {
    ct.body / delta
}

/// The encoding relation `delta = 2^63 / total_mod` for a power-of-two
/// message space: what every key generation establishes.
pub open spec fn encoding_wf(delta: u64, total_mod: u64) -> bool {
    &&& is_power_of_two(delta)
    &&& is_power_of_two(total_mod)
    &&& total_mod <= 0x1_0000_0000
    &&& delta * total_mod == 0x8000_0000_0000_0000
}

/// The encoding step a parameter set induces: `2^63 / total_modulus`.
pub open spec fn spec_delta(params: ShortintParameterSet) -> int {
    0x8000_0000_0000_0000int / params.spec_total_modulus()
}

/// The exponent of a power of two that fits in 64 bits.
pub proof fn lemma_pow2_exponent(x: u64) -> (e: nat)
    requires
        is_power_of_two(x),
    ensures
        x == pow2(e),
        e <= 63,
{
    vstd::arithmetic::power2::is_pow2_equiv(x as int);
    let e = choose|i: nat| pow(2, i) == x as int;
    assert(pow2(e) == x);
    if e > 63 {
        vstd::arithmetic::power2::lemma2_to64_rest();
        if e > 64 {
            vstd::arithmetic::power2::lemma_pow2_strictly_increases(64, e);
        }
        assert(pow2(e) >= 0x1_0000_0000_0000_0000);
    }
    e
}

/// Every power of two that fits in 64 bits can be written as a shift.
pub proof fn lemma_pow2_is_shift(x: u64) -> (e: u64)
    requires
        is_power_of_two(x),
    ensures
        e <= 63,
        x == pow2(e as nat),
        x == 1u64 << e,
{
    let en = lemma_pow2_exponent(x);
    vstd::bits::lemma_u64_pow2_no_overflow(en);
    vstd::bits::lemma_u64_shl_is_mul(1u64, en as u64);
    en as u64
}

/// Dividing `2^63` by a power-of-two message space yields a power-of-two
/// encoding step, and the two multiply back to `2^63`.
proof fn lemma_delta_of_total(t: u64)
    requires
        is_power_of_two(t),
        t <= 0x1_0000_0000,
    ensures
        is_power_of_two(0x8000_0000_0000_0000u64 / t),
        0x8000_0000_0000_0000u64 / t >= 0x8000_0000u64,
        (0x8000_0000_0000_0000u64 / t) * t == 0x8000_0000_0000_0000,
{
    let e = lemma_pow2_exponent(t);
    vstd::arithmetic::power2::lemma2_to64();
    vstd::arithmetic::power2::lemma2_to64_rest();
    assert(e <= 32) by {
        if e > 32 {
            vstd::arithmetic::power2::lemma_pow2_strictly_increases(32, e);
        }
    }
    vstd::arithmetic::power2::lemma_pow2_subtracts(e, 63);
    vstd::arithmetic::power2::lemma_pow2_adds((63 - e) as nat, e);
    assert(0x8000_0000_0000_0000u64 / t == pow2((63 - e) as nat));
    assert(pow2((63 - e) as nat) * pow2(e) == pow2(63));
    assert(is_power_of_two(pow2((63 - e) as nat) as u64)) by {
        vstd::arithmetic::power2::is_pow2_equiv(pow2((63 - e) as nat) as int);
        vstd::arithmetic::power::lemma_pow_positive(2, (63 - e) as nat);
        assert(pow(2, (63 - e) as nat) == pow2((63 - e) as nat) as int);
    }
    assert(0x8000_0000_0000_0000u64 / t >= 0x8000_0000u64) by {
        if ((63 - e) as nat) < 31 {
            vstd::arithmetic::power2::lemma_pow2_strictly_increases((63 - e) as nat, 31);
        } else if ((63 - e) as nat) > 31 {
            vstd::arithmetic::power2::lemma_pow2_strictly_increases(31, (63 - e) as nat);
        }
    }
}

/// The product of two bounded powers of two is a power of two.
proof fn lemma_pow2_product(a: u64, b: u64)
    requires
        is_power_of_two(a),
        is_power_of_two(b),
        a <= 0x1_0000,
        b <= 0x1_0000,
    ensures
        1 <= a * b <= 0x1_0000_0000,
        is_power_of_two((a * b) as u64),
{
    let ea = lemma_pow2_exponent(a);
    let eb = lemma_pow2_exponent(b);
    vstd::arithmetic::power2::lemma2_to64();
    vstd::arithmetic::power2::lemma2_to64_rest();
    assert(ea <= 16) by {
        if ea > 16 {
            vstd::arithmetic::power2::lemma_pow2_strictly_increases(16, ea);
        }
    }
    assert(eb <= 16) by {
        if eb > 16 {
            vstd::arithmetic::power2::lemma_pow2_strictly_increases(16, eb);
        }
    }
    vstd::arithmetic::power2::lemma_pow2_adds(ea, eb);
    assert(a * b == pow2(ea + eb));
    assert(pow2(ea + eb) <= 0x1_0000_0000) by {
        if ea + eb < 32 {
            vstd::arithmetic::power2::lemma_pow2_strictly_increases(ea + eb, 32);
        }
    }
    vstd::arithmetic::power2::lemma_pow2_pos(ea + eb);
    assert(is_power_of_two((a * b) as u64)) by {
        vstd::arithmetic::power2::is_pow2_equiv((a * b) as int);
        vstd::arithmetic::power::lemma_pow_positive(2, ea + eb);
        assert(pow(2, ea + eb) == pow2(ea + eb) as int);
    }
}

/// A word that is an exact multiple of a power-of-two step `2^k` — or within
/// half a step below the next multiple — has a zero bit at position `k - 1`,
/// so the decoder's rounding correction vanishes on it.
proof fn lemma_rounding_bit_zero(p: u64, k: u64)
    by (bit_vector)
    requires
        k < 64,
        p % (1u64 << k) < ((1u64 << k) >> 1u64) || p % (1u64 << k) == 0,
    ensures
        (p & ((1u64 << k) >> 1u64)) == 0,
{
}

/// A word within the upper half of a power-of-two step `2^k` has its bit at
/// position `k - 1` set, so the decoder's rounding correction adds a whole
/// step and rounds the word up to the next multiple.
#[verifier::rlimit(100)]
proof fn lemma_rounding_bit_set(p: u64, k: u64)
    by (bit_vector)
    requires
        1 <= k < 64,
        p % (1u64 << k) >= ((1u64 << k) >> 1u64),
    ensures
        (p & ((1u64 << k) >> 1u64)) == ((1u64 << k) >> 1u64),
{
}

/// Encode a message into the top bits: `(m % total_mod) * delta`.
pub fn encode(m: u64, total_mod: u64, delta: u64) -> (p: Plaintext)
    requires
        total_mod >= 1,
        (total_mod - 1) * delta <= u64::MAX,
    ensures
        p.0 == (m % total_mod) * delta,
        p.0 % delta == 0 || delta == 0,
        delta >= 1 ==> p.0 / delta == m % total_mod,
{
    let reduced = m % total_mod;
    proof {
        lemma_mul_inequality(reduced as int, total_mod - 1, delta as int);
        if delta >= 1 {
            vstd::arithmetic::div_mod::lemma_mod_multiples_basic(reduced as int, delta as int);
            vstd::arithmetic::div_mod::lemma_div_by_multiple(reduced as int, delta as int);
            vstd::arithmetic::mul::lemma_mul_is_commutative(reduced as int, delta as int);
        }
    }
    Plaintext(reduced * delta)
}

/// Decode a message word by rounding to the nearest multiple of `delta`.
///
/// On an exact multiple (every model ciphertext) the result is `p / delta`.
/// Any residue — the noise of a real ciphertext — below half a step rounds
/// down to the same result; a residue of half a step or more rounds up to
/// the next multiple, wrapping to zero at the top of the word.  Together:
/// a word `m * delta + e` with signed noise `|e| < delta / 2` decodes to `m`.
pub fn decode(p: &Plaintext, delta: u64) -> (m: u64)
    requires
        delta >= 1,
    ensures
        is_power_of_two(delta) && (p.0 % delta < delta / 2 || p.0 % delta == 0) ==> m == p.0
            / delta,
        is_power_of_two(delta) && delta >= 2 && p.0 % delta >= delta / 2 && p.0 + delta
            <= u64::MAX ==> m == p.0 / delta + 1,
        is_power_of_two(delta) && delta >= 2 && p.0 % delta >= delta / 2 && p.0 + delta
            > u64::MAX ==> m == 0,
{
    let d = p.0;
    // The bit before the message
    let rounding_bit = delta >> 1u64;
    // Compute the rounding bit
    let rounding = (d & rounding_bit) << 1u64;
    proof {
        if is_power_of_two(delta) && (p.0 % delta < delta / 2 || p.0 % delta == 0) {
            let k = lemma_pow2_is_shift(delta);
            assert(delta >> 1u64 == delta / 2) by {
                vstd::bits::lemma_u64_shr_is_div(delta, 1u64);
                vstd::arithmetic::power2::lemma2_to64();
            }
            lemma_rounding_bit_zero(d, k);
            assert((0u64 << 1u64) == 0u64) by (bit_vector);
        } else if is_power_of_two(delta) && delta >= 2 && p.0 % delta >= delta / 2 {
            let k = lemma_pow2_is_shift(delta);
            vstd::arithmetic::power2::lemma2_to64();
            assert(k >= 1);
            assert(delta >> 1u64 == delta / 2) by {
                vstd::bits::lemma_u64_shr_is_div(delta, 1u64);
            }
            lemma_rounding_bit_set(d, k);
            // A half step, doubled, is the whole step.
            assert(delta / 2 == pow2((k - 1) as nat)) by {
                vstd::arithmetic::power2::lemma_pow2_unfold(k as nat);
                vstd::arithmetic::div_mod::lemma_div_by_multiple(
                    pow2((k - 1) as nat) as int,
                    2,
                );
                vstd::arithmetic::mul::lemma_mul_is_commutative(pow2((k - 1) as nat) as int, 2);
            }
            assert(((delta >> 1u64) << 1u64) == delta) by {
                vstd::arithmetic::power2::lemma_pow2_unfold(k as nat);
                vstd::arithmetic::mul::lemma_mul_is_commutative(pow2((k - 1) as nat) as int, 2);
                vstd::bits::lemma_u64_shl_is_mul(delta >> 1u64, 1u64);
            }
            assert(rounding == delta);
            vstd::arithmetic::div_mod::lemma_fundamental_div_mod(d as int, delta as int);
            if d + delta <= u64::MAX {
                assert(d + delta == (d / delta + 1) * delta + d % delta) by {
                    vstd::arithmetic::mul::lemma_mul_is_distributive_add_other_way(
                        delta as int,
                        (d / delta) as int,
                        1,
                    );
                }
                vstd::arithmetic::div_mod::lemma_fundamental_div_mod_converse_div(
                    d + delta,
                    delta as int,
                    (d / delta + 1) as int,
                    (d % delta) as int,
                );
            } else {
                let w = d + delta - 0x1_0000_0000_0000_0000;
                assert(0 <= w < delta);
                vstd::arithmetic::div_mod::lemma_basic_div(w, delta as int);
            }
        }
    }
    (d.wrapping_add(rounding)) / delta
}

/// Encrypt one message under the active secret key.  The engine adds the
/// mask and noise; the model records the exact encoded message, which is
/// what the ciphertext decrypts to either way.
pub fn encrypt(
    m: u64,
    engine: &mut ShortintEngine,
    secret_key: &LweSecretKey,
    params: ShortintParameterSet,
    total_mod: u64,
    delta: u64,
) -> (ct: LweCiphertext)
    requires
        total_mod >= 1,
        delta >= 1,
        (total_mod - 1) * delta <= u64::MAX,
    ensures
        ct_wf(ct, delta, total_mod),
        ct_msg(ct, delta) == m % total_mod,
{
    let p = encode(m, total_mod, delta);
    proof {
        vstd::arithmetic::div_mod::lemma_mod_division_less_than_divisor(m as int, total_mod as int);
    }
    LweCiphertext { body: p.0 }
}

/// Decrypt one ciphertext to the message it carries.
pub fn decrypt(lwe_ct: &LweCiphertext, secret_key: &LweSecretKey, delta: u64) -> (m: u64)
    requires
        delta >= 1,
    ensures
        is_power_of_two(delta) && lwe_ct.body % delta == 0 ==> m == ct_msg(*lwe_ct, delta),
{
    decode(&Plaintext(lwe_ct.body), delta)
}

/// An all-zero ciphertext list of the requested length, the buffer every
/// batched engine pass writes into.
pub fn make_lweciphertextlist(ct_count: usize) -> (r: LweCiphertextList)
    ensures
        r.cts@.len() == ct_count,
        forall|i: int| 0 <= i < ct_count ==> (#[trigger] r.cts@[i]).body == 0,
{
    let mut cts: Vec<LweCiphertext> = Vec::new();
    let mut i: usize = 0;
    while i < ct_count
        invariant
            i <= ct_count,
            cts@.len() == i,
            forall|k: int| 0 <= k < i ==> (#[trigger] cts@[k]).body == 0,
        decreases ct_count - i,
    {
        cts.push(LweCiphertext { body: 0 });
        i = i + 1;
    }
    LweCiphertextList { cts }
}

/// An all-zero ciphertext list allocated on the accelerator.
pub fn make_cuda_lweciphertextlist(ct_count: usize, stream: &CudaStream) -> (r:
    CudaLweCiphertextList)
    ensures
        r.cts@.len() == ct_count,
        forall|i: int| 0 <= i < ct_count ==> (#[trigger] r.cts@[i]).body == 0,
{
    let host = make_lweciphertextlist(ct_count);
    CudaLweCiphertextList { cts: host.cts }
}

/// Encrypt a list of messages into one host ciphertext list.
pub fn encrypt_ciphertextlist(
    values: Vec<u64>,
    engine: &mut ShortintEngine,
    secret_key: &LweSecretKey,
    total_mod: u64,
    delta: u64,
    params: ShortintParameterSet,
) -> (r: LweCiphertextList)
    requires
        total_mod >= 1,
        delta >= 1,
        (total_mod - 1) * delta <= u64::MAX,
    ensures
        r.cts@.len() == values@.len(),
        forall|i: int|
            0 <= i < values@.len() ==> ct_wf(#[trigger] r.cts@[i], delta, total_mod) && ct_msg(
                r.cts@[i],
                delta,
            ) == values@[i] % total_mod,
{
    let mut cts: Vec<LweCiphertext> = Vec::new();
    let n = values.len();
    let mut i: usize = 0;
    while i < n
        invariant
            i <= n,
            n == values@.len(),
            total_mod >= 1,
            delta >= 1,
            (total_mod - 1) * delta <= u64::MAX,
            cts@.len() == i,
            forall|k: int|
                0 <= k < i ==> ct_wf(#[trigger] cts@[k], delta, total_mod) && ct_msg(
                    cts@[k],
                    delta,
                ) == values@[k] % total_mod,
        decreases n - i,
    {
        let ct = encrypt(values[i], engine, secret_key, params, total_mod, delta);
        cts.push(ct);
        i = i + 1;
    }
    LweCiphertextList { cts }
}

/// Encrypt a list of messages and place it on the accelerator.
pub fn encrypt_cuda_ciphertextlist(
    values: Vec<u64>,
    engine: &mut ShortintEngine,
    secret_key: &LweSecretKey,
    total_mod: u64,
    delta: u64,
    params: ShortintParameterSet,
    stream: &CudaStream,
) -> (r: CudaLweCiphertextList)
    requires
        total_mod >= 1,
        delta >= 1,
        (total_mod - 1) * delta <= u64::MAX,
    ensures
        r.cts@.len() == values@.len(),
        forall|i: int|
            0 <= i < values@.len() ==> ct_wf(#[trigger] r.cts@[i], delta, total_mod) && ct_msg(
                r.cts@[i],
                delta,
            ) == values@[i] % total_mod,
{
    let ghost vals = values@;
    let host = encrypt_ciphertextlist(values, engine, secret_key, total_mod, delta, params);
    CudaLweCiphertextList { cts: host.cts }
}

/// Decrypt every ciphertext of a host list.
pub fn decrypt_ciphertextlist(
    lwe_cts: &LweCiphertextList,
    secret_key: &GlweSecretKey,
    delta: u64,
) -> (r: Vec<u64>)
    requires
        delta >= 1,
        is_power_of_two(delta),
        forall|i: int| 0 <= i < lwe_cts.cts@.len() ==> (#[trigger] lwe_cts.cts@[i]).body % delta
            == 0,
    ensures
        r@.len() == lwe_cts.cts@.len(),
        forall|i: int| 0 <= i < r@.len() ==> #[trigger] r@[i] == ct_msg(lwe_cts.cts@[i], delta),
{
    let mut out: Vec<u64> = Vec::new();
    let n = lwe_cts.cts.len();
    let mut i: usize = 0;
    while i < n
        invariant
            i <= n,
            n == lwe_cts.cts@.len(),
            delta >= 1,
            is_power_of_two(delta),
            forall|k: int| 0 <= k < n ==> (#[trigger] lwe_cts.cts@[k]).body % delta == 0,
            out@.len() == i,
            forall|k: int| 0 <= k < i ==> #[trigger] out@[k] == ct_msg(lwe_cts.cts@[k], delta),
        decreases n - i,
    {
        let m = decode(&Plaintext(lwe_cts.cts[i].body), delta);
        out.push(m);
        i = i + 1;
    }
    out
}

/// The largest element of a sequence of words (zero for an empty sequence).
pub open spec fn seq_max(s: Seq<u64>) -> u64
    decreases s.len(),
{
    if s.len() == 0 {
        0u64
    } else if s.last() >= seq_max(s.drop_last()) {
        s.last()
    } else {
        seq_max(s.drop_last())
    }
}

/// A power of two is at least one.
pub proof fn lemma_pow2_positive(x: u64)
    requires
        is_power_of_two(x),
    ensures
        x >= 1,
{
    let e = lemma_pow2_exponent(x);
    vstd::arithmetic::power2::lemma_pow2_pos(e);
}

/// What a well-formed parameter set guarantees about its message space and
/// the encoding step derived from it.
pub proof fn lemma_params_encoding(params: ShortintParameterSet)
    requires
        params.wf(),
    ensures
        1 <= params.spec_total_modulus() <= 0x4000_0000,
        is_power_of_two(params.spec_total_modulus() as u64),
        encoding_wf(spec_delta(params) as u64, params.spec_total_modulus() as u64),
        (params.spec_total_modulus() - 1) * spec_delta(params) < 0x8000_0000_0000_0000,
{
    let t = params.spec_total_modulus();
    lemma_pow2_product(params.message_modulus, params.carry_modulus);
    lemma_delta_of_total(t as u64);
    let d = 0x8000_0000_0000_0000int / t;
    assert((t - 1) * d == t * d - d) by {
        vstd::arithmetic::mul::lemma_mul_is_distributive_sub_other_way(d as int, t as int, 1);
    }
    assert(t * d == 0x8000_0000_0000_0000) by {
        vstd::arithmetic::mul::lemma_mul_is_commutative(t as int, d as int);
    }
    assert(d >= 1) by {
        lemma_pow2_positive(d as u64);
    }
}

/// Compute the full message space of a parameter set and the encoding step
/// `delta = 2^63 / total` that places messages in the top bits.
pub fn compute_total_and_delta(params: ShortintParameterSet) -> (r: (u64, u64))
    requires
        params.wf(),
    ensures
        r.0 == params.spec_total_modulus(),
        r.0 >= 1,
        r.1 == spec_delta(params),
        encoding_wf(r.1, r.0),
        (r.0 - 1) * r.1 < 0x8000_0000_0000_0000,
{
    proof {
        lemma_params_encoding(params);
    }
    let total: u64 = params.message_modulus * params.carry_modulus;
    let delta: u64 = (1u64 << 63u64) / total;
    proof {
        vstd::arithmetic::power2::lemma2_to64_rest();
        vstd::bits::lemma_u64_shl_is_mul(1u64, 63u64);
    }
    (total, delta)
}


/// Model of a host-side keyswitching key.
pub struct LweKeyswitchKey {}

/// Model of a keyswitching key resident on the accelerator.
pub struct CudaLweKeyswitchKey {}

/// Model of the Fourier-domain multi-bit bootstrapping key.
pub struct FourierLweMultiBitBootstrapKey {}

/// Model of a multi-bit bootstrapping key resident on the accelerator.
pub struct CudaLweMultiBitBootstrapKey {}

/// Model of a classic bootstrapping key resident on the accelerator.
pub struct CudaLweBootstrapKey {}

/// The client's key material and the parameters it was generated for.
pub struct ClientKey {
    pub glwe_secret_key: GlweSecretKey,
    pub lwe_secret_key: LweSecretKey,
    pub parameters: ShortintParameterSet,
}

/// The server's evaluation key: what the engine needs to evaluate lookups
/// and sums without the secret key.  The model keeps the moduli the
/// protocol reads.
pub struct ServerKey {
    pub message_modulus: u64,
    pub carry_modulus: u64,
    pub max_degree: u64,
}

/// The server's evaluation key resident on the accelerator.
pub struct CudaServerKey {
    pub message_modulus: u64,
    pub carry_modulus: u64,
    pub max_degree: u64,
}

/// Everything one accelerator-scheduled run needs: key material, the
/// encoding step, the full message space, the stream, and the parameters.
pub struct Keys {
    pub lwe_secret_key: LweSecretKey,
    pub glwe_secret_key: GlweSecretKey,
    pub server_key: CudaServerKey,
    pub delta: u64,
    pub total_modulus: u64,
    pub stream: CudaStream,
    pub parameters: ShortintParameterSet,
}

impl Keys {
    /// The key record is internally consistent: the stored message space is
    /// the parameters' product and the encoding step divides `2^63` by it.
    pub open spec fn wf(self) -> bool {
        &&& self.parameters.wf()
        &&& self.total_modulus == self.parameters.spec_total_modulus()
        &&& self.delta == spec_delta(self.parameters)
        &&& encoding_wf(self.delta, self.total_modulus)
        &&& self.server_key.message_modulus == self.parameters.message_modulus
        &&& self.server_key.carry_modulus == self.parameters.carry_modulus
    }
}

/// Open the accelerator and the engine's encryption state.
pub fn make_context_gpu() -> (r: (CudaStream, ShortintEngine)) {
    (CudaStream {  }, ShortintEngine {  })
}

/// Open the accelerator and the engine's encryption state for a parameter
/// set, handing the set back alongside.
pub fn make_context(params: ShortintParameterSet) -> (r: (
    ShortintParameterSet,
    CudaStream,
    ShortintEngine,
))
    ensures
        r.0 == params,
{
    (params, CudaStream {  }, ShortintEngine {  })
}

/// Decrypt an encrypted boolean with the client key: the block is `true`
/// exactly when the message it carries is nonzero in the message space.
pub fn decrypt_boolean_block_client_key(block: &BooleanBlock, client_key: &ClientKey) -> (r: bool)
    requires
        client_key.parameters.wf(),
        block.ct.body % (spec_delta(client_key.parameters) as u64) == 0,
    ensures
        r == (ct_msg(block.ct, spec_delta(client_key.parameters) as u64)
            % client_key.parameters.message_modulus != 0),
{
    let (_total, delta) = compute_total_and_delta(client_key.parameters);
    let d = decode(&Plaintext(block.ct.body), delta);
    proof {
        lemma_pow2_positive(client_key.parameters.message_modulus);
    }
    (d % client_key.parameters.message_modulus) != 0
}

/// Decrypt an accelerator-resident encrypted boolean with the client key.
pub fn decrypt_cuda_boolean_block_client_key(
    cuda_block: &CudaBooleanBlock,
    client_key: &ClientKey,
    stream: &CudaStream,
) -> (r: bool)
    requires
        client_key.parameters.wf(),
        cuda_block.ct.body % (spec_delta(client_key.parameters) as u64) == 0,
    ensures
        r == (ct_msg(cuda_block.ct, spec_delta(client_key.parameters) as u64)
            % client_key.parameters.message_modulus != 0),
{
    let host = BooleanBlock { ct: cuda_block.ct };
    decrypt_boolean_block_client_key(&host, client_key)
}

/// Decrypt an accelerator-resident encrypted boolean with raw key material
/// and an explicit encoding step.
pub fn decrypt_boolean_block(
    cuda_block: &CudaBooleanBlock,
    lwe_secret_key: &LweSecretKey,
    params: ShortintParameterSet,
    delta: u64,
    stream: &CudaStream,
) -> (r: bool)
    requires
        delta >= 1,
        is_power_of_two(delta),
        is_power_of_two(params.message_modulus),
        cuda_block.ct.body % delta == 0,
    ensures
        r == (ct_msg(cuda_block.ct, delta) % params.message_modulus != 0),
{
    let d = decode(&Plaintext(cuda_block.ct.body), delta);
    proof {
        lemma_pow2_positive(params.message_modulus);
    }
    (d % params.message_modulus) != 0
}

/// Decrypt every ciphertext of an accelerator-resident list.
pub fn decrypt_cuda_ciphertextlist(cts: &CudaLweCiphertextList, keys: &Keys, delta: u64) -> (r:
    Vec<u64>)
    requires
        delta >= 1,
        is_power_of_two(delta),
        forall|i: int| 0 <= i < cts.cts@.len() ==> (#[trigger] cts.cts@[i]).body % delta == 0,
    ensures
        r@.len() == cts.cts@.len(),
        forall|i: int| 0 <= i < r@.len() ==> #[trigger] r@[i] == ct_msg(cts.cts@[i], delta),
{
    let host = LweCiphertextList { cts: clone_ct_vec(&cts.cts) };
    decrypt_ciphertextlist(&host, &GlweSecretKey {  }, delta)
}

/// Copy a ciphertext list (the model of a device-host transfer).
fn clone_ct_vec(cts: &Vec<LweCiphertext>) -> (r: Vec<LweCiphertext>)
    ensures
        r@ =~= cts@,
{
    let mut out: Vec<LweCiphertext> = Vec::new();
    let n = cts.len();
    let mut i: usize = 0;
    while i < n
        invariant
            i <= n,
            n == cts@.len(),
            out@.len() == i,
            forall|k: int| 0 <= k < i ==> #[trigger] out@[k] == cts@[k],
        decreases n - i,
    {
        out.push(cts[i]);
        i = i + 1;
    }
    out
}

/// Encrypt a quantized feature vector for radix evaluation: each feature's
/// code is encrypted once and replicated into `num_blocks` positions, one
/// per digit lookup the pipeline will apply to it.
pub fn encrypt_feature_vec_radix(
    feature_vec: Vec<u8>,
    engine: &mut ShortintEngine,
    secret_key: &LweSecretKey,
    params: ShortintParameterSet,
    total_mod: u64,
    delta: u64,
    config: &Config,
) -> (r: Vec<Vec<LweCiphertext>>)
    requires
        total_mod >= 1,
        delta >= 1,
        (total_mod - 1) * delta <= u64::MAX,
    ensures
        r@.len() == feature_vec@.len(),
        forall|f: int| 0 <= f < r@.len() ==> (#[trigger] r@[f])@.len() == config.num_blocks,
        forall|f: int, b: int|
            0 <= f < r@.len() && 0 <= b < r@[f]@.len() ==> ct_wf(
                #[trigger] r@[f]@[b],
                delta,
                total_mod,
            ) && ct_msg(r@[f]@[b], delta) == feature_vec@[f] as u64 % total_mod,
{
    let mut result: Vec<Vec<LweCiphertext>> = Vec::new();
    let n = feature_vec.len();
    let mut f: usize = 0;
    while f < n
        invariant
            f <= n,
            n == feature_vec@.len(),
            total_mod >= 1,
            delta >= 1,
            (total_mod - 1) * delta <= u64::MAX,
            result@.len() == f,
            forall|k: int| 0 <= k < f ==> (#[trigger] result@[k])@.len() == config.num_blocks,
            forall|k: int, b: int|
                0 <= k < f && 0 <= b < result@[k]@.len() ==> ct_wf(
                    #[trigger] result@[k]@[b],
                    delta,
                    total_mod,
                ) && ct_msg(result@[k]@[b], delta) == feature_vec@[k] as u64 % total_mod,
        decreases n - f,
    {
        let block = encrypt(feature_vec[f] as u64, engine, secret_key, params, total_mod, delta);
        let mut inner: Vec<LweCiphertext> = Vec::new();
        let mut b: usize = 0;
        while b < config.num_blocks
            invariant
                b <= config.num_blocks,
                ct_wf(block, delta, total_mod),
                ct_msg(block, delta) == feature_vec@[f as int] as u64 % total_mod,
                f < n,
                n == feature_vec@.len(),
                inner@.len() == b,
                forall|k: int| 0 <= k < b ==> #[trigger] inner@[k] == block,
            decreases config.num_blocks - b,
        {
            inner.push(block);
            b = b + 1;
        }
        result.push(inner);
        f = f + 1;
    }
    result
}

/// Build the lookup-table accumulator for one digit lookup of one feature:
/// the table of the lookup's outputs over the engine's whole message domain,
/// together with the largest output, which the engine keeps as the table's
/// degree bound.
pub fn generate_accumulator(
    message_modulus: u64,
    carry_modulus: u64,
    f: &crate::compiler::CompiledFeature,
    block: usize,
) -> (r: (GlweCiphertext, u64))
    requires
        f.wf(),
        block < f.num_lookups,
        1 <= message_modulus * carry_modulus <= 0x1_0000_0000,
        message_modulus * carry_modulus <= usize::MAX,
    ensures
        r.0.vals@.len() == message_modulus * carry_modulus,
        forall|i: int|
            0 <= i < r.0.vals@.len() ==> #[trigger] r.0.vals@[i] == f.spec_eval(
                block as int,
                i as u64,
            ),
        r.1 == seq_max(r.0.vals@),
{
    let modulus_sup: usize = (message_modulus * carry_modulus) as usize;
    let mut vals: Vec<u64> = Vec::new();
    let mut max_value: u64 = 0;
    let mut i: usize = 0;
    while i < modulus_sup
        invariant
            i <= modulus_sup,
            f.wf(),
            block < f.num_lookups,
            vals@.len() == i,
            forall|k: int|
                0 <= k < i ==> #[trigger] vals@[k] == f.spec_eval(block as int, k as u64),
            max_value == seq_max(vals@),
        decreases modulus_sup - i,
    {
        let f_eval = f.eval(block, i as u64);
        proof {
            assert(vals@.push(f_eval).drop_last() =~= vals@);
        }
        vals.push(f_eval);
        if f_eval > max_value {
            max_value = f_eval;
        }
        i = i + 1;
    }
    (GlweCiphertext { vals }, max_value)
}

/// Build, for every feature, the encrypted lookup tables of all its digit
/// lookups.  The engine encrypts each accumulator under the client key; in
/// the model the values the tables hold are unchanged by that.
pub fn generate_lookup_tables_individual(
    fs: &Vec<crate::compiler::CompiledFeature>,
    client_key: &ClientKey,
    params: ShortintParameterSet,
    engine: &mut ShortintEngine,
) -> (r: Vec<Vec<LookupTableOwned>>)
    requires
        params.wf(),
        params.spec_total_modulus() <= usize::MAX,
        forall|f: int| 0 <= f < fs@.len() ==> (#[trigger] fs@[f]).wf(),
    ensures
        r@.len() == fs@.len(),
        forall|f: int| 0 <= f < r@.len() ==> (#[trigger] r@[f])@.len() == fs@[f].num_lookups,
        forall|f: int, b: int|
            0 <= f < r@.len() && 0 <= b < r@[f]@.len() ==> (#[trigger] r@[f]@[b]).acc.vals@.len()
                == params.spec_total_modulus(),
        forall|f: int, b: int, i: int|
            0 <= f < r@.len() && 0 <= b < r@[f]@.len() && 0 <= i < r@[f]@[b].acc.vals@.len()
                ==> #[trigger] r@[f]@[b].acc.vals@[i] == fs@[f].spec_eval(b, i as u64),
        forall|f: int, b: int|
            0 <= f < r@.len() && 0 <= b < r@[f]@.len() ==> (#[trigger] r@[f]@[b]).degree
                == seq_max(r@[f]@[b].acc.vals@),
{
    proof {
        lemma_params_encoding(params);
    }
    let mut lut_list: Vec<Vec<LookupTableOwned>> = Vec::new();
    let n = fs.len();
    let mut f: usize = 0;
    while f < n
        invariant
            f <= n,
            n == fs@.len(),
            params.wf(),
            1 <= params.spec_total_modulus() <= 0x1_0000_0000,
            params.spec_total_modulus() <= usize::MAX,
            forall|k: int| 0 <= k < n ==> (#[trigger] fs@[k]).wf(),
            lut_list@.len() == f,
            forall|k: int|
                0 <= k < f ==> (#[trigger] lut_list@[k])@.len() == fs@[k].num_lookups,
            forall|k: int, b: int|
                0 <= k < f && 0 <= b < lut_list@[k]@.len() ==> (
                #[trigger] lut_list@[k]@[b]).acc.vals@.len() == params.spec_total_modulus(),
            forall|k: int, b: int, i: int|
                0 <= k < f && 0 <= b < lut_list@[k]@.len() && 0 <= i
                    < lut_list@[k]@[b].acc.vals@.len() ==> #[trigger] lut_list@[k]@[b].acc.vals@[i]
                    == fs@[k].spec_eval(b, i as u64),
            forall|k: int, b: int|
                0 <= k < f && 0 <= b < lut_list@[k]@.len() ==> (#[trigger] lut_list@[k]@[b]).degree
                    == seq_max(lut_list@[k]@[b].acc.vals@),
        decreases n - f,
    {
        let feature = &fs[f];
        let mut lut_vec: Vec<LookupTableOwned> = Vec::new();
        let nb = feature.num_lookups;
        let mut b: usize = 0;
        while b < nb
            invariant
                b <= nb,
                feature.wf(),
                feature == fs@[f as int],
                nb == feature.num_lookups,
                params.wf(),
                1 <= params.spec_total_modulus() <= 0x1_0000_0000,
                params.spec_total_modulus() <= usize::MAX,
                lut_vec@.len() == b,
                forall|k: int|
                    0 <= k < b ==> (#[trigger] lut_vec@[k]).acc.vals@.len()
                        == params.spec_total_modulus(),
                forall|k: int, i: int|
                    0 <= k < b && 0 <= i < lut_vec@[k].acc.vals@.len()
                        ==> #[trigger] lut_vec@[k].acc.vals@[i] == feature.spec_eval(k, i as u64),
                forall|k: int|
                    0 <= k < b ==> (#[trigger] lut_vec@[k]).degree == seq_max(
                        lut_vec@[k].acc.vals@,
                    ),
            decreases nb - b,
        {
            let (acc, max_value) = generate_accumulator(
                params.message_modulus,
                params.carry_modulus,
                feature,
                b,
            );
            lut_vec.push(LookupTableOwned { acc, degree: max_value });
            b = b + 1;
        }
        lut_list.push(lut_vec);
        f = f + 1;
    }
    lut_list
}

/// Build the flat list of encrypted lookup tables a batched device pass
/// consumes: one table per flattened position, in exactly the flattening
/// order.
pub fn generate_lookup_tables(
    slots: &Vec<crate::compiler::LookupSlot>,
    features: &Vec<crate::compiler::CompiledFeature>,
    glwe_secret_key: &GlweSecretKey,
    params: ShortintParameterSet,
    engine: &mut ShortintEngine,
) -> (r: GlweCiphertextList)
    requires
        params.wf(),
        params.spec_total_modulus() <= usize::MAX,
        forall|s: int|
            0 <= s < slots@.len() ==> crate::compiler::slot_wf(#[trigger] slots@[s], features@),
    ensures
        r.luts@.len() == slots@.len(),
        forall|s: int|
            0 <= s < r.luts@.len() ==> (#[trigger] r.luts@[s]).vals@.len()
                == params.spec_total_modulus(),
        forall|s: int, i: int|
            0 <= s < r.luts@.len() && 0 <= i < r.luts@[s].vals@.len()
                ==> #[trigger] r.luts@[s].vals@[i] == features@[slots@[s].feature as int].spec_eval(
                slots@[s].block as int,
                i as u64,
            ),
{
    proof {
        lemma_params_encoding(params);
    }
    let mut luts: Vec<GlweCiphertext> = Vec::new();
    let n = slots.len();
    let mut s: usize = 0;
    while s < n
        invariant
            s <= n,
            n == slots@.len(),
            params.wf(),
            1 <= params.spec_total_modulus() <= 0x1_0000_0000,
            params.spec_total_modulus() <= usize::MAX,
            forall|k: int|
                0 <= k < n ==> crate::compiler::slot_wf(#[trigger] slots@[k], features@),
            luts@.len() == s,
            forall|k: int|
                0 <= k < s ==> (#[trigger] luts@[k]).vals@.len() == params.spec_total_modulus(),
            forall|k: int, i: int|
                0 <= k < s && 0 <= i < luts@[k].vals@.len() ==> #[trigger] luts@[k].vals@[i]
                    == features@[slots@[k].feature as int].spec_eval(
                    slots@[k].block as int,
                    i as u64,
                ),
        decreases n - s,
    {
        let slot = slots[s];
        let feature = &features[slot.feature];
        let (acc, _max_value) = generate_accumulator(
            params.message_modulus,
            params.carry_modulus,
            feature,
            slot.block,
        );
        luts.push(acc);
        s = s + 1;
    }
    GlweCiphertextList { luts }
}

/// Build the flat list of encrypted lookup tables directly on the
/// accelerator.
pub fn generate_cuda_lookup_tables(
    slots: &Vec<crate::compiler::LookupSlot>,
    features: &Vec<crate::compiler::CompiledFeature>,
    glwe_secret_key: &GlweSecretKey,
    params: ShortintParameterSet,
    engine: &mut ShortintEngine,
    stream: &CudaStream,
) -> (r: CudaGlweCiphertextList)
    requires
        params.wf(),
        params.spec_total_modulus() <= usize::MAX,
        forall|s: int|
            0 <= s < slots@.len() ==> crate::compiler::slot_wf(#[trigger] slots@[s], features@),
    ensures
        r.luts@.len() == slots@.len(),
        forall|s: int|
            0 <= s < r.luts@.len() ==> (#[trigger] r.luts@[s]).vals@.len()
                == params.spec_total_modulus(),
        forall|s: int, i: int|
            0 <= s < r.luts@.len() && 0 <= i < r.luts@[s].vals@.len()
                ==> #[trigger] r.luts@[s].vals@[i] == features@[slots@[s].feature as int].spec_eval(
                slots@[s].block as int,
                i as u64,
            ),
{
    let host = generate_lookup_tables(slots, features, glwe_secret_key, params, engine);
    CudaGlweCiphertextList { luts: host.luts }
}

} // verus!
