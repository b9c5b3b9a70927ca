use bio_match::compiler::generate_functions_const_length;
use bio_match::config::Config;
use bio_match::engine::compute_total_and_delta;
use bio_match::engine::decode;
use bio_match::engine::decrypt;
use bio_match::engine::decrypt_ciphertextlist;
use bio_match::engine::encode;
use bio_match::engine::encrypt;
use bio_match::engine::encrypt_ciphertextlist;
use bio_match::engine::encrypt_feature_vec_radix;
use bio_match::engine::generate_accumulator;
use bio_match::engine::generate_lookup_tables_individual;
use bio_match::engine::make_context_gpu;
use bio_match::engine::ClientKey;
use bio_match::engine::GlweSecretKey;
use bio_match::engine::LweSecretKey;
use bio_match::engine::Plaintext;
use bio_match::engine::ShortintEngine;
use bio_match::engine::ShortintParameterSet;

fn params_2_2() -> ShortintParameterSet {
    ShortintParameterSet { message_modulus: 4, carry_modulus: 4 }
}

#[test]
fn total_and_delta_for_two_bit_messages() {
    let (total, delta) = compute_total_and_delta(params_2_2());
    assert_eq!(total, 16);
    assert_eq!(delta, 1u64 << 59);
    assert_eq!(delta * total, 1u64 << 63);
}

#[test]
fn encode_places_message_in_top_bits() {
    let (total, delta) = compute_total_and_delta(params_2_2());
    let p = encode(5, total, delta);
    assert_eq!(p.0, 5 * delta);
    // messages reduce into the message space first
    let q = encode(21, total, delta);
    assert_eq!(q.0, 5 * delta);
}

#[test]
fn decode_inverts_encode() {
    let (total, delta) = compute_total_and_delta(params_2_2());
    for m in 0u64..16 {
        let p = encode(m, total, delta);
        assert_eq!(decode(&p, delta), m % total);
    }
}

#[test]
fn decode_rounds_small_noise_away() {
    let (_total, delta) = compute_total_and_delta(params_2_2());
    for m in 0u64..16 {
        for noise in [0u64, 1, 17, delta / 2 - 1] {
            let p = Plaintext(m * delta + noise);
            assert_eq!(decode(&p, delta), m);
        }
    }
}

#[test]
fn decode_rounds_up_noise_of_half_a_step_or_more() {
    let (_total, delta) = compute_total_and_delta(params_2_2());
    // noise in [delta/2, delta) stands for the next message with negative
    // decryption noise and rounds up to it
    for m in 0u64..15 {
        for noise in [delta / 2, delta / 2 + 1, delta - 1] {
            let p = Plaintext(m * delta + noise);
            assert_eq!(decode(&p, delta), m + 1);
        }
    }
    // rounding up past the top of the word wraps to zero
    let p = Plaintext(u64::MAX);
    assert_eq!(decode(&p, delta), 0);
}

#[test]
fn encrypt_then_decrypt_recovers_the_message() {
    let (total, delta) = compute_total_and_delta(params_2_2());
    let (_stream, mut engine) = make_context_gpu();
    let sk = LweSecretKey {};
    for m in [0u64, 3, 7, 15, 16, 31] {
        let ct = encrypt(m, &mut engine, &sk, params_2_2(), total, delta);
        assert_eq!(decrypt(&ct, &sk, delta), m % total);
    }
}

#[test]
fn ciphertext_lists_round_trip() {
    let (total, delta) = compute_total_and_delta(params_2_2());
    let (_stream, mut engine) = make_context_gpu();
    let sk = LweSecretKey {};
    let values: Vec<u64> = vec![0, 1, 5, 15, 3];
    let list = encrypt_ciphertextlist(values.clone(), &mut engine, &sk, total, delta, params_2_2());
    let decrypted = decrypt_ciphertextlist(&list, &GlweSecretKey {}, delta);
    assert_eq!(decrypted, values);
}

#[test]
fn accumulator_tabulates_the_lookup_over_the_message_domain() {
    let config = Config {
        data_set_name: "synthetic",
        num_blocks: 2,
        num_blocks_sum: 2,
        block_length: 2,
        num_tables: 1,
        threshold: 0,
    };
    // One feature: normalized entries 6 and 9 under template code 0.
    let tables: Vec<Vec<Vec<i32>>> = vec![vec![vec![6, 0], vec![9, 0]]];
    let template: Vec<u8> = vec![0];
    let (features, _thr) = generate_functions_const_length(&template, tables, &config);
    // block 0 digits: 6 % 4 = 2 at probe 0, 0 at probe 1; 0 beyond range.
    let (acc, degree) = generate_accumulator(4, 4, &features[0], 0);
    assert_eq!(acc.vals.len(), 16);
    assert_eq!(acc.vals[0], 2);
    assert_eq!(acc.vals[1], 0);
    for i in 2..16 {
        assert_eq!(acc.vals[i], 0);
    }
    assert_eq!(degree, 2);
}

#[test]
fn individual_lookup_tables_cover_every_block() {
    let config = Config {
        data_set_name: "synthetic",
        num_blocks: 2,
        num_blocks_sum: 2,
        block_length: 2,
        num_tables: 1,
        threshold: 0,
    };
    let tables: Vec<Vec<Vec<i32>>> = vec![vec![vec![6, 0], vec![9, 0]]];
    let template: Vec<u8> = vec![1];
    let (features, _thr) = generate_functions_const_length(&template, tables, &config);
    let client_key = ClientKey {
        glwe_secret_key: GlweSecretKey {},
        lwe_secret_key: LweSecretKey {},
        parameters: params_2_2(),
    };
    let mut engine = ShortintEngine {};
    let luts = generate_lookup_tables_individual(&features, &client_key, params_2_2(), &mut engine);
    assert_eq!(luts.len(), 1);
    assert_eq!(luts[0].len(), 2);
    // template code 1, probe 0: normalized 9 = (1, 2) base 4
    assert_eq!(luts[0][0].acc.vals[0], 1);
    assert_eq!(luts[0][1].acc.vals[0], 2);
    // each table's degree is the largest output it can produce
    assert_eq!(luts[0][0].degree, 1);
    assert_eq!(luts[0][1].degree, 2);
}

#[test]
fn radix_encryption_replicates_each_feature_code() {
    let (total, delta) = compute_total_and_delta(params_2_2());
    let (_stream, mut engine) = make_context_gpu();
    let sk = LweSecretKey {};
    let config = Config {
        data_set_name: "synthetic",
        num_blocks: 3,
        num_blocks_sum: 3,
        block_length: 2,
        num_tables: 2,
        threshold: 0,
    };
    let cts = encrypt_feature_vec_radix(vec![2u8, 5], &mut engine, &sk, params_2_2(), total, delta, &config);
    assert_eq!(cts.len(), 2);
    for f in 0..2 {
        assert_eq!(cts[f].len(), 3);
    }
    for b in 0..3 {
        assert_eq!(decrypt(&cts[0][b], &sk, delta), 2);
        assert_eq!(decrypt(&cts[1][b], &sk, delta), 5);
    }
}
