use bio_match::compiler::decompose_helr_table;
use bio_match::compiler::generate_functions_const_length;
use bio_match::compiler::generate_functions_stop_early;
use bio_match::compiler::offset_helr_table;
use bio_match::config::Config;

fn small_config(block_length: usize, num_blocks: usize, num_tables: usize, threshold: i64) -> Config {
    Config {
        data_set_name: "synthetic",
        num_blocks,
        num_blocks_sum: num_blocks,
        block_length,
        num_tables,
        threshold,
    }
}

#[test]
fn offset_shifts_every_entry_by_the_base_cell() {
    // offset = |table[0][last]| = 3; every entry becomes entry + 3.
    let tables: Vec<Vec<Vec<i32>>> = vec![vec![vec![-1, -3], vec![2, 0]]];
    let (shifted, offset) = offset_helr_table(tables);
    assert_eq!(offset, 3);
    assert_eq!(shifted, vec![vec![vec![2u32, 0], vec![5, 3]]]);
}

#[test]
fn offset_sums_across_tables() {
    let tables: Vec<Vec<Vec<i32>>> = vec![
        vec![vec![0, -2]],
        vec![vec![5, 4]],
        vec![vec![-1, -7]],
    ];
    let (shifted, offset) = offset_helr_table(tables);
    // 2 + 4 + 7
    assert_eq!(offset, 13);
    assert_eq!(shifted[0], vec![vec![2u32, 0]]);
    assert_eq!(shifted[1], vec![vec![9u32, 8]]);
    assert_eq!(shifted[2], vec![vec![6u32, 0]]);
}

#[test]
fn offset_convention_is_not_revalidated() {
    // The base cell |-2| does not bound the entry -5; the compiler shifts
    // anyway and the violating entry wraps into the unsigned domain instead
    // of being rejected.
    let tables: Vec<Vec<Vec<i32>>> = vec![vec![vec![-5, -2]]];
    let (shifted, offset) = offset_helr_table(tables);
    assert_eq!(offset, 2);
    assert_eq!(shifted[0][0][0], (-3i64 as u32 as i64) as u32);
    assert_eq!(shifted[0][0][0], 4294967293u32);
    assert_eq!(shifted[0][0][1], 0);
}

#[test]
fn decompose_extracts_little_endian_digits() {
    // 27 in base 4 is (3, 2, 1) little-endian.
    let table: Vec<Vec<u32>> = vec![vec![27]];
    let digits = decompose_helr_table(&table, 2, 3);
    assert_eq!(digits, vec![vec![vec![3u64, 2, 1]]]);
}

#[test]
fn decompose_round_trips_for_all_small_radix_widths() {
    // Radix round-trip over block_length 1..=4 and block_count 1..=8:
    // reconstructing the digits of v yields v whenever v < radix^count.
    for block_length in 1usize..=4 {
        let radix: u128 = 1u128 << block_length;
        for block_count in 1usize..=8 {
            let bound: u128 = radix.pow(block_count as u32);
            let samples: Vec<u128> = vec![
                0,
                1,
                bound / 2,
                bound.saturating_sub(1),
                bound / 3,
            ];
            for &v in samples.iter() {
                let v = v % bound;
                let table: Vec<Vec<u32>> = vec![vec![v as u32]];
                let digits = decompose_helr_table(&table, block_length, block_count);
                let mut reconstructed: u128 = 0;
                let mut scale: u128 = 1;
                for b in 0..block_count {
                    reconstructed += digits[0][0][b] as u128 * scale;
                    scale *= radix;
                }
                assert_eq!(reconstructed, v);
            }
        }
    }
}

#[test]
fn const_length_compiles_digit_lookups() {
    let config = small_config(2, 3, 1, 5);
    // One feature, 2 template codes x 2 probe codes, offset 1.
    let tables: Vec<Vec<Vec<i32>>> = vec![vec![vec![26, -1], vec![0, 7]]];
    let template: Vec<u8> = vec![0];
    let (features, threshold) = generate_functions_const_length(&template, tables, &config);
    assert_eq!(threshold, 6);
    assert_eq!(features.len(), 1);
    assert_eq!(features[0].num_lookups, 3);
    // normalized entry (0,0) = 27 -> digits (3, 2, 1) in base 4
    assert_eq!(features[0].eval(0, 0), 3);
    assert_eq!(features[0].eval(1, 0), 2);
    assert_eq!(features[0].eval(2, 0), 1);
    // normalized entry (0,1) = 0 -> all digits zero
    assert_eq!(features[0].eval(0, 1), 0);
    assert_eq!(features[0].eval(1, 1), 0);
    // out-of-range probe codes fall back to digit 0
    assert_eq!(features[0].eval(0, 2), 0);
    assert_eq!(features[0].eval(2, 99), 0);
}

#[test]
fn stop_early_emits_fewer_lookups() {
    let config = small_config(2, 3, 1, 0);
    // Normalized extremal cell [0][0] = 3 + 1 = 4 = (0, 1) base 4: two
    // nonzero-bearing blocks, so only 2 of the 3 lookups are emitted.
    let tables: Vec<Vec<Vec<i32>>> = vec![vec![vec![3, -1], vec![2, 1]]];
    let template: Vec<u8> = vec![1];
    let (features, _threshold) = generate_functions_stop_early(&template, tables, &config);
    assert_eq!(features[0].num_lookups, 2);
    // template code 1, probe 0: normalized entry = 2 + 1 = 3 -> digits (3, 0)
    assert_eq!(features[0].eval(0, 0), 3);
    assert_eq!(features[0].eval(1, 0), 0);
}

#[test]
fn stop_early_zero_cell_emits_no_lookups() {
    let config = small_config(2, 3, 1, 0);
    // Normalized [0][0] is 0, so every digit is provably zero and the
    // feature emits no lookups at all.
    let tables: Vec<Vec<Vec<i32>>> = vec![vec![vec![-4, -4], vec![1, 2]]];
    let template: Vec<u8> = vec![0];
    let (features, _threshold) = generate_functions_stop_early(&template, tables, &config);
    assert_eq!(features[0].num_lookups, 0);
}

#[test]
fn stop_early_matches_const_length_on_emitted_blocks() {
    let config = small_config(2, 4, 1, 0);
    let tables: Vec<Vec<Vec<i32>>> = vec![vec![vec![9, -2], vec![4, 6]]];
    let template: Vec<u8> = vec![1];
    let (early, _) = generate_functions_stop_early(&template, tables.clone(), &config);
    let (full, _) = generate_functions_const_length(&template, tables, &config);
    assert_eq!(full[0].num_lookups, 4);
    assert!(early[0].num_lookups <= full[0].num_lookups);
    for probe in 0u64..2 {
        for b in 0..early[0].num_lookups {
            assert_eq!(early[0].eval(b, probe), full[0].eval(b, probe));
        }
        // every omitted digit is zero
        for b in early[0].num_lookups..full[0].num_lookups {
            assert_eq!(full[0].eval(b, probe), 0);
        }
    }
}
