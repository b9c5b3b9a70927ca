//! Score table compiler.
//!
//! A per-feature classifier score table holds one signed contribution for
//! every `(template code, probe code)` pair.  The compiler brings such tables
//! into the form a homomorphic table evaluation can consume:
//!
//! 1. **Offset normalization** — every entry of a table is shifted by that
//!    table's offset, `|table[0][last]|`, so the entries become nonnegative.
//!    The compiler trusts, without re-validating, the table generator's
//!    convention that this one cell bounds the most negative entry anywhere
//!    in the table; [`lemma_offset_soundness`] states exactly what holds when
//!    the convention is met, and nothing is promised when it is not (an entry
//!    that would stay negative wraps into the 32-bit unsigned domain).
//! 2. **Radix decomposition** — every normalized entry is split into
//!    `block_count` little-endian digits of `block_length` bits each.
//! 3. **Lookup compilation** — for one fixed template, each feature becomes
//!    an ordered family of small-domain lookups, one per digit: probe code in,
//!    digit out, with digit `0` substituted for any probe code outside the
//!    table's known range.  Under the early-stop policy a feature emits fewer
//!    lookups once all higher digits of its extremal cell are provably zero.

use vstd::prelude::*;
use vstd::arithmetic::power::pow;
use vstd::arithmetic::power::lemma_pow0;
use vstd::arithmetic::power2::pow2;
use vstd::arithmetic::div_mod::lemma_small_mod;
use vstd::arithmetic::div_mod::lemma_mod_add_multiples_vanish;
use vstd::arithmetic::div_mod::lemma_fundamental_div_mod;
use vstd::arithmetic::div_mod::lemma_mod_division_less_than_divisor;
use vstd::arithmetic::div_mod::lemma_div_pos_is_pos;
use vstd::arithmetic::mul::lemma_mul_inequality;
use crate::config::Config;
use crate::radix::digits_of;
use crate::radix::zero_digits;
use crate::radix::radix_value;
use crate::radix::lemma_digits_high_zero;
use crate::radix::lemma_value_of_padded;
use crate::radix::radix_of_block_length;
use crate::radix::decompose_value;

verus! {

/// Absolute value of a 32-bit entry, as a mathematical integer.
pub open spec fn abs_i32(x: i32) -> int {
    if x < 0 {
        -(x as int)
    } else {
        x as int
    }
}

/// The cell whose magnitude a table's normalization offset is taken from:
/// the last entry of the first row.
pub open spec fn base_cell(table: Seq<Seq<i32>>) -> i32 {
    table[0][table[0].len() - 1]
}

/// The normalization offset of one table: `|table[0][last]|`.
pub open spec fn local_offset(table: Seq<Seq<i32>>) -> int {
    abs_i32(base_cell(table))
}

/// The cumulated offset over all per-feature tables.
pub open spec fn total_offset(tables: Seq<Seq<Seq<i32>>>) -> int
    decreases tables.len(),
{
    if tables.len() == 0 {
        0
    } else {
        local_offset(tables[0]) + total_offset(tables.drop_first())
    }
}

/// Structural well-formedness of one score table: at least one row, the
/// first row nonempty, and a uniform row length.
pub open spec fn table_wf(table: Seq<Seq<i32>>) -> bool {
    &&& table.len() >= 1
    &&& table[0].len() >= 1
    &&& forall|i: int| 0 <= i < table.len() ==> #[trigger] table[i].len() == table[0].len()
}

/// The normalized value of entry `(i, j)`: the entry shifted by the table's
/// offset, wrapped into the unsigned 32-bit domain.  When the offset really
/// bounds the entry from below the wrap is the identity
/// (see [`lemma_offset_soundness`]).
pub open spec fn normalized_entry(table: Seq<Seq<i32>>, i: int, j: int) -> int {
    (table[i][j] + local_offset(table)) % 0x1_0000_0000
}

/// The cumulated offset is a sum of absolute values, hence nonnegative.
pub proof fn lemma_total_offset_nonneg(tables: Seq<Seq<Seq<i32>>>)
    ensures
        total_offset(tables) >= 0,
    decreases tables.len(),
{
    if tables.len() > 0 {
        lemma_total_offset_nonneg(tables.drop_first());
    }
}

/// Offset soundness, under the table generator's convention: whenever an
/// entry is bounded from below by `-|table[0][last]|`, its normalized value
/// is exactly `entry + offset`, and in particular nonnegative.  The compiler
/// does not re-validate the convention; for an entry that violates it the
/// normalized value is the 32-bit wrap instead.
pub proof fn lemma_offset_soundness(table: Seq<Seq<i32>>, i: int, j: int)
    requires
        table_wf(table),
        0 <= i < table.len(),
        0 <= j < table[i].len(),
        table[i][j] + local_offset(table) >= 0,
    ensures
        normalized_entry(table, i, j) == table[i][j] + local_offset(table),
        normalized_entry(table, i, j) >= 0,
{
    let s = table[i][j] + local_offset(table);
    assert(s < 0x1_0000_0000);
    lemma_small_mod(s as nat, 0x1_0000_0000nat);
}

/// Shift all score tables into the nonnegative domain.
///
/// Each table's offset is `|table[0][last]|`; every entry of that table is
/// shifted by it (wrapping in 32 bits if the offset convention is violated),
/// and the offsets of all tables are summed into the returned total offset.
pub fn offset_helr_table(helr_tables: Vec<Vec<Vec<i32>>>) -> (r: (Vec<Vec<Vec<u32>>>, i32))
    requires
        forall|t: int|
            0 <= t < helr_tables@.len() ==> table_wf(#[trigger] helr_tables.deep_view()[t]),
        forall|t: int|
            0 <= t < helr_tables@.len() ==> base_cell(#[trigger] helr_tables.deep_view()[t])
                > i32::MIN,
        total_offset(helr_tables.deep_view()) <= i32::MAX,
    ensures
        r.1 == total_offset(helr_tables.deep_view()),
        r.0@.len() == helr_tables@.len(),
        forall|t: int|
            0 <= t < r.0@.len() ==> (#[trigger] r.0@[t])@.len() == helr_tables@[t]@.len(),
        forall|t: int, i: int|
            0 <= t < r.0@.len() && 0 <= i < r.0@[t]@.len() ==> (#[trigger] r.0@[t]@[i])@.len()
                == helr_tables@[t]@[i]@.len(),
        forall|t: int, i: int, j: int|
            0 <= t < r.0@.len() && 0 <= i < r.0@[t]@.len() && 0 <= j < r.0@[t]@[i]@.len()
                ==> #[trigger] r.0@[t]@[i]@[j] == normalized_entry(
                helr_tables.deep_view()[t],
                i,
                j,
            ),
{
    let ghost all = helr_tables.deep_view();
    proof {
        assert(all.skip(0) =~= all);
    }
    let mut offset: i32 = 0;
    let mut tables: Vec<Vec<Vec<u32>>> = Vec::new();
    let n = helr_tables.len();
    let mut t: usize = 0;
    while t < n
        invariant
            t <= n,
            n == helr_tables@.len(),
            all == helr_tables.deep_view(),
            forall|k: int| 0 <= k < n ==> table_wf(#[trigger] all[k]),
            forall|k: int| 0 <= k < n ==> base_cell(#[trigger] all[k]) > i32::MIN,
            total_offset(all) <= i32::MAX,
            offset + total_offset(all.skip(t as int)) == total_offset(all),
            offset >= 0,
            tables@.len() == t,
            forall|k: int| 0 <= k < t ==> (#[trigger] tables@[k])@.len() == helr_tables@[k]@.len(),
            forall|k: int, i: int|
                0 <= k < t && 0 <= i < tables@[k]@.len() ==> (#[trigger] tables@[k]@[i])@.len()
                    == helr_tables@[k]@[i]@.len(),
            forall|k: int, i: int, j: int|
                0 <= k < t && 0 <= i < tables@[k]@.len() && 0 <= j < tables@[k]@[i]@.len()
                    ==> #[trigger] tables@[k]@[i]@[j] == normalized_entry(all[k], i, j),
        decreases n - t,
    {
        let helr = &helr_tables[t];
        proof {
            assert(all[t as int] == helr.deep_view());
            assert(all.skip(t as int)[0] == all[t as int]);
            assert(all.skip(t as int).drop_first() =~= all.skip(t as int + 1));
            lemma_total_offset_nonneg(all.skip(t as int + 1));
        }
        let row0 = &helr[0];
        let base = row0[row0.len() - 1];
        let local_off: i32 = if base < 0 {
            -base
        } else {
            base
        };
        assert(local_off == local_offset(all[t as int]));
        offset = offset + local_off;
        let new_helr = offset_one_table(helr, local_off, Ghost(all[t as int]));
        tables.push(new_helr);
        t = t + 1;
    }
    proof {
        assert(all.skip(n as int) =~= Seq::empty());
    }
    (tables, offset)
}

/// Shift every entry of one table by its offset.
fn offset_one_table(helr: &Vec<Vec<i32>>, local_off: i32, Ghost(tab): Ghost<Seq<Seq<i32>>>) -> (r:
    Vec<Vec<u32>>)
    requires
        tab == helr.deep_view(),
        local_off == local_offset(tab),
        local_off >= 0,
    ensures
        r@.len() == helr@.len(),
        forall|i: int| 0 <= i < r@.len() ==> (#[trigger] r@[i])@.len() == helr@[i]@.len(),
        forall|i: int, j: int|
            0 <= i < r@.len() && 0 <= j < r@[i]@.len() ==> #[trigger] r@[i]@[j]
                == normalized_entry(tab, i, j),
{
    let mut out: Vec<Vec<u32>> = Vec::new();
    let rows = helr.len();
    let mut i: usize = 0;
    while i < rows
        invariant
            i <= rows,
            rows == helr@.len(),
            tab == helr.deep_view(),
            local_off == local_offset(tab),
            local_off >= 0,
            out@.len() == i,
            forall|k: int| 0 <= k < i ==> (#[trigger] out@[k])@.len() == helr@[k]@.len(),
            forall|k: int, j: int|
                0 <= k < i && 0 <= j < out@[k]@.len() ==> #[trigger] out@[k]@[j]
                    == normalized_entry(tab, k, j),
        decreases rows - i,
    {
        let row = &helr[i];
        proof {
            assert(tab[i as int] == row.deep_view());
        }
        let mut new_row: Vec<u32> = Vec::new();
        let cols = row.len();
        let mut j: usize = 0;
        while j < cols
            invariant
                j <= cols,
                cols == row@.len(),
                tab[i as int] == row.deep_view(),
                0 <= (i as int) < tab.len(),
                local_off == local_offset(tab),
                local_off >= 0,
                new_row@.len() == j,
                forall|m: int|
                    0 <= m < j ==> #[trigger] new_row@[m] == normalized_entry(tab, i as int, m),
            decreases cols - j,
        {
            let entry = row[j];
            let s: i64 = entry as i64 + local_off as i64;
            let val: u32 = if s >= 0 {
                proof {
                    lemma_small_mod(s as nat, 0x1_0000_0000nat);
                }
                s as u32
            } else {
                proof {
                    lemma_mod_add_multiples_vanish(s as int, 0x1_0000_0000int);
                    lemma_small_mod((s + 0x1_0000_0000) as nat, 0x1_0000_0000nat);
                }
                (s + 0x1_0000_0000i64) as u32
            };
            assert(val == normalized_entry(tab, i as int, j as int));
            new_row.push(val);
            j = j + 1;
        }
        out.push(new_row);
        i = i + 1;
    }
    out
}

/// Decompose every entry of a normalized table into `block_count`
/// little-endian digits of `block_length` bits each.
pub fn decompose_helr_table(helr: &Vec<Vec<u32>>, block_length: usize, block_count: usize) -> (r:
    Vec<Vec<Vec<u64>>>)
    requires
        1 <= block_length <= 32,
    ensures
        r@.len() == helr@.len(),
        forall|i: int| 0 <= i < r@.len() ==> (#[trigger] r@[i])@.len() == helr@[i]@.len(),
        forall|i: int, j: int|
            0 <= i < r@.len() && 0 <= j < r@[i]@.len() ==> (#[trigger] r@[i]@[j])@ == digits_of(
                helr@[i]@[j] as int,
                pow2(block_length as nat) as int,
                block_count as nat,
            ),
{
    let radix = radix_of_block_length(block_length);
    let mut result: Vec<Vec<Vec<u64>>> = Vec::new();
    let rows = helr.len();
    let mut i: usize = 0;
    while i < rows
        invariant
            i <= rows,
            rows == helr@.len(),
            radix == pow2(block_length as nat),
            radix >= 1,
            result@.len() == i,
            forall|k: int| 0 <= k < i ==> (#[trigger] result@[k])@.len() == helr@[k]@.len(),
            forall|k: int, j: int|
                0 <= k < i && 0 <= j < result@[k]@.len() ==> (#[trigger] result@[k]@[j])@
                    == digits_of(
                    helr@[k]@[j] as int,
                    pow2(block_length as nat) as int,
                    block_count as nat,
                ),
        decreases rows - i,
    {
        let row = &helr[i];
        let mut decomposed_entry: Vec<Vec<u64>> = Vec::new();
        let cols = row.len();
        let mut j: usize = 0;
        while j < cols
            invariant
                j <= cols,
                cols == row@.len(),
                row@ == helr@[i as int]@,
                radix == pow2(block_length as nat),
                radix >= 1,
                decomposed_entry@.len() == j,
                forall|m: int|
                    0 <= m < j ==> (#[trigger] decomposed_entry@[m])@ == digits_of(
                        row@[m] as int,
                        pow2(block_length as nat) as int,
                        block_count as nat,
                    ),
            decreases cols - j,
        {
            let value = row[j];
            let blocks = decompose_value(value as u64, radix, block_count);
            decomposed_entry.push(blocks);
            j = j + 1;
        }
        result.push(decomposed_entry);
        i = i + 1;
    }
    result
}

/// One feature's compiled lookup family: the decomposed digit table shared by
/// all of the feature's digit lookups, the fixed template code they close
/// over, and how many digit lookups the feature emits.
///
/// Lookup `b` of the family is the pure function `probe -> digit b of the
/// normalized score of (template code, probe)`, with digit `0` substituted
/// for any probe code outside the table's known range.
pub struct CompiledFeature {
    /// Decomposed digits, indexed `[template code][probe code][block]`.
    pub digits: Vec<Vec<Vec<u64>>>,
    /// The template's quantized code for this feature.
    pub template_code: usize,
    /// Number of digit lookups emitted: `num_blocks`, or fewer under early stop.
    pub num_lookups: usize,
}

impl CompiledFeature {
    /// The domain of probe codes the underlying table knows.
    pub open spec fn dim(self) -> int {
        self.digits@[0]@.len() as int
    }

    pub open spec fn wf(self) -> bool {
        &&& self.digits@.len() >= 1
        &&& self.template_code < self.digits@.len()
        &&& forall|i: int|
            0 <= i < self.digits@.len() ==> (#[trigger] self.digits@[i])@.len()
                == self.digits@[0]@.len()
        &&& forall|i: int, j: int|
            0 <= i < self.digits@.len() && 0 <= j < self.digits@[i]@.len() ==> (
            #[trigger] self.digits@[i]@[j])@.len() >= self.num_lookups
    }

    /// What digit lookup `block` returns for probe code `probe`: the stored
    /// digit inside the known range, `0` outside it.
    pub open spec fn spec_eval(self, block: int, probe: u64) -> u64 {
        if (probe as int) < self.dim() {
            self.digits@[self.template_code as int]@[probe as int]@[block]
        } else {
            0u64
        }
    }

    /// Evaluate one digit lookup of the family.
    pub fn eval(&self, block: usize, probe: u64) -> (r: u64)
        requires
            self.wf(),
            block < self.num_lookups,
        ensures
            r == self.spec_eval(block as int, probe),
    {
        let dim = self.digits[0].len();
        if probe < dim as u64 {
            self.digits[self.template_code][probe as usize][block]
        } else {
            0
        }
    }
}

/// A reference to one digit lookup inside a set of compiled features: the
/// flattened pipeline pairs each replicated probe code with one of these.
#[derive(Clone, Copy, PartialEq, Eq, Structural, Debug)]
pub struct LookupSlot {
    pub feature: usize,
    pub block: usize,
}

/// A slot is valid for a feature set when it points at an existing digit
/// lookup of a well-formed feature.
pub open spec fn slot_wf(slot: LookupSlot, features: Seq<CompiledFeature>) -> bool {
    &&& (slot.feature as int) < features.len()
    &&& features[slot.feature as int].wf()
    &&& slot.block < features[slot.feature as int].num_lookups
}

/// How many digit lookups the early-stop policy emits for a feature whose
/// extremal normalized cell is `v`: one per block until the cell,
/// right-shifted block by block, reaches zero — capped at `num_blocks`.
pub open spec fn early_block_count(v: int, radix: int, num_blocks: nat) -> nat
    decreases num_blocks,
{
    if num_blocks == 0 {
        0
    } else if v <= 0 {
        0
    } else {
        1 + early_block_count(v / radix, radix, (num_blocks - 1) as nat)
    }
}

/// The early-stop count never exceeds the block count, and when it stops
/// short the extremal cell fits in the emitted digits.
pub proof fn lemma_early_count_bound(v: int, radix: int, num_blocks: nat)
    requires
        v >= 0,
        radix >= 2,
    ensures
        early_block_count(v, radix, num_blocks) <= num_blocks,
        early_block_count(v, radix, num_blocks) < num_blocks ==> v < pow(
            radix,
            early_block_count(v, radix, num_blocks),
        ),
    decreases num_blocks,
{
    let k = early_block_count(v, radix, num_blocks);
    if num_blocks == 0 {
    } else if v <= 0 {
        lemma_pow0(radix);
    } else {
        lemma_div_pos_is_pos(v, radix);
        lemma_early_count_bound(v / radix, radix, (num_blocks - 1) as nat);
        if k < num_blocks {
            let k1 = (k - 1) as nat;
            let p = pow(radix, k1);
            assert(v / radix < p);
            lemma_fundamental_div_mod(v, radix);
            lemma_mod_division_less_than_divisor(v, radix);
            assert(radix * (v / radix) <= radix * (p - 1)) by {
                lemma_mul_inequality(v / radix, p - 1, radix);
                vstd::arithmetic::mul::lemma_mul_is_commutative(radix, v / radix);
                vstd::arithmetic::mul::lemma_mul_is_commutative(radix, p - 1);
            }
            assert(radix * (p - 1) == radix * p - radix) by {
                vstd::arithmetic::mul::lemma_mul_is_distributive_sub(radix, p, 1);
            }
            assert(pow(radix, k) == radix * p) by {
                vstd::arithmetic::power::lemma_pow1(radix);
                vstd::arithmetic::power::lemma_pow_adds(radix, 1, k1);
            }
        }
    }
}

/// What every compiled lookup family promises about one source table: the
/// family is well formed, closes over the given template code, spans the
/// table's probe domain, and its stored digits are the radix decomposition of
/// the offset-normalized source entries.
pub open spec fn compiled_for(
    feature: CompiledFeature,
    table: Seq<Seq<i32>>,
    template_code: u8,
    block_length: nat,
    num_blocks: nat,
) -> bool {
    &&& feature.wf()
    &&& feature.template_code == template_code
    &&& feature.dim() == table[0].len()
    &&& feature.digits@.len() == table.len()
    &&& forall|i: int, j: int|
        0 <= i < feature.digits@.len() && 0 <= j < feature.digits@[i]@.len() ==> (
        #[trigger] feature.digits@[i]@[j])@ == digits_of(
            normalized_entry(table, i, j),
            pow2(block_length) as int,
            num_blocks,
        )
}

/// Compile one normalized table into a feature's lookup family.
fn compile_feature(
    table: &Vec<Vec<u32>>,
    template_code: u8,
    config: &Config,
    early_stop: bool,
    Ghost(orig): Ghost<Seq<Seq<i32>>>,
) -> (r: CompiledFeature)
    requires
        config.wf(),
        table_wf(orig),
        table@.len() == orig.len(),
        forall|i: int| 0 <= i < table@.len() ==> (#[trigger] table@[i])@.len() == orig[i].len(),
        forall|i: int, j: int|
            0 <= i < table@.len() && 0 <= j < table@[i]@.len() ==> #[trigger] table@[i]@[j]
                == normalized_entry(orig, i, j),
        (template_code as int) < orig.len(),
    ensures
        compiled_for(
            r,
            orig,
            template_code,
            config.block_length as nat,
            config.num_blocks as nat,
        ),
        early_stop ==> r.num_lookups == early_block_count(
            normalized_entry(orig, 0, 0),
            pow2(config.block_length as nat) as int,
            config.num_blocks as nat,
        ),
        !early_stop ==> r.num_lookups == config.num_blocks,
        r.num_lookups <= config.num_blocks,
{
    let ghost radix_int = pow2(config.block_length as nat) as int;
    let decomposed = decompose_helr_table(table, config.block_length, config.num_blocks);
    let num_lookups: usize = if early_stop {
        let radix = radix_of_block_length(config.block_length);
        proof {
            vstd::arithmetic::power2::lemma2_to64();
            if config.block_length < 8 {
                vstd::arithmetic::power2::lemma_pow2_strictly_increases(
                    config.block_length as nat,
                    8,
                );
            }
        }
        let radix_small: u32 = radix as u32;
        let t00 = table[0][0];
        let ghost nb = config.num_blocks as nat;
        let mut k: usize = 0;
        let mut cur: u32 = t00;
        while k < config.num_blocks && cur > 0
            invariant
                k <= config.num_blocks,
                nb == config.num_blocks as nat,
                radix_small == radix_int,
                2 <= radix_small,
                early_block_count(t00 as int, radix_int, nb) == k + early_block_count(
                    cur as int,
                    radix_int,
                    (nb - k) as nat,
                ),
            decreases config.num_blocks - k,
        {
            proof {
                assert(early_block_count(cur as int, radix_int, (nb - k) as nat) == 1
                    + early_block_count(
                    cur as int / radix_int,
                    radix_int,
                    (nb - k - 1) as nat,
                ));
            }
            cur = cur / radix_small;
            k = k + 1;
        }
        assert(early_block_count(cur as int, radix_int, (nb - k) as nat) == 0);
        k
    } else {
        config.num_blocks
    };
    let feature = CompiledFeature { digits: decomposed, template_code: template_code as usize, num_lookups };
    proof {
        assert forall|i: int, j: int|
            0 <= i < feature.digits@.len() && 0 <= j < feature.digits@[i]@.len() implies (
        #[trigger] feature.digits@[i]@[j])@.len() >= feature.num_lookups by {
            crate::radix::lemma_digits_len(
                normalized_entry(orig, i, j),
                radix_int,
                config.num_blocks as nat,
            );
        }
        assert(feature.wf());
    }
    feature
}

/// Compile all score tables for one template into per-feature lookup
/// families of the full fixed length (`num_blocks` digit lookups each), and
/// shift the decision threshold by the cumulated offset into the same
/// nonnegative domain as the normalized scores.
pub fn generate_functions_const_length(
    template: &Vec<u8>,
    helr_tables: Vec<Vec<Vec<i32>>>,
    config: &Config,
) -> (r: (Vec<CompiledFeature>, usize))
    requires
        config.wf(),
        template@.len() == helr_tables@.len(),
        forall|t: int|
            0 <= t < helr_tables@.len() ==> table_wf(#[trigger] helr_tables.deep_view()[t]),
        forall|t: int|
            0 <= t < helr_tables@.len() ==> base_cell(#[trigger] helr_tables.deep_view()[t])
                > i32::MIN,
        total_offset(helr_tables.deep_view()) <= i32::MAX,
        forall|t: int|
            0 <= t < helr_tables@.len() ==> (template@[t] as int) < helr_tables.deep_view()[t].len(),
        0 <= config.threshold + total_offset(helr_tables.deep_view()),
        config.threshold + total_offset(helr_tables.deep_view()) <= usize::MAX,
        config.threshold + total_offset(helr_tables.deep_view()) <= i64::MAX,
    ensures
        r.1 == config.threshold + total_offset(helr_tables.deep_view()),
        r.0@.len() == helr_tables@.len(),
        forall|f: int|
            0 <= f < r.0@.len() ==> compiled_for(
                #[trigger] r.0@[f],
                helr_tables.deep_view()[f],
                template@[f],
                config.block_length as nat,
                config.num_blocks as nat,
            ),
        forall|f: int| 0 <= f < r.0@.len() ==> (#[trigger] r.0@[f]).num_lookups
            == config.num_blocks,
{
    generate_functions(template, helr_tables, config, false)
}

/// Compile all score tables for one template, emitting for each feature only
/// the digit lookups the early-stop policy keeps: starting from block 0, a
/// feature stops once its normalized cell at `[0][0]`, right-shifted by
/// `block_index * block_length` bits, reaches zero.  The policy is sound
/// exactly when that cell holds the table's extremal normalized value
/// ([`lemma_early_stop_equivalence`]).
pub fn generate_functions_stop_early(
    template: &Vec<u8>,
    helr_tables: Vec<Vec<Vec<i32>>>,
    config: &Config,
) -> (r: (Vec<CompiledFeature>, usize))
    requires
        config.wf(),
        template@.len() == helr_tables@.len(),
        forall|t: int|
            0 <= t < helr_tables@.len() ==> table_wf(#[trigger] helr_tables.deep_view()[t]),
        forall|t: int|
            0 <= t < helr_tables@.len() ==> base_cell(#[trigger] helr_tables.deep_view()[t])
                > i32::MIN,
        total_offset(helr_tables.deep_view()) <= i32::MAX,
        forall|t: int|
            0 <= t < helr_tables@.len() ==> (template@[t] as int) < helr_tables.deep_view()[t].len(),
        0 <= config.threshold + total_offset(helr_tables.deep_view()),
        config.threshold + total_offset(helr_tables.deep_view()) <= usize::MAX,
        config.threshold + total_offset(helr_tables.deep_view()) <= i64::MAX,
    ensures
        r.1 == config.threshold + total_offset(helr_tables.deep_view()),
        r.0@.len() == helr_tables@.len(),
        forall|f: int|
            0 <= f < r.0@.len() ==> compiled_for(
                #[trigger] r.0@[f],
                helr_tables.deep_view()[f],
                template@[f],
                config.block_length as nat,
                config.num_blocks as nat,
            ),
        forall|f: int|
            0 <= f < r.0@.len() ==> (#[trigger] r.0@[f]).num_lookups == early_block_count(
                normalized_entry(helr_tables.deep_view()[f], 0, 0),
                pow2(config.block_length as nat) as int,
                config.num_blocks as nat,
            ),
        forall|f: int| 0 <= f < r.0@.len() ==> (#[trigger] r.0@[f]).num_lookups
            <= config.num_blocks,
{
    generate_functions(template, helr_tables, config, true)
}

/// Shared body of the two compilation entry points.
fn generate_functions(
    template: &Vec<u8>,
    helr_tables: Vec<Vec<Vec<i32>>>,
    config: &Config,
    early_stop: bool,
) -> (r: (Vec<CompiledFeature>, usize))
    requires
        config.wf(),
        template@.len() == helr_tables@.len(),
        forall|t: int|
            0 <= t < helr_tables@.len() ==> table_wf(#[trigger] helr_tables.deep_view()[t]),
        forall|t: int|
            0 <= t < helr_tables@.len() ==> base_cell(#[trigger] helr_tables.deep_view()[t])
                > i32::MIN,
        total_offset(helr_tables.deep_view()) <= i32::MAX,
        forall|t: int|
            0 <= t < helr_tables@.len() ==> (template@[t] as int) < helr_tables.deep_view()[t].len(),
        0 <= config.threshold + total_offset(helr_tables.deep_view()),
        config.threshold + total_offset(helr_tables.deep_view()) <= usize::MAX,
        config.threshold + total_offset(helr_tables.deep_view()) <= i64::MAX,
    ensures
        r.1 == config.threshold + total_offset(helr_tables.deep_view()),
        r.0@.len() == helr_tables@.len(),
        forall|f: int|
            0 <= f < r.0@.len() ==> compiled_for(
                #[trigger] r.0@[f],
                helr_tables.deep_view()[f],
                template@[f],
                config.block_length as nat,
                config.num_blocks as nat,
            ),
        early_stop ==> forall|f: int|
            0 <= f < r.0@.len() ==> (#[trigger] r.0@[f]).num_lookups == early_block_count(
                normalized_entry(helr_tables.deep_view()[f], 0, 0),
                pow2(config.block_length as nat) as int,
                config.num_blocks as nat,
            ),
        !early_stop ==> forall|f: int|
            0 <= f < r.0@.len() ==> (#[trigger] r.0@[f]).num_lookups == config.num_blocks,
        forall|f: int| 0 <= f < r.0@.len() ==> (#[trigger] r.0@[f]).num_lookups
            <= config.num_blocks,
{
    let ghost deep = helr_tables.deep_view();
    let (offset_helr_tables, offset) = offset_helr_table(helr_tables);
    let mut lut_vecs: Vec<CompiledFeature> = Vec::new();
    let n = offset_helr_tables.len();
    let mut idx: usize = 0;
    while idx < n
        invariant
            idx <= n,
            n == deep.len(),
            n == template@.len(),
            n == offset_helr_tables@.len(),
            config.wf(),
            forall|t: int| 0 <= t < n ==> table_wf(#[trigger] deep[t]),
            forall|t: int| 0 <= t < n ==> (template@[t] as int) < deep[t].len(),
            forall|t: int|
                0 <= t < n ==> (#[trigger] offset_helr_tables@[t])@.len() == deep[t].len(),
            forall|t: int, i: int|
                0 <= t < n && 0 <= i < offset_helr_tables@[t]@.len() ==> (
                #[trigger] offset_helr_tables@[t]@[i])@.len() == deep[t][i].len(),
            forall|t: int, i: int, j: int|
                0 <= t < n && 0 <= i < offset_helr_tables@[t]@.len() && 0 <= j
                    < offset_helr_tables@[t]@[i]@.len()
                    ==> #[trigger] offset_helr_tables@[t]@[i]@[j] == normalized_entry(deep[t], i, j),
            lut_vecs@.len() == idx,
            forall|f: int|
                0 <= f < idx ==> compiled_for(
                    #[trigger] lut_vecs@[f],
                    deep[f],
                    template@[f],
                    config.block_length as nat,
                    config.num_blocks as nat,
                ),
            early_stop ==> forall|f: int|
                0 <= f < idx ==> (#[trigger] lut_vecs@[f]).num_lookups == early_block_count(
                    normalized_entry(deep[f], 0, 0),
                    pow2(config.block_length as nat) as int,
                    config.num_blocks as nat,
                ),
            !early_stop ==> forall|f: int|
                0 <= f < idx ==> (#[trigger] lut_vecs@[f]).num_lookups == config.num_blocks,
            forall|f: int| 0 <= f < idx ==> (#[trigger] lut_vecs@[f]).num_lookups
                <= config.num_blocks,
        decreases n - idx,
    {
        let feature = compile_feature(
            &offset_helr_tables[idx],
            template[idx],
            config,
            early_stop,
            Ghost(deep[idx as int]),
        );
        lut_vecs.push(feature);
        idx = idx + 1;
    }
    let threshold: i64 = config.threshold + offset as i64;
    (lut_vecs, threshold as usize)
}

/// Early-stop equivalence: for any normalized score `v` bounded by the
/// extremal cell the policy inspects, the digits the early-stop compilation
/// emits, padded with zeros to the full width, are exactly the digits of the
/// full fixed-length compilation — so every visible digit, and hence every
/// downstream sum and comparison, agrees between the two compilations.
///
/// The bound `v <= maxcell` is the documented soundness condition of the
/// policy: the cell at `[0][0]` must hold the table's true extremal value.
pub proof fn lemma_early_stop_equivalence(v: int, maxcell: int, radix: int, num_blocks: nat)
    requires
        0 <= v <= maxcell,
        2 <= radix <= 0x1_0000_0000_0000_0000,
    ensures
        digits_of(v, radix, early_block_count(maxcell, radix, num_blocks)) + zero_digits(
            (num_blocks - early_block_count(maxcell, radix, num_blocks)) as nat,
        ) =~= digits_of(v, radix, num_blocks),
        radix_value(
            digits_of(v, radix, early_block_count(maxcell, radix, num_blocks)) + zero_digits(
                (num_blocks - early_block_count(maxcell, radix, num_blocks)) as nat,
            ),
            radix,
        ) == radix_value(digits_of(v, radix, num_blocks), radix),
{
    lemma_early_count_bound(maxcell, radix, num_blocks);
    let k = early_block_count(maxcell, radix, num_blocks);
    if k == num_blocks {
        assert(digits_of(v, radix, k) + zero_digits(0) =~= digits_of(v, radix, num_blocks));
    } else {
        assert(v < pow(radix, k));
        lemma_digits_high_zero(v, radix, k, (num_blocks - k) as nat);
    }
    lemma_value_of_padded(digits_of(v, radix, k), radix, (num_blocks - k) as nat);
}

} // verus!
