//! A bank of equal-length single-cycle tables with phase-indexed,
//! wrap-around linear reads and cross-table morphing.

use vstd::prelude::*;
use crate::fixed::FP_ONE;
use crate::fixed::AMP_LIMIT;
use crate::fixed::MAX_LEN;
use crate::fixed::bounded;
use crate::fixed::fp_mul_spec;
use crate::fixed::fp_mul;
use crate::fixed::rem_euclid_i64;
use crate::fixed::lemma_fp_mul_bound;

verus! {

/// A set of single-cycle tables, all of one fixed length.
#[derive(Debug, Clone)]
pub struct Wavetable {
    pub tables: Vec<Vec<i64>>,
    pub table_size: usize,
}

impl Wavetable {
    /// Structural validity: a usable size and equally long, bounded tables.
    pub open spec fn well_formed(self) -> bool {
        &&& 1 <= self.table_size <= MAX_LEN
        &&& self.tables.len() <= MAX_LEN
        &&& forall|t: int|
            0 <= t < self.tables@.len() ==> (#[trigger] self.tables@[t]).len() == self.table_size
        &&& forall|t: int|
            0 <= t < self.tables@.len() ==> bounded(
                #[trigger] self.tables@[t]@,
                AMP_LIMIT as int,
            )
    }

    /// An empty bank of tables of length `table_size`.
    pub fn new(table_size: usize) -> (r: Wavetable)
        requires
            1 <= table_size <= MAX_LEN,
        ensures
            r.well_formed(),
            r.table_size == table_size,
            r.tables.len() == 0,
    {
        Wavetable { tables: Vec::new(), table_size }
    }

    /// Append one table; it must have exactly the bank's table length.
    pub fn add_table(&mut self, table: Vec<i64>)
        requires
            old(self).well_formed(),
            old(self).tables.len() < MAX_LEN,
            table.len() == old(self).table_size,
            bounded(table@, AMP_LIMIT as int),
        ensures
            final(self).well_formed(),
            final(self).table_size == old(self).table_size,
            final(self).tables@ == old(self).tables@.push(table),
    {
        self.tables.push(table);
    }

    /// The value a phase reads from table `table_idx` (indices wrap around
    /// the bank): the fractional phase scaled to the table length, read with
    /// wrap-around linear interpolation.
    pub open spec fn sample_spec(self, table_idx: int, phase: int) -> int {
        let t = self.tables@[table_idx % (self.tables@.len() as int)]@;
        let p = phase % (FP_ONE as int);
        let idx = p * (self.table_size as int);
        let i = idx / (FP_ONE as int);
        let nx = (i + 1) % (self.table_size as int);
        let frac = idx % (FP_ONE as int);
        t[i] as int + fp_mul_spec(t[nx] as int - t[i] as int, frac)
    }

    /// Read one table at a Q32 phase (any value; the fractional part is
    /// used, negatives wrap up).
    pub fn sample_from_table(&self, table_idx: usize, phase: i64) -> (r: i64)
        requires
            self.well_formed(),
            self.tables.len() > 0,
            (i64::MIN as int) < (phase as int),
        ensures
            r as int == self.sample_spec(table_idx as int, phase as int),
            -3 * AMP_LIMIT <= r <= 3 * AMP_LIMIT,
    {
        let ti = table_idx % self.tables.len();
        let p = rem_euclid_i64(phase, FP_ONE);
        proof {
            assert((p as int) * (self.table_size as int) <= 72057594037927936)
                by (nonlinear_arith)
                requires
                    0 <= p < FP_ONE,
                    FP_ONE == 4294967296i64,
                    0 <= self.table_size <= MAX_LEN,
                    MAX_LEN == 16777216usize,
            ;
            vstd::arithmetic::mul::lemma_mul_nonnegative(p as int, self.table_size as int);
        }
        let idx: i64 = p * (self.table_size as i64);
        proof {
            vstd::arithmetic::div_mod::lemma_fundamental_div_mod(idx as int, FP_ONE as int);
            vstd::arithmetic::div_mod::lemma_mod_bound(idx as int, FP_ONE as int);
            assert((idx as int) / (FP_ONE as int) < self.table_size as int) by (nonlinear_arith)
                requires
                    idx as int == (p as int) * (self.table_size as int),
                    0 <= p < FP_ONE,
                    FP_ONE == 4294967296i64,
                    1 <= self.table_size as int,
                    (idx as int) == (FP_ONE as int) * ((idx as int) / (FP_ONE as int)) + (idx
                    as int) % (FP_ONE as int),
                    0 <= (idx as int) % (FP_ONE as int) < FP_ONE as int,
            ;
        }
        let iu: i64 = idx / FP_ONE;
        let i: usize = (iu as usize) % self.table_size;
        proof {
            vstd::arithmetic::div_mod::lemma_small_mod(iu as nat, self.table_size as nat);
        }
        let nx: usize = (i + 1) % self.table_size;
        let frac: i64 = idx - iu * FP_ONE;
        let table = &self.tables[ti];
        let a = table[i];
        let b = table[nx];
        proof {
            lemma_fp_mul_bound(
                b as int - a as int,
                frac as int,
                2 * AMP_LIMIT as int,
                FP_ONE as int,
                2 * AMP_LIMIT as int,
            );
        }
        a + fp_mul(b - a, frac)
    }

    /// Blend the reads of two tables at one phase by `pos` in [0, 1].
    pub fn morph_sample(&self, idx0: usize, idx1: usize, pos: i64, phase: i64) -> (r: i64)
        requires
            self.well_formed(),
            self.tables.len() > 0,
            (i64::MIN as int) < (phase as int),
            0 <= pos <= FP_ONE,
        ensures
            r as int == self.sample_spec(idx0 as int, phase as int) + fp_mul_spec(
                self.sample_spec(idx1 as int, phase as int) - self.sample_spec(
                    idx0 as int,
                    phase as int,
                ),
                pos as int,
            ),
            -9 * AMP_LIMIT <= r <= 9 * AMP_LIMIT,
    {
        let s0 = self.sample_from_table(idx0, phase);
        let s1 = self.sample_from_table(idx1, phase);
        proof {
            lemma_fp_mul_bound(
                s1 as int - s0 as int,
                pos as int,
                6 * AMP_LIMIT as int,
                FP_ONE as int,
                6 * AMP_LIMIT as int,
            );
        }
        s0 + fp_mul(s1 - s0, pos)
    }
}

} // verus!
