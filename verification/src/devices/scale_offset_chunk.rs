use vstd::prelude::*;

use super::offset::{HeldOffsets, MAX_HELD};
use crate::output_value::OutputValue;

verus! {

/// Remainder of `n` by a positive `m`, always in `0..m`.
pub fn modulo(n: i32, m: i32) -> (r: i32)
    requires
        m > 0,
    ensures
        r == n as int % m as int,
{
    let r = if n >= 0 {
        n % m
    } else {
        let k = ((-(n as i64)) % (m as i64)) as i32;
        if k == 0 { 0 } else { m - k }
    };
    proof {
        let ni = n as int;
        let mi = m as int;
        if ni < 0 {
            let q = (-ni) / mi;
            let k = (-ni) % mi;
            vstd::arithmetic::div_mod::lemma_fundamental_div_mod(-ni, mi);
            if k == 0 {
                assert(ni == (-q) * mi + 0) by (nonlinear_arith)
                    requires -ni == mi * q + k, k == 0;
                vstd::arithmetic::div_mod::lemma_fundamental_div_mod_converse(ni, mi, -q, 0);
            } else {
                assert(ni == (-q - 1) * mi + (mi - k)) by (nonlinear_arith)
                    requires -ni == mi * q + k;
                vstd::arithmetic::div_mod::lemma_fundamental_div_mod_converse(ni, mi, -q - 1, mi - k);
            }
        }
    }
    r
}

/// Selects the scale's mode (0 to 6) by the sum of the held offset triggers.
pub struct ScaleOffsetChunk {
    held: HeldOffsets,
}

impl ScaleOffsetChunk {
    pub closed spec fn held(&self) -> HeldOffsets {
        self.held
    }

    pub fn new() -> (r: ScaleOffsetChunk)
        ensures
            r.held().ids() == Seq::<u32>::empty(),
            r.held().well_formed(),
    {
        ScaleOffsetChunk { held: HeldOffsets::new() }
    }

    /// A trigger changed value; returns the mode the scale now takes.
    pub fn trigger(&mut self, id: u32, value: OutputValue) -> (r: i32)
        requires
            old(self).held().well_formed(),
            old(self).held().ids().len() + 1 < MAX_HELD,
        ensures
            final(self).held().well_formed(),
            final(self).held().ids().to_set() == match value {
                OutputValue::Off => old(self).held().ids().to_set().remove(id),
                OutputValue::On(_) => old(self).held().ids().to_set().insert(id),
            },
            r == final(self).held().total() % 7,
            0 <= r < 7,
    {
        let total = self.held.trigger(id, value);
        modulo(total, 7)
    }
}

} // verus!
