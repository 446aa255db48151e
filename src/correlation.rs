//! Correlation identifiers for requests, drawn from the ordering unit that
//! processes the request and the request's position within it.

use vstd::prelude::*;

verus! {

/// The ordering unit that operations are processed in: its height and the
/// randomness seed that the ordering layer supplied for it.
#[derive(Clone, Copy, Debug, PartialEq, Eq, Structural)]
pub struct OrderingUnit {
    pub height: u64,
    pub seed: u32,
}

pub const HEIGHT_SHIFT: u128 = 0x1_0000_0000_0000_0000;

pub const SEED_SHIFT: u128 = 0x1_0000_0000;

/// The identifier of the request at `position` in the unit of `height` and
/// `seed`: the three packed side by side, so that distinct inputs never meet.
pub open spec fn correlation_id(height: u64, seed: u32, position: u32) -> int {
    height as int * HEIGHT_SHIFT as int + seed as int * SEED_SHIFT as int + position as int
}

impl OrderingUnit {
    /// The identifier of the request processed at `position` in this unit.
    pub fn correlation_id(&self, position: u32) -> (id: u128)
        ensures
            id as int == correlation_id(self.height, self.seed, position),
    {
        let h = self.height as u128;
        let s = self.seed as u128;
        proof {
            assert(h * HEIGHT_SHIFT <= 0xffff_ffff_ffff_ffff * HEIGHT_SHIFT) by (nonlinear_arith)
                requires
                    h <= 0xffff_ffff_ffff_ffff,
            ;
            assert(s * SEED_SHIFT <= 0xffff_ffff * SEED_SHIFT) by (nonlinear_arith)
                requires
                    s <= 0xffff_ffff,
            ;
        }
        h * HEIGHT_SHIFT + s * SEED_SHIFT + position as u128
    }
}

/// Two requests processed in the same ordering unit at different positions
/// get different identifiers.
pub proof fn lemma_positions_give_distinct_ids(unit: OrderingUnit, pos_a: u32, pos_b: u32)
    requires
        pos_a != pos_b,
    ensures
        correlation_id(unit.height, unit.seed, pos_a) != correlation_id(unit.height, unit.seed, pos_b),
{
}

/// Requests in ordering units of different heights get different identifiers,
/// whatever their seeds and positions.
pub proof fn lemma_heights_give_distinct_ids(u1: OrderingUnit, u2: OrderingUnit, pos_a: u32, pos_b: u32)
    requires
        u1.height != u2.height,
    ensures
        correlation_id(u1.height, u1.seed, pos_a) != correlation_id(u2.height, u2.seed, pos_b),
{
    let h1 = u1.height as int;
    let h2 = u2.height as int;
    let r1 = u1.seed as int * SEED_SHIFT as int + pos_a as int;
    let r2 = u2.seed as int * SEED_SHIFT as int + pos_b as int;
    assert(0 <= r1 < HEIGHT_SHIFT as int && 0 <= r2 < HEIGHT_SHIFT as int) by (nonlinear_arith)
        requires
            r1 == u1.seed as int * SEED_SHIFT as int + pos_a as int,
            r2 == u2.seed as int * SEED_SHIFT as int + pos_b as int,
            0 <= u1.seed <= 0xffff_ffff,
            0 <= u2.seed <= 0xffff_ffff,
            0 <= pos_a <= 0xffff_ffff,
            0 <= pos_b <= 0xffff_ffff,
            SEED_SHIFT == 0x1_0000_0000,
            HEIGHT_SHIFT == 0x1_0000_0000_0000_0000,
    ;
    assert(h1 * HEIGHT_SHIFT as int + r1 != h2 * HEIGHT_SHIFT as int + r2) by (nonlinear_arith)
        requires
            h1 != h2,
            0 <= r1 < HEIGHT_SHIFT as int,
            0 <= r2 < HEIGHT_SHIFT as int,
    ;
}

} // verus!
