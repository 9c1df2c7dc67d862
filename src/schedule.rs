use vstd::prelude::*;

verus! {

/// Seed of the random generator owned by the worker that renders `row`: the
/// base seed of the render advanced by the row index, modulo 2^64.
pub open spec fn seed_of(base: u64, row: nat) -> u64 {
    ((base as nat + row) % 0x1_0000_0000_0000_0000) as u64
}

/// Seed for the worker of one scanline.
pub fn scanline_seed(base: u64, row: usize) -> (r: u64)
    ensures
        r == seed_of(base, row as nat),
{
    base.wrapping_add(row as u64)
}

/// Workers of different scanlines get different seeds, so no two of them
/// draw the same random stream.
pub proof fn lemma_seeds_distinct(base: u64, row1: nat, row2: nat)
    requires
        row1 < 0x1_0000_0000_0000_0000,
        row2 < 0x1_0000_0000_0000_0000,
        row1 != row2,
    ensures
        seed_of(base, row1) != seed_of(base, row2),
{
    let m: int = 0x1_0000_0000_0000_0000;
    let a = base as int + row1;
    let b = base as int + row2;
    vstd::arithmetic::div_mod::lemma_fundamental_div_mod(a, m);
    vstd::arithmetic::div_mod::lemma_fundamental_div_mod(b, m);
    assert(a / m <= 1 && b / m <= 1 && a / m >= 0 && b / m >= 0) by {
        vstd::arithmetic::div_mod::lemma_div_is_ordered(a, 2 * m - 1, m);
        vstd::arithmetic::div_mod::lemma_div_is_ordered(b, 2 * m - 1, m);
        vstd::arithmetic::div_mod::lemma_div_pos_is_pos(a, m);
        vstd::arithmetic::div_mod::lemma_div_pos_is_pos(b, m);
        vstd::arithmetic::div_mod::lemma_fundamental_div_mod_converse(2 * m - 1, m, 1, m - 1);
    }
}

} // verus!
