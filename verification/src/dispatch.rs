//! Workgroup arithmetic shared by every compute pass.
use vstd::prelude::*;

verus! {

/// The least number of groups of `size` lanes that covers `lanes` lanes.
pub open spec fn groups_for(lanes: int, size: int) -> int {
    if lanes % size == 0 {
        lanes / size
    } else {
        lanes / size + 1
    }
}

/// Covering `lanes` takes exactly this many groups: one group fewer leaves a
/// lane out.
pub proof fn lemma_groups_cover(lanes: int, size: int)
    requires
        lanes >= 0,
        size > 0,
    ensures
        lanes <= groups_for(lanes, size) * size,
        groups_for(lanes, size) * size < lanes + size,
        groups_for(lanes, size) >= 0,
        groups_for(lanes, size) <= lanes,
        lanes > 0 ==> groups_for(lanes, size) >= 1,
{
    let q = lanes / size;
    let r = lanes % size;
    vstd::arithmetic::div_mod::lemma_fundamental_div_mod(lanes, size);
    assert(lanes == size * q + r);
    vstd::arithmetic::div_mod::lemma_mod_bound(lanes, size);
    vstd::arithmetic::div_mod::lemma_div_pos_is_pos(lanes, size);
    assert((q + 1) * size == size * q + size) by (nonlinear_arith);
    assert(q * size == size * q) by (nonlinear_arith);
    assert(q <= size * q) by (nonlinear_arith)
        requires
            q >= 0,
            size > 0,
    ;
}

/// `lanes / size`, rounded up.
pub fn group_count(lanes: u32, size: u32) -> (groups: u32)
    requires
        size > 0,
    ensures
        groups == groups_for(lanes as int, size as int),
{
    proof {
        lemma_groups_cover(lanes as int, size as int);
    }
    if lanes % size == 0 {
        lanes / size
    } else {
        lanes / size + 1
    }
}

/// `group_count`, but never fewer than one group: an empty dispatch is
/// still a dispatch of one group.
pub fn group_count_min_one(lanes: u32, size: u32) -> (groups: u32)
    requires
        size > 0,
    ensures
        groups == if lanes == 0 { 1 } else { groups_for(lanes as int, size as int) },
{
    if lanes == 0 {
        1
    } else {
        group_count(lanes, size)
    }
}

/// The groups are the fewest that hold all lanes: one group less would leave a
/// lane out, and no lanes need no group.
pub proof fn law_fewest_groups(lanes: int, size: int)
    requires
        lanes >= 0,
        size > 0,
    ensures
        lanes <= groups_for(lanes, size) * size,
        lanes > 0 ==> (groups_for(lanes, size) - 1) * size < lanes,
        lanes == 0 ==> groups_for(lanes, size) == 0,
{
    lemma_groups_cover(lanes, size);
    let g = groups_for(lanes, size);
    assert((g - 1) * size == g * size - size) by (nonlinear_arith);
    if lanes == 0 {
        vstd::arithmetic::div_mod::lemma_small_mod(0, size as nat);
        vstd::arithmetic::div_mod::lemma_basic_div(0, size);
    }
}

} // verus!
