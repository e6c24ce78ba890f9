//! Exclusive prefix scan over `u32` lanes.
//!
//! A scan works on blocks of 256 lanes at up to three levels, so it takes any
//! length up to 256 cubed. At each level a block pass replaces every lane by
//! the running total of its block and leaves the block's total one level up;
//! an add pass then bakes the scanned totals back into the level below.
//! [`scan_plan`] lists the passes in order; the passes themselves are
//! [`scan_block`] and [`add_offsets`].
use vstd::prelude::*;

use crate::dispatch::{group_count, group_count_min_one};
#[allow(unused_imports)]
use crate::dispatch::{groups_for, lemma_groups_cover};
use crate::pipelines::Pass;

verus! {

/// Longest input of a scan: three levels of 256 lanes.
pub const MAX_SCAN_LEN: u32 = 16777216;

/// Lanes per block.
pub const BLOCK: u32 = 256;

/// Sums wrap at this modulus.
pub open spec fn modulus() -> int {
    0x1_0000_0000
}

/// Sum of the first `i` lanes, without wrapping.
pub open spec fn prefix(s: Seq<u32>, i: int) -> int
    decreases i,
{
    if i <= 0 {
        0
    } else {
        prefix(s, i - 1) + s[i - 1]
    }
}

/// Sum of the lanes `lo..hi`, wrapped.
pub open spec fn wrapped_sum(s: Seq<u32>, lo: int, hi: int) -> u32 {
    ((prefix(s, hi) - prefix(s, lo)) % modulus()) as u32
}

/// First lane of the block that holds lane `i`.
pub open spec fn block_start(i: int) -> int {
    (i / 256) * 256
}

/// One past the last lane of block `b` among `n` lanes.
pub open spec fn block_end(b: int, n: int) -> int {
    if (b + 1) * 256 <= n {
        (b + 1) * 256
    } else {
        n
    }
}

/// What the block pass leaves in its lanes: each of the first `n` lanes
/// becomes the wrapped sum of the lanes before it in its block.
pub open spec fn block_scanned(s: Seq<u32>, n: int) -> Seq<u32> {
    Seq::new(
        s.len(),
        |i: int| if i < n { wrapped_sum(s, block_start(i), i) } else { s[i] },
    )
}

/// What the block pass leaves one level up: the wrapped total of each of the
/// first `groups` blocks.
pub open spec fn block_totals(s: Seq<u32>, n: int, groups: int, sums: Seq<u32>) -> Seq<u32> {
    Seq::new(
        sums.len(),
        |b: int| if b < groups { wrapped_sum(s, b * 256, block_end(b, n)) } else { sums[b] },
    )
}

/// What the add pass leaves in its lanes: each of the first `n` lanes takes
/// on the offset of its block.
pub open spec fn offset_added(s: Seq<u32>, offsets: Seq<u32>, n: int) -> Seq<u32> {
    Seq::new(
        s.len(),
        |i: int|
            if i < n {
                ((s[i] + offsets[i / 256]) % modulus()) as u32
            } else {
                s[i]
            },
    )
}

/// The exclusive scan of the first `n` lanes; lanes past them stay.
pub open spec fn exclusive_scan(s: Seq<u32>, n: int) -> Seq<u32> {
    Seq::new(s.len(), |i: int| if i < n { wrapped_sum(s, 0, i) } else { s[i] })
}

/// `prefix` grows with its bound.
pub proof fn lemma_prefix_monotone(s: Seq<u32>, lo: int, hi: int)
    requires
        lo <= hi,
    ensures
        0 <= prefix(s, lo) <= prefix(s, hi),
    decreases hi,
{
    if hi > 0 {
        if lo < hi {
            lemma_prefix_monotone(s, lo, hi - 1);
        } else {
            lemma_prefix_monotone(s, lo - 1, hi - 1);
        }
    }
}

proof fn lemma_mod_add(a: int, b: int)
    ensures
        ((a % modulus()) + (b % modulus())) % modulus() == (a + b) % modulus(),
        ((a % modulus()) + b) % modulus() == (a + b) % modulus(),
{
    vstd::arithmetic::div_mod::lemma_add_mod_noop(a, b, modulus());
    vstd::arithmetic::div_mod::lemma_add_mod_noop(a % modulus(), b, modulus());
    vstd::arithmetic::div_mod::lemma_mod_mod(a, modulus(), 1);
}

/// The scanned totals of the blocks before block `b` sum to what lies before
/// that block.
proof fn lemma_totals_prefix(s: Seq<u32>, n: int, totals: Seq<u32>, b: int)
    requires
        0 <= n <= s.len(),
        0 <= b,
        b * 256 <= n,
        b <= totals.len(),
        forall|k: int| 0 <= k < b ==> totals[k] == wrapped_sum(s, k * 256, block_end(k, n)),
    ensures
        prefix(totals, b) % modulus() == prefix(s, b * 256) % modulus(),
    decreases b,
{
    if b > 0 {
        lemma_totals_prefix(s, n, totals, b - 1);
        let lo = (b - 1) * 256;
        let hi = b * 256;
        assert(block_end(b - 1, n) == hi);
        assert(totals[b - 1] == wrapped_sum(s, lo, hi));
        let d = prefix(s, hi) - prefix(s, lo);
        lemma_mod_add(prefix(totals, b - 1), d % modulus());
        lemma_mod_add(prefix(s, lo), d);
        assert(prefix(totals, b) == prefix(totals, b - 1) + d % modulus());
        vstd::arithmetic::div_mod::lemma_add_mod_noop(
            prefix(totals, b - 1),
            d % modulus(),
            modulus(),
        );
        vstd::arithmetic::div_mod::lemma_add_mod_noop(prefix(s, lo), d % modulus(), modulus());
    }
}

/// Block pass, full scan of the block totals, add pass: together an
/// exclusive scan.
proof fn lemma_level(s: Seq<u32>, n: int, offsets: Seq<u32>, totals: Seq<u32>)
    requires
        0 < n <= s.len(),
        groups_for(n, 256) <= totals.len(),
        totals.len() <= offsets.len(),
        forall|k: int|
            0 <= k < groups_for(n, 256) ==> totals[k] == wrapped_sum(s, k * 256, block_end(k, n)),
        forall|b: int|
            0 <= b < groups_for(n, 256) ==> offsets[b] == wrapped_sum(totals, 0, b),
    ensures
        offset_added(block_scanned(s, n), offsets, n) =~= exclusive_scan(s, n),
{
    let scanned = block_scanned(s, n);
    let added = offset_added(scanned, offsets, n);
    let want = exclusive_scan(s, n);
    lemma_groups_cover(n, 256);
    assert forall|i: int| 0 <= i < s.len() implies added[i] == want[i] by {
        if i < n {
            let b = i / 256;
            assert(b * 256 <= i < (b + 1) * 256);
            assert(b < groups_for(n, 256));
            lemma_totals_prefix(s, n, totals, b);
            let head = prefix(s, b * 256);
            let tail = prefix(s, i) - head;
            assert(scanned[i] == tail % modulus());
            assert(offsets[b] == prefix(totals, b) % modulus());
            vstd::arithmetic::div_mod::lemma_add_mod_noop(tail, head, modulus());
        }
    }
}

/// With one block the block pass is already the whole scan.
proof fn lemma_single_block(s: Seq<u32>, n: int)
    requires
        0 < n <= 256,
        n <= s.len(),
    ensures
        block_scanned(s, n) =~= exclusive_scan(s, n),
{
    assert forall|i: int| 0 <= i < n implies block_start(i) == 0 by {}
}

/// The block pass: scans each of the `groups` blocks of the first `n` lanes
/// and records each block's total.
pub fn scan_block(data: &mut Vec<u32>, sums: &mut Vec<u32>, n: u32, groups: u32)
    requires
        n <= old(data).len(),
        groups == groups_for(n as int, 256),
        groups <= old(sums).len(),
    ensures
        final(data)@ == block_scanned(old(data)@, n as int),
        final(sums)@ == block_totals(old(data)@, n as int, groups as int, old(sums)@),
{
    let ghost before = data@;
    let ghost sums_before = sums@;
    proof {
        lemma_groups_cover(n as int, 256);
    }
    let mut b: u32 = 0;
    while b < groups
        invariant
            b <= groups,
            n <= before.len(),
            groups == groups_for(n as int, 256),
            groups <= sums_before.len(),
            data@.len() == before.len(),
            sums@.len() == sums_before.len(),
            groups * 256 < n + 256,
            n <= groups * 256,
            forall|k: int| 0 <= k < b ==> sums@[k] == wrapped_sum(before, k * 256, block_end(k, n as int)),
            forall|k: int| b <= k < sums@.len() ==> sums@[k] == sums_before[k],
            forall|k: int| 0 <= k < n && k < b * 256 ==> data@[k] == wrapped_sum(before, block_start(k), k),
            forall|k: int| b * 256 <= k < data@.len() || n <= k < data@.len() ==> data@[k] == before[k],
        decreases groups - b,
    {
        assert(b * 256 < n);
        let start: u32 = b * 256;
        let end: u32 = if n - start >= 256 {
            start + 256
        } else {
            n
        };
        assert(end == block_end(b as int, n as int));
        let mut acc: u32 = 0;
        let mut i: u32 = start;
        while i < end
            invariant
                b < groups,
                start == b * 256,
                start <= i <= end,
                end <= n <= before.len(),
                end == block_end(b as int, n as int),
                data@.len() == before.len(),
                acc == wrapped_sum(before, start as int, i as int),
                forall|k: int| 0 <= k < i ==> data@[k] == wrapped_sum(before, block_start(k), k),
                forall|k: int| i <= k < data@.len() ==> data@[k] == before[k],
            decreases end - i,
        {
            let x: u32 = data[i as usize];
            assert(block_start(i as int) == start);
            data.set(i as usize, acc);
            proof {
                let d = prefix(before, i as int) - prefix(before, start as int);
                lemma_mod_add(d, x as int);
                assert(prefix(before, i + 1) == prefix(before, i as int) + x);
            }
            acc = acc.wrapping_add(x);
            i = i + 1;
        }
        sums.set(b as usize, acc);
        b = b + 1;
    }
    assert(data@ =~= block_scanned(before, n as int));
    assert(sums@ =~= block_totals(before, n as int, groups as int, sums_before));
}

/// The add pass: adds each block's offset to the first `n` lanes.
pub fn add_offsets(data: &mut Vec<u32>, offsets: &Vec<u32>, n: u32)
    requires
        n <= old(data).len(),
        groups_for(n as int, 256) <= offsets.len(),
    ensures
        final(data)@ == offset_added(old(data)@, offsets@, n as int),
{
    let ghost before = data@;
    proof {
        lemma_groups_cover(n as int, 256);
    }
    let mut i: u32 = 0;
    while i < n
        invariant
            i <= n <= before.len(),
            data@.len() == before.len(),
            n <= groups_for(n as int, 256) * 256,
            groups_for(n as int, 256) <= offsets.len(),
            forall|k: int| 0 <= k < i ==> data@[k] == ((before[k] + offsets@[k / 256]) % modulus()) as u32,
            forall|k: int| i <= k < data@.len() ==> data@[k] == before[k],
        decreases n - i,
    {
        assert((i as int) / 256 < groups_for(n as int, 256));
        let b: u32 = i / 256;
        let x: u32 = data[i as usize];
        data.set(i as usize, x.wrapping_add(offsets[b as usize]));
        i = i + 1;
    }
    assert(data@ =~= offset_added(before, offsets@, n as int));
}

/// One pass of a scan. `n` is the lane count its parameters carry and
/// `groups` the number of workgroups it is dispatched with.
#[derive(Clone, Copy, Debug, PartialEq, Eq, Structural)]
pub enum ScanStep {
    /// Block pass over the data; totals go to the first sum level.
    ScanData { n: u32, groups: u32 },
    /// Block pass over the first sum level; totals go to the second.
    ScanSums1 { n: u32, groups: u32 },
    /// Block pass over the second sum level; its total goes to the spill lane.
    ScanSums2 { n: u32, groups: u32 },
    /// Add pass from the second sum level into the first.
    AddToSums1 { n: u32, groups: u32 },
    /// Add pass from the first sum level into the data.
    AddToData { n: u32, groups: u32 },
}

/// The passes of a scan and the lengths of its two sum levels.
pub struct ScanPlan {
    pub sums1_len: u32,
    pub sums2_len: u32,
    pub steps: Vec<ScanStep>,
}

/// The four buffers of a scan.
#[verifier::ext_equal]
pub struct ScanState {
    pub data: Seq<u32>,
    pub sums1: Seq<u32>,
    pub sums2: Seq<u32>,
    pub spill: Seq<u32>,
}

/// The buffers after one pass.
pub open spec fn step_effect(s: ScanState, step: ScanStep) -> ScanState {
    match step {
        ScanStep::ScanData { n, groups } => (ScanState {
            data: block_scanned(s.data, n as int),
            sums1: block_totals(s.data, n as int, groups as int, s.sums1),
            ..s
        }),
        ScanStep::ScanSums1 { n, groups } => (ScanState {
            sums1: block_scanned(s.sums1, n as int),
            sums2: block_totals(s.sums1, n as int, groups as int, s.sums2),
            ..s
        }),
        ScanStep::ScanSums2 { n, groups } => (ScanState {
            sums2: block_scanned(s.sums2, n as int),
            spill: block_totals(s.sums2, n as int, groups as int, s.spill),
            ..s
        }),
        ScanStep::AddToSums1 { n, groups } => (ScanState {
            sums1: offset_added(s.sums1, s.sums2, n as int),
            ..s
        }),
        ScanStep::AddToData { n, groups } => (ScanState {
            data: offset_added(s.data, s.sums1, n as int),
            ..s
        }),
    }
}

/// The buffers after the first `k` passes.
pub open spec fn run_steps(s: ScanState, steps: Seq<ScanStep>, k: int) -> ScanState
    decreases k,
{
    if k <= 0 {
        s
    } else {
        step_effect(run_steps(s, steps, k - 1), steps[k - 1])
    }
}

/// The passes of a scan of `n` lanes, in order.
pub open spec fn planned_steps(n: u32) -> Seq<ScanStep> {
    let l1 = groups_for(n as int, 256) as u32;
    let l2 = groups_for(l1 as int, 256) as u32;
    if n == 0 {
        seq![]
    } else if l1 == 1 {
        seq![ScanStep::ScanData { n: n, groups: l1 }]
    } else if l2 == 1 {
        seq![
            ScanStep::ScanData { n: n, groups: l1 },
            ScanStep::ScanSums1 { n: l1, groups: l2 },
            ScanStep::AddToData { n: n, groups: l1 },
        ]
    } else {
        seq![
            ScanStep::ScanData { n: n, groups: l1 },
            ScanStep::ScanSums1 { n: l1, groups: l2 },
            ScanStep::ScanSums2 { n: l2, groups: 1 },
            ScanStep::AddToSums1 { n: l1, groups: l2 },
            ScanStep::AddToData { n: n, groups: l1 },
        ]
    }
}

/// Running the planned passes over freshly zeroed sum levels leaves the data
/// exclusive-scanned.
pub proof fn law_plan_scans(data: Seq<u32>, n: u32)
    requires
        n <= MAX_SCAN_LEN,
        n <= data.len(),
    ensures
        ({
            let l1 = groups_for(n as int, 256);
            let l2 = groups_for(l1, 256);
            let start = ScanState {
                data,
                sums1: Seq::new(if l1 == 0 { 1 } else { l1 as nat }, |i: int| 0u32),
                sums2: Seq::new(if l2 == 0 { 1 } else { l2 as nat }, |i: int| 0u32),
                spill: seq![0u32],
            };
            run_steps(start, planned_steps(n), planned_steps(n).len() as int).data
                == exclusive_scan(data, n as int)
        }),
{
    let l1 = groups_for(n as int, 256);
    let l2 = groups_for(l1, 256);
    lemma_groups_cover(n as int, 256);
    lemma_groups_cover(l1, 256);
    let start = ScanState {
        data,
        sums1: Seq::new(if l1 == 0 { 1 } else { l1 as nat }, |i: int| 0u32),
        sums2: Seq::new(if l2 == 0 { 1 } else { l2 as nat }, |i: int| 0u32),
        spill: seq![0u32],
    };
    let steps = planned_steps(n);
    if n == 0 {
        assert(run_steps(start, steps, 0).data =~= exclusive_scan(data, 0));
    } else {
        let s1 = step_effect(start, steps[0]);
        reveal_with_fuel(run_steps, 6);
        assert(run_steps(start, steps, 1) == s1);
        if l1 == 1 {
            lemma_single_block(data, n as int);
        } else {
            let totals1 = s1.sums1;
            let s2 = step_effect(s1, steps[1]);
            assert(run_steps(start, steps, 2) == s2);
            if l2 == 1 {
                lemma_single_block(totals1, l1);
                lemma_level(data, n as int, s2.sums1, totals1);
            } else {
                let totals2 = s2.sums2;
                let s3 = step_effect(s2, steps[2]);
                let s4 = step_effect(s3, steps[3]);
                lemma_single_block(totals2, l2);
                lemma_level(totals1, l1, s3.sums2, totals2);
                lemma_level(data, n as int, s4.sums1, totals1);
                assert(run_steps(start, steps, 5) == step_effect(s4, steps[4]));
            }
        }
    }
}

/// The plan of a scan of `n` lanes.
pub fn scan_plan(n: u32) -> (plan: ScanPlan)
    requires
        n <= MAX_SCAN_LEN,
    ensures
        plan.steps@ == planned_steps(n),
        ({
            let l1 = groups_for(n as int, 256);
            let l2 = groups_for(l1, 256);
            &&& plan.sums1_len == if l1 == 0 { 1 } else { l1 }
            &&& plan.sums2_len == if l2 == 0 { 1 } else { l2 }
        }),
{
    proof {
        lemma_groups_cover(n as int, 256);
        lemma_groups_cover(groups_for(n as int, 256), 256);
    }
    let mut steps: Vec<ScanStep> = Vec::new();
    let l1: u32 = group_count(n, BLOCK);
    let l2: u32 = group_count(l1, BLOCK);
    if n > 0 {
        steps.push(ScanStep::ScanData { n, groups: l1 });
        if l1 > 1 {
            steps.push(ScanStep::ScanSums1 { n: l1, groups: l2 });
            if l2 > 1 {
                steps.push(ScanStep::ScanSums2 { n: l2, groups: 1 });
                steps.push(ScanStep::AddToSums1 { n: l1, groups: group_count_min_one(l1, BLOCK) });
            }
            steps.push(ScanStep::AddToData { n, groups: group_count_min_one(n, BLOCK) });
        }
    }
    assert(steps@ =~= planned_steps(n));
    ScanPlan {
        sums1_len: if l1 == 0 { 1 } else { l1 },
        sums2_len: if l2 == 0 { 1 } else { l2 },
        steps,
    }
}

/// Executor of a scan plan: the passes that a device runs for its steps, and
/// the same steps on the host.
#[derive(Clone, Copy, Debug)]
pub struct PrefixScan {
    /// Scans each block and leaves the block's sum in the level above.
    pub scan_pass: Pass,
    /// Adds the scanned sums of a level to the blocks below.
    pub add_pass: Pass,
}

impl PrefixScan {
    /// The passes are those of a scan.
    pub open spec fn wf(self) -> bool {
        &&& self.scan_pass == Pass::ScanBlock
        &&& self.add_pass == Pass::AddOffsets
    }

    pub fn new() -> (scan: Self)
        ensures
            scan.wf(),
    {
        PrefixScan { scan_pass: Pass::ScanBlock, add_pass: Pass::AddOffsets }
    }

    /// Exclusive-scans the first `n` lanes of `data` in place.
    pub fn scan(&self, data: &mut Vec<u32>, n: u32)
        requires
            n <= MAX_SCAN_LEN,
            n <= old(data).len(),
        ensures
            final(data)@ == exclusive_scan(old(data)@, n as int),
    {
        let plan = scan_plan(n);
        proof {
            lemma_groups_cover(n as int, 256);
            lemma_groups_cover(groups_for(n as int, 256), 256);
            law_plan_scans(data@, n);
        }
        let mut sums1: Vec<u32> = vec![0u32; plan.sums1_len as usize];
        let mut sums2: Vec<u32> = vec![0u32; plan.sums2_len as usize];
        let mut spill: Vec<u32> = vec![0u32; 1];
        let ghost start = ScanState { data: data@, sums1: sums1@, sums2: sums2@, spill: spill@ };
        proof {
            let l1 = groups_for(n as int, 256);
            let l2 = groups_for(l1, 256);
            assert(start.sums1 =~= Seq::new(if l1 == 0 { 1 } else { l1 as nat }, |i: int| 0u32));
            assert(start.sums2 =~= Seq::new(if l2 == 0 { 1 } else { l2 as nat }, |i: int| 0u32));
            assert(start.spill =~= seq![0u32]);
        }
        let mut k: usize = 0;
        while k < plan.steps.len()
            invariant
                k <= plan.steps.len(),
                n <= MAX_SCAN_LEN,
                n <= start.data.len(),
                plan.steps@ == planned_steps(n),
                data@.len() == start.data.len(),
                sums1@.len() == start.sums1.len(),
                sums2@.len() == start.sums2.len(),
                spill@.len() == 1,
                n <= groups_for(n as int, 256) * 256,
                groups_for(n as int, 256) <= sums1@.len(),
                groups_for(groups_for(n as int, 256), 256) <= sums2@.len(),
                groups_for(n as int, 256) * 256 < n + 256,
                groups_for(groups_for(n as int, 256), 256) * 256 < groups_for(n as int, 256) + 256,
                0 <= groups_for(n as int, 256) <= n,
                0 <= groups_for(groups_for(n as int, 256), 256) <= groups_for(n as int, 256),
                (ScanState { data: data@, sums1: sums1@, sums2: sums2@, spill: spill@ }) == run_steps(start, plan.steps@, k as int),
            decreases plan.steps.len() - k,
        {
            match plan.steps[k] {
                ScanStep::ScanData { n, groups } => scan_block(data, &mut sums1, n, groups),
                ScanStep::ScanSums1 { n, groups } => scan_block(&mut sums1, &mut sums2, n, groups),
                ScanStep::ScanSums2 { n, groups } => scan_block(&mut sums2, &mut spill, n, groups),
                ScanStep::AddToSums1 { n, groups: _ } => add_offsets(&mut sums1, &sums2, n),
                ScanStep::AddToData { n, groups: _ } => add_offsets(data, &sums1, n),
            }
            k = k + 1;
        }
    }
}

/// An exclusive scan starts at zero, and each lane is the lane before it plus
/// the word that stood there, modulo `2^32`. Lanes past the first `n` stay.
pub proof fn law_scan_adds_lane_by_lane(s: Seq<u32>, n: int, i: int)
    requires
        0 <= i < s.len(),
        n <= s.len(),
    ensures
        exclusive_scan(s, n).len() == s.len(),
        n > 0 ==> exclusive_scan(s, n)[0] == 0,
        i + 1 < n ==> exclusive_scan(s, n)[i + 1] == (exclusive_scan(s, n)[i] + s[i])
            % 0x1_0000_0000,
        i >= n ==> exclusive_scan(s, n)[i] == s[i],
{
    lemma_next_sum(s, 0, 0);
    if i + 1 < n {
        lemma_next_sum(s, 0, i);
    }
}

/// A block pass scans each block of 256 lanes from zero, lane by lane, modulo
/// `2^32`, and the total of a block is its last lane's sum plus the word that
/// stood there. Lanes past the first `n` stay.
pub proof fn law_block_pass_adds_lane_by_lane(
    s: Seq<u32>,
    sums: Seq<u32>,
    n: int,
    groups: int,
    i: int,
)
    requires
        0 <= i < s.len(),
        0 <= n <= s.len(),
    ensures
        block_scanned(s, n).len() == s.len(),
        i < n && i % 256 == 0 ==> block_scanned(s, n)[i] == 0,
        i + 1 < n && (i + 1) % 256 != 0 ==> block_scanned(s, n)[i + 1] == (block_scanned(s, n)[i]
            + s[i]) % 0x1_0000_0000,
        i >= n ==> block_scanned(s, n)[i] == s[i],
        block_totals(s, n, groups, sums).len() == sums.len(),
        i < n && (i + 1 == n || (i + 1) % 256 == 0) && i / 256 < groups && i / 256 < sums.len()
            ==> block_totals(s, n, groups, sums)[i / 256] == (block_scanned(s, n)[i] + s[i])
            % 0x1_0000_0000,
{
    lemma_next_sum(s, block_start(i), i);
    if i + 1 < n && (i + 1) % 256 != 0 {
        assert(block_start(i + 1) == block_start(i));
    }
    if i < n && (i + 1 == n || (i + 1) % 256 == 0) {
        assert(block_end(i / 256, n) == i + 1);
        assert(block_start(i) == (i / 256) * 256);
    }
}

proof fn lemma_next_sum(s: Seq<u32>, lo: int, i: int)
    requires
        0 <= lo <= i < s.len(),
    ensures
        wrapped_sum(s, lo, lo) == 0,
        wrapped_sum(s, lo, i + 1) == (wrapped_sum(s, lo, i) + s[i]) % 0x1_0000_0000,
{
    let m: int = 0x1_0000_0000;
    let a = prefix(s, i) - prefix(s, lo);
    assert(prefix(s, i + 1) == prefix(s, i) + s[i]);
    vstd::arithmetic::div_mod::lemma_add_mod_noop(a, s[i] as int, m);
    assert((s[i] as int) % m == s[i]);
    assert(wrapped_sum(s, lo, i) == a % m);
    assert(wrapped_sum(s, lo, i + 1) == (a + s[i]) % m);
}

/// An add pass adds to each of the first `n` lanes the offset of its block of
/// 256, modulo `2^32`. Lanes past them stay.
pub proof fn law_add_pass(s: Seq<u32>, offsets: Seq<u32>, n: int, i: int)
    requires
        0 <= i < s.len(),
    ensures
        offset_added(s, offsets, n).len() == s.len(),
        i < n ==> offset_added(s, offsets, n)[i] == (s[i] + offsets[i / 256]) % 0x1_0000_0000,
        i >= n ==> offset_added(s, offsets, n)[i] == s[i],
{
}

/// Lanes and workgroups of a pass.
pub open spec fn step_lanes(step: ScanStep) -> (int, int) {
    match step {
        ScanStep::ScanData { n, groups } => (n as int, groups as int),
        ScanStep::ScanSums1 { n, groups } => (n as int, groups as int),
        ScanStep::ScanSums2 { n, groups } => (n as int, groups as int),
        ScanStep::AddToSums1 { n, groups } => (n as int, groups as int),
        ScanStep::AddToData { n, groups } => (n as int, groups as int),
    }
}

/// Every pass of a scan is dispatched with the workgroups that its lanes need,
/// no more and no fewer, and its first pass has all `len` lanes.
pub proof fn law_steps_are_dispatched_whole(len: u32, k: int)
    requires
        len <= MAX_SCAN_LEN,
        0 <= k < planned_steps(len).len(),
    ensures
        ({
            let (n, groups) = step_lanes(planned_steps(len)[k]);
            &&& 0 < n <= groups * 256
            &&& (groups - 1) * 256 < n
            &&& k == 0 ==> n == len
        }),
{
    let l1 = groups_for(len as int, 256);
    let l2 = groups_for(l1, 256);
    lemma_groups_cover(len as int, 256);
    lemma_groups_cover(l1, 256);
}

/// A scan runs the block pass and the add pass.
pub proof fn law_scan_passes(scan: PrefixScan)
    requires
        scan.wf(),
    ensures
        scan.scan_pass is ScanBlock,
        scan.add_pass is AddOffsets,
{
}

} // verus!
