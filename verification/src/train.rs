//! Decisions of the training loop: when to prune and densify, and what each
//! of them does to the splats.
use vstd::multiset::Multiset;
use vstd::prelude::*;

use crate::adam::AdamConfig;
use crate::float_bits::{less, less_or_equal, Vec3};
#[allow(unused_imports)]
use crate::float_bits::{le, lt};
use crate::reference::BakeConfig;
#[allow(unused_imports)]
use crate::slab::swap_removed;
#[allow(unused_imports)]
use crate::splat_store::Splat;
use crate::trainer::Trainer;
#[allow(unused_imports)]
use crate::trainer::{fresh, Entry};

verus! {

/// Iterations between two prune sweeps.
pub const PRUNE_EVERY: u32 = 100;

/// First iteration that may prune.
pub const PRUNE_WARMUP: u32 = 50;

/// Opacity logit below which a splat is pruned: `-5.3`.
pub const PRUNE_OPACITY_LOGIT: u32 = 0xc0a9_999a;

/// Iterations between two densify passes.
pub const DENSIFY_EVERY: u32 = 200;

/// First iteration that may densify.
pub const DENSIFY_WARMUP: u32 = 100;

/// Mean gradient magnitude above which a splat is densified: `2e-4`.
pub const DENSIFY_GRAD_THRESHOLD: u32 = 0x3951_b717;

/// Log scale above which a densified splat is split, not cloned: `-2.3`.
pub const SPLIT_SCALE_THRESHOLD: u32 = 0xc013_3333;

/// Least log scale that a step leaves, `-10.0`.
pub const LOG_SCALE_MIN: u32 = 0xc120_0000;

/// Greatest log scale that a step leaves, `5.0`.
pub const LOG_SCALE_MAX: u32 = 0x40a0_0000;

/// Greatest opacity logit that a step leaves, `10.0`.
pub const OPACITY_LOGIT_MAX: u32 = 0x4120_0000;

/// Iterations between two log lines.
pub const LOG_EVERY: u32 = 100;

/// The items of `s` at the ascending positions `ids[..k]` removed, highest
/// position first, each by a swap with the item that is last at the time.
pub open spec fn without<T>(s: Seq<T>, ids: Seq<usize>, k: int) -> Seq<T>
    decreases k,
{
    if k <= 0 {
        s
    } else {
        without(swap_removed(s, ids[k - 1] as int), ids, k - 1)
    }
}

/// Positions ascend strictly and stay below `n`.
pub open spec fn ascending(ids: Seq<usize>, n: int) -> bool {
    &&& forall|a: int, b: int| 0 <= a < b < ids.len() ==> ids[a] < ids[b]
    &&& forall|a: int| 0 <= a < ids.len() ==> ids[a] < n
}

/// The items of `s` at the positions `ids`.
pub open spec fn picked<T>(s: Seq<T>, ids: Seq<usize>) -> Seq<T> {
    ids.map_values(|i: usize| s[i as int])
}

proof fn lemma_swap_removed_multiset<T>(s: Seq<T>, i: int)
    requires
        0 <= i < s.len(),
    ensures
        swap_removed(s, i).len() == s.len() - 1,
        swap_removed(s, i).to_multiset().insert(s[i]) == s.to_multiset(),
        forall|k: int| 0 <= k < i ==> swap_removed(s, i)[k] == s[k],
{
    broadcast use vstd::seq_lib::group_to_multiset_ensures;

    let last = s.len() - 1;
    let t = swap_removed(s, i);
    let u = s.drop_last();
    assert(s =~= u.push(s.last()));
    assert(u.push(s.last()).to_multiset() =~= u.to_multiset().insert(s.last()));
    if i == last {
        assert(t =~= u);
    } else {
        assert(t =~= u.update(i, s.last()));
        vstd::seq_lib::to_multiset_update(u, i, s.last());
        assert(t.to_multiset() == u.to_multiset().insert(s.last()).remove(u[i]));
        assert(u.to_multiset().count(u[i]) > 0) by {
            assert(u.contains(u[i]));
        }
        assert(t.to_multiset().insert(s[i]) =~= u.to_multiset().insert(s.last()));
    }
}

proof fn lemma_without<T>(s: Seq<T>, ids: Seq<usize>, k: int)
    requires
        0 <= k <= ids.len(),
        forall|a: int, b: int| 0 <= a < b < k ==> ids[a] < ids[b],
        forall|a: int| 0 <= a < k ==> ids[a] < s.len(),
    ensures
        without(s, ids, k).len() == s.len() - k,
        without(s, ids, k).to_multiset().add(picked(s, ids.take(k)).to_multiset())
            == s.to_multiset(),
    decreases k,
{
    broadcast use vstd::seq_lib::group_to_multiset_ensures;

    if k == 0 {
        assert(picked(s, ids.take(0)) =~= Seq::<T>::empty());
        assert(picked(s, ids.take(0)).to_multiset() =~= Multiset::<T>::empty());
        assert(s.to_multiset().add(Multiset::empty()) =~= s.to_multiset());
    } else {
        let i = ids[k - 1] as int;
        let t = swap_removed(s, i);
        lemma_swap_removed_multiset(s, i);
        assert forall|a: int| 0 <= a < k - 1 implies ids[a] < t.len() by {
            assert(ids[a] < ids[k - 1]);
        }
        lemma_without(t, ids, k - 1);
        let head = picked(s, ids.take(k - 1));
        assert(picked(t, ids.take(k - 1)) =~= head) by {
            assert forall|a: int| 0 <= a < k - 1 implies t[ids[a] as int] == s[ids[a] as int] by {
                assert(ids[a] < ids[k - 1]);
            }
        }
        assert(picked(s, ids.take(k)) =~= head.push(s[i]));
        assert(head.push(s[i]).to_multiset() =~= head.to_multiset().insert(s[i]));
        let rest = without(t, ids, k - 1).to_multiset();
        assert(rest.add(head.to_multiset().insert(s[i])) =~= rest.add(head.to_multiset()).insert(
            s[i],
        ));
    }
}

/// Removing positions loses exactly the items that stood there: those and
/// what remains are, together and in any order, what was there before.
pub proof fn law_removal_loses_only_its_items<T>(s: Seq<T>, ids: Seq<usize>)
    requires
        ascending(ids, s.len() as int),
    ensures
        without(s, ids, ids.len() as int).len() == s.len() - ids.len(),
        without(s, ids, ids.len() as int).to_multiset().add(picked(s, ids).to_multiset())
            == s.to_multiset(),
{
    lemma_without(s, ids, ids.len() as int);
    assert(ids.take(ids.len() as int) =~= ids);
}

/// Removing positions moves only the items at the end: what stands before the
/// last `ids.len()` places and is not removed stays where it is. The highest
/// position goes first, and the item that is last then fills its gap.
pub proof fn law_removal_keeps_places<T>(s: Seq<T>, ids: Seq<usize>, j: int)
    requires
        ascending(ids, s.len() as int),
        0 <= j < s.len() - ids.len(),
    ensures
        !ids.contains(j as usize) ==> without(s, ids, ids.len() as int)[j] == s[j],
        ids.len() > 0 ==> without(s, ids, ids.len() as int) == without(
            swap_removed(s, ids[ids.len() - 1] as int),
            ids.drop_last(),
            ids.len() - 1,
        ),
{
    if !ids.contains(j as usize) {
        assert forall|a: int| 0 <= a < ids.len() implies #[trigger] ids[a] != j by {
            if ids[a] == j {
                assert(ids.contains(j as usize));
            }
        }
        lemma_stays(s, ids, ids.len() as int, j);
    }
    if ids.len() > 0 {
        lemma_without_prefix(
            swap_removed(s, ids[ids.len() - 1] as int),
            ids,
            ids.drop_last(),
            ids.len() - 1,
        );
    }
}

proof fn lemma_stays<T>(s: Seq<T>, ids: Seq<usize>, k: int, j: int)
    requires
        0 <= k <= ids.len(),
        forall|a: int, b: int| 0 <= a < b < k ==> ids[a] < ids[b],
        forall|a: int| 0 <= a < k ==> ids[a] < s.len(),
        0 <= j < s.len() - k,
        forall|a: int| 0 <= a < k ==> #[trigger] ids[a] != j,
    ensures
        without(s, ids, k)[j] == s[j],
    decreases k,
{
    if k > 0 {
        let t = swap_removed(s, ids[k - 1] as int);
        assert forall|a: int| 0 <= a < k - 1 implies ids[a] < t.len() by {
            assert(ids[a] < ids[k - 1]);
        }
        lemma_stays(t, ids, k - 1, j);
        assert(ids[k - 1] != j);
    }
}

proof fn lemma_without_prefix<T>(s: Seq<T>, a: Seq<usize>, b: Seq<usize>, k: int)
    requires
        0 <= k <= a.len(),
        k <= b.len(),
        forall|i: int| 0 <= i < k ==> a[i] == b[i],
    ensures
        without(s, a, k) == without(s, b, k),
    decreases k,
{
    if k > 0 {
        lemma_without_prefix(swap_removed(s, a[k - 1] as int), a, b, k - 1);
    }
}

/// Whether a splat's opacity lies below the prune threshold.
pub open spec fn fades(threshold: u32) -> spec_fn(Entry) -> bool {
    |e: Entry| lt(e.splat.opacity, threshold)
}

/// Positions among the first `n` whose item satisfies `p`, ascending.
pub open spec fn positions_where<T>(s: Seq<T>, p: spec_fn(T) -> bool, n: int) -> Seq<usize>
    decreases n,
{
    if n <= 0 {
        Seq::empty()
    } else if p(s[n - 1]) {
        positions_where(s, p, n - 1).push((n - 1) as usize)
    } else {
        positions_where(s, p, n - 1)
    }
}

proof fn lemma_positions_where<T>(s: Seq<T>, p: spec_fn(T) -> bool, n: int)
    requires
        0 <= n <= s.len(),
        s.len() <= usize::MAX,
    ensures
        ascending(positions_where(s, p, n), n),
        positions_where(s, p, n).len() <= n,
        picked(s, positions_where(s, p, n)) == s.take(n).filter(p),
    decreases n,
{
    reveal(Seq::filter);
    if n > 0 {
        lemma_positions_where(s, p, n - 1);
        assert(s.take(n).drop_last() =~= s.take(n - 1));
        let prev = positions_where(s, p, n - 1);
        if p(s[n - 1]) {
            assert(picked(s, prev.push((n - 1) as usize)) =~= picked(s, prev).push(s[n - 1]));
        }
    } else {
        assert(picked(s, positions_where(s, p, 0)) =~= s.take(0).filter(p));
    }
}

proof fn lemma_partition<T>(s: Seq<T>, p: spec_fn(T) -> bool)
    ensures
        s.filter(p).to_multiset().add(s.filter(|x: T| !p(x)).to_multiset()) == s.to_multiset(),
    decreases s.len(),
{
    broadcast use vstd::seq_lib::group_to_multiset_ensures;

    reveal(Seq::filter);
    let q = |x: T| !p(x);
    if s.len() == 0 {
        assert(s.filter(p) =~= s);
        assert(s.filter(q) =~= s);
        assert(s.to_multiset() =~= Multiset::empty());
        assert(s.to_multiset().add(s.to_multiset()) =~= s.to_multiset());
    } else {
        let h = s.drop_last();
        let x = s.last();
        lemma_partition(h, p);
        assert(s =~= h.push(x));
        assert(h.push(x).to_multiset() =~= h.to_multiset().insert(x));
        let a = h.filter(p);
        let b = h.filter(q);
        if p(x) {
            assert(a.push(x).to_multiset() =~= a.to_multiset().insert(x));
            assert(a.to_multiset().insert(x).add(b.to_multiset()) =~= a.to_multiset().add(
                b.to_multiset(),
            ).insert(x));
        } else {
            assert(b.push(x).to_multiset() =~= b.to_multiset().insert(x));
            assert(a.to_multiset().add(b.to_multiset().insert(x)) =~= a.to_multiset().add(
                b.to_multiset(),
            ).insert(x));
        }
    }
}

/// What a prune sweep leaves.
pub open spec fn pruned(s: Seq<Entry>, threshold: u32) -> Seq<Entry> {
    let ids = positions_where(s, fades(threshold), s.len() as int);
    without(s, ids, ids.len() as int)
}

/// A prune sweep keeps exactly the splats whose opacity is not below the
/// threshold, each with its own moments and gradient.
pub proof fn law_prune_keeps_the_rest(s: Seq<Entry>, threshold: u32)
    requires
        s.len() <= usize::MAX,
    ensures
        pruned(s, threshold).to_multiset() == s.filter(
            |e: Entry| !fades(threshold)(e),
        ).to_multiset(),
        forall|i: int|
            0 <= i < pruned(s, threshold).len() ==> !lt(
                (#[trigger] pruned(s, threshold)[i]).splat.opacity,
                threshold,
            ),
{
    broadcast use vstd::seq_lib::group_to_multiset_ensures;

    let p = fades(threshold);
    let q = |e: Entry| !p(e);
    let ids = positions_where(s, p, s.len() as int);
    lemma_positions_where(s, p, s.len() as int);
    assert(s.take(s.len() as int) =~= s);
    law_removal_loses_only_its_items(s, ids);
    lemma_partition(s, p);
    let out = pruned(s, threshold);
    let kept = s.filter(q).to_multiset();
    let gone = s.filter(p).to_multiset();
    assert(out.to_multiset().add(gone) == gone.add(kept));
    assert(out.to_multiset() =~= kept) by {
        assert forall|e: Entry| out.to_multiset().count(e) == kept.count(e) by {
            assert(out.to_multiset().add(gone).count(e) == out.to_multiset().count(e)
                + gone.count(e));
            assert(gone.add(kept).count(e) == gone.count(e) + kept.count(e));
        }
    }
    assert forall|i: int| 0 <= i < out.len() implies !lt(
        (#[trigger] out[i]).splat.opacity,
        threshold,
    ) by {
        assert(out.contains(out[i]));
        assert(out.to_multiset().count(out[i]) > 0);
        assert(s.filter(q).contains(out[i]));
        let k = choose|k: int| 0 <= k < s.filter(q).len() && s.filter(q)[k] == out[i];
        s.lemma_filter_pred(q, k);
    }
}

/// A prune sweep drops a splat exactly where its opacity lies below the
/// threshold: the entries with any other opacity, one that is no number
/// included, all remain, each as often as before.
pub proof fn law_prune_drops_only_the_faded(s: Seq<Entry>, threshold: u32, e: Entry)
    requires
        s.len() <= usize::MAX,
    ensures
        pruned(s, threshold).to_multiset().count(e) == if lt(e.splat.opacity, threshold) {
            0
        } else {
            s.to_multiset().count(e)
        },
        pruned(s, threshold).len() == s.filter(
            |x: Entry| !lt(x.splat.opacity, threshold),
        ).len(),
{
    broadcast use vstd::seq_lib::group_to_multiset_ensures;

    law_prune_keeps_the_rest(s, threshold);
    let out = pruned(s, threshold);
    let p = fades(threshold);
    let q = |x: Entry| !fades(threshold)(x);
    let r = |x: Entry| !lt(x.splat.opacity, threshold);
    assert(s.filter(q) =~= s.filter(r)) by {
        assert(q =~= r);
    }
    assert(out.to_multiset().len() == out.len());
    assert(s.filter(q).to_multiset().len() == s.filter(q).len());
    lemma_partition(s, p);
    if lt(e.splat.opacity, threshold) {
        if out.to_multiset().count(e) > 0 {
            assert(out.contains(e));
            let i = choose|i: int| 0 <= i < out.len() && out[i] == e;
            assert(!lt(out[i].splat.opacity, threshold));
        }
    } else {
        let gone = s.filter(p);
        if gone.to_multiset().count(e) > 0 {
            assert(gone.contains(e));
            let k = choose|k: int| 0 <= k < gone.len() && gone[k] == e;
            s.lemma_filter_pred(p, k);
        }
        let kept = s.filter(|x: Entry| !p(x));
        assert(kept =~= s.filter(q)) by {
            assert((|x: Entry| !p(x)) =~= q);
        }
        assert(gone.to_multiset().add(kept.to_multiset()).count(e) == gone.to_multiset().count(e)
            + kept.to_multiset().count(e));
    }
}

/// Drops every splat whose opacity logit is below `threshold`, with its
/// moments and accumulator. Returns how many were dropped.
pub fn prune_low_opacity(trainer: &mut Trainer, threshold: u32) -> (removed: usize)
    requires
        old(trainer).wf(),
    ensures
        final(trainer).wf(),
        final(trainer)@ == pruned(old(trainer)@, threshold),
        removed == old(trainer)@.len() - final(trainer)@.len(),
        removed == positions_where(
            old(trainer)@,
            fades(threshold),
            old(trainer)@.len() as int,
        ).len(),
        final(trainer).bank.same_meta(old(trainer).bank),
{
    let ghost s = trainer@;
    let ghost p = fades(threshold);
    let n: usize = trainer.splats.len();
    let mut to_remove: Vec<usize> = Vec::new();
    let mut i: usize = 0;
    while i < n
        invariant
            i <= n,
            n == s.len(),
            s == trainer@,
            trainer.wf(),
            p == fades(threshold),
            to_remove@ == positions_where(s, p, i as int),
        decreases n - i,
    {
        assert(s[i as int].splat.opacity == trainer.splats.opacities@[i as int]);
        if less(trainer.splats.opacities[i], threshold) {
            to_remove.push(i);
        }
        i = i + 1;
    }
    proof {
        lemma_positions_where(s, p, n as int);
        lemma_without(s, to_remove@, to_remove@.len() as int);
    }
    remove_all(trainer, &to_remove);
    to_remove.len()
}

/// Removes the splats at the ascending positions `ids`, highest first.
pub fn remove_all(trainer: &mut Trainer, ids: &Vec<usize>)
    requires
        old(trainer).wf(),
        ascending(ids@, old(trainer)@.len() as int),
    ensures
        final(trainer).wf(),
        final(trainer)@ == without(old(trainer)@, ids@, ids.len() as int),
        final(trainer).bank.same_meta(old(trainer).bank),
{
    let ghost s = trainer@;
    let ghost bank = trainer.bank;
    let mut k: usize = ids.len();
    while k > 0
        invariant
            k <= ids.len(),
            trainer.wf(),
            ascending(ids@, s.len() as int),
            trainer.bank.same_meta(bank),
            trainer@.len() == s.len() - (ids.len() - k),
            without(trainer@, ids@, k as int) == without(s, ids@, ids.len() as int),
            k > 0 ==> ids@[k - 1] < trainer@.len(),
        decreases k,
    {
        k = k - 1;
        proof {
            if k > 0 {
                assert(ids@[k - 1] < ids@[k as int]);
            }
        }
        trainer.swap_remove(ids[k]);
    }
}

/// Which splats to clone and which to split, in ascending order.
pub struct DensifyPlan {
    pub to_clone: Vec<usize>,
    pub to_split: Vec<usize>,
}

/// Whether any axis of a splat exceeds the log-scale threshold.
pub open spec fn is_large(scale: [u32; 3], threshold: u32) -> bool {
    lt(threshold, scale[0]) || lt(threshold, scale[1]) || lt(threshold, scale[2])
}

/// The plan over the first `i` splats. A splat is a candidate unless its mean
/// gradient is at most `grad_threshold`; candidates are taken in order while
/// the projected splat count stays below `max_splats`.
pub open spec fn planned(
    s: Seq<Splat>,
    averages: Seq<u32>,
    grad_threshold: u32,
    split_threshold: u32,
    max_splats: int,
    i: int,
) -> (Seq<usize>, Seq<usize>)
    decreases i,
{
    if i <= 0 {
        (Seq::empty(), Seq::empty())
    } else {
        let (clones, splits) = planned(
            s,
            averages,
            grad_threshold,
            split_threshold,
            max_splats,
            i - 1,
        );
        if le(averages[i - 1], grad_threshold) || s.len() + clones.len() + splits.len()
            >= max_splats {
            (clones, splits)
        } else if is_large(s[i - 1].scale, split_threshold) {
            (clones, splits.push((i - 1) as usize))
        } else {
            (clones.push((i - 1) as usize), splits)
        }
    }
}

/// The positions of a plan ascend, lie below `n` and no splat is both cloned
/// and split.
pub open spec fn plan_valid(clones: Seq<usize>, splits: Seq<usize>, n: int) -> bool {
    &&& ascending(clones, n)
    &&& ascending(splits, n)
    &&& forall|a: int, b: int|
        0 <= a < clones.len() && 0 <= b < splits.len() ==> clones[a] != splits[b]
}

/// Every plan is valid and keeps the splat count within `max_splats`, unless
/// it was above that already.
pub proof fn law_plan_within_budget(
    s: Seq<Splat>,
    averages: Seq<u32>,
    grad_threshold: u32,
    split_threshold: u32,
    max_splats: int,
    i: int,
)
    requires
        0 <= i <= s.len(),
        s.len() <= usize::MAX,
    ensures
        ({
            let (clones, splits) = planned(
                s,
                averages,
                grad_threshold,
                split_threshold,
                max_splats,
                i,
            );
            &&& plan_valid(clones, splits, i)
            &&& clones.len() + splits.len() <= i
            &&& clones.len() + splits.len() > 0 ==> s.len() + clones.len() + splits.len()
                <= max_splats
        }),
    decreases i,
{
    if i > 0 {
        law_plan_within_budget(
            s,
            averages,
            grad_threshold,
            split_threshold,
            max_splats,
            i - 1,
        );
    }
}

/// What a plan picks. A splat is picked only where its mean gradient is not at
/// most the threshold; it is split exactly where one of its axes exceeds the
/// split threshold, and cloned otherwise. A splat that qualifies and is not
/// picked stands behind all that are, and then there is no room left.
pub proof fn law_plan_picks_in_order(
    s: Seq<Splat>,
    averages: Seq<u32>,
    grad_threshold: u32,
    split_threshold: u32,
    max_splats: int,
    n: int,
    i: int,
)
    requires
        0 <= i < n <= s.len(),
        s.len() <= usize::MAX,
    ensures
        ({
            let (clones, splits) = planned(
                s,
                averages,
                grad_threshold,
                split_threshold,
                max_splats,
                n,
            );
            let large = exists|axis: int|
                0 <= axis < 3 && lt(split_threshold, #[trigger] s[i].scale[axis]);
            &&& clones.contains(i as usize) ==> !le(averages[i], grad_threshold) && !large
            &&& splits.contains(i as usize) ==> !le(averages[i], grad_threshold) && large
            &&& !le(averages[i], grad_threshold) && !clones.contains(i as usize)
                && !splits.contains(i as usize) ==> {
                &&& s.len() + clones.len() + splits.len() >= max_splats
                &&& forall|a: int| 0 <= a < clones.len() ==> #[trigger] clones[a] < i
                &&& forall|a: int| 0 <= a < splits.len() ==> #[trigger] splits[a] < i
            }
        }),
    decreases n,
{
    let (clones, splits) = planned(s, averages, grad_threshold, split_threshold, max_splats, n);
    let (clones0, splits0) = planned(
        s,
        averages,
        grad_threshold,
        split_threshold,
        max_splats,
        n - 1,
    );
    law_plan_within_budget(
        s,
        averages,
        grad_threshold,
        split_threshold,
        max_splats,
        n - 1,
    );
    law_plan_within_budget(s, averages, grad_threshold, split_threshold, max_splats, n);
    if i < n - 1 {
        law_plan_picks_in_order(
            s,
            averages,
            grad_threshold,
            split_threshold,
            max_splats,
            n - 1,
            i,
        );
        if clones0.contains(i as usize) {
            let a = choose|a: int| 0 <= a < clones0.len() && clones0[a] == i as usize;
            assert(clones[a] == i as usize);
        }
        if splits0.contains(i as usize) {
            let a = choose|a: int| 0 <= a < splits0.len() && splits0[a] == i as usize;
            assert(splits[a] == i as usize);
        }
        if clones.contains(i as usize) {
            let a = choose|a: int| 0 <= a < clones.len() && clones[a] == i as usize;
            assert(a < clones0.len());
            assert(clones0[a] == i as usize);
        }
        if splits.contains(i as usize) {
            let a = choose|a: int| 0 <= a < splits.len() && splits[a] == i as usize;
            assert(a < splits0.len());
            assert(splits0[a] == i as usize);
        }
    } else {
        assert(!clones0.contains(i as usize));
        assert(!splits0.contains(i as usize));
        if is_large(s[i].scale, split_threshold) {
            assert(lt(split_threshold, s[i].scale[0]) || lt(split_threshold, s[i].scale[1]) || lt(
                split_threshold,
                s[i].scale[2],
            ));
        }
        if clones.len() > clones0.len() {
            assert(clones.last() == i as usize);
            assert(clones.contains(i as usize));
        }
        if splits.len() > splits0.len() {
            assert(splits.last() == i as usize);
            assert(splits.contains(i as usize));
        }
    }
}

/// Decides which splats to densify. `averages` holds each splat's mean
/// gradient magnitude.
pub fn plan_densify(
    trainer: &Trainer,
    averages: &[u32],
    grad_threshold: u32,
    split_threshold: u32,
    max_splats: usize,
) -> (plan: DensifyPlan)
    requires
        trainer.wf(),
        averages.len() == trainer@.len(),
    ensures
        (plan.to_clone@, plan.to_split@) == planned(
            trainer.splats@,
            averages@,
            grad_threshold,
            split_threshold,
            max_splats as int,
            trainer@.len() as int,
        ),
        plan_valid(plan.to_clone@, plan.to_split@, trainer@.len() as int),
{
    let n: usize = trainer.splats.len();
    let ghost s = trainer.splats@;
    let mut to_clone: Vec<usize> = Vec::new();
    let mut to_split: Vec<usize> = Vec::new();
    let mut room: usize = if max_splats > n { max_splats - n } else { 0 };
    let mut i: usize = 0;
    proof {
        law_plan_within_budget(
            s,
            averages@,
            grad_threshold,
            split_threshold,
            max_splats as int,
            n as int,
        );
    }
    while i < n
        invariant
            i <= n,
            n == s.len(),
            s == trainer.splats@,
            trainer.wf(),
            averages.len() == n,
            (to_clone@, to_split@) == planned(
                s,
                averages@,
                grad_threshold,
                split_threshold,
                max_splats as int,
                i as int,
            ),
            n < max_splats ==> room == max_splats - n - to_clone.len() - to_split.len(),
            n >= max_splats ==> room == 0,
        decreases n - i,
    {
        if !less_or_equal(averages[i], grad_threshold) && room > 0 {
            let scale: [u32; 3] = trainer.splats.scales[i];
            assert(s[i as int].scale == scale);
            if less(split_threshold, scale[0]) || less(split_threshold, scale[1]) || less(
                split_threshold,
                scale[2],
            ) {
                to_split.push(i);
            } else {
                to_clone.push(i);
            }
            room = room - 1;
        }
        i = i + 1;
    }
    DensifyPlan { to_clone, to_split }
}

/// The two children of a split splat: where each stands, and the log scale
/// that both have.
#[derive(Clone, Copy)]
pub struct SplitChildren {
    pub first: Vec3,
    pub second: Vec3,
    pub log_scale: [u32; 3],
}

/// The first `k` clones made: the parent takes the new opacity and a fresh
/// duplicate of it is appended.
pub open spec fn with_clones(
    s: Seq<Entry>,
    ids: Seq<usize>,
    opacities: Seq<u32>,
    k: int,
) -> Seq<Entry>
    decreases k,
{
    if k <= 0 {
        s
    } else {
        let prev = with_clones(s, ids, opacities, k - 1);
        let i = ids[k - 1] as int;
        let splat = Splat { opacity: opacities[k - 1], ..prev[i].splat };
        prev.update(i, Entry { splat, ..prev[i] }).push(fresh(splat))
    }
}

/// The first `k` splits made: two fresh children of the parent are appended.
pub open spec fn with_children(
    s: Seq<Entry>,
    ids: Seq<usize>,
    children: Seq<SplitChildren>,
    k: int,
) -> Seq<Entry>
    decreases k,
{
    if k <= 0 {
        s
    } else {
        let prev = with_children(s, ids, children, k - 1);
        let parent = s[ids[k - 1] as int].splat;
        let c = children[k - 1];
        prev.push(fresh(Splat { pos: c.first, scale: c.log_scale, ..parent })).push(
            fresh(Splat { pos: c.second, scale: c.log_scale, ..parent }),
        )
    }
}

/// What a densify pass leaves: clones made, children appended, and the split
/// parents removed.
pub open spec fn densified(
    s: Seq<Entry>,
    clones: Seq<usize>,
    splits: Seq<usize>,
    opacities: Seq<u32>,
    children: Seq<SplitChildren>,
) -> Seq<Entry> {
    let a = with_clones(s, clones, opacities, clones.len() as int);
    let b = with_children(a, splits, children, splits.len() as int);
    without(b, splits, splits.len() as int)
}

/// An entry without history: its moments and its gradient are zero.
pub open spec fn is_fresh(e: Entry) -> bool {
    e == fresh(e.splat)
}

proof fn lemma_with_clones(s: Seq<Entry>, ids: Seq<usize>, opacities: Seq<u32>, k: int)
    requires
        0 <= k <= ids.len(),
        ascending(ids, s.len() as int),
    ensures
        with_clones(s, ids, opacities, k).len() == s.len() + k,
        forall|i: int|
            0 <= i < s.len() && (forall|a: int| 0 <= a < k ==> ids[a] != i)
                ==> #[trigger] with_clones(s, ids, opacities, k)[i] == s[i],
        forall|a: int|
            0 <= a < k ==> with_clones(s, ids, opacities, k)[#[trigger] ids[a] as int] == (Entry {
                splat: Splat { opacity: opacities[a], ..s[ids[a] as int].splat },
                ..s[ids[a] as int]
            }),
        forall|a: int|
            0 <= a < k ==> #[trigger] with_clones(s, ids, opacities, k)[s.len() + a] == fresh(
                (Splat { opacity: opacities[a], ..s[ids[a] as int].splat }),
            ),
    decreases k,
{
    if k > 0 {
        lemma_with_clones(s, ids, opacities, k - 1);
        let prev = with_clones(s, ids, opacities, k - 1);
        let i = ids[k - 1] as int;
        assert(prev[i] == s[i]);
        let now = with_clones(s, ids, opacities, k);
        assert forall|a: int| 0 <= a < k implies #[trigger] now[s.len() + a] == fresh(
            (Splat { opacity: opacities[a], ..s[ids[a] as int].splat }),
        ) by {
            if a < k - 1 {
                assert(now[s.len() + a] == prev[s.len() + a]);
            }
        }
        assert forall|a: int| 0 <= a < k implies now[#[trigger] ids[a] as int] == (Entry {
            splat: Splat { opacity: opacities[a], ..s[ids[a] as int].splat },
            ..s[ids[a] as int]
        }) by {
            if a < k - 1 {
                assert(ids[a] < ids[k - 1]);
                assert(now[ids[a] as int] == prev[ids[a] as int]);
            }
        }
        assert forall|j: int|
            0 <= j < s.len() && (forall|a: int| 0 <= a < k ==> ids[a] != j) implies #[trigger] now[j]
            == s[j] by {
            assert(ids[k - 1] != j);
            assert(now[j] == prev[j]);
        }
    }
}

proof fn lemma_with_children(
    s: Seq<Entry>,
    ids: Seq<usize>,
    children: Seq<SplitChildren>,
    k: int,
)
    requires
        0 <= k <= ids.len(),
    ensures
        with_children(s, ids, children, k).len() == s.len() + 2 * k,
        forall|i: int|
            0 <= i < s.len() ==> #[trigger] with_children(s, ids, children, k)[i] == s[i],
    decreases k,
{
    if k > 0 {
        lemma_with_children(s, ids, children, k - 1);
    }
}

/// A densify pass adds one splat per clone and one, net, per split.
pub proof fn law_densify_count(
    s: Seq<Entry>,
    clones: Seq<usize>,
    splits: Seq<usize>,
    opacities: Seq<u32>,
    children: Seq<SplitChildren>,
)
    requires
        plan_valid(clones, splits, s.len() as int),
    ensures
        densified(s, clones, splits, opacities, children).len() == s.len() + clones.len()
            + splits.len(),
{
    lemma_with_clones(s, clones, opacities, clones.len() as int);
    let a = with_clones(s, clones, opacities, clones.len() as int);
    lemma_with_children(a, splits, children, splits.len() as int);
    let b = with_children(a, splits, children, splits.len() as int);
    lemma_without(b, splits, splits.len() as int);
}

/// Where every item of a removal ends up, if none of the last `k` items is
/// removed: these fill the gaps in order and all others stay in place.
proof fn lemma_without_places<T>(s: Seq<T>, ids: Seq<usize>, k: int)
    requires
        0 <= k <= ids.len(),
        k <= s.len(),
        forall|a: int, b: int| 0 <= a < b < k ==> ids[a] < ids[b],
        forall|a: int| 0 <= a < k ==> ids[a] < s.len() - k,
    ensures
        without(s, ids, k).len() == s.len() - k,
        forall|a: int|
            0 <= a < k ==> without(s, ids, k)[#[trigger] ids[a] as int] == s[s.len() - k + a],
        forall|i: int|
            0 <= i < s.len() - k && (forall|a: int| 0 <= a < k ==> ids[a] != i)
                ==> #[trigger] without(s, ids, k)[i] == s[i],
    decreases k,
{
    if k > 0 {
        let r = ids[k - 1] as int;
        let t = swap_removed(s, r);
        assert(t[r] == s[s.len() - 1]);
        lemma_without_places(t, ids, k - 1);
        let out = without(s, ids, k);
        assert(out == without(t, ids, k - 1));
        assert forall|a: int| 0 <= a < k implies out[#[trigger] ids[a] as int] == s[s.len() - k
            + a] by {
            if a < k - 1 {
                assert(out[ids[a] as int] == t[t.len() - (k - 1) + a]);
            } else {
                assert(forall|c: int| 0 <= c < k - 1 ==> ids[c] != r);
                assert(out[r] == t[r]);
            }
        }
        assert forall|i: int|
            0 <= i < s.len() - k && (forall|a: int| 0 <= a < k ==> ids[a] != i) implies #[trigger] out[i]
            == s[i] by {
            assert(ids[k - 1] != i);
            assert(forall|a: int| 0 <= a < k - 1 ==> ids[a] != i);
            assert(out[i] == t[i]);
        }
    }
}

/// A densify pass removes the split parents and nothing else. Every splat that
/// is not split keeps its place, moments and gradient, a cloned one with its new
/// opacity; every other place, a split parent's or one behind the old splats,
/// holds a clone or a child, fresh.
pub proof fn law_densify_removes_only_parents(
    s: Seq<Entry>,
    clones: Seq<usize>,
    splits: Seq<usize>,
    opacities: Seq<u32>,
    children: Seq<SplitChildren>,
)
    requires
        plan_valid(clones, splits, s.len() as int),
    ensures
        ({
            let a = with_clones(s, clones, opacities, clones.len() as int);
            let b = with_children(a, splits, children, splits.len() as int);
            densified(s, clones, splits, opacities, children).to_multiset().add(
                picked(s, splits).to_multiset(),
            ) == b.to_multiset()
        }),
        ({
            let out = densified(s, clones, splits, opacities, children);
            &&& forall|i: int|
                0 <= i < s.len() && !clones.contains(i as usize) && !splits.contains(i as usize)
                    ==> #[trigger] out[i] == s[i]
            &&& forall|c: int|
                0 <= c < clones.len() ==> out[#[trigger] clones[c] as int] == (Entry {
                    splat: Splat { opacity: opacities[c], ..s[clones[c] as int].splat },
                    ..s[clones[c] as int]
                })
            &&& forall|k: int|
                0 <= k < splits.len() ==> is_fresh(out[#[trigger] splits[k] as int])
            &&& forall|j: int| s.len() <= j < out.len() ==> is_fresh(#[trigger] out[j])
        }),
{
    broadcast use vstd::seq_lib::group_to_multiset_ensures;

    let nc = clones.len() as int;
    let ns = splits.len() as int;
    lemma_with_clones(s, clones, opacities, nc);
    let a = with_clones(s, clones, opacities, nc);
    lemma_with_children(a, splits, children, ns);
    let b = with_children(a, splits, children, ns);
    law_removal_loses_only_its_items(b, splits);
    let out = densified(s, clones, splits, opacities, children);
    assert(picked(b, splits) =~= picked(s, splits)) by {
        assert forall|k: int| 0 <= k < ns implies #[trigger] b[splits[k] as int]
            == s[splits[k] as int] by {
            let j = splits[k] as int;
            assert(forall|c: int| 0 <= c < nc ==> clones[c] != j);
            assert(a[j] == s[j]);
        }
    }
    lemma_without_places(b, splits, ns);
    lemma_added_fresh(s, clones, splits, opacities, children);
    assert forall|i: int|
        0 <= i < s.len() && !clones.contains(i as usize) && !splits.contains(
            i as usize,
        ) implies #[trigger] out[i] == s[i] by {
        assert forall|c: int| 0 <= c < nc implies clones[c] != i by {
            if clones[c] == i {
                assert(clones.contains(i as usize));
            }
        }
        assert forall|c: int| 0 <= c < ns implies splits[c] != i by {
            if splits[c] == i {
                assert(splits.contains(i as usize));
            }
        }
        assert(a[i] == s[i]);
        assert(b[i] == a[i]);
        assert(out[i] == b[i]);
    }
    assert forall|c: int| 0 <= c < nc implies out[#[trigger] clones[c] as int] == (Entry {
        splat: Splat { opacity: opacities[c], ..s[clones[c] as int].splat },
        ..s[clones[c] as int]
    }) by {
        let i = clones[c] as int;
        assert(forall|k: int| 0 <= k < ns ==> splits[k] != i);
        assert(b[i] == a[i]);
        assert(out[i] == b[i]);
    }
    assert forall|k: int| 0 <= k < ns implies is_fresh(out[#[trigger] splits[k] as int]) by {
        assert(out[splits[k] as int] == b[b.len() - ns + k]);
    }
    assert forall|j: int| s.len() <= j < out.len() implies is_fresh(#[trigger] out[j]) by {
        assert(forall|k: int| 0 <= k < ns ==> splits[k] != j);
        assert(out[j] == b[j]);
    }
}

/// What a densify pass appends is fresh.
proof fn lemma_added_fresh(
    s: Seq<Entry>,
    clones: Seq<usize>,
    splits: Seq<usize>,
    opacities: Seq<u32>,
    children: Seq<SplitChildren>,
)
    requires
        plan_valid(clones, splits, s.len() as int),
    ensures
        ({
            let a = with_clones(s, clones, opacities, clones.len() as int);
            let b = with_children(a, splits, children, splits.len() as int);
            forall|j: int| s.len() <= j < b.len() ==> is_fresh(#[trigger] b[j])
        }),
{
    let a = with_clones(s, clones, opacities, clones.len() as int);
    lemma_with_clones(s, clones, opacities, clones.len() as int);
    assert forall|j: int| s.len() <= j < a.len() implies is_fresh(#[trigger] a[j]) by {
        assert(a[s.len() + (j - s.len())] == a[j]);
    }
    lemma_children_fresh(a, splits, children, splits.len() as int);
    lemma_with_children(a, splits, children, splits.len() as int);
    let b = with_children(a, splits, children, splits.len() as int);
    assert forall|j: int| s.len() <= j < b.len() implies is_fresh(#[trigger] b[j]) by {
        if j < a.len() {
            assert(b[j] == a[j]);
        }
    }
}

proof fn lemma_children_fresh(
    s: Seq<Entry>,
    ids: Seq<usize>,
    children: Seq<SplitChildren>,
    k: int,
)
    requires
        0 <= k <= ids.len(),
    ensures
        forall|j: int|
            s.len() <= j < with_children(s, ids, children, k).len() ==> is_fresh(
                #[trigger] with_children(s, ids, children, k)[j],
            ),
    decreases k,
{
    if k > 0 {
        lemma_children_fresh(s, ids, children, k - 1);
        lemma_with_children(s, ids, children, k - 1);
    }
}

/// The children stand behind the old entries in order, two per split: each
/// fresh, with the parent's splat but for its own position and the log scale
/// of both.
proof fn lemma_children_at(
    s: Seq<Entry>,
    ids: Seq<usize>,
    children: Seq<SplitChildren>,
    k: int,
    j: int,
)
    requires
        0 <= j < k <= ids.len(),
    ensures
        with_children(s, ids, children, k)[s.len() + 2 * j] == fresh(
            (Splat {
                pos: children[j].first,
                scale: children[j].log_scale,
                ..s[ids[j] as int].splat
            }),
        ),
        with_children(s, ids, children, k)[s.len() + 2 * j + 1] == fresh(
            (Splat {
                pos: children[j].second,
                scale: children[j].log_scale,
                ..s[ids[j] as int].splat
            }),
        ),
    decreases k,
{
    lemma_with_children(s, ids, children, k - 1);
    if j < k - 1 {
        lemma_children_at(s, ids, children, k - 1, j);
    }
}

/// All moments of an entry are zero, and so is its gradient.
pub open spec fn without_history(e: Entry) -> bool {
    &&& e.grad == 0
    &&& e.moments.pos.0.len() == 3 && e.moments.pos.1.len() == 3
    &&& e.moments.rot.0.len() == 4 && e.moments.rot.1.len() == 4
    &&& e.moments.scale.0.len() == 3 && e.moments.scale.1.len() == 3
    &&& e.moments.op.0.len() == 1 && e.moments.op.1.len() == 1
    &&& e.moments.dc.0.len() == 3 && e.moments.dc.1.len() == 3
    &&& e.moments.rest.0.len() == 45 && e.moments.rest.1.len() == 45
    &&& forall|i: int| 0 <= i < 3 ==> #[trigger] e.moments.pos.0[i] == 0
    &&& forall|i: int| 0 <= i < 3 ==> #[trigger] e.moments.pos.1[i] == 0
    &&& forall|i: int| 0 <= i < 4 ==> #[trigger] e.moments.rot.0[i] == 0
    &&& forall|i: int| 0 <= i < 4 ==> #[trigger] e.moments.rot.1[i] == 0
    &&& forall|i: int| 0 <= i < 3 ==> #[trigger] e.moments.scale.0[i] == 0
    &&& forall|i: int| 0 <= i < 3 ==> #[trigger] e.moments.scale.1[i] == 0
    &&& forall|i: int| 0 <= i < 1 ==> #[trigger] e.moments.op.0[i] == 0
    &&& forall|i: int| 0 <= i < 1 ==> #[trigger] e.moments.op.1[i] == 0
    &&& forall|i: int| 0 <= i < 3 ==> #[trigger] e.moments.dc.0[i] == 0
    &&& forall|i: int| 0 <= i < 3 ==> #[trigger] e.moments.dc.1[i] == 0
    &&& forall|i: int| 0 <= i < 45 ==> #[trigger] e.moments.rest.0[i] == 0
    &&& forall|i: int| 0 <= i < 45 ==> #[trigger] e.moments.rest.1[i] == 0
}

/// A splat that is added has no history: every moment and the gradient are
/// zero.
pub proof fn law_added_splats_have_no_history(splat: Splat)
    ensures
        without_history(fresh(splat)),
        fresh(splat).splat == splat,
{
}

/// A split leaves two children in its parent's stead. Counted through all
/// splits, first child before second, child `c` stands behind the clones while
/// there is room there and then takes the place of a split parent, in order.
/// It has its own position and its pair's log scale, the parent's rotation,
/// opacity and coefficients, and no history.
pub proof fn law_densify_makes_two_children(
    s: Seq<Entry>,
    clones: Seq<usize>,
    splits: Seq<usize>,
    opacities: Seq<u32>,
    children: Seq<SplitChildren>,
    c: int,
)
    requires
        plan_valid(clones, splits, s.len() as int),
        0 <= c < 2 * splits.len(),
    ensures
        ({
            let out = densified(s, clones, splits, opacities, children);
            let place = if c < splits.len() {
                s.len() + clones.len() + c
            } else {
                splits[c - splits.len()] as int
            };
            let parent = s[splits[c / 2] as int].splat;
            &&& out.len() == s.len() + clones.len() + splits.len()
            &&& 0 <= place < out.len()
            &&& out[place].splat.pos == if c % 2 == 0 {
                children[c / 2].first
            } else {
                children[c / 2].second
            }
            &&& out[place].splat.scale == children[c / 2].log_scale
            &&& out[place].splat.rotation == parent.rotation
            &&& out[place].splat.opacity == parent.opacity
            &&& out[place].splat.sh_dc == parent.sh_dc
            &&& out[place].splat.sh_rest == parent.sh_rest
            &&& without_history(out[place])
        }),
{
    let n = s.len() as int;
    let nc = clones.len() as int;
    let ns = splits.len() as int;
    let a = with_clones(s, clones, opacities, nc);
    let b = with_children(a, splits, children, ns);
    let out = densified(s, clones, splits, opacities, children);
    lemma_with_clones(s, clones, opacities, nc);
    lemma_with_children(a, splits, children, ns);
    lemma_without_places(b, splits, ns);
    let j = c / 2;
    lemma_children_at(a, splits, children, ns, j);
    let from = n + nc + c;
    assert(from == a.len() + 2 * j + c % 2);
    let i = splits[j] as int;
    assert(forall|d: int| 0 <= d < nc ==> clones[d] != i);
    assert(a[i] == s[i]);
    if c < ns {
        assert(forall|k: int| 0 <= k < ns ==> splits[k] != from);
        assert(out[from] == b[from]);
    } else {
        assert(out[splits[c - ns] as int] == b[b.len() - ns + (c - ns)]);
    }
}

/// No two children share a place, and none takes that of a clone or of a splat
/// that is not split.
pub proof fn law_children_have_places_of_their_own(
    n: int,
    clones: Seq<usize>,
    splits: Seq<usize>,
    c: int,
    d: int,
    i: int,
)
    requires
        plan_valid(clones, splits, n),
        0 <= c < d < 2 * splits.len(),
        0 <= i < n + clones.len(),
        !splits.contains(i as usize),
    ensures
        ({
            let place = |k: int|
                if k < splits.len() {
                    n + clones.len() + k
                } else {
                    splits[k - splits.len()] as int
                };
            place(c) != place(d) && place(c) != i && place(d) != i
        }),
{
    if c >= splits.len() {
        assert(splits[c - splits.len()] < splits[d - splits.len()]);
    }
}

/// A clone stands behind the old splats, in the order of the plan: its parent
/// over again, but with the new opacity, which its parent takes too, and with
/// no history.
pub proof fn law_densify_makes_clones(
    s: Seq<Entry>,
    clones: Seq<usize>,
    splits: Seq<usize>,
    opacities: Seq<u32>,
    children: Seq<SplitChildren>,
    c: int,
)
    requires
        plan_valid(clones, splits, s.len() as int),
        0 <= c < clones.len(),
    ensures
        ({
            let out = densified(s, clones, splits, opacities, children);
            let parent = s[clones[c] as int].splat;
            let kept = out[clones[c] as int];
            let clone = out[s.len() + c];
            &&& s.len() + c < out.len()
            &&& clone.splat.pos == parent.pos && kept.splat.pos == parent.pos
            &&& clone.splat.scale == parent.scale && kept.splat.scale == parent.scale
            &&& clone.splat.rotation == parent.rotation && kept.splat.rotation == parent.rotation
            &&& clone.splat.opacity == opacities[c] && kept.splat.opacity == opacities[c]
            &&& clone.splat.sh_dc == parent.sh_dc && kept.splat.sh_dc == parent.sh_dc
            &&& clone.splat.sh_rest == parent.sh_rest && kept.splat.sh_rest == parent.sh_rest
            &&& without_history(clone)
            &&& kept.moments == s[clones[c] as int].moments
            &&& kept.grad == s[clones[c] as int].grad
        }),
{
    let n = s.len() as int;
    let nc = clones.len() as int;
    let ns = splits.len() as int;
    let a = with_clones(s, clones, opacities, nc);
    let b = with_children(a, splits, children, ns);
    let out = densified(s, clones, splits, opacities, children);
    law_densify_removes_only_parents(s, clones, splits, opacities, children);
    lemma_with_clones(s, clones, opacities, nc);
    lemma_with_children(a, splits, children, ns);
    lemma_without_places(b, splits, ns);
    assert(forall|k: int| 0 <= k < ns ==> splits[k] != n + c);
    assert(out[n + c] == b[n + c]);
    assert(b[n + c] == a[n + c]);
    assert(a[n + c] == fresh((Splat { opacity: opacities[c], ..s[clones[c] as int].splat })));
    assert(out[clones[c] as int].splat.opacity == opacities[c]);
}

/// Carries out a densify plan. `opacities` holds the new opacity of each
/// clone and its parent, `children` the children of each split splat. Returns
/// the number of clones, of children and of removed parents.
pub fn densify(
    trainer: &mut Trainer,
    plan: &DensifyPlan,
    opacities: &[u32],
    children: &[SplitChildren],
) -> (counts: (usize, usize, usize))
    requires
        old(trainer).wf(),
        plan_valid(plan.to_clone@, plan.to_split@, old(trainer)@.len() as int),
        opacities.len() == plan.to_clone.len(),
        children.len() == plan.to_split.len(),
    ensures
        final(trainer).wf(),
        final(trainer)@ == densified(
            old(trainer)@,
            plan.to_clone@,
            plan.to_split@,
            opacities@,
            children@,
        ),
        final(trainer).bank.same_meta(old(trainer).bank),
        counts.0 == plan.to_clone.len(),
        counts.1 == plan.to_split.len() * 2,
        counts.2 == plan.to_split.len(),
{
    let ghost s = trainer@;
    let ghost bank = trainer.bank;
    let nc: usize = plan.to_clone.len();
    let ns: usize = plan.to_split.len();
    proof {
        lemma_ascending_len(plan.to_split@, s.len() as int);
        assert(trainer.splats.sh_rest@.len() == s.len() * 45);
    }
    let mut k: usize = 0;
    while k < nc
        invariant
            k <= nc,
            nc == plan.to_clone.len(),
            nc == opacities.len(),
            ascending(plan.to_clone@, s.len() as int),
            trainer.wf(),
            trainer.bank.same_meta(bank),
            trainer@ == with_clones(s, plan.to_clone@, opacities@, k as int),
        decreases nc - k,
    {
        proof {
            lemma_with_clones(s, plan.to_clone@, opacities@, k as int);
        }
        let i: usize = plan.to_clone[k];
        let opacity: u32 = opacities[k];
        let rest: Vec<u32> = trainer.splats.rest_of(i);
        let ghost prev = trainer@;
        let ghost e = prev[i as int];
        trainer.set_opacity(i, opacity);
        assert(trainer.splats@[i as int] == trainer@[i as int].splat);
        let (pos, rotation, scale, sh_dc): (Vec3, [u32; 4], [u32; 3], [u32; 3]) = (
            trainer.splats.positions[i],
            trainer.splats.rotations[i],
            trainer.splats.scales[i],
            trainer.splats.sh_dc[i],
        );
        trainer.push_splat(pos, rotation, scale, opacity, sh_dc, rest.as_slice());
        proof {
            let splat = Splat { opacity, ..e.splat };
            assert(trainer@ =~= prev.update(i as int, Entry { splat, ..e }).push(fresh(splat)));
        }
        k = k + 1;
    }
    let ghost a = trainer@;
    proof {
        lemma_with_clones(s, plan.to_clone@, opacities@, nc as int);
    }
    k = 0;
    while k < ns
        invariant
            k <= ns,
            ns == plan.to_split.len(),
            ns == children.len(),
            ascending(plan.to_split@, s.len() as int),
            a.len() == s.len() + nc,
            trainer.wf(),
            trainer.bank.same_meta(bank),
            trainer@ == with_children(a, plan.to_split@, children@, k as int),
        decreases ns - k,
    {
        proof {
            lemma_with_children(a, plan.to_split@, children@, k as int);
        }
        let i: usize = plan.to_split[k];
        let c: SplitChildren = children[k];
        let ghost prev = trainer@;
        assert(prev[i as int] == a[i as int]);
        assert(trainer.splats@[i as int] == trainer@[i as int].splat);
        let rest: Vec<u32> = trainer.splats.rest_of(i);
        let (rotation, opacity, sh_dc): ([u32; 4], u32, [u32; 3]) = (
            trainer.splats.rotations[i],
            trainer.splats.opacities[i],
            trainer.splats.sh_dc[i],
        );
        trainer.push_splat(c.first, rotation, c.log_scale, opacity, sh_dc, rest.as_slice());
        trainer.push_splat(c.second, rotation, c.log_scale, opacity, sh_dc, rest.as_slice());
        proof {
            let parent = a[i as int].splat;
            assert(trainer@ =~= prev.push(
                fresh(Splat { pos: c.first, scale: c.log_scale, ..parent }),
            ).push(fresh(Splat { pos: c.second, scale: c.log_scale, ..parent })));
        }
        k = k + 1;
    }
    proof {
        lemma_with_children(a, plan.to_split@, children@, ns as int);
    }
    remove_all(trainer, &plan.to_split);
    (nc, ns * 2, ns)
}

proof fn lemma_ascending_len(ids: Seq<usize>, n: int)
    requires
        ascending(ids, n),
        n >= 0,
    ensures
        ids.len() <= n,
    decreases ids.len(),
{
    if ids.len() > 0 {
        let m = ids.last() as int;
        let head = ids.drop_last();
        assert(ascending(head, m)) by {
            assert forall|a: int| 0 <= a < head.len() implies head[a] < m by {
                assert(ids[a] < ids[ids.len() - 1]);
            }
        }
        lemma_ascending_len(head, m);
    }
}

/// A training run.
#[derive(Clone, Copy, Debug, PartialEq, Eq, Structural)]
pub struct TrainConfig {
    pub iterations: u32,
    /// Number of splats that densifying does not exceed.
    pub max_splats: usize,
    pub reference: BakeConfig,
    /// Optimiser of the positions.
    pub adam_pos: AdamConfig,
    /// Optimiser of everything else.
    pub adam_attr: AdamConfig,
    /// Weight of the similarity term of the loss, as float bits.
    pub ssim_lambda: u32,
}

/// What one iteration does besides its optimiser step.
#[derive(Clone, Copy, Debug, PartialEq, Eq, Structural)]
pub struct IterationPlan {
    /// Reference view to compare against.
    pub view: usize,
    /// Whether to dump the predicted and the reference frame.
    pub dump: bool,
    /// Whether to prune.
    pub prune: bool,
    /// Whether to densify.
    pub densify: bool,
    /// Whether to print diagnostics.
    pub log: bool,
}

/// Whether iteration `iter` prunes.
pub open spec fn prunes_at(iter: int) -> bool {
    iter >= 50 && iter % 100 == 0
}

/// Whether iteration `iter` densifies.
pub open spec fn densifies_at(iter: int) -> bool {
    iter >= 100 && iter % 200 == 0
}

/// Plans iteration `iter` of `iterations` over `views` reference views, which
/// are taken in turn.
pub fn iteration_plan(iter: u32, iterations: u32, views: usize) -> (plan: IterationPlan)
    requires
        iter < iterations,
        views > 0,
    ensures
        plan.view == iter as int % views as int,
        plan.dump == (iter == 0),
        plan.prune == prunes_at(iter as int),
        plan.densify == densifies_at(iter as int),
        plan.log == (iter % 100 == 0 || iter == iterations - 1),
{
    IterationPlan {
        view: (iter as usize) % views,
        dump: iter == 0,
        prune: iter >= PRUNE_WARMUP && iter % PRUNE_EVERY == 0,
        densify: iter >= DENSIFY_WARMUP && iter % DENSIFY_EVERY == 0,
        log: iter % LOG_EVERY == 0 || iter + 1 == iterations,
    }
}

/// Every densify pass directly follows a prune sweep of the same iteration,
/// and the first iteration does neither.
pub proof fn law_densify_follows_prune(iter: int)
    requires
        iter >= 0,
    ensures
        densifies_at(iter) ==> prunes_at(iter),
        !prunes_at(0) && !densifies_at(0),
        densifies_at(iter) ==> iter >= 200,
        prunes_at(iter) ==> iter >= 100,
{
}

/// The iterations that prune are the positive multiples of a hundred, and
/// those that densify the positive multiples of two hundred.
pub proof fn law_schedule(iter: int)
    requires
        iter >= 0,
    ensures
        prunes_at(iter) <==> exists|k: int| k >= 1 && iter == #[trigger] (100 * k),
        densifies_at(iter) <==> exists|k: int| k >= 1 && iter == #[trigger] (200 * k),
{
    if prunes_at(iter) {
        assert(iter == 100 * (iter / 100));
    }
    if densifies_at(iter) {
        assert(iter == 200 * (iter / 200));
    }
}

/// Steps since the start and since the last densify pass.
#[derive(Clone, Copy, Debug, PartialEq, Eq, Structural)]
pub struct TrainClock {
    /// Optimiser steps taken; the bias correction's exponent.
    pub t: u64,
    /// Gradients accumulated since the accumulators were last cleared.
    pub grad_count: u32,
}

impl TrainClock {
    pub fn new() -> (clock: Self)
        ensures
            clock.t == 0,
            clock.grad_count == 0,
    {
        TrainClock { t: 0, grad_count: 0 }
    }

    /// Exponent of the bias correction of the step about to be taken.
    pub fn next_step(&self) -> (t: u64)
        requires
            self.t < u64::MAX,
        ensures
            t == self.t + 1,
    {
        self.t + 1
    }

    /// Counts one optimiser step.
    pub fn step(&mut self)
        requires
            old(self).t < u64::MAX,
            old(self).grad_count < u32::MAX,
        ensures
            final(self).t == old(self).t + 1,
            final(self).grad_count == old(self).grad_count + 1,
    {
        self.t = self.t + 1;
        self.grad_count = self.grad_count + 1;
    }
}

/// Opens a checkpoint: prunes where the iteration does, and says whether a
/// densify pass is due, which takes an accumulated gradient. Returns how many
/// splats were dropped.
pub fn begin_checkpoint(trainer: &mut Trainer, clock: &TrainClock, plan: &IterationPlan) -> (r: (
    usize,
    bool,
))
    requires
        old(trainer).wf(),
    ensures
        final(trainer).wf(),
        final(trainer)@ == if plan.prune {
            pruned(old(trainer)@, 0xc0a9_999a)
        } else {
            old(trainer)@
        },
        final(trainer).bank.same_meta(old(trainer).bank),
        r.0 == old(trainer)@.len() - final(trainer)@.len(),
        r.1 == (plan.densify && clock.grad_count > 0),
{
    let removed: usize = if plan.prune {
        prune_low_opacity(trainer, PRUNE_OPACITY_LOGIT)
    } else {
        0
    };
    (removed, plan.densify && clock.grad_count > 0)
}

/// What happens to the device-side accumulators after a checkpoint.
#[derive(Clone, Copy, Debug, PartialEq, Eq, Structural)]
pub enum AccumulatorUpload {
    /// The splat count changed: reallocate every per-splat buffer and write
    /// the accumulators.
    Reallocate,
    /// The accumulators were cleared: zero them in place.
    Zero,
    /// Write the accumulators back.
    Write,
}

/// Closes a checkpoint. After a densify pass the accumulators and their count
/// are cleared; the upload follows from whether the splat count changed from
/// `device_count`.
pub fn finish_checkpoint(
    trainer: &mut Trainer,
    clock: &mut TrainClock,
    after_densify: bool,
    device_count: u32,
) -> (upload: AccumulatorUpload)
    requires
        old(trainer).wf(),
        old(trainer)@.len() <= u32::MAX,
    ensures
        final(trainer).wf(),
        final(trainer).bank == old(trainer).bank,
        final(trainer).splats == old(trainer).splats,
        final(trainer)@ == if after_densify {
            old(trainer)@.map_values(|e: Entry| (Entry { grad: crate::float_bits::ZERO, ..e }))
        } else {
            old(trainer)@
        },
        final(clock).t == old(clock).t,
        final(clock).grad_count == if after_densify { 0 } else { old(clock).grad_count },
        upload == if old(trainer)@.len() != device_count {
            AccumulatorUpload::Reallocate
        } else if after_densify {
            AccumulatorUpload::Zero
        } else {
            AccumulatorUpload::Write
        },
{
    if after_densify {
        trainer.clear_gradients();
        clock.grad_count = 0;
    }
    let n: usize = trainer.splats.len();
    if n as u32 != device_count {
        AccumulatorUpload::Reallocate
    } else if after_densify {
        AccumulatorUpload::Zero
    } else {
        AccumulatorUpload::Write
    }
}

/// One step of the generator that scatters split children.
pub open spec fn lcg_step(state: u32) -> u32 {
    ((state * 1664525 + 1013904223) % 0x1_0000_0000) as u32
}

/// The generator's state after `k` steps from the seed of iteration `iter`.
pub open spec fn lcg_state(iter: u32, k: int) -> u32
    decreases k,
{
    if k <= 0 {
        lcg_step(iter)
    } else {
        lcg_step(lcg_state(iter, k - 1))
    }
}

/// Steps the generator.
pub fn lcg_next(state: u32) -> (next: u32)
    ensures
        next == lcg_step(state),
{
    let product: u32 = state.wrapping_mul(1664525);
    let next: u32 = product.wrapping_add(1013904223);
    proof {
        let m: int = 0x1_0000_0000;
        vstd::arithmetic::div_mod::lemma_add_mod_noop(state * 1664525, 1013904223, m);
        assert(product == (state * 1664525) % m);
        assert(next == (product + 1013904223) % m);
    }
    next
}

/// The first `count` states that the generator of iteration `iter` yields.
/// Equal iterations yield equal draws.
pub fn lcg_draws(iter: u32, count: usize) -> (draws: Vec<u32>)
    ensures
        draws.len() == count,
        forall|k: int| 0 <= k < count ==> draws@[k] == lcg_state(iter, k + 1),
{
    let mut draws: Vec<u32> = Vec::new();
    let mut state: u32 = lcg_next(iter);
    let mut k: usize = 0;
    while k < count
        invariant
            k <= count,
            draws.len() == k,
            state == lcg_state(iter, k as int),
            forall|j: int| 0 <= j < k ==> draws@[j] == lcg_state(iter, j + 1),
        decreases count - k,
    {
        state = lcg_next(state);
        draws.push(state);
        k = k + 1;
    }
    draws
}

/// A step of the generator multiplies by 1664525 and adds 1013904223, less as
/// many multiples of `2^32` as fit. No two states step to the same one.
pub proof fn law_lcg(a: u32, b: u32)
    ensures
        exists|q: int|
            0 <= q && a * 1664525 + 1013904223 == #[trigger] (q * 0x1_0000_0000) + lcg_step(a),
        a != b ==> lcg_step(a) != lcg_step(b),
{
    let m: int = 0x1_0000_0000;
    let x = a * 1664525 + 1013904223;
    assert(x == (x / m) * m + x % m) by {
        vstd::arithmetic::div_mod::lemma_fundamental_div_mod(x, m);
    }
    assert(x == ((x / m) * 0x1_0000_0000) + lcg_step(a));
    if lcg_step(a) == lcg_step(b) {
        let y = b * 1664525 + 1013904223;
        assert(y == (y / m) * m + y % m) by {
            vstd::arithmetic::div_mod::lemma_fundamental_div_mod(y, m);
        }
        lemma_multiplier_cancels(a - b, x / m - y / m);
    }
}

/// The multiplier of the generator is odd, so it cancels from a multiple of
/// `2^32`.
proof fn lemma_multiplier_cancels(diff: int, d: int)
    requires
        diff * 1664525 == d * 0x1_0000_0000,
        -0x1_0000_0000 < diff < 0x1_0000_0000,
    ensures
        diff == 0,
{
    let e = d * 4276115653 - diff * 1657219;
    assert(diff == e * 0x1_0000_0000);
}

/// The generator of an iteration is seeded with one step from the iteration's
/// number, and every further state is one step from the one before.
pub proof fn law_lcg_states(iter: u32, k: int)
    requires
        k >= 0,
    ensures
        lcg_state(iter, 0) == lcg_step(iter),
        lcg_state(iter, k + 1) == lcg_step(lcg_state(iter, k)),
{
}

} // verus!
