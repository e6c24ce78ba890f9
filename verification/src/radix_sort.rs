//! Stable radix sort of `u32` keys with a `u32` payload.
//!
//! Thirty-two passes, least significant bit first. Each pass is a stable
//! split: the pairs whose key has the bit clear come first, in order, and
//! those with the bit set follow, in order. A pass finds every destination
//! from an exclusive scan of the "bit is clear" predicate and moves the pairs
//! from one ping-pong buffer to the other; the pass count is even, so the
//! sorted pairs end where the input was.
use vstd::prelude::*;

use crate::pipelines::Pass;
use crate::prefix_scan::{PrefixScan, MAX_SCAN_LEN};
#[allow(unused_imports)]
use crate::prefix_scan::{exclusive_scan, lemma_prefix_monotone, modulus, prefix, wrapped_sum};

verus! {

/// Bits of a key, one pass each.
pub const KEY_BITS: u32 = 32;

/// Value of bit `b` of `key`.
pub open spec fn bit_of(key: u32, b: int) -> int {
    (key as int / vstd::arithmetic::power2::pow2(b as nat) as int) % 2
}

/// `key` cut down to its `b` least significant bits.
pub open spec fn low_bits(key: u32, b: int) -> int {
    key as int % vstd::arithmetic::power2::pow2(b as nat) as int
}

/// Keys and payloads as a sequence of pairs, cut to the first `n`.
pub open spec fn pairs(keys: Seq<u32>, vals: Seq<u32>, n: int) -> Seq<(u32, u32)> {
    Seq::new(n as nat, |i: int| (keys[i], vals[i]))
}

/// Whether a pair's key has bit `b` equal to `v`.
pub open spec fn has_bit(b: int, v: int) -> spec_fn((u32, u32)) -> bool {
    |p: (u32, u32)| bit_of(p.0, b) == v
}

/// Whether a pair carries the key `k`.
pub open spec fn has_key(k: u32) -> spec_fn((u32, u32)) -> bool {
    |p: (u32, u32)| p.0 == k
}

/// One stable split on bit `b`.
pub open spec fn split(s: Seq<(u32, u32)>, b: int) -> Seq<(u32, u32)> {
    s.filter(has_bit(b, 0)) + s.filter(has_bit(b, 1))
}

/// The pairs after the passes over bits `0..b`.
pub open spec fn after_passes(s: Seq<(u32, u32)>, b: int) -> Seq<(u32, u32)>
    decreases b,
{
    if b <= 0 {
        s
    } else {
        split(after_passes(s, b - 1), b - 1)
    }
}

/// Keys ascend.
pub open spec fn key_sorted(s: Seq<(u32, u32)>) -> bool {
    forall|i: int, j: int| 0 <= i <= j < s.len() ==> s[i].0 <= s[j].0
}

/// `out` is the stable sort of `s` by key: its keys ascend, and under every
/// key it lists the same pairs in the same order.
pub open spec fn is_stable_sort(s: Seq<(u32, u32)>, out: Seq<(u32, u32)>) -> bool {
    &&& out.len() == s.len()
    &&& key_sorted(out)
    &&& forall|k: u32| #[trigger] out.filter(has_key(k)) == s.filter(has_key(k))
}

/// Keys ascend on their `b` least significant bits.
spec fn low_sorted(s: Seq<(u32, u32)>, b: int) -> bool {
    forall|i: int, j: int| 0 <= i <= j < s.len() ==> low_bits(s[i].0, b) <= low_bits(s[j].0, b)
}

proof fn lemma_filter_low_sorted(s: Seq<(u32, u32)>, b: int, pred: spec_fn((u32, u32)) -> bool)
    requires
        low_sorted(s, b),
    ensures
        low_sorted(s.filter(pred), b),
    decreases s.len(),
{
    reveal(Seq::filter);
    if s.len() > 0 {
        let head = s.drop_last();
        lemma_filter_low_sorted(head, b, pred);
        let f = head.filter(pred);
        assert forall|i: int| 0 <= i < f.len() implies #[trigger] low_bits(f[i].0, b) <= low_bits(
            s.last().0,
            b,
        ) by {
            head.lemma_filter_contains_rev(pred, f[i]);
            let k = choose|k: int| 0 <= k < head.len() && head[k] == f[i];
            assert(s[k] == f[i]);
        }
    }
}

/// A pair that a split moves is either in the zero part or in the one part.
proof fn lemma_split_lengths(s: Seq<(u32, u32)>, b: int)
    ensures
        s.filter(has_bit(b, 0)).len() + s.filter(has_bit(b, 1)).len() == s.len(),
    decreases s.len(),
{
    reveal(Seq::filter);
    if s.len() > 0 {
        lemma_split_lengths(s.drop_last(), b);
        assert(bit_of(s.last().0, b) == 0 || bit_of(s.last().0, b) == 1);
    }
}

proof fn lemma_low_bits_step(key: u32, b: int)
    requires
        0 <= b,
    ensures
        low_bits(key, b + 1) == low_bits(key, b) + bit_of(key, b)
            * vstd::arithmetic::power2::pow2(b as nat),
        0 <= low_bits(key, b) < vstd::arithmetic::power2::pow2(b as nat),
        bit_of(key, b) == 0 || bit_of(key, b) == 1,
{
    let p = vstd::arithmetic::power2::pow2(b as nat) as int;
    vstd::arithmetic::power2::lemma_pow2_pos(b as nat);
    vstd::arithmetic::power2::lemma_pow2_unfold((b + 1) as nat);
    vstd::arithmetic::div_mod::lemma_mod_breakdown(key as int, p, 2);
    vstd::arithmetic::div_mod::lemma_mod_bound(key as int, p);
    assert(p * 2 == vstd::arithmetic::power2::pow2((b + 1) as nat));
    assert(p * bit_of(key, b) == bit_of(key, b) * p) by (nonlinear_arith);
}

proof fn lemma_split_low_sorted(s: Seq<(u32, u32)>, b: int)
    requires
        0 <= b,
        low_sorted(s, b),
    ensures
        low_sorted(split(s, b), b + 1),
{
    let zeros = s.filter(has_bit(b, 0));
    let ones = s.filter(has_bit(b, 1));
    let out = split(s, b);
    lemma_filter_low_sorted(s, b, has_bit(b, 0));
    lemma_filter_low_sorted(s, b, has_bit(b, 1));
    let p = vstd::arithmetic::power2::pow2(b as nat);
    assert forall|i: int, j: int| 0 <= i <= j < out.len() implies low_bits(out[i].0, b + 1)
        <= low_bits(out[j].0, b + 1) by {
        lemma_low_bits_step(out[i].0, b);
        lemma_low_bits_step(out[j].0, b);
        if i < zeros.len() {
            s.lemma_filter_pred(has_bit(b, 0), i);
        } else {
            s.lemma_filter_pred(has_bit(b, 1), i - zeros.len());
        }
        if j < zeros.len() {
            s.lemma_filter_pred(has_bit(b, 0), j);
            assert(low_bits(zeros[i].0, b) <= low_bits(zeros[j].0, b));
        } else {
            s.lemma_filter_pred(has_bit(b, 1), j - zeros.len());
            if i >= zeros.len() {
                assert(low_bits(ones[i - zeros.len()].0, b) <= low_bits(
                    ones[j - zeros.len()].0,
                    b,
                ));
            }
        }
    }
}

/// Filtering by a key inside one half of a split: everything or nothing.
proof fn lemma_filter_key_in_half(s: Seq<(u32, u32)>, b: int, v: int, k: u32)
    ensures
        s.filter(has_bit(b, v)).filter(has_key(k)) == if bit_of(k, b) == v {
            s.filter(has_key(k))
        } else {
            Seq::<(u32, u32)>::empty()
        },
    decreases s.len(),
{
    reveal(Seq::filter);
    if s.len() > 0 {
        let head = s.drop_last();
        lemma_filter_key_in_half(head, b, v, k);
        if bit_of(s.last().0, b) == v {
            let f = head.filter(has_bit(b, v));
            assert(s.filter(has_bit(b, v)) == f.push(s.last()));
            assert(f.push(s.last()).drop_last() =~= f);
        }
    }
}

proof fn lemma_split_keeps_keys(s: Seq<(u32, u32)>, b: int, k: u32)
    ensures
        split(s, b).filter(has_key(k)) == s.filter(has_key(k)),
{
    let zeros = s.filter(has_bit(b, 0));
    let ones = s.filter(has_bit(b, 1));
    Seq::filter_distributes_over_add(zeros, ones, has_key(k));
    lemma_filter_key_in_half(s, b, 0, k);
    lemma_filter_key_in_half(s, b, 1, k);
    assert(bit_of(k, b) == 0 || bit_of(k, b) == 1);
    assert(Seq::<(u32, u32)>::empty() + s.filter(has_key(k)) =~= s.filter(has_key(k)));
    assert(s.filter(has_key(k)) + Seq::<(u32, u32)>::empty() =~= s.filter(has_key(k)));
}

proof fn lemma_after_passes(s: Seq<(u32, u32)>, b: int)
    requires
        0 <= b,
    ensures
        after_passes(s, b).len() == s.len(),
        low_sorted(after_passes(s, b), b),
        forall|k: u32| #[trigger] after_passes(s, b).filter(has_key(k)) == s.filter(has_key(k)),
    decreases b,
{
    if b == 0 {
        vstd::arithmetic::power2::lemma2_to64();
        assert forall|i: int| 0 <= i < s.len() implies #[trigger] low_bits(s[i].0, 0) == 0 by {}
    } else {
        lemma_after_passes(s, b - 1);
        let prev = after_passes(s, b - 1);
        lemma_split_lengths(prev, b - 1);
        lemma_split_low_sorted(prev, b - 1);
        assert forall|k: u32| #[trigger]
            after_passes(s, b).filter(has_key(k)) == s.filter(has_key(k)) by {
            lemma_split_keeps_keys(prev, b - 1, k);
        }
    }
}

/// Thirty-two stable splits, least significant bit first, are a stable sort.
pub proof fn law_passes_sort(s: Seq<(u32, u32)>)
    ensures
        is_stable_sort(s, after_passes(s, 32)),
{
    lemma_after_passes(s, 32);
    let out = after_passes(s, 32);
    vstd::arithmetic::power2::lemma2_to64();
    assert forall|i: int, j: int| 0 <= i <= j < out.len() implies out[i].0 <= out[j].0 by {
        assert(low_bits(out[i].0, 32) <= low_bits(out[j].0, 32));
        assert(vstd::arithmetic::power2::pow2(32) == 0x1_0000_0000);
        vstd::arithmetic::div_mod::lemma_small_mod(out[i].0 as nat, 0x1_0000_0000);
        vstd::arithmetic::div_mod::lemma_small_mod(out[j].0 as nat, 0x1_0000_0000);
    }
}

proof fn lemma_all_filtered(s: Seq<(u32, u32)>, k: u32)
    ensures
        forall|i: int| 0 <= i < s.len() && s[i].0 == k ==> s.filter(has_key(k)).len() > 0,
        s.len() > 0 ==> s.filter(has_key(s.last().0)).last() == s.last(),
{
    reveal(Seq::filter);
    assert forall|i: int| 0 <= i < s.len() && s[i].0 == k implies s.filter(has_key(k)).len() > 0 by {
        s.lemma_filter_contains(has_key(k), i);
    }
}

/// There is only one stable sort of a sequence.
pub proof fn law_stable_sort_unique(
    s: Seq<(u32, u32)>,
    a: Seq<(u32, u32)>,
    b: Seq<(u32, u32)>,
)
    requires
        is_stable_sort(s, a),
        is_stable_sort(s, b),
    ensures
        a == b,
    decreases a.len(),
{
    if a.len() == 0 {
        assert(a =~= b);
    } else {
        let n = a.len() - 1;
        lemma_all_filtered(a, b.last().0);
        lemma_all_filtered(b, a.last().0);
        // Each last key is the greatest one, so both last keys agree.
        assert(b.filter(has_key(b.last().0)).len() > 0) by {
            lemma_all_filtered(b, b.last().0);
        }
        assert(a.last().0 >= b.last().0) by {
            let f = a.filter(has_key(b.last().0));
            assert(f == b.filter(has_key(b.last().0)));
            a.lemma_filter_contains_rev(has_key(b.last().0), f[0]);
            a.lemma_filter_pred(has_key(b.last().0), 0);
            let k = choose|k: int| 0 <= k < a.len() && a[k] == f[0];
            assert(a[k].0 <= a[n].0);
        }
        assert(a.filter(has_key(a.last().0)).len() > 0) by {
            lemma_all_filtered(a, a.last().0);
        }
        assert(b.last().0 >= a.last().0) by {
            let f = b.filter(has_key(a.last().0));
            assert(f == a.filter(has_key(a.last().0)));
            b.lemma_filter_contains_rev(has_key(a.last().0), f[0]);
            b.lemma_filter_pred(has_key(a.last().0), 0);
            let k = choose|k: int| 0 <= k < b.len() && b[k] == f[0];
            assert(b[k].0 <= b[n].0);
        }
        assert(a.last() == b.last());
        let (x, y) = (a.drop_last(), b.drop_last());
        assert forall|k: u32| #[trigger] x.filter(has_key(k)) == y.filter(has_key(k)) by {
            reveal(Seq::filter);
            assert(a.filter(has_key(k)) == b.filter(has_key(k)));
            if k == a.last().0 {
                assert(a.filter(has_key(k)) == x.filter(has_key(k)).push(a.last()));
                assert(b.filter(has_key(k)) == y.filter(has_key(k)).push(b.last()));
                assert(x.filter(has_key(k)).push(a.last()).drop_last() =~= x.filter(has_key(k)));
                assert(y.filter(has_key(k)).push(b.last()).drop_last() =~= y.filter(has_key(k)));
            }
        }
        law_stable_sort_unique(y, x, y);
        assert(a =~= x.push(a.last()));
        assert(b =~= y.push(b.last()));
    }
}

/// How many of the first `i` pairs have bit `b` clear.
spec fn zeros_before(s: Seq<(u32, u32)>, b: int, i: int) -> int {
    s.take(i).filter(has_bit(b, 0)).len() as int
}

proof fn lemma_filter_take_step(s: Seq<(u32, u32)>, pred: spec_fn((u32, u32)) -> bool, i: int)
    requires
        0 <= i < s.len(),
    ensures
        s.take(i + 1).filter(pred) == if pred(s[i]) {
            s.take(i).filter(pred).push(s[i])
        } else {
            s.take(i).filter(pred)
        },
{
    reveal(Seq::filter);
    assert(s.take(i + 1).drop_last() =~= s.take(i));
}

/// The predicate's running sum counts the clear bits.
proof fn lemma_predicate_counts(s: Seq<(u32, u32)>, b: int, pred: Seq<u32>, i: int)
    requires
        0 <= i <= s.len(),
        s.len() <= pred.len(),
        forall|k: int| 0 <= k < s.len() ==> pred[k] == if bit_of(s[k].0, b) == 0 { 1u32 } else { 0u32 },
    ensures
        prefix(pred, i) == zeros_before(s, b, i),
        0 <= zeros_before(s, b, i) <= i,
    decreases i,
{
    reveal(Seq::filter);
    if i > 0 {
        lemma_predicate_counts(s, b, pred, i - 1);
        lemma_filter_take_step(s, has_bit(b, 0), i - 1);
    }
}

proof fn lemma_zeros_monotone(s: Seq<(u32, u32)>, b: int, i: int, j: int)
    requires
        0 <= i <= j <= s.len(),
    ensures
        zeros_before(s, b, i) <= zeros_before(s, b, j),
        zeros_before(s, b, j) - zeros_before(s, b, i) <= j - i,
    decreases j,
{
    if i < j {
        lemma_zeros_monotone(s, b, i, j - 1);
        lemma_filter_take_step(s, has_bit(b, 0), j - 1);
    }
}

/// Whether bit `b` of `key` is clear.
pub fn bit_is_clear(key: u32, b: u32) -> (clear: bool)
    requires
        b < 32,
    ensures
        clear == (bit_of(key, b as int) == 0),
{
    proof {
        vstd::bits::lemma_u32_shr_is_div(key, b);
    }
    let shifted: u32 = key >> b;
    shifted % 2 == 0
}

/// The mark of a key: one where bit `b` is clear, zero where it is set.
pub open spec fn clear_mark(key: u32, b: int) -> u32 {
    if bit_of(key, b) == 0 {
        1
    } else {
        0
    }
}

/// The marks of the first `n` keys.
pub open spec fn clear_marks(keys: Seq<u32>, n: int, b: int) -> Seq<u32> {
    Seq::new(n as nat, |i: int| clear_mark(keys[i], b))
}

/// Where a split on bit `b` puts pair `i`: behind the pairs with a clear bit
/// before it, of which there are `counts[i]`, or behind all `total` pairs with
/// a clear bit and the others before it.
pub open spec fn split_place(
    keys: Seq<u32>,
    counts: Seq<u32>,
    total: u32,
    b: int,
    i: int,
) -> int {
    if bit_of(keys[i], b) == 0 {
        counts[i] as int
    } else {
        total + (i - counts[i])
    }
}

/// `dst` after the first `i` words of `src` went to their places.
pub open spec fn scattered(
    src: Seq<u32>,
    keys: Seq<u32>,
    counts: Seq<u32>,
    total: u32,
    b: int,
    dst: Seq<u32>,
    i: int,
) -> Seq<u32>
    decreases i,
{
    if i <= 0 {
        dst
    } else {
        scattered(src, keys, counts, total, b, dst, i - 1).update(
            split_place(keys, counts, total, b, i - 1),
            src[i - 1],
        )
    }
}

/// The scanned marks count the pairs with a clear bit before each pair, and
/// with the last pair's own mark all of them.
proof fn lemma_marks_count(keys: Seq<u32>, vals: Seq<u32>, n: int, b: int)
    requires
        0 < n <= MAX_SCAN_LEN,
        n <= keys.len(),
        n <= vals.len(),
    ensures
        ({
            let s = pairs(keys, vals, n);
            let counts = exclusive_scan(clear_marks(keys, n, b), n);
            &&& counts.len() == n
            &&& forall|i: int| 0 <= i < n ==> #[trigger] counts[i] == zeros_before(s, b, i)
            &&& counts[n - 1] + clear_mark(keys[n - 1], b) == s.filter(has_bit(b, 0)).len()
            &&& s.filter(has_bit(b, 0)).len() <= n
        }),
{
    let s = pairs(keys, vals, n);
    let marks = clear_marks(keys, n, b);
    let counts = exclusive_scan(marks, n);
    assert(s.take(n) =~= s);
    assert forall|i: int| 0 <= i < n implies #[trigger] counts[i] == zeros_before(s, b, i) by {
        lemma_predicate_counts(s, b, marks, i);
        assert(prefix(marks, 0) == 0);
    }
    lemma_predicate_counts(s, b, marks, n - 1);
    lemma_predicate_counts(s, b, marks, n);
}

/// After `i` pairs went to their places, the pairs with a clear bit fill the
/// buffer from the start and the others from `total` on, in order.
proof fn lemma_scattered(
    keys: Seq<u32>,
    vals: Seq<u32>,
    n: int,
    b: int,
    dst_keys: Seq<u32>,
    dst_vals: Seq<u32>,
    total: u32,
    i: int,
)
    requires
        0 < n <= MAX_SCAN_LEN,
        n <= keys.len(),
        n <= vals.len(),
        n <= dst_keys.len(),
        n <= dst_vals.len(),
        0 <= i <= n,
        total == pairs(keys, vals, n).filter(has_bit(b, 0)).len(),
    ensures
        ({
            let s = pairs(keys, vals, n);
            let counts = exclusive_scan(clear_marks(keys, n, b), n);
            let zs = s.take(i).filter(has_bit(b, 0));
            let os = s.take(i).filter(has_bit(b, 1));
            let ks = scattered(keys, keys, counts, total, b, dst_keys, i);
            let vs = scattered(vals, keys, counts, total, b, dst_vals, i);
            &&& ks.len() == dst_keys.len()
            &&& vs.len() == dst_vals.len()
            &&& zs.len() + os.len() == i
            &&& zs.len() <= total
            &&& os.len() <= n - total
            &&& forall|k: int| 0 <= k < zs.len() ==> #[trigger] zs[k] == (ks[k], vs[k])
            &&& forall|k: int| 0 <= k < os.len() ==> #[trigger] os[k] == (ks[total + k], vs[total + k])
            &&& forall|k: int| n <= k < ks.len() ==> ks[k] == dst_keys[k]
            &&& forall|k: int| n <= k < vs.len() ==> vs[k] == dst_vals[k]
        }),
    decreases i,
{
    let s = pairs(keys, vals, n);
    assert(s.take(n) =~= s);
    lemma_split_lengths(s, b);
    lemma_split_lengths(s.take(i), b);
    lemma_zeros_monotone(s, b, i, n);
    if i > 0 {
        lemma_scattered(keys, vals, n, b, dst_keys, dst_vals, total, i - 1);
        lemma_marks_count(keys, vals, n, b);
        lemma_filter_take_step(s, has_bit(b, 0), i - 1);
        lemma_filter_take_step(s, has_bit(b, 1), i - 1);
        lemma_split_lengths(s.take(i - 1), b);
        let counts = exclusive_scan(clear_marks(keys, n, b), n);
        assert(counts[i - 1] == zeros_before(s, b, i - 1));
        assert(bit_of(s[i - 1].0, b) == 0 || bit_of(s[i - 1].0, b) == 1);
    } else {
        assert(s.take(0) =~= Seq::<(u32, u32)>::empty());
        reveal(Seq::filter);
    }
}

/// Marking, scanning, counting and scattering are a split.
proof fn lemma_scatter_splits(
    keys: Seq<u32>,
    vals: Seq<u32>,
    n: int,
    b: int,
    dst_keys: Seq<u32>,
    dst_vals: Seq<u32>,
    total: u32,
)
    requires
        0 < n <= MAX_SCAN_LEN,
        n <= keys.len(),
        n <= vals.len(),
        n <= dst_keys.len(),
        n <= dst_vals.len(),
        total == pairs(keys, vals, n).filter(has_bit(b, 0)).len(),
    ensures
        ({
            let counts = exclusive_scan(clear_marks(keys, n, b), n);
            let ks = scattered(keys, keys, counts, total, b, dst_keys, n);
            let vs = scattered(vals, keys, counts, total, b, dst_vals, n);
            &&& ks.len() == dst_keys.len()
            &&& vs.len() == dst_vals.len()
            &&& pairs(ks, vs, n) == split(pairs(keys, vals, n), b)
            &&& forall|k: int| n <= k < ks.len() ==> ks[k] == dst_keys[k]
            &&& forall|k: int| n <= k < vs.len() ==> vs[k] == dst_vals[k]
        }),
{
    let s = pairs(keys, vals, n);
    assert(s.take(n) =~= s);
    lemma_scattered(keys, vals, n, b, dst_keys, dst_vals, total, n);
    let counts = exclusive_scan(clear_marks(keys, n, b), n);
    let ks = scattered(keys, keys, counts, total, b, dst_keys, n);
    let vs = scattered(vals, keys, counts, total, b, dst_vals, n);
    assert(pairs(ks, vs, n) =~= split(s, b));
}

/// Predicate pass: one where bit `b` of the key is clear, zero elsewhere.
pub fn bit_predicate(keys: &Vec<u32>, n: u32, b: u32) -> (pred: Vec<u32>)
    requires
        b < 32,
        n <= keys.len(),
    ensures
        pred@ == clear_marks(keys@, n as int, b as int),
{
    let mut pred: Vec<u32> = Vec::new();
    let mut i: u32 = 0;
    while i < n
        invariant
            b < 32,
            i <= n <= keys.len(),
            pred.len() == i,
            forall|k: int| 0 <= k < i ==> pred@[k] == clear_mark(keys@[k], b as int),
        decreases n - i,
    {
        pred.push(if bit_is_clear(keys[i as usize], b) { 1u32 } else { 0u32 });
        i = i + 1;
    }
    assert(pred@ =~= clear_marks(keys@, n as int, b as int));
    pred
}

/// One split pass: moves the first `n` pairs of the source buffers to their
/// places in the destination buffers.
pub fn split_pass(
    scanner: &PrefixScan,
    src_keys: &Vec<u32>,
    src_vals: &Vec<u32>,
    dst_keys: &mut Vec<u32>,
    dst_vals: &mut Vec<u32>,
    n: u32,
    b: u32,
)
    requires
        b < 32,
        0 < n <= MAX_SCAN_LEN,
        n <= src_keys.len(),
        n <= src_vals.len(),
        n <= old(dst_keys).len(),
        n <= old(dst_vals).len(),
    ensures
        final(dst_keys).len() == old(dst_keys).len(),
        final(dst_vals).len() == old(dst_vals).len(),
        pairs(final(dst_keys)@, final(dst_vals)@, n as int) == split(
            pairs(src_keys@, src_vals@, n as int),
            b as int,
        ),
        forall|k: int| n <= k < final(dst_keys).len() ==> final(dst_keys)@[k] == old(dst_keys)@[k],
        forall|k: int| n <= k < final(dst_vals).len() ==> final(dst_vals)@[k] == old(dst_vals)@[k],
{
    let pred = bit_predicate(src_keys, n, b);
    let last_pred: u32 = pred[(n - 1) as usize];
    let mut scan = pred;
    scanner.scan(&mut scan, n);
    proof {
        lemma_marks_count(src_keys@, src_vals@, n as int, b as int);
    }
    let total: u32 = scan[(n - 1) as usize] + last_pred;
    let ghost keys_before = dst_keys@;
    let ghost vals_before = dst_vals@;
    let mut i: u32 = 0;
    while i < n
        invariant
            b < 32,
            0 < n <= MAX_SCAN_LEN,
            i <= n,
            n <= src_keys.len(),
            n <= src_vals.len(),
            n <= keys_before.len(),
            n <= vals_before.len(),
            scan@ == exclusive_scan(clear_marks(src_keys@, n as int, b as int), n as int),
            total == pairs(src_keys@, src_vals@, n as int).filter(has_bit(b as int, 0)).len(),
            total <= n,
            dst_keys@ == scattered(
                src_keys@,
                src_keys@,
                scan@,
                total,
                b as int,
                keys_before,
                i as int,
            ),
            dst_vals@ == scattered(
                src_vals@,
                src_keys@,
                scan@,
                total,
                b as int,
                vals_before,
                i as int,
            ),
        decreases n - i,
    {
        proof {
            let s = pairs(src_keys@, src_vals@, n as int);
            lemma_marks_count(src_keys@, src_vals@, n as int, b as int);
            assert(scan@[i as int] == zeros_before(s, b as int, i as int));
            assert(s.take(n as int) =~= s);
            lemma_zeros_monotone(s, b as int, 0, i as int);
            lemma_zeros_monotone(s, b as int, i + 1, n as int);
            lemma_filter_take_step(s, has_bit(b as int, 0), i as int);
            lemma_split_lengths(s.take(i as int), b as int);
            assert(bit_of(s[i as int].0, b as int) == 0 || bit_of(s[i as int].0, b as int) == 1);
            lemma_scattered(
                src_keys@,
                src_vals@,
                n as int,
                b as int,
                keys_before,
                vals_before,
                total,
                i as int,
            );
            lemma_scattered(
                src_keys@,
                src_vals@,
                n as int,
                b as int,
                keys_before,
                vals_before,
                total,
                i + 1,
            );
            assert(s[i as int].0 == src_keys@[i as int]);
        }
        let key: u32 = src_keys[i as usize];
        let val: u32 = src_vals[i as usize];
        let before: u32 = scan[i as usize];
        let dest: u32 = if bit_is_clear(key, b) {
            before
        } else {
            total + (i - before)
        };
        dst_keys.set(dest as usize, key);
        dst_vals.set(dest as usize, val);
        i = i + 1;
    }
    proof {
        lemma_scatter_splits(
            src_keys@,
            src_vals@,
            n as int,
            b as int,
            keys_before,
            vals_before,
            total,
        );
    }
}

/// Whether the pass over bit `b` reads the first buffer pair and writes the
/// second (`true`), or the other way round.
pub fn reads_first(b: u32) -> (first: bool)
    ensures
        first == (b % 2 == 0),
{
    b % 2 == 0
}

/// One pass of a sort over bit `bit`. Where `first` holds, it reads the first
/// buffer pair and writes the second; otherwise the other way round.
#[derive(Clone, Copy, Debug, PartialEq, Eq, Structural)]
pub enum SortStep {
    /// Marks the keys whose bit is clear.
    Predicate { bit: u32, first: bool },
    /// Scans the marks, which then count the marked keys before each key.
    Scan,
    /// Counts the marked keys.
    Total { bit: u32, first: bool },
    /// Moves each pair to its place in the other buffer pair.
    Scatter { bit: u32, first: bool },
}

/// The buffers of a sort.
#[verifier::ext_equal]
pub struct SortState {
    pub keys_a: Seq<u32>,
    pub vals_a: Seq<u32>,
    pub keys_b: Seq<u32>,
    pub vals_b: Seq<u32>,
    pub marks: Seq<u32>,
    pub total: u32,
}

impl SortState {
    /// The keys that a pass reads.
    pub open spec fn source(self, first: bool) -> Seq<u32> {
        if first {
            self.keys_a
        } else {
            self.keys_b
        }
    }
}

/// The buffers after one pass over `n` pairs.
pub open spec fn sort_effect(s: SortState, step: SortStep, n: int) -> SortState {
    match step {
        SortStep::Predicate { bit, first } => (SortState {
            marks: clear_marks(s.source(first), n, bit as int),
            ..s
        }),
        SortStep::Scan => (SortState { marks: exclusive_scan(s.marks, n), ..s }),
        SortStep::Total { bit, first } => (SortState {
            total: (s.marks[n - 1] + clear_mark(s.source(first)[n - 1], bit as int)) as u32,
            ..s
        }),
        SortStep::Scatter { bit, first } => if first {
            SortState {
                keys_b: scattered(
                    s.keys_a,
                    s.keys_a,
                    s.marks,
                    s.total,
                    bit as int,
                    s.keys_b,
                    n,
                ),
                vals_b: scattered(
                    s.vals_a,
                    s.keys_a,
                    s.marks,
                    s.total,
                    bit as int,
                    s.vals_b,
                    n,
                ),
                ..s
            }
        } else {
            SortState {
                keys_a: scattered(
                    s.keys_b,
                    s.keys_b,
                    s.marks,
                    s.total,
                    bit as int,
                    s.keys_a,
                    n,
                ),
                vals_a: scattered(
                    s.vals_b,
                    s.keys_b,
                    s.marks,
                    s.total,
                    bit as int,
                    s.vals_a,
                    n,
                ),
                ..s
            }
        },
    }
}

/// The buffers after the first `k` passes over `n` pairs.
pub open spec fn run_sort(s: SortState, steps: Seq<SortStep>, n: int, k: int) -> SortState
    decreases k,
{
    if k <= 0 {
        s
    } else {
        sort_effect(run_sort(s, steps, n, k - 1), steps[k - 1], n)
    }
}

/// Pass `k` of a sort: four per bit.
pub open spec fn sort_step(k: int) -> SortStep {
    let bit = (k / 4) as u32;
    let first = (k / 4) % 2 == 0;
    if k % 4 == 0 {
        SortStep::Predicate { bit, first }
    } else if k % 4 == 1 {
        SortStep::Scan
    } else if k % 4 == 2 {
        SortStep::Total { bit, first }
    } else {
        SortStep::Scatter { bit, first }
    }
}

/// The passes of a sort of `n` pairs, in order.
pub open spec fn planned_sort(n: u32) -> Seq<SortStep> {
    if n == 0 {
        Seq::empty()
    } else {
        Seq::new(128, |k: int| sort_step(k))
    }
}

/// The passes of a sort of `n` pairs, in order.
pub fn sort_plan(n: u32) -> (steps: Vec<SortStep>)
    ensures
        steps@ == planned_sort(n),
{
    let mut steps: Vec<SortStep> = Vec::new();
    if n > 0 {
        let mut bit: u32 = 0;
        while bit < KEY_BITS
            invariant
                bit <= 32,
                steps.len() == bit * 4,
                forall|k: int| 0 <= k < steps.len() ==> #[trigger] steps@[k] == sort_step(k),
            decreases KEY_BITS - bit,
        {
            let first: bool = reads_first(bit);
            steps.push(SortStep::Predicate { bit, first });
            steps.push(SortStep::Scan);
            steps.push(SortStep::Total { bit, first });
            steps.push(SortStep::Scatter { bit, first });
            bit = bit + 1;
        }
    }
    assert(steps@ =~= planned_sort(n));
    steps
}

/// The buffers hold the pairs after `b` bits, in the pair that the next pass
/// reads, and are as long as at the start.
spec fn sorted_so_far(st: SortState, start: SortState, n: int, b: int) -> bool {
    let s = pairs(start.keys_a, start.vals_a, n);
    &&& st.keys_a.len() == start.keys_a.len()
    &&& st.vals_a.len() == start.vals_a.len()
    &&& st.keys_b.len() == start.keys_b.len()
    &&& st.vals_b.len() == start.vals_b.len()
    &&& if b % 2 == 0 {
        pairs(st.keys_a, st.vals_a, n) == after_passes(s, b)
    } else {
        pairs(st.keys_b, st.vals_b, n) == after_passes(s, b)
    }
}

/// The four passes over a bit are a split from one buffer pair to the other.
proof fn lemma_bit_passes(start: SortState, n: u32, b: int)
    requires
        0 < n <= MAX_SCAN_LEN,
        n <= start.keys_a.len(),
        n <= start.vals_a.len(),
        n <= start.keys_b.len(),
        n <= start.vals_b.len(),
        0 <= b < 32,
        sorted_so_far(run_sort(start, planned_sort(n), n as int, 4 * b), start, n as int, b),
    ensures
        sorted_so_far(run_sort(start, planned_sort(n), n as int, 4 * b + 4), start, n as int, b + 1),
{
    let steps = planned_sort(n);
    let m = n as int;
    let first = b % 2 == 0;
    let st0 = run_sort(start, steps, m, 4 * b);
    let st1 = run_sort(start, steps, m, 4 * b + 1);
    let st2 = run_sort(start, steps, m, 4 * b + 2);
    let st3 = run_sort(start, steps, m, 4 * b + 3);
    let st4 = run_sort(start, steps, m, 4 * b + 4);
    let bit = b as u32;
    assert(steps[4 * b] == SortStep::Predicate { bit, first });
    assert(steps[4 * b + 1] == SortStep::Scan);
    assert(steps[4 * b + 2] == SortStep::Total { bit, first });
    assert(steps[4 * b + 3] == SortStep::Scatter { bit, first });
    assert(st1 == sort_effect(st0, steps[4 * b], m));
    assert(st2 == sort_effect(st1, steps[4 * b + 1], m));
    assert(st3 == sort_effect(st2, steps[4 * b + 2], m));
    assert(st4 == sort_effect(st3, steps[4 * b + 3], m));
    if first {
        lemma_marks_count(st0.keys_a, st0.vals_a, m, b);
        lemma_scatter_splits(
            st0.keys_a,
            st0.vals_a,
            m,
            b,
            st0.keys_b,
            st0.vals_b,
            st3.total,
        );
    } else {
        lemma_marks_count(st0.keys_b, st0.vals_b, m, b);
        lemma_scatter_splits(
            st0.keys_b,
            st0.vals_b,
            m,
            b,
            st0.keys_a,
            st0.vals_a,
            st3.total,
        );
    }
}

proof fn lemma_bits_sorted(start: SortState, n: u32, b: int)
    requires
        0 < n <= MAX_SCAN_LEN,
        n <= start.keys_a.len(),
        n <= start.vals_a.len(),
        n <= start.keys_b.len(),
        n <= start.vals_b.len(),
        0 <= b <= 32,
    ensures
        sorted_so_far(run_sort(start, planned_sort(n), n as int, 4 * b), start, n as int, b),
    decreases b,
{
    if b > 0 {
        lemma_bits_sorted(start, n, b - 1);
        lemma_bit_passes(start, n, b - 1);
    }
}

/// Running the planned passes leaves the stable sort of the first `n` pairs
/// where the pairs were, whatever the other buffers held.
pub proof fn law_plan_sorts(start: SortState, n: u32)
    requires
        n <= MAX_SCAN_LEN,
        n <= start.keys_a.len(),
        n <= start.vals_a.len(),
        n <= start.keys_b.len(),
        n <= start.vals_b.len(),
    ensures
        ({
            let s = pairs(start.keys_a, start.vals_a, n as int);
            let end = run_sort(start, planned_sort(n), n as int, planned_sort(n).len() as int);
            &&& pairs(end.keys_a, end.vals_a, n as int) == after_passes(s, 32)
            &&& is_stable_sort(s, pairs(end.keys_a, end.vals_a, n as int))
            &&& end.keys_a.len() == start.keys_a.len()
            &&& end.vals_a.len() == start.vals_a.len()
        }),
{
    let s = pairs(start.keys_a, start.vals_a, n as int);
    law_passes_sort(s);
    if n > 0 {
        lemma_bits_sorted(start, n, 32);
    } else {
        assert(after_passes(s, 32) =~= s);
    }
}

/// Stable radix sort: the passes that a device runs for every bit, and the
/// same sort on the host.
#[derive(Clone, Copy, Debug)]
pub struct RadixSort {
    /// Marks the keys whose bit is clear.
    pub predicate_pass: Pass,
    /// Counts the marked keys.
    pub total_pass: Pass,
    /// Moves each pair to its place.
    pub scatter_pass: Pass,
    /// Counts the marked keys before each key.
    pub scan: PrefixScan,
}

impl RadixSort {
    /// The passes are those of a split, and its scan is a scan.
    pub open spec fn wf(self) -> bool {
        &&& self.predicate_pass == Pass::Predicate
        &&& self.total_pass == Pass::Total
        &&& self.scatter_pass == Pass::Scatter
        &&& self.scan.wf()
    }

    pub fn new() -> (sorter: Self)
        ensures
            sorter.wf(),
    {
        RadixSort {
            predicate_pass: Pass::Predicate,
            total_pass: Pass::Total,
            scatter_pass: Pass::Scatter,
            scan: PrefixScan::new(),
        }
    }

    /// Sorts the first `n` pairs of `keys_a` / `vals_a` by key, keeping the
    /// order of equal keys. `keys_b` / `vals_b` are scratch space of the same
    /// length; they end up holding the pairs as the last pass but one left
    /// them.
    pub fn sort(
        &self,
        keys_a: &mut Vec<u32>,
        vals_a: &mut Vec<u32>,
        keys_b: &mut Vec<u32>,
        vals_b: &mut Vec<u32>,
        n: u32,
    )
        requires
            n <= MAX_SCAN_LEN,
            n <= old(keys_a).len(),
            n <= old(vals_a).len(),
            n <= old(keys_b).len(),
            n <= old(vals_b).len(),
        ensures
            is_stable_sort(
                pairs(old(keys_a)@, old(vals_a)@, n as int),
                pairs(final(keys_a)@, final(vals_a)@, n as int),
            ),
            final(keys_a).len() == old(keys_a).len(),
            final(vals_a).len() == old(vals_a).len(),
            final(keys_b).len() == old(keys_b).len(),
            final(vals_b).len() == old(vals_b).len(),
            n > 0 ==> pairs(final(keys_b)@, final(vals_b)@, n as int) == after_passes(
                pairs(old(keys_a)@, old(vals_a)@, n as int),
                31,
            ),
            n == 0 ==> final(keys_b)@ == old(keys_b)@ && final(vals_b)@ == old(vals_b)@,
            forall|k: int| n <= k < final(keys_a).len() ==> final(keys_a)@[k] == old(keys_a)@[k],
            forall|k: int| n <= k < final(vals_a).len() ==> final(vals_a)@[k] == old(vals_a)@[k],
            forall|k: int| n <= k < final(keys_b).len() ==> final(keys_b)@[k] == old(keys_b)@[k],
            forall|k: int| n <= k < final(vals_b).len() ==> final(vals_b)@[k] == old(vals_b)@[k],
    {
        let ghost s = pairs(keys_a@, vals_a@, n as int);
        let ghost ka = keys_a@;
        let ghost va = vals_a@;
        let ghost kb = keys_b@;
        let ghost vb = vals_b@;
        proof {
            law_passes_sort(s);
        }
        if n == 0 {
            proof {
                let out = pairs(keys_a@, vals_a@, 0);
                assert(out =~= s);
            }
            return ;
        }
        let mut b: u32 = 0;
        while b < KEY_BITS
            invariant
                b <= 32,
                0 < n <= MAX_SCAN_LEN,
                n <= ka.len(),
                n <= va.len(),
                n <= kb.len(),
                n <= vb.len(),
                keys_a@.len() == ka.len(),
                vals_a@.len() == va.len(),
                keys_b@.len() == kb.len(),
                vals_b@.len() == vb.len(),
                forall|k: int| n <= k < ka.len() ==> keys_a@[k] == ka[k],
                forall|k: int| n <= k < va.len() ==> vals_a@[k] == va[k],
                forall|k: int| n <= k < kb.len() ==> keys_b@[k] == kb[k],
                forall|k: int| n <= k < vb.len() ==> vals_b@[k] == vb[k],
                b % 2 == 0 ==> pairs(keys_a@, vals_a@, n as int) == after_passes(s, b as int),
                b % 2 == 1 ==> pairs(keys_b@, vals_b@, n as int) == after_passes(s, b as int),
                b % 2 == 0 && b > 0 ==> pairs(keys_b@, vals_b@, n as int) == after_passes(s, b - 1),
            decreases KEY_BITS - b,
        {
            if reads_first(b) {
                split_pass(&self.scan, keys_a, vals_a, keys_b, vals_b, n, b);
            } else {
                split_pass(&self.scan, keys_b, vals_b, keys_a, vals_a, n, b);
            }
            b = b + 1;
        }
    }
}

/// Bit `b` of a key is what a shift by `b` leaves in the lowest place.
pub proof fn law_bit_of_a_key(key: u32, b: u32)
    requires
        b < 32,
    ensures
        bit_of(key, b as int) == (key >> b) & 1,
{
    vstd::bits::lemma_u32_shr_is_div(key, b);
    let q = key >> b;
    assert(q & 1 == q % 2) by (bit_vector);
}

/// A stable sort has the same pairs as its input under every key, in the same
/// order, and its keys never descend.
pub proof fn law_stable_sort(s: Seq<(u32, u32)>, out: Seq<(u32, u32)>, i: int, j: int, k: u32)
    requires
        is_stable_sort(s, out),
    ensures
        out.len() == s.len(),
        0 <= i < j < out.len() ==> out[i].0 <= out[j].0,
        out.filter(|p: (u32, u32)| p.0 == k) == s.filter(|p: (u32, u32)| p.0 == k),
{
    assert(out.filter(has_key(k)) == s.filter(has_key(k)));
    assert(has_key(k) =~= |p: (u32, u32)| p.0 == k);
}

/// One pass puts the pairs with a clear bit before those with a set one and
/// keeps the order of either.
pub proof fn law_split(s: Seq<(u32, u32)>, b: u32)
    requires
        b < 32,
    ensures
        split(s, b as int) == s.filter(|p: (u32, u32)| (p.0 >> b) & 1 == 0) + s.filter(
            |p: (u32, u32)| (p.0 >> b) & 1 == 1,
        ),
{
    let clear = |p: (u32, u32)| (p.0 >> b) & 1 == 0;
    let set = |p: (u32, u32)| (p.0 >> b) & 1 == 1;
    assert forall|p: (u32, u32)| #[trigger] bit_of(p.0, b as int) == (p.0 >> b) & 1 by {
        law_bit_of_a_key(p.0, b);
    }
    assert(has_bit(b as int, 0) =~= clear);
    assert(has_bit(b as int, 1) =~= set);
}

/// The marks of a pass are one where the bit is clear and zero where it is set,
/// and a pair keeps its key and payload together.
pub proof fn law_marks_and_pairs(keys: Seq<u32>, vals: Seq<u32>, n: int, b: u32, i: int)
    requires
        b < 32,
        0 <= i < n,
    ensures
        clear_marks(keys, n, b as int).len() == n,
        clear_marks(keys, n, b as int)[i] == 1 - ((keys[i] >> b) & 1),
        pairs(keys, vals, n).len() == n,
        pairs(keys, vals, n)[i].0 == keys[i],
        pairs(keys, vals, n)[i].1 == vals[i],
{
    law_bit_of_a_key(keys[i], b);
}

/// A sort runs the predicate, total and scatter passes, and a scan's.
pub proof fn law_sort_passes(sorter: RadixSort)
    requires
        sorter.wf(),
    ensures
        sorter.predicate_pass is Predicate,
        sorter.total_pass is Total,
        sorter.scatter_pass is Scatter,
        sorter.scan.scan_pass is ScanBlock,
        sorter.scan.add_pass is AddOffsets,
{
}

} // verus!
