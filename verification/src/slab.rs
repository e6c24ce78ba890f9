//! Flat slabs that hold a fixed number of words per item.
use vstd::prelude::*;

verus! {

/// The `i`-th window of `stride` words.
pub open spec fn window(s: Seq<u32>, stride: int, i: int) -> Seq<u32> {
    s.subrange(i * stride, i * stride + stride)
}

/// `s` with item `i` replaced by the last item, one item shorter.
pub open spec fn swap_removed<T>(s: Seq<T>, i: int) -> Seq<T> {
    s.update(i, s.last()).drop_last()
}

/// Where the words that fill the gap of a removed range start: the last `n`
/// words, or as many as lie behind the range where it reaches into those.
pub open spec fn filler_start(len: int, start: int, n: int) -> int {
    if len - n < start + n {
        start + n
    } else {
        len - n
    }
}

/// `s` without the `n` words from `start` on: words from the end take their
/// places, and all others stay where they are.
pub open spec fn range_swap_removed(s: Seq<u32>, start: int, n: int) -> Seq<u32> {
    let from = filler_start(s.len() as int, start, n);
    Seq::new(
        (s.len() - n) as nat,
        |j: int| if start <= j < start + n { s[from + (j - start)] } else { s[j] },
    )
}

/// Zeroed words.
pub open spec fn zeros(n: nat) -> Seq<u32> {
    Seq::new(n, |j: int| 0u32)
}

/// Windows of a slab stay inside it.
pub proof fn lemma_window_bounds(len: int, stride: int, n: int, i: int)
    requires
        0 <= i < n,
        0 <= stride,
        len == n * stride,
    ensures
        0 <= i * stride,
        i * stride + stride <= len,
        (n - 1) * stride == len - stride,
{
    assert(i * stride + stride <= n * stride) by (nonlinear_arith)
        requires
            i + 1 <= n,
            0 <= stride,
    ;
    assert(0 <= i * stride) by (nonlinear_arith)
        requires
            0 <= i,
            0 <= stride,
    ;
    assert((n - 1) * stride == n * stride - stride) by (nonlinear_arith);
}

/// Removing the window of item `i` by range is removing item `i` by swap:
/// window `k` of what remains is the window of the item that ends up at `k`.
pub proof fn law_range_removal_follows_items(s: Seq<u32>, stride: int, n: int, i: int, k: int)
    requires
        stride > 0,
        0 <= i < n,
        s.len() == n * stride,
        0 <= k < n - 1,
    ensures
        range_swap_removed(s, i * stride, stride).len() == (n - 1) * stride,
        window(range_swap_removed(s, i * stride, stride), stride, k) == window(
            s,
            stride,
            if k == i { n - 1 } else { k },
        ),
{
    lemma_window_bounds(s.len() as int, stride, n, i);
    lemma_window_bounds(s.len() as int, stride, n, k);
    lemma_window_bounds(s.len() as int, stride, n, n - 1);
    lemma_window_bounds(s.len() - stride, stride, n - 1, k);
    let t = range_swap_removed(s, i * stride, stride);
    if k < i {
        assert(k * stride + stride <= i * stride) by (nonlinear_arith)
            requires
                k + 1 <= i,
                0 < stride,
        ;
    } else if k > i {
        assert(i * stride + stride <= k * stride) by (nonlinear_arith)
            requires
                i + 1 <= k,
                0 < stride,
        ;
    }
    assert(window(t, stride, k) =~= window(s, stride, if k == i { n - 1 } else { k }));
}

/// Removing a range removes that range and nothing else: what remains are the
/// words before it and the words behind it, each as often as before, and the
/// words before it are still in place.
pub proof fn law_range_removal_keeps_the_rest(s: Seq<u32>, start: int, n: int)
    requires
        0 <= start,
        0 <= n,
        start + n <= s.len(),
    ensures
        range_swap_removed(s, start, n).len() == s.len() - n,
        range_swap_removed(s, start, n).to_multiset() == (s.take(start) + s.skip(
            start + n,
        )).to_multiset(),
        range_swap_removed(s, start, n).take(start) == s.take(start),
{
    let t = range_swap_removed(s, start, n);
    let last = s.len() - n;
    let head = s.take(start);
    assert(t.take(start) =~= head);
    if last < start + n {
        assert(t =~= head + s.skip(start + n));
    } else {
        let middle = s.subrange(start + n, last);
        let tail = s.skip(last);
        assert(t =~= head + (tail + middle));
        assert(s.skip(start + n) =~= middle + tail);
        vstd::seq_lib::lemma_multiset_commutative(head, tail + middle);
        vstd::seq_lib::lemma_multiset_commutative(head, middle + tail);
        vstd::seq_lib::lemma_multiset_commutative(tail, middle);
        vstd::seq_lib::lemma_multiset_commutative(middle, tail);
        assert(t.to_multiset() =~= (head + s.skip(start + n)).to_multiset());
    }
}

/// Appending one item's words adds its window and keeps the others.
pub proof fn law_append_keeps_windows(s: Seq<u32>, w: Seq<u32>, stride: int, n: int, k: int)
    requires
        stride >= 0,
        n >= 0,
        s.len() == n * stride,
        w.len() == stride,
        0 <= k <= n,
    ensures
        (s + w).len() == (n + 1) * stride,
        window(s + w, stride, k) == if k == n { w } else { window(s, stride, k) },
{
    assert((n + 1) * stride == n * stride + stride) by (nonlinear_arith);
    lemma_window_bounds((s + w).len() as int, stride, n + 1, k);
    if k < n {
        lemma_window_bounds(s.len() as int, stride, n, k);
        assert(window(s + w, stride, k) =~= window(s, stride, k));
    } else {
        assert(window(s + w, stride, k) =~= w);
    }
}

/// Removes the `n` words from `start` on; words from the end take their places.
pub fn swap_remove_words(v: &mut Vec<u32>, start: usize, n: usize)
    requires
        start + n <= old(v).len(),
    ensures
        final(v)@ == range_swap_removed(old(v)@, start as int, n as int),
{
    let ghost before = v@;
    let last: usize = v.len() - n;
    let from: usize = if last < start + n { start + n } else { last };
    let mut k: usize = 0;
    while k < n && start + k < last
        invariant
            k <= n,
            start + k <= last || k == 0,
            start + n <= before.len(),
            last + n == before.len(),
            before.len() <= usize::MAX,
            from == filler_start(before.len() as int, start as int, n as int),
            v@.len() == before.len(),
            forall|j: int|
                start <= j < start + k ==> #[trigger] v@[j] == before[from + (j - start)],
            forall|j: int|
                0 <= j < v@.len() && !(start <= j < start + k) ==> v@[j] == before[j],
        decreases n - k,
    {
        let w: u32 = v[from + k];
        assert(w == before[from + k]);
        v.set(start + k, w);
        k = k + 1;
    }
    v.truncate(last);
    assert(v@ =~= range_swap_removed(before, start as int, n as int));
}

/// Appends `n` zero words.
pub fn push_zeros(v: &mut Vec<u32>, n: usize)
    ensures
        final(v)@ == old(v)@ + zeros(n as nat),
{
    let ghost before = v@;
    let mut k: usize = 0;
    assert(before + zeros(0) =~= before);
    while k < n
        invariant
            k <= n,
            v@ == before + zeros(k as nat),
        decreases n - k,
    {
        v.push(0);
        k = k + 1;
        assert(v@ =~= before + zeros(k as nat));
    }
}

/// Appends a run of words.
pub fn push_all(v: &mut Vec<u32>, words: &[u32])
    ensures
        final(v)@ == old(v)@ + words@,
{
    let ghost before = v@;
    v.extend_from_slice(words);
    assert(v@ =~= before + words@);
}

/// Copies the words `lo..hi`.
pub fn copy_words(words: &[u32], lo: usize, hi: usize) -> (part: Vec<u32>)
    requires
        lo <= hi <= words.len(),
    ensures
        part@ == words@.subrange(lo as int, hi as int),
{
    let mut part: Vec<u32> = Vec::new();
    let mut i: usize = lo;
    while i < hi
        invariant
            lo <= i <= hi <= words.len(),
            part@ == words@.subrange(lo as int, i as int),
        decreases hi - i,
    {
        part.push(words[i]);
        i = i + 1;
        assert(part@ =~= words@.subrange(lo as int, i as int));
    }
    part
}

/// Word `j` of the `i`-th window is word `i * stride + j` of the slab.
pub proof fn law_window_words(s: Seq<u32>, stride: int, i: int, j: int)
    requires
        0 <= i,
        0 <= j < stride,
        i * stride + stride <= s.len(),
    ensures
        window(s, stride, i).len() == stride,
        window(s, stride, i)[j] == s[i * stride + j],
{
    assert(0 <= i * stride) by (nonlinear_arith)
        requires
            0 <= i,
            0 <= stride,
    ;
}

/// A removal by swap puts the last item into the gap and leaves every other
/// item where it is.
pub proof fn law_swap_fills_the_gap<T>(s: Seq<T>, i: int, k: int)
    requires
        0 <= i < s.len(),
        0 <= k < s.len() - 1,
    ensures
        swap_removed(s, i).len() == s.len() - 1,
        k == i ==> swap_removed(s, i)[k] == s[s.len() - 1],
        k != i ==> swap_removed(s, i)[k] == s[k],
{
}

/// Zeroed words are zero, and as many as asked for.
pub proof fn law_zeros(n: nat, j: int)
    requires
        0 <= j < n,
    ensures
        zeros(n).len() == n,
        zeros(n)[j] == 0,
{
}

/// Where the words end up when the `n` from `start` on are removed. The words
/// before them stay. Where at least as many lie behind, the last `n` fill the
/// gap in order and those between stay too; where fewer do, all that lie behind
/// move up.
pub proof fn law_range_removal_places(s: Seq<u32>, start: int, n: int, j: int)
    requires
        0 <= start,
        0 <= n,
        start + n <= s.len(),
        0 <= j < s.len() - n,
    ensures
        range_swap_removed(s, start, n).len() == s.len() - n,
        j < start ==> range_swap_removed(s, start, n)[j] == s[j],
        start + 2 * n <= s.len() && start <= j < start + n ==> range_swap_removed(s, start, n)[j]
            == s[s.len() - n + (j - start)],
        start + 2 * n <= s.len() && j >= start + n ==> range_swap_removed(s, start, n)[j] == s[j],
        start + 2 * n > s.len() && j >= start ==> range_swap_removed(s, start, n)[j] == s[j + n],
{
}

} // verus!
