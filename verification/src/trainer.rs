//! Splats, optimiser moments and gradient accumulators kept in lock-step.
use vstd::prelude::*;

use crate::adam::{AdamConfig, AdamState};
use crate::float_bits::{Vec3, ZERO};
#[allow(unused_imports)]
use crate::slab::{
    law_append_keeps_windows, law_range_removal_follows_items, lemma_window_bounds,
    range_swap_removed, swap_removed, window, zeros,
};
#[allow(unused_imports)]
use crate::splat_store::Splat;
use crate::splat_store::SplatBuffer;

verus! {

/// The six moment slabs, one per splat attribute.
pub struct AdamBank {
    pub pos: AdamState,
    pub rot: AdamState,
    pub scale: AdamState,
    pub op: AdamState,
    pub dc: AdamState,
    pub rest: AdamState,
}

/// One splat's windows into the moment slabs.
#[verifier::ext_equal]
pub struct MomentWindows {
    pub pos: (Seq<u32>, Seq<u32>),
    pub rot: (Seq<u32>, Seq<u32>),
    pub scale: (Seq<u32>, Seq<u32>),
    pub op: (Seq<u32>, Seq<u32>),
    pub dc: (Seq<u32>, Seq<u32>),
    pub rest: (Seq<u32>, Seq<u32>),
}

/// Everything that training keeps of one splat.
#[verifier::ext_equal]
pub struct Entry {
    pub splat: Splat,
    pub moments: MomentWindows,
    pub grad: u32,
}

/// The windows of item `i` into one slab's two moments.
pub open spec fn slab_windows(s: AdamState, stride: int, i: int) -> (Seq<u32>, Seq<u32>) {
    (window(s.m@, stride, i), window(s.v@, stride, i))
}

/// Zero moments.
pub open spec fn zero_windows(stride: nat) -> (Seq<u32>, Seq<u32>) {
    (zeros(stride), zeros(stride))
}

/// A splat that has just been added: zero moments, zero gradient.
pub open spec fn fresh(splat: Splat) -> Entry {
    Entry {
        splat,
        moments: MomentWindows {
            pos: zero_windows(3),
            rot: zero_windows(4),
            scale: zero_windows(3),
            op: zero_windows(1),
            dc: zero_windows(3),
            rest: zero_windows(45),
        },
        grad: ZERO,
    }
}

/// Step counter and hyperparameters of one slab.
pub open spec fn slab_meta(s: AdamState) -> (u64, AdamConfig) {
    (s.t, s.config)
}

/// One slab holds `stride` moments for each of `n` splats.
pub open spec fn slab_fits(s: AdamState, stride: int, n: int) -> bool {
    s.wf() && s.m.len() == n * stride
}

impl AdamBank {
    /// Every slab covers `n` splats.
    pub open spec fn wf(self, n: int) -> bool {
        &&& slab_fits(self.pos, 3, n)
        &&& slab_fits(self.rot, 4, n)
        &&& slab_fits(self.scale, 3, n)
        &&& slab_fits(self.op, 1, n)
        &&& slab_fits(self.dc, 3, n)
        &&& slab_fits(self.rest, 45, n)
    }

    /// The moments of splat `i`.
    pub open spec fn windows(self, i: int) -> MomentWindows {
        MomentWindows {
            pos: slab_windows(self.pos, 3, i),
            rot: slab_windows(self.rot, 4, i),
            scale: slab_windows(self.scale, 3, i),
            op: slab_windows(self.op, 1, i),
            dc: slab_windows(self.dc, 3, i),
            rest: slab_windows(self.rest, 45, i),
        }
    }

    /// Step counters and hyperparameters agree with those of `other`.
    pub open spec fn same_meta(self, other: AdamBank) -> bool {
        &&& slab_meta(self.pos) == slab_meta(other.pos)
        &&& slab_meta(self.rot) == slab_meta(other.rot)
        &&& slab_meta(self.scale) == slab_meta(other.scale)
        &&& slab_meta(self.op) == slab_meta(other.op)
        &&& slab_meta(self.dc) == slab_meta(other.dc)
        &&& slab_meta(self.rest) == slab_meta(other.rest)
    }

    /// No slab has taken a step, and each has its hyperparameters.
    pub open spec fn is_new(self, pos: AdamConfig, attr: AdamConfig) -> bool {
        &&& slab_meta(self.pos) == (0u64, pos)
        &&& slab_meta(self.rot) == (0u64, attr)
        &&& slab_meta(self.scale) == (0u64, attr)
        &&& slab_meta(self.op) == (0u64, attr)
        &&& slab_meta(self.dc) == (0u64, attr)
        &&& slab_meta(self.rest) == (0u64, attr)
    }

    /// Zero moments for `n` splats; positions have hyperparameters of their
    /// own.
    pub fn new(pos: AdamConfig, attr: AdamConfig, n: usize) -> (bank: Self)
        requires
            n * 45 <= usize::MAX,
        ensures
            bank.wf(n as int),
            bank.is_new(pos, attr),
            slab_meta(bank.pos) == (0u64, pos),
            slab_meta(bank.rot) == (0u64, attr),
            slab_meta(bank.scale) == (0u64, attr),
            slab_meta(bank.op) == (0u64, attr),
            slab_meta(bank.dc) == (0u64, attr),
            slab_meta(bank.rest) == (0u64, attr),
            bank.pos.m@ == zeros((n * 3) as nat) && bank.pos.v@ == zeros((n * 3) as nat),
            bank.rot.m@ == zeros((n * 4) as nat) && bank.rot.v@ == zeros((n * 4) as nat),
            bank.scale.m@ == zeros((n * 3) as nat) && bank.scale.v@ == zeros((n * 3) as nat),
            bank.op.m@ == zeros(n as nat) && bank.op.v@ == zeros(n as nat),
            bank.dc.m@ == zeros((n * 3) as nat) && bank.dc.v@ == zeros((n * 3) as nat),
            bank.rest.m@ == zeros((n * 45) as nat) && bank.rest.v@ == zeros((n * 45) as nat),
    {
        AdamBank {
            pos: AdamState::new(pos, n * 3),
            rot: AdamState::new(attr, n * 4),
            scale: AdamState::new(attr, n * 3),
            op: AdamState::new(attr, n),
            dc: AdamState::new(attr, n * 3),
            rest: AdamState::new(attr, n * 45),
        }
    }
}

/// What training mutates on the host.
pub struct Trainer {
    pub splats: SplatBuffer,
    pub bank: AdamBank,
    /// Accumulated position-gradient magnitude per splat.
    pub grad_acc: Vec<u32>,
}

impl View for Trainer {
    type V = Seq<Entry>;

    open spec fn view(&self) -> Seq<Entry> {
        Seq::new(self.splats@.len(), |i: int| self.entry(i))
    }
}

proof fn lemma_slab_removed(old_s: AdamState, new_s: AdamState, stride: int, n: int, i: int, k: int)
    requires
        stride > 0,
        slab_fits(old_s, stride, n),
        0 <= i < n,
        0 <= k < n - 1,
        new_s.wf(),
        new_s.m@ == range_swap_removed(old_s.m@, i * stride, stride),
        new_s.v@ == range_swap_removed(old_s.v@, i * stride, stride),
    ensures
        slab_fits(new_s, stride, n - 1),
        slab_windows(new_s, stride, k) == slab_windows(old_s, stride, if k == i { n - 1 } else { k }),
{
    law_range_removal_follows_items(old_s.m@, stride, n, i, k);
    law_range_removal_follows_items(old_s.v@, stride, n, i, k);
}

proof fn lemma_slab_grown(old_s: AdamState, new_s: AdamState, stride: nat, n: int, k: int)
    requires
        slab_fits(old_s, stride as int, n),
        0 <= k <= n,
        new_s.wf(),
        new_s.m@ == old_s.m@ + zeros(stride),
        new_s.v@ == old_s.v@ + zeros(stride),
    ensures
        slab_fits(new_s, stride as int, n + 1),
        slab_windows(new_s, stride as int, k) == if k == n {
            zero_windows(stride)
        } else {
            slab_windows(old_s, stride as int, k)
        },
{
    law_append_keeps_windows(old_s.m@, zeros(stride), stride as int, n, k);
    law_append_keeps_windows(old_s.v@, zeros(stride), stride as int, n, k);
}

impl Trainer {
    /// What is kept of splat `i`.
    pub open spec fn entry(self, i: int) -> Entry {
        Entry {
            splat: self.splats@[i],
            moments: self.bank.windows(i),
            grad: self.grad_acc@[i],
        }
    }

    /// Splats, moments and accumulators cover the same splats.
    pub open spec fn wf(self) -> bool {
        &&& self.splats.wf()
        &&& self.bank.wf(self.splats@.len() as int)
        &&& self.grad_acc.len() == self.splats@.len()
    }

    /// Removes splat `i` with its moments and accumulator; the last splat
    /// takes its place with its own.
    pub fn swap_remove(&mut self, i: usize)
        requires
            old(self).wf(),
            i < old(self)@.len(),
        ensures
            final(self).wf(),
            final(self)@ == swap_removed(old(self)@, i as int),
            final(self).bank.same_meta(old(self).bank),
    {
        let ghost before = *self;
        let ghost n = self@.len() as int;
        proof {
            lemma_window_bounds(n * 3, 3, n, i as int);
            lemma_window_bounds(n * 4, 4, n, i as int);
            lemma_window_bounds(n * 45, 45, n, i as int);
        }
        self.splats.swap_remove(i);
        self.bank.pos.swap_remove_range(i * 3, 3);
        self.bank.rot.swap_remove_range(i * 4, 4);
        self.bank.scale.swap_remove_range(i * 3, 3);
        self.bank.op.swap_remove_range(i, 1);
        self.bank.dc.swap_remove_range(i * 3, 3);
        self.bank.rest.swap_remove_range(i * 45, 45);
        self.grad_acc.swap_remove(i);
        proof {
            let want = swap_removed(before@, i as int);
            assert forall|k: int| 0 <= k < n - 1 implies #[trigger] self@[k] == want[k] by {
                lemma_slab_removed(before.bank.pos, self.bank.pos, 3, n, i as int, k);
                lemma_slab_removed(before.bank.rot, self.bank.rot, 4, n, i as int, k);
                lemma_slab_removed(before.bank.scale, self.bank.scale, 3, n, i as int, k);
                lemma_slab_removed(before.bank.op, self.bank.op, 1, n, i as int, k);
                lemma_slab_removed(before.bank.dc, self.bank.dc, 3, n, i as int, k);
                lemma_slab_removed(before.bank.rest, self.bank.rest, 45, n, i as int, k);
                let src = if k == i { n - 1 } else { k };
                assert(want[k] == before.entry(src));
                assert(self.splats@[k] == before.splats@[src]);
                assert(self@[k] =~= before.entry(src));
            }
            assert(self@ =~= want);
        }
    }

    /// Appends a splat with zero moments and a zero accumulator.
    pub fn push_splat(
        &mut self,
        pos: Vec3,
        rotation: [u32; 4],
        scale: [u32; 3],
        opacity: u32,
        sh_dc: [u32; 3],
        sh_rest_45: &[u32],
    )
        requires
            old(self).wf(),
            sh_rest_45.len() == 45,
        ensures
            final(self).wf(),
            final(self)@ == old(self)@.push(
                fresh((Splat { pos, rotation, scale, opacity, sh_dc, sh_rest: sh_rest_45@ })),
            ),
            final(self).bank.same_meta(old(self).bank),
    {
        let ghost before = *self;
        let ghost n = self@.len() as int;
        let ghost splat = Splat { pos, rotation, scale, opacity, sh_dc, sh_rest: sh_rest_45@ };
        self.splats.push_splat(pos, rotation, scale, opacity, sh_dc, sh_rest_45);
        self.bank.pos.grow(3);
        self.bank.rot.grow(4);
        self.bank.scale.grow(3);
        self.bank.op.grow(1);
        self.bank.dc.grow(3);
        self.bank.rest.grow(45);
        self.grad_acc.push(ZERO);
        proof {
            let want = before@.push(fresh(splat));
            assert forall|k: int| 0 <= k <= n implies #[trigger] self@[k] == want[k] by {
                lemma_slab_grown(before.bank.pos, self.bank.pos, 3, n, k);
                lemma_slab_grown(before.bank.rot, self.bank.rot, 4, n, k);
                lemma_slab_grown(before.bank.scale, self.bank.scale, 3, n, k);
                lemma_slab_grown(before.bank.op, self.bank.op, 1, n, k);
                lemma_slab_grown(before.bank.dc, self.bank.dc, 3, n, k);
                lemma_slab_grown(before.bank.rest, self.bank.rest, 45, n, k);
                if k < n {
                    assert(want[k] == before.entry(k));
                    assert(self@[k] =~= before.entry(k));
                } else {
                    assert(self@[k] =~= fresh(splat));
                }
            }
            assert(self@ =~= want);
        }
    }

    /// Replaces the opacity of splat `i`.
    pub fn set_opacity(&mut self, i: usize, opacity: u32)
        requires
            old(self).wf(),
            i < old(self)@.len(),
        ensures
            final(self).wf(),
            final(self)@ == old(self)@.update(
                i as int,
                (Entry {
                    splat: Splat { opacity, ..old(self)@[i as int].splat },
                    ..old(self)@[i as int]
                }),
            ),
            final(self).bank == old(self).bank,
    {
        let ghost before = *self;
        self.splats.set_opacity(i, opacity);
        proof {
            let e = before@[i as int];
            let want = before@.update(
                i as int,
                Entry { splat: Splat { opacity, ..e.splat }, ..e },
            );
            assert(self@ =~= want);
        }
    }

    /// Zeroes every gradient accumulator.
    pub fn clear_gradients(&mut self)
        requires
            old(self).wf(),
        ensures
            final(self).wf(),
            final(self)@ == old(self)@.map_values(|e: Entry| (Entry { grad: ZERO, ..e })),
            final(self).bank == old(self).bank,
            final(self).splats == old(self).splats,
    {
        let ghost before = *self;
        let n: usize = self.grad_acc.len();
        let mut i: usize = 0;
        while i < n
            invariant
                i <= n,
                before.wf(),
                self.splats == before.splats,
                self.bank == before.bank,
                self.grad_acc.len() == n,
                n == before.splats@.len(),
                forall|k: int| 0 <= k < i ==> self.grad_acc@[k] == ZERO,
            decreases n - i,
        {
            self.grad_acc.set(i, ZERO);
            i = i + 1;
        }
        assert(self@ =~= before@.map_values(|e: Entry| (Entry { grad: ZERO, ..e })));
    }
}

/// What is kept of splat `i` is entry `i` of every buffer: of a moment slab
/// with `stride` words per splat the words from `i * stride` on, the first
/// moments before the second.
pub proof fn law_entry_is_its_rows(t: Trainer, i: int, j: int)
    requires
        t.wf(),
        0 <= i < t.splats.positions.len(),
    ensures
        t@.len() == t.splats.positions.len(),
        t@[i].grad == t.grad_acc@[i],
        t@[i].splat == t.splats@[i],
        0 <= j < 3 ==> t@[i].moments.pos.0[j] == t.bank.pos.m@[i * 3 + j] && t@[i].moments.pos.1[j]
            == t.bank.pos.v@[i * 3 + j],
        0 <= j < 4 ==> t@[i].moments.rot.0[j] == t.bank.rot.m@[i * 4 + j] && t@[i].moments.rot.1[j]
            == t.bank.rot.v@[i * 4 + j],
        0 <= j < 3 ==> t@[i].moments.scale.0[j] == t.bank.scale.m@[i * 3 + j]
            && t@[i].moments.scale.1[j] == t.bank.scale.v@[i * 3 + j],
        t@[i].moments.op.0[0] == t.bank.op.m@[i] && t@[i].moments.op.1[0] == t.bank.op.v@[i],
        0 <= j < 3 ==> t@[i].moments.dc.0[j] == t.bank.dc.m@[i * 3 + j] && t@[i].moments.dc.1[j]
            == t.bank.dc.v@[i * 3 + j],
        0 <= j < 45 ==> t@[i].moments.rest.0[j] == t.bank.rest.m@[i * 45 + j]
            && t@[i].moments.rest.1[j] == t.bank.rest.v@[i * 45 + j],
{
}

/// Two banks have the same step counters and hyperparameters exactly where each
/// of their slabs has.
pub proof fn law_same_meta(a: AdamBank, b: AdamBank)
    ensures
        a.same_meta(b) <==> a.pos.t == b.pos.t && a.pos.config == b.pos.config && a.rot.t
            == b.rot.t && a.rot.config == b.rot.config && a.scale.t == b.scale.t && a.scale.config
            == b.scale.config && a.op.t == b.op.t && a.op.config == b.op.config && a.dc.t
            == b.dc.t && a.dc.config == b.dc.config && a.rest.t == b.rest.t && a.rest.config
            == b.rest.config,
{
}

/// In a new bank the positions have the hyperparameters given for them and every
/// other attribute the shared ones, and no slab has taken a step.
pub proof fn law_new_bank(bank: AdamBank, pos: AdamConfig, attr: AdamConfig)
    requires
        bank.is_new(pos, attr),
    ensures
        bank.pos.config == pos && bank.pos.t == 0,
        bank.rot.config == attr && bank.rot.t == 0,
        bank.scale.config == attr && bank.scale.t == 0,
        bank.op.config == attr && bank.op.t == 0,
        bank.dc.config == attr && bank.dc.t == 0,
        bank.rest.config == attr && bank.rest.t == 0,
{
}

} // verus!
