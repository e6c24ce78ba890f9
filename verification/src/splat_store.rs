//! Splat parameters in parallel per-attribute buffers.
//!
//! Splat `i` is entry `i` of every buffer, and its 45 higher-order
//! coefficients are the `i`-th window of `sh_rest`. Splats are added at the
//! end and removed by swapping with the last one.
use vstd::prelude::*;

use crate::float_bits::{Vec3, ONE, ZERO};
use crate::ply::Gaussian;
#[allow(unused_imports)]
use crate::ply::{models, GaussianModel};
use crate::slab::{copy_words, push_all, swap_remove_words};
#[allow(unused_imports)]
use crate::slab::{
    law_append_keeps_windows, law_range_removal_follows_items, lemma_window_bounds,
    range_swap_removed, swap_removed, window,
};

verus! {

/// One splat's parameters.
#[verifier::ext_equal]
pub struct Splat {
    pub pos: Vec3,
    pub rotation: [u32; 4],
    pub scale: [u32; 3],
    pub opacity: u32,
    pub sh_dc: [u32; 3],
    pub sh_rest: Seq<u32>,
}

/// Every splat's parameters. Rotations are quaternions `(w, x, y, z)`, scales
/// are logarithms and opacities are logits.
pub struct SplatBuffer {
    pub positions: Vec<Vec3>,
    pub rotations: Vec<[u32; 4]>,
    pub scales: Vec<[u32; 3]>,
    pub opacities: Vec<u32>,
    pub sh_dc: Vec<[u32; 3]>,
    pub sh_rest: Vec<u32>,
}

impl View for SplatBuffer {
    type V = Seq<Splat>;

    open spec fn view(&self) -> Seq<Splat> {
        Seq::new(self.positions@.len(), |i: int| self.splat(i))
    }
}

/// The splat that a file record describes.
pub open spec fn splat_of(g: Gaussian) -> Splat {
    Splat {
        pos: g.pos,
        rotation: g.rotation,
        scale: g.scale,
        opacity: g.opacity,
        sh_dc: g.sh_dc,
        sh_rest: g@.rest45(),
    }
}

/// What a splat becomes in a file: its normal points along Y.
pub open spec fn file_model(s: Splat) -> GaussianModel {
    GaussianModel {
        pos: s.pos.seq(),
        normal: Vec3::unit_y().seq(),
        sh_dc: s.sh_dc@,
        sh_rest: s.sh_rest,
        opacity: s.opacity,
        scale: s.scale@,
        rotation: s.rotation@,
    }
}

impl SplatBuffer {
    /// The `i`-th splat.
    pub open spec fn splat(self, i: int) -> Splat {
        Splat {
            pos: self.positions@[i],
            rotation: self.rotations@[i],
            scale: self.scales@[i],
            opacity: self.opacities@[i],
            sh_dc: self.sh_dc@[i],
            sh_rest: window(self.sh_rest@, 45, i),
        }
    }

    /// The buffers run in parallel.
    pub open spec fn wf(self) -> bool {
        let n = self.positions.len();
        &&& self.rotations.len() == n
        &&& self.scales.len() == n
        &&& self.opacities.len() == n
        &&& self.sh_dc.len() == n
        &&& self.sh_rest.len() == n * 45
    }

    pub fn len(&self) -> (n: usize)
        ensures
            n == self@.len(),
    {
        self.positions.len()
    }

    pub fn is_empty(&self) -> (empty: bool)
        ensures
            empty == (self@.len() == 0),
    {
        self.positions.len() == 0
    }

    /// An empty buffer.
    pub fn new() -> (buf: Self)
        ensures
            buf.wf(),
            buf@ == Seq::<Splat>::empty(),
    {
        let buf = SplatBuffer {
            positions: Vec::new(),
            rotations: Vec::new(),
            scales: Vec::new(),
            opacities: Vec::new(),
            sh_dc: Vec::new(),
            sh_rest: Vec::new(),
        };
        assert(buf@ =~= Seq::<Splat>::empty());
        buf
    }

    /// An empty buffer with room for `n` splats.
    pub fn with_capacity(n: usize) -> (buf: Self)
        requires
            n * 45 <= usize::MAX,
        ensures
            buf.wf(),
            buf@ == Seq::<Splat>::empty(),
    {
        let buf = SplatBuffer {
            positions: Vec::with_capacity(n),
            rotations: Vec::with_capacity(n),
            scales: Vec::with_capacity(n),
            opacities: Vec::with_capacity(n),
            sh_dc: Vec::with_capacity(n),
            sh_rest: Vec::with_capacity(n * 45),
        };
        assert(buf@ =~= Seq::<Splat>::empty());
        buf
    }

    /// Appends a splat.
    pub fn push_splat(
        &mut self,
        pos: Vec3,
        rotation: [u32; 4],
        scale: [u32; 3],
        opacity: u32,
        sh_dc: [u32; 3],
        sh_rest_45: &[u32],
    )
        requires
            old(self).wf(),
            sh_rest_45.len() == 45,
        ensures
            final(self).wf(),
            final(self)@ == old(self)@.push(
                (Splat { pos, rotation, scale, opacity, sh_dc, sh_rest: sh_rest_45@ }),
            ),
    {
        let ghost before = *self;
        let ghost n = self@.len() as int;
        self.positions.push(pos);
        self.rotations.push(rotation);
        self.scales.push(scale);
        self.opacities.push(opacity);
        self.sh_dc.push(sh_dc);
        push_all(&mut self.sh_rest, sh_rest_45);
        proof {
            let want = before@.push(
                Splat { pos, rotation, scale, opacity, sh_dc, sh_rest: sh_rest_45@ },
            );
            assert forall|k: int| 0 <= k <= n implies #[trigger] self@[k] == want[k] by {
                law_append_keeps_windows(before.sh_rest@, sh_rest_45@, 45, n, k);
                if k < n {
                    assert(want[k] == before.splat(k));
                }
            }
            assert(self@ =~= want);
        }
    }

    /// Removes splat `i`; the last splat takes its place.
    pub fn swap_remove(&mut self, i: usize)
        requires
            old(self).wf(),
            i < old(self)@.len(),
        ensures
            final(self).wf(),
            final(self)@ == swap_removed(old(self)@, i as int),
    {
        let ghost before = *self;
        let ghost n = self@.len() as int;
        proof {
            lemma_window_bounds(self.sh_rest@.len() as int, 45, n, i as int);
        }
        let base: usize = i * 45;
        self.positions.swap_remove(i);
        self.rotations.swap_remove(i);
        self.scales.swap_remove(i);
        self.opacities.swap_remove(i);
        self.sh_dc.swap_remove(i);
        swap_remove_words(&mut self.sh_rest, base, 45);
        proof {
            let want = swap_removed(before@, i as int);
            assert forall|k: int| 0 <= k < n - 1 implies #[trigger] self@[k] == want[k] by {
                law_range_removal_follows_items(before.sh_rest@, 45, n, i as int, k);
                if k == i {
                    assert(want[k] == before.splat(n - 1));
                } else {
                    assert(want[k] == before.splat(k));
                }
            }
            assert(self@ =~= want);
        }
    }

    /// Replaces the opacity of splat `i`.
    pub fn set_opacity(&mut self, i: usize, opacity: u32)
        requires
            old(self).wf(),
            i < old(self)@.len(),
        ensures
            final(self).wf(),
            final(self)@ == old(self)@.update(
                i as int,
                (Splat { opacity, ..old(self)@[i as int] }),
            ),
    {
        let ghost before = *self;
        self.opacities.set(i, opacity);
        assert(self@ =~= before@.update(i as int, (Splat { opacity, ..before@[i as int] })));
    }

    /// The higher-order coefficients of splat `i`.
    pub fn rest_of(&self, i: usize) -> (rest: Vec<u32>)
        requires
            self.wf(),
            i < self@.len(),
        ensures
            rest@ == self@[i as int].sh_rest,
            rest.len() == 45,
    {
        proof {
            lemma_window_bounds(self.sh_rest@.len() as int, 45, self@.len() as int, i as int);
        }
        copy_words(self.sh_rest.as_slice(), i * 45, i * 45 + 45)
    }

    /// Takes over the splats of a file. Higher-order coefficients are cut or
    /// zero-padded to 45.
    pub fn from_gaussians(gaussians: &[Gaussian]) -> (buf: Self)
        ensures
            buf.wf(),
            buf@ == gaussians@.map_values(|g: Gaussian| splat_of(g)),
    {
        let mut out: SplatBuffer = SplatBuffer::new();
        let mut i: usize = 0;
        assert(gaussians@.take(0).map_values(|g: Gaussian| splat_of(g)) =~= Seq::<Splat>::empty());
        while i < gaussians.len()
            invariant
                i <= gaussians.len(),
                out.wf(),
                out@ == gaussians@.take(i as int).map_values(|g: Gaussian| splat_of(g)),
            decreases gaussians.len() - i,
        {
            let g: &Gaussian = &gaussians[i];
            let mut rest: Vec<u32> = Vec::new();
            let mut k: usize = 0;
            while k < 45
                invariant
                    k <= 45,
                    rest.len() == k,
                    forall|j: int| 0 <= j < k ==> rest@[j] == g@.rest45()[j],
                decreases 45 - k,
            {
                rest.push(if k < g.sh_rest.len() { g.sh_rest[k] } else { ZERO });
                k = k + 1;
            }
            assert(rest@ =~= g@.rest45());
            out.push_splat(g.pos, g.rotation, g.scale, g.opacity, g.sh_dc, rest.as_slice());
            proof {
                let f = |g: Gaussian| splat_of(g);
                assert(gaussians@.take(i + 1).map_values(f) =~= gaussians@.take(
                    i as int,
                ).map_values(f).push(splat_of(*g)));
            }
            i = i + 1;
        }
        assert(gaussians@.take(gaussians@.len() as int) =~= gaussians@);
        out
    }

    /// The splats as file records; their normals point along Y.
    pub fn to_gaussians(&self) -> (out: Vec<Gaussian>)
        requires
            self.wf(),
        ensures
            models(out@) == self@.map_values(|s: Splat| file_model(s)),
            forall|i: int| 0 <= i < out.len() ==> splat_of(#[trigger] out@[i]) == self@[i],
    {
        let mut out: Vec<Gaussian> = Vec::new();
        let mut i: usize = 0;
        while i < self.len()
            invariant
                self.wf(),
                i <= self@.len(),
                out.len() == i,
                forall|k: int|
                    0 <= k < i ==> (#[trigger] out@[k])@ == file_model(self@[k]) && splat_of(
                        out@[k],
                    ) == self@[k],
            decreases self@.len() - i,
        {
            let g = Gaussian {
                pos: self.positions[i],
                normal: Vec3::new(ZERO, ONE, ZERO),
                sh_dc: self.sh_dc[i],
                sh_rest: self.rest_of(i),
                opacity: self.opacities[i],
                scale: self.scales[i],
                rotation: self.rotations[i],
            };
            assert(g@ =~= file_model(self@[i as int]));
            assert(g@.rest45() =~= self@[i as int].sh_rest);
            out.push(g);
            i = i + 1;
        }
        assert(models(out@) =~= self@.map_values(|s: Splat| file_model(s)));
        out
    }
}

impl Default for SplatBuffer {
    fn default() -> (buf: Self)
        ensures
            buf.wf(),
            buf@ == Seq::<Splat>::empty(),
    {
        SplatBuffer::new()
    }
}

/// A splat survives a trip through a file: the record that comes back is
/// taken over as the splat that was written.
pub proof fn law_file_trip(s: Splat, back: Gaussian)
    requires
        s.sh_rest.len() == 45,
        back@ == file_model(s).stored(),
    ensures
        file_model(s).stored() == file_model(s),
        splat_of(back) == s,
{
    assert(file_model(s).rest45() =~= s.sh_rest);
    assert(file_model(s).stored() =~= file_model(s));
    assert(back.pos.seq()[0] == s.pos.seq()[0]);
    assert(back.pos.seq()[1] == s.pos.seq()[1]);
    assert(back.pos.seq()[2] == s.pos.seq()[2]);
    assert(back.pos == s.pos);
    assert(back.scale =~= s.scale);
    assert(back.rotation =~= s.rotation);
    assert(back.sh_dc =~= s.sh_dc);
    assert(back@.rest45() =~= s.sh_rest);
}

/// Splat `i` is entry `i` of every buffer, and its higher coefficients are the
/// 45 words from `45 * i` on.
pub proof fn law_splat_is_its_rows(buf: SplatBuffer, i: int)
    requires
        buf.wf(),
        0 <= i < buf.positions.len(),
    ensures
        buf@.len() == buf.positions.len(),
        buf@[i].pos == buf.positions@[i],
        buf@[i].rotation == buf.rotations@[i],
        buf@[i].scale == buf.scales@[i],
        buf@[i].opacity == buf.opacities@[i],
        buf@[i].sh_dc == buf.sh_dc@[i],
        buf@[i].sh_rest.len() == 45,
        forall|j: int| 0 <= j < 45 ==> #[trigger] buf@[i].sh_rest[j] == buf.sh_rest@[45 * i + j],
{
}

/// A splat taken over from a file has the file's fields, each under its own
/// name, and its higher coefficients cut or filled up with zeros to 45.
pub proof fn law_splat_has_the_file_fields(g: Gaussian, i: int)
    requires
        0 <= i < 45,
    ensures
        splat_of(g).pos == g.pos,
        splat_of(g).rotation == g.rotation,
        splat_of(g).scale == g.scale,
        splat_of(g).opacity == g.opacity,
        splat_of(g).sh_dc == g.sh_dc,
        splat_of(g).sh_rest.len() == 45,
        i < g.sh_rest.len() ==> splat_of(g).sh_rest[i] == g.sh_rest@[i],
        i >= g.sh_rest.len() ==> splat_of(g).sh_rest[i] == 0,
{
}

/// A splat goes into a file field by field, with a normal along Y.
pub proof fn law_file_has_the_splat_fields(s: Splat)
    ensures
        file_model(s).pos == seq![s.pos.x, s.pos.y, s.pos.z],
        file_model(s).normal == seq![0u32, 0x3f80_0000u32, 0u32],
        file_model(s).sh_dc == s.sh_dc@,
        file_model(s).sh_rest == s.sh_rest,
        file_model(s).opacity == s.opacity,
        file_model(s).scale == s.scale@,
        file_model(s).rotation == s.rotation@,
{
}

} // verus!
