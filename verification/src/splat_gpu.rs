//! Device layout of splats, gradients and moments.
//!
//! Three-component attributes are padded to four components and the 45
//! higher-order coefficients to 48, so that every attribute is a whole number
//! of 16-byte lanes. Reading back strips the padding again.
use vstd::prelude::*;

use crate::float_bits::{Vec3, ONE, ZERO};
use crate::slab::copy_words;
#[allow(unused_imports)]
use crate::splat_store::Splat;
use crate::splat_store::SplatBuffer;
use crate::trainer::AdamBank;
#[allow(unused_imports)]
use crate::trainer::slab_fits;

verus! {

/// Words of one splat's padded higher-order coefficients.
pub const SH_REST_PADDED: usize = 48;

/// Byte sizes of the device buffers of `n` splats, never empty.
#[derive(Clone, Copy, Debug, PartialEq, Eq, Structural)]
pub struct AttributeSizes {
    /// Positions, rotations, scales and constant coefficients.
    pub vec4: u64,
    /// Opacities and accumulators.
    pub scalar: u64,
    /// Higher-order coefficients.
    pub rest: u64,
}

/// Buffer sizes for `n` splats; without splats the buffers still hold one.
pub fn attribute_sizes(n: u32) -> (sizes: AttributeSizes)
    ensures
        ({
            let m = if n == 0 { 1int } else { n as int };
            &&& sizes.vec4 == m * 16
            &&& sizes.scalar == m * 4
            &&& sizes.rest == m * 192
        }),
{
    let m: u64 = if n == 0 { 1 } else { n as u64 };
    AttributeSizes { vec4: m * 16, scalar: m * 4, rest: m * 192 }
}

/// Three words of each of `n` items with a zero fourth.
pub open spec fn padded_triples(s: Seq<u32>, n: int) -> Seq<[u32; 4]> {
    Seq::new(n as nat, |i: int| [s[i * 3], s[i * 3 + 1], s[i * 3 + 2], ZERO])
}

/// The first three words of each quadruple, in a row.
pub open spec fn stripped_quads(s: Seq<[u32; 4]>) -> Seq<u32> {
    Seq::new(s.len() * 3, |j: int| s[j / 3][j % 3])
}

/// Windows of 45 words padded to 48 with zeros.
pub open spec fn padded_rest(s: Seq<u32>, n: int) -> Seq<u32> {
    Seq::new(
        (n * 48) as nat,
        |j: int| if j % 48 < 45 { s[(j / 48) * 45 + j % 48] } else { ZERO },
    )
}

/// The first 45 words of each window of 48.
pub open spec fn stripped_rest(s: Seq<u32>, n: int) -> Seq<u32> {
    Seq::new((n * 45) as nat, |j: int| s[(j / 45) * 48 + j % 45])
}

/// Pads a slab of triples to quadruples.
pub fn pad3_to_vec4(src: &[u32], n: usize) -> (out: Vec<[u32; 4]>)
    requires
        src.len() == n * 3,
    ensures
        out@ == padded_triples(src@, n as int),
{
    let mut out: Vec<[u32; 4]> = Vec::new();
    let mut i: usize = 0;
    while i < n
        invariant
            i <= n,
            src.len() == n * 3,
            out.len() == i,
            forall|k: int| 0 <= k < i ==> #[trigger] out@[k] == padded_triples(src@, n as int)[k],
        decreases n - i,
    {
        out.push([src[i * 3], src[i * 3 + 1], src[i * 3 + 2], ZERO]);
        i = i + 1;
    }
    assert(out@ =~= padded_triples(src@, n as int));
    out
}

/// Strips the fourth component of every quadruple.
pub fn unpad_vec4_to_3(padded: &[[u32; 4]]) -> (out: Vec<u32>)
    ensures
        out@ == stripped_quads(padded@),
{
    let mut out: Vec<u32> = Vec::new();
    let mut i: usize = 0;
    while i < padded.len()
        invariant
            i <= padded.len(),
            out.len() == i * 3,
            forall|j: int| 0 <= j < out.len() ==> #[trigger] out@[j] == padded@[j / 3][j % 3],
        decreases padded.len() - i,
    {
        let p: [u32; 4] = padded[i];
        out.push(p[0]);
        out.push(p[1]);
        out.push(p[2]);
        i = i + 1;
    }
    assert(out@ =~= stripped_quads(padded@));
    out
}

/// Pads windows of 45 words to 48.
pub fn pad45_to_48(src: &[u32], n: usize) -> (out: Vec<u32>)
    requires
        src.len() == n * 45,
    ensures
        out@ == padded_rest(src@, n as int),
{
    let mut out: Vec<u32> = Vec::new();
    let mut i: usize = 0;
    while i < n
        invariant
            i <= n,
            src.len() == n * 45,
            out.len() == i * 48,
            forall|j: int|
                0 <= j < out.len() ==> #[trigger] out@[j] == if j % 48 < 45 {
                    src@[(j / 48) * 45 + j % 48]
                } else {
                    ZERO
                },
        decreases n - i,
    {
        let mut k: usize = 0;
        while k < 48
            invariant
                i < n,
                k <= 48,
                src.len() == n * 45,
                out.len() == i * 48 + k,
                forall|j: int|
                    0 <= j < out.len() ==> #[trigger] out@[j] == if j % 48 < 45 {
                        src@[(j / 48) * 45 + j % 48]
                    } else {
                        ZERO
                    },
            decreases 48 - k,
        {
            assert((i * 48 + k) % 48 == k && (i * 48 + k) / 48 == i);
            let w: u32 = if k < 45 {
                src[i * 45 + k]
            } else {
                ZERO
            };
            out.push(w);
            k = k + 1;
        }
        i = i + 1;
    }
    assert(out@ =~= padded_rest(src@, n as int));
    out
}

/// Strips the padding of windows of 48 words.
pub fn unpad_48_to_45(padded: &[u32], n: usize) -> (out: Vec<u32>)
    requires
        padded.len() == n * 48,
    ensures
        out@ == stripped_rest(padded@, n as int),
{
    let mut out: Vec<u32> = Vec::new();
    let mut i: usize = 0;
    while i < n
        invariant
            i <= n,
            padded.len() == n * 48,
            out.len() == i * 45,
            forall|j: int|
                0 <= j < out.len() ==> #[trigger] out@[j] == padded@[(j / 45) * 48 + j % 45],
        decreases n - i,
    {
        let mut k: usize = 0;
        while k < 45
            invariant
                i < n,
                k <= 45,
                padded.len() == n * 48,
                out.len() == i * 45 + k,
                forall|j: int|
                    0 <= j < out.len() ==> #[trigger] out@[j] == padded@[(j / 45) * 48 + j % 45],
            decreases 45 - k,
        {
            assert((i * 45 + k) % 45 == k && (i * 45 + k) / 45 == i);
            out.push(padded[i * 48 + k]);
            k = k + 1;
        }
        i = i + 1;
    }
    assert(out@ =~= stripped_rest(padded@, n as int));
    out
}

/// Stripping undoes padding, for triples and for the higher-order windows.
pub proof fn law_padding_roundtrip(triples: Seq<u32>, rest: Seq<u32>, n: int)
    requires
        n >= 0,
        triples.len() == n * 3,
        rest.len() == n * 45,
    ensures
        stripped_quads(padded_triples(triples, n)) == triples,
        stripped_rest(padded_rest(rest, n), n) == rest,
{
    let a = stripped_quads(padded_triples(triples, n));
    assert forall|j: int| 0 <= j < n * 3 implies a[j] == triples[j] by {
        let q = padded_triples(triples, n)[j / 3];
        assert(j / 3 * 3 + j % 3 == j);
        assert(j % 3 == 0 || j % 3 == 1 || j % 3 == 2);
    }
    assert(a =~= triples);
    let b = stripped_rest(padded_rest(rest, n), n);
    assert forall|j: int| 0 <= j < n * 45 implies b[j] == rest[j] by {
        let p = (j / 45) * 48 + j % 45;
        assert(p % 48 == j % 45 && p / 48 == j / 45);
        assert(j / 45 * 45 + j % 45 == j);
    }
    assert(b =~= rest);
}

/// The device image of a splat buffer.
pub struct GpuSplatBuffer {
    pub n: u32,
    pub positions: Vec<[u32; 4]>,
    pub rotations: Vec<[u32; 4]>,
    pub scales: Vec<[u32; 4]>,
    pub opacities: Vec<u32>,
    pub sh_dc: Vec<[u32; 4]>,
    pub sh_rest: Vec<u32>,
}

/// A position with a homogeneous one.
pub open spec fn point4(v: Vec3) -> [u32; 4] {
    [v.x, v.y, v.z, ONE]
}

/// A triple with a zero fourth component.
pub open spec fn triple4(t: [u32; 3]) -> [u32; 4] {
    [t[0], t[1], t[2], ZERO]
}

/// The first three components.
pub open spec fn first3(q: [u32; 4]) -> [u32; 3] {
    [q[0], q[1], q[2]]
}

/// The first three components as a vector.
pub open spec fn first3_vec(q: [u32; 4]) -> Vec3 {
    Vec3 { x: q[0], y: q[1], z: q[2] }
}

/// `back` holds what the image `gpu` holds, without the padding.
pub open spec fn reads_back(gpu: GpuSplatBuffer, back: SplatBuffer) -> bool {
    &&& back.wf()
    &&& back.positions@ == gpu.positions@.map_values(|q: [u32; 4]| first3_vec(q))
    &&& back.rotations@ == gpu.rotations@
    &&& back.scales@ == gpu.scales@.map_values(|q: [u32; 4]| first3(q))
    &&& back.opacities@ == gpu.opacities@
    &&& back.sh_dc@ == gpu.sh_dc@.map_values(|q: [u32; 4]| first3(q))
    &&& back.sh_rest@ == stripped_rest(gpu.sh_rest@, gpu.n as int)
}

impl GpuSplatBuffer {
    /// The image is that of `src`.
    pub open spec fn images(self, src: SplatBuffer) -> bool {
        &&& self.n == src.positions.len()
        &&& self.positions@ == src.positions@.map_values(|v: Vec3| point4(v))
        &&& self.rotations@ == src.rotations@
        &&& self.scales@ == src.scales@.map_values(|t: [u32; 3]| triple4(t))
        &&& self.opacities@ == src.opacities@
        &&& self.sh_dc@ == src.sh_dc@.map_values(|t: [u32; 3]| triple4(t))
        &&& self.sh_rest@ == padded_rest(src.sh_rest@, src.positions.len() as int)
    }

    /// Every attribute covers the `n` splats.
    pub open spec fn wf(self) -> bool {
        &&& self.positions.len() == self.n
        &&& self.rotations.len() == self.n
        &&& self.scales.len() == self.n
        &&& self.opacities.len() == self.n
        &&& self.sh_dc.len() == self.n
        &&& self.sh_rest.len() == self.n * 48
    }

    /// The image of a splat buffer.
    pub fn upload(src: &SplatBuffer) -> (gpu: Self)
        requires
            src.wf(),
            src@.len() <= u32::MAX,
        ensures
            gpu.wf(),
            gpu.images(*src),
    {
        let n: usize = src.len();
        let mut positions: Vec<[u32; 4]> = Vec::new();
        let mut rotations: Vec<[u32; 4]> = Vec::new();
        let mut scales: Vec<[u32; 4]> = Vec::new();
        let mut opacities: Vec<u32> = Vec::new();
        let mut sh_dc: Vec<[u32; 4]> = Vec::new();
        let mut i: usize = 0;
        while i < n
            invariant
                i <= n,
                n == src.positions.len(),
                src.wf(),
                positions.len() == i,
                rotations.len() == i,
                scales.len() == i,
                opacities.len() == i,
                sh_dc.len() == i,
                forall|k: int| 0 <= k < i ==> #[trigger] positions@[k] == point4(src.positions@[k]),
                forall|k: int| 0 <= k < i ==> #[trigger] rotations@[k] == src.rotations@[k],
                forall|k: int| 0 <= k < i ==> #[trigger] scales@[k] == triple4(src.scales@[k]),
                forall|k: int| 0 <= k < i ==> #[trigger] opacities@[k] == src.opacities@[k],
                forall|k: int| 0 <= k < i ==> #[trigger] sh_dc@[k] == triple4(src.sh_dc@[k]),
            decreases n - i,
        {
            let p: Vec3 = src.positions[i];
            let s: [u32; 3] = src.scales[i];
            let c: [u32; 3] = src.sh_dc[i];
            positions.push([p.x, p.y, p.z, ONE]);
            rotations.push(src.rotations[i]);
            scales.push([s[0], s[1], s[2], ZERO]);
            opacities.push(src.opacities[i]);
            sh_dc.push([c[0], c[1], c[2], ZERO]);
            i = i + 1;
        }
        assert(positions@ =~= src.positions@.map_values(|v: Vec3| point4(v)));
        assert(rotations@ =~= src.rotations@);
        assert(scales@ =~= src.scales@.map_values(|t: [u32; 3]| triple4(t)));
        assert(opacities@ =~= src.opacities@);
        assert(sh_dc@ =~= src.sh_dc@.map_values(|t: [u32; 3]| triple4(t)));
        GpuSplatBuffer {
            n: n as u32,
            positions,
            rotations,
            scales,
            opacities,
            sh_dc,
            sh_rest: pad45_to_48(src.sh_rest.as_slice(), n),
        }
    }

    /// Replaces the contents by the image of a buffer of the same length.
    pub fn sync_from(&mut self, src: &SplatBuffer)
        requires
            src.wf(),
            src@.len() == old(self).n,
        ensures
            final(self).wf(),
            final(self).images(*src),
            final(self).n == old(self).n,
    {
        *self = GpuSplatBuffer::upload(src);
    }

    /// The splats without their padding.
    pub fn readback(&self) -> (back: SplatBuffer)
        requires
            self.wf(),
        ensures
            reads_back(*self, back),
    {
        let n: usize = self.n as usize;
        let mut positions: Vec<Vec3> = Vec::new();
        let mut rotations: Vec<[u32; 4]> = Vec::new();
        let mut scales: Vec<[u32; 3]> = Vec::new();
        let mut opacities: Vec<u32> = Vec::new();
        let mut sh_dc: Vec<[u32; 3]> = Vec::new();
        let mut i: usize = 0;
        while i < n
            invariant
                i <= n,
                n == self.n,
                self.wf(),
                positions.len() == i,
                rotations.len() == i,
                scales.len() == i,
                opacities.len() == i,
                sh_dc.len() == i,
                forall|k: int|
                    0 <= k < i ==> #[trigger] positions@[k] == first3_vec(self.positions@[k]),
                forall|k: int| 0 <= k < i ==> #[trigger] rotations@[k] == self.rotations@[k],
                forall|k: int| 0 <= k < i ==> #[trigger] scales@[k] == first3(self.scales@[k]),
                forall|k: int| 0 <= k < i ==> #[trigger] opacities@[k] == self.opacities@[k],
                forall|k: int| 0 <= k < i ==> #[trigger] sh_dc@[k] == first3(self.sh_dc@[k]),
            decreases n - i,
        {
            let p: [u32; 4] = self.positions[i];
            let s: [u32; 4] = self.scales[i];
            let c: [u32; 4] = self.sh_dc[i];
            positions.push(Vec3::new(p[0], p[1], p[2]));
            rotations.push(self.rotations[i]);
            scales.push([s[0], s[1], s[2]]);
            opacities.push(self.opacities[i]);
            sh_dc.push([c[0], c[1], c[2]]);
            i = i + 1;
        }
        assert(positions@ =~= self.positions@.map_values(|q: [u32; 4]| first3_vec(q)));
        assert(rotations@ =~= self.rotations@);
        assert(scales@ =~= self.scales@.map_values(|q: [u32; 4]| first3(q)));
        assert(opacities@ =~= self.opacities@);
        assert(sh_dc@ =~= self.sh_dc@.map_values(|q: [u32; 4]| first3(q)));
        SplatBuffer {
            positions,
            rotations,
            scales,
            opacities,
            sh_dc,
            sh_rest: unpad_48_to_45(self.sh_rest.as_slice(), n),
        }
    }
}

/// Reading back an uploaded buffer gives it back bit for bit.
pub proof fn law_upload_readback(src: SplatBuffer, gpu: GpuSplatBuffer, back: SplatBuffer)
    requires
        src.wf(),
        gpu.images(src),
        reads_back(gpu, back),
    ensures
        back@ == src@,
{
    let n = src.positions.len() as int;
    assert(stripped_rest(padded_rest(src.sh_rest@, n), n) == src.sh_rest@) by {
        law_padding_roundtrip(Seq::new((n * 3) as nat, |i: int| 0u32), src.sh_rest@, n);
    }
    assert forall|i: int| 0 <= i < n implies back@[i] == src@[i] by {
        assert(gpu.positions@[i] == point4(src.positions@[i]));
        assert(gpu.scales@[i] == triple4(src.scales@[i]));
        assert(gpu.sh_dc@[i] == triple4(src.sh_dc@[i]));
        assert(back.positions@[i] == first3_vec(gpu.positions@[i]));
        assert(back.scales@[i] == first3(gpu.scales@[i]));
        assert(back.sh_dc@[i] == first3(gpu.sh_dc@[i]));
        assert(back.scales@[i] =~= src.scales@[i]);
        assert(back.sh_dc@[i] =~= src.sh_dc@[i]);
        assert(back.positions@[i] == src.positions@[i]);
    }
    assert(back@ =~= src@);
}

/// The device image of the optimiser moments.
pub struct AdamMomentBuffers {
    pub n: u32,
    pub m_pos: Vec<[u32; 4]>,
    pub v_pos: Vec<[u32; 4]>,
    pub m_rot: Vec<u32>,
    pub v_rot: Vec<u32>,
    pub m_scale: Vec<[u32; 4]>,
    pub v_scale: Vec<[u32; 4]>,
    pub m_op: Vec<u32>,
    pub v_op: Vec<u32>,
    pub m_dc: Vec<[u32; 4]>,
    pub v_dc: Vec<[u32; 4]>,
    pub m_rest: Vec<u32>,
    pub v_rest: Vec<u32>,
}

fn copy_all(words: &Vec<u32>) -> (copy: Vec<u32>)
    ensures
        copy@ == words@,
{
    let copy: Vec<u32> = copy_words(words.as_slice(), 0, words.len());
    assert(words@.subrange(0, words@.len() as int) =~= words@);
    copy
}

impl AdamMomentBuffers {
    /// Every moment covers the `n` splats.
    pub open spec fn wf(self) -> bool {
        &&& self.m_pos.len() == self.n && self.v_pos.len() == self.n
        &&& self.m_rot.len() == self.n * 4 && self.v_rot.len() == self.n * 4
        &&& self.m_scale.len() == self.n && self.v_scale.len() == self.n
        &&& self.m_op.len() == self.n && self.v_op.len() == self.n
        &&& self.m_dc.len() == self.n && self.v_dc.len() == self.n
        &&& self.m_rest.len() == self.n * 48 && self.v_rest.len() == self.n * 48
    }

    /// The image is that of `bank`.
    pub open spec fn images(self, bank: AdamBank) -> bool {
        let n = self.n as int;
        &&& self.m_pos@ == padded_triples(bank.pos.m@, n)
        &&& self.v_pos@ == padded_triples(bank.pos.v@, n)
        &&& self.m_rot@ == bank.rot.m@ && self.v_rot@ == bank.rot.v@
        &&& self.m_scale@ == padded_triples(bank.scale.m@, n)
        &&& self.v_scale@ == padded_triples(bank.scale.v@, n)
        &&& self.m_op@ == bank.op.m@ && self.v_op@ == bank.op.v@
        &&& self.m_dc@ == padded_triples(bank.dc.m@, n)
        &&& self.v_dc@ == padded_triples(bank.dc.v@, n)
        &&& self.m_rest@ == padded_rest(bank.rest.m@, n)
        &&& self.v_rest@ == padded_rest(bank.rest.v@, n)
    }

    /// `bank` holds the moments of the image, without the padding.
    pub open spec fn reads_back(self, bank: AdamBank) -> bool {
        let n = self.n as int;
        &&& bank.pos.m@ == stripped_quads(self.m_pos@)
        &&& bank.pos.v@ == stripped_quads(self.v_pos@)
        &&& bank.rot.m@ == self.m_rot@ && bank.rot.v@ == self.v_rot@
        &&& bank.scale.m@ == stripped_quads(self.m_scale@)
        &&& bank.scale.v@ == stripped_quads(self.v_scale@)
        &&& bank.op.m@ == self.m_op@ && bank.op.v@ == self.v_op@
        &&& bank.dc.m@ == stripped_quads(self.m_dc@)
        &&& bank.dc.v@ == stripped_quads(self.v_dc@)
        &&& bank.rest.m@ == stripped_rest(self.m_rest@, n)
        &&& bank.rest.v@ == stripped_rest(self.v_rest@, n)
    }

    /// The image of a moment bank. The opacity slab, one moment per splat,
    /// tells the splat count.
    pub fn upload_from_cpu(bank: &AdamBank) -> (image: Self)
        requires
            bank.wf(bank.op.m.len() as int),
            bank.op.m.len() <= u32::MAX,
        ensures
            image.n == bank.op.m.len(),
            image.wf(),
            image.images(*bank),
    {
        let n: usize = bank.op.m.len();
        AdamMomentBuffers {
            n: n as u32,
            m_pos: pad3_to_vec4(bank.pos.m.as_slice(), n),
            v_pos: pad3_to_vec4(bank.pos.v.as_slice(), n),
            m_rot: copy_all(&bank.rot.m),
            v_rot: copy_all(&bank.rot.v),
            m_scale: pad3_to_vec4(bank.scale.m.as_slice(), n),
            v_scale: pad3_to_vec4(bank.scale.v.as_slice(), n),
            m_op: copy_all(&bank.op.m),
            v_op: copy_all(&bank.op.v),
            m_dc: pad3_to_vec4(bank.dc.m.as_slice(), n),
            v_dc: pad3_to_vec4(bank.dc.v.as_slice(), n),
            m_rest: pad45_to_48(bank.rest.m.as_slice(), n),
            v_rest: pad45_to_48(bank.rest.v.as_slice(), n),
        }
    }

    /// Takes the moments over into a bank; its step counters and
    /// hyperparameters stay.
    pub fn download_to_cpu(&self, bank: &mut AdamBank)
        requires
            self.wf(),
        ensures
            final(bank).wf(self.n as int),
            self.reads_back(*final(bank)),
            final(bank).same_meta(*old(bank)),
    {
        let n: usize = self.n as usize;
        bank.pos.m = unpad_vec4_to_3(self.m_pos.as_slice());
        bank.pos.v = unpad_vec4_to_3(self.v_pos.as_slice());
        bank.rot.m = copy_all(&self.m_rot);
        bank.rot.v = copy_all(&self.v_rot);
        bank.scale.m = unpad_vec4_to_3(self.m_scale.as_slice());
        bank.scale.v = unpad_vec4_to_3(self.v_scale.as_slice());
        bank.op.m = copy_all(&self.m_op);
        bank.op.v = copy_all(&self.v_op);
        bank.dc.m = unpad_vec4_to_3(self.m_dc.as_slice());
        bank.dc.v = unpad_vec4_to_3(self.v_dc.as_slice());
        bank.rest.m = unpad_48_to_45(self.m_rest.as_slice(), n);
        bank.rest.v = unpad_48_to_45(self.v_rest.as_slice(), n);
    }
}

/// Moments survive a trip through the device: taking over an uploaded bank
/// gives every moment back.
pub proof fn law_moments_roundtrip(bank: AdamBank, image: AdamMomentBuffers, back: AdamBank)
    requires
        bank.wf(image.n as int),
        image.images(bank),
        image.reads_back(back),
    ensures
        back.pos.m@ == bank.pos.m@ && back.pos.v@ == bank.pos.v@,
        back.rot.m@ == bank.rot.m@ && back.rot.v@ == bank.rot.v@,
        back.scale.m@ == bank.scale.m@ && back.scale.v@ == bank.scale.v@,
        back.op.m@ == bank.op.m@ && back.op.v@ == bank.op.v@,
        back.dc.m@ == bank.dc.m@ && back.dc.v@ == bank.dc.v@,
        back.rest.m@ == bank.rest.m@ && back.rest.v@ == bank.rest.v@,
{
    let n = image.n as int;
    law_padding_roundtrip(bank.pos.m@, bank.rest.m@, n);
    law_padding_roundtrip(bank.pos.v@, bank.rest.v@, n);
    law_padding_roundtrip(bank.scale.m@, bank.rest.m@, n);
    law_padding_roundtrip(bank.scale.v@, bank.rest.v@, n);
    law_padding_roundtrip(bank.dc.m@, bank.rest.m@, n);
    law_padding_roundtrip(bank.dc.v@, bank.rest.v@, n);
}

/// In the padded forms item `i` keeps its words in order and is filled up with
/// zeros: three words to four, and 45 to 48.
pub proof fn law_padded_words(triples: Seq<u32>, rest: Seq<u32>, n: int, i: int, j: int)
    requires
        0 <= i < n,
        triples.len() == n * 3,
        rest.len() == n * 45,
        0 <= j < 48,
    ensures
        padded_triples(triples, n).len() == n,
        padded_triples(triples, n)[i]@ == seq![
            triples[3 * i],
            triples[3 * i + 1],
            triples[3 * i + 2],
            0u32,
        ],
        padded_rest(rest, n).len() == 48 * n,
        j < 45 ==> padded_rest(rest, n)[48 * i + j] == rest[45 * i + j],
        j >= 45 ==> padded_rest(rest, n)[48 * i + j] == 0,
{
    assert(padded_triples(triples, n)[i]@ =~= seq![
        triples[3 * i],
        triples[3 * i + 1],
        triples[3 * i + 2],
        0u32,
    ]);
    let w = 48 * i + j;
    assert(w / 48 == i && w % 48 == j);
    assert(0 <= w < n * 48);
}

/// The stripped forms keep the first three words of each quadruple, and the
/// first 45 of each 48, in order.
pub proof fn law_stripped_words(quads: Seq<[u32; 4]>, rest: Seq<u32>, i: int, j: int)
    requires
        0 <= i < quads.len(),
        rest.len() == quads.len() * 48,
        0 <= j < 45,
    ensures
        stripped_quads(quads).len() == 3 * quads.len(),
        j < 3 ==> stripped_quads(quads)[3 * i + j] == quads[i][j],
        stripped_rest(rest, quads.len() as int).len() == 45 * quads.len(),
        stripped_rest(rest, quads.len() as int)[45 * i + j] == rest[48 * i + j],
{
    if j < 3 {
        let w = 3 * i + j;
        assert(w / 3 == i && w % 3 == j);
    }
    let w = 45 * i + j;
    assert(w / 45 == i && w % 45 == j);
}

/// The device image holds every attribute of splat `i` under its own name: the
/// position with a fourth component of one, the rotation and the opacity as
/// they are, scale and constant coefficients with a zero behind them, and the
/// higher coefficients padded to 48 words.
pub proof fn law_image_attributes(src: SplatBuffer, gpu: GpuSplatBuffer, i: int, j: int)
    requires
        src.wf(),
        gpu.images(src),
        0 <= i < src.positions.len(),
        0 <= j < 48,
    ensures
        gpu.n == src.positions.len(),
        gpu.wf(),
        gpu.positions@[i]@ == seq![
            src.positions@[i].x,
            src.positions@[i].y,
            src.positions@[i].z,
            0x3f80_0000u32,
        ],
        gpu.rotations@[i] == src.rotations@[i],
        gpu.scales@[i]@ == seq![
            src.scales@[i][0],
            src.scales@[i][1],
            src.scales@[i][2],
            0u32,
        ],
        gpu.opacities@[i] == src.opacities@[i],
        gpu.sh_dc@[i]@ == seq![src.sh_dc@[i][0], src.sh_dc@[i][1], src.sh_dc@[i][2], 0u32],
        gpu.sh_rest@[48 * i + j] == if j < 45 {
            src.sh_rest@[45 * i + j]
        } else {
            0
        },
{
    let n = src.positions.len() as int;
    assert(point4(src.positions@[i])@ =~= seq![
        src.positions@[i].x,
        src.positions@[i].y,
        src.positions@[i].z,
        0x3f80_0000u32,
    ]);
    assert(triple4(src.scales@[i])@ =~= seq![
        src.scales@[i][0],
        src.scales@[i][1],
        src.scales@[i][2],
        0u32,
    ]);
    assert(triple4(src.sh_dc@[i])@ =~= seq![
        src.sh_dc@[i][0],
        src.sh_dc@[i][1],
        src.sh_dc@[i][2],
        0u32,
    ]);
    let w = 48 * i + j;
    assert(w / 48 == i && w % 48 == j);
    assert(0 <= w < n * 48);
    assert(gpu.sh_rest@.len() == n * 48);
}

/// Reading back takes every attribute of splat `i` from the image of the same
/// name, without its padding.
pub proof fn law_read_back_attributes(gpu: GpuSplatBuffer, back: SplatBuffer, i: int, j: int)
    requires
        gpu.wf(),
        reads_back(gpu, back),
        0 <= i < gpu.n,
        0 <= j < 45,
    ensures
        back@.len() == gpu.n,
        back.positions@[i].x == gpu.positions@[i][0],
        back.positions@[i].y == gpu.positions@[i][1],
        back.positions@[i].z == gpu.positions@[i][2],
        back.rotations@[i] == gpu.rotations@[i],
        j < 3 ==> back.scales@[i][j] == gpu.scales@[i][j],
        back.opacities@[i] == gpu.opacities@[i],
        j < 3 ==> back.sh_dc@[i][j] == gpu.sh_dc@[i][j],
        back.sh_rest@[45 * i + j] == gpu.sh_rest@[48 * i + j],
{
    let w = 45 * i + j;
    assert(w / 45 == i && w % 45 == j);
    assert(0 <= w < gpu.n * 45);
}

/// The image of a moment bank holds each attribute's first and second moments
/// under its own name, padded like the attribute itself.
pub proof fn law_moment_image(bank: AdamBank, image: AdamMomentBuffers, i: int, j: int)
    requires
        bank.wf(image.n as int),
        image.images(bank),
        0 <= i < image.n,
        0 <= j < 45,
    ensures
        j < 3 ==> image.m_pos@[i][j] == bank.pos.m@[3 * i + j] && image.v_pos@[i][j]
            == bank.pos.v@[3 * i + j],
        image.m_pos@[i][3] == 0 && image.v_pos@[i][3] == 0,
        j < 4 ==> image.m_rot@[4 * i + j] == bank.rot.m@[4 * i + j] && image.v_rot@[4 * i + j]
            == bank.rot.v@[4 * i + j],
        j < 3 ==> image.m_scale@[i][j] == bank.scale.m@[3 * i + j] && image.v_scale@[i][j]
            == bank.scale.v@[3 * i + j],
        image.m_scale@[i][3] == 0 && image.v_scale@[i][3] == 0,
        image.m_op@[i] == bank.op.m@[i] && image.v_op@[i] == bank.op.v@[i],
        j < 3 ==> image.m_dc@[i][j] == bank.dc.m@[3 * i + j] && image.v_dc@[i][j]
            == bank.dc.v@[3 * i + j],
        image.m_dc@[i][3] == 0 && image.v_dc@[i][3] == 0,
        image.m_rest@[48 * i + j] == bank.rest.m@[45 * i + j] && image.v_rest@[48 * i + j]
            == bank.rest.v@[45 * i + j],
{
    let n = image.n as int;
    let w = 48 * i + j;
    assert(w / 48 == i && w % 48 == j);
    assert(0 <= w < n * 48);
}

/// Taking moments over from their image takes each attribute's first and second
/// moments from the buffers of its own name.
pub proof fn law_moments_read_back(image: AdamMomentBuffers, bank: AdamBank, i: int, j: int)
    requires
        image.wf(),
        image.reads_back(bank),
        0 <= i < image.n,
        0 <= j < 45,
    ensures
        j < 3 ==> bank.pos.m@[3 * i + j] == image.m_pos@[i][j] && bank.pos.v@[3 * i + j]
            == image.v_pos@[i][j],
        j < 4 ==> bank.rot.m@[4 * i + j] == image.m_rot@[4 * i + j] && bank.rot.v@[4 * i + j]
            == image.v_rot@[4 * i + j],
        j < 3 ==> bank.scale.m@[3 * i + j] == image.m_scale@[i][j] && bank.scale.v@[3 * i + j]
            == image.v_scale@[i][j],
        bank.op.m@[i] == image.m_op@[i] && bank.op.v@[i] == image.v_op@[i],
        j < 3 ==> bank.dc.m@[3 * i + j] == image.m_dc@[i][j] && bank.dc.v@[3 * i + j]
            == image.v_dc@[i][j],
        bank.rest.m@[45 * i + j] == image.m_rest@[48 * i + j] && bank.rest.v@[45 * i + j]
            == image.v_rest@[48 * i + j],
{
    let n = image.n as int;
    if j < 3 {
        let t = 3 * i + j;
        assert(t / 3 == i && t % 3 == j);
    }
    let w = 45 * i + j;
    assert(w / 45 == i && w % 45 == j);
    assert(0 <= w < n * 45);
}

} // verus!
