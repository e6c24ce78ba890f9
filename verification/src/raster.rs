//! The records that the splat rasteriser's passes exchange, as float bit
//! patterns.
use vstd::prelude::*;

use crate::float_bits::ZERO;

verus! {

/// A splat on the screen. One whose `visible` is zero is not drawn.
#[derive(Clone, Copy, Debug)]
pub struct ProjectedSplat {
    pub mean_xy: [u32; 2],
    pub depth: u32,
    pub radius: u32,
    /// Upper triangle of the inverse covariance.
    pub conic: [u32; 3],
    pub visible: u32,
    pub color: [u32; 3],
    pub opacity: u32,
}

impl ProjectedSplat {
    /// The record: three quadruples.
    pub open spec fn record(self) -> Seq<u32> {
        seq![
            self.mean_xy[0],
            self.mean_xy[1],
            self.depth,
            self.radius,
            self.conic[0],
            self.conic[1],
            self.conic[2],
            self.visible,
            self.color[0],
            self.color[1],
            self.color[2],
            self.opacity,
        ]
    }

    /// The words of the record.
    pub fn words(&self) -> (words: [u32; 12])
        ensures
            words@ == self.record(),
    {
        let words: [u32; 12] = [
            self.mean_xy[0],
            self.mean_xy[1],
            self.depth,
            self.radius,
            self.conic[0],
            self.conic[1],
            self.conic[2],
            self.visible,
            self.color[0],
            self.color[1],
            self.color[2],
            self.opacity,
        ];
        assert(words@ =~= self.record());
        words
    }

    /// The splat that a record holds.
    pub fn from_words(words: &[u32; 12]) -> (splat: Self)
        ensures
            splat.record() == words@,
    {
        let splat: ProjectedSplat = ProjectedSplat {
            mean_xy: [words[0], words[1]],
            depth: words[2],
            radius: words[3],
            conic: [words[4], words[5], words[6]],
            visible: words[7],
            color: [words[8], words[9], words[10]],
            opacity: words[11],
        };
        assert(splat.record() =~= words@);
        splat
    }
}

impl Default for ProjectedSplat {
    /// A splat that is not drawn: all zeros.
    fn default() -> (splat: Self)
        ensures
            splat.record() == Seq::new(12, |i: int| ZERO),
    {
        let splat: ProjectedSplat = ProjectedSplat {
            mean_xy: [ZERO, ZERO],
            depth: ZERO,
            radius: ZERO,
            conic: [ZERO, ZERO, ZERO],
            visible: ZERO,
            color: [ZERO, ZERO, ZERO],
            opacity: ZERO,
        };
        assert(splat.record() =~= Seq::new(12, |i: int| ZERO));
        splat
    }
}

/// A record determines its splat.
pub proof fn law_record_determines_splat(a: ProjectedSplat, b: ProjectedSplat)
    requires
        a.record() == b.record(),
    ensures
        a == b,
{
    let r = a.record();
    let s = b.record();
    assert(r[0] == s[0] && r[1] == s[1] && r[2] == s[2] && r[3] == s[3]);
    assert(r[4] == s[4] && r[5] == s[5] && r[6] == s[6] && r[7] == s[7]);
    assert(r[8] == s[8] && r[9] == s[9] && r[10] == s[10] && r[11] == s[11]);
    assert(a.mean_xy =~= b.mean_xy);
    assert(a.conic =~= b.conic);
    assert(a.color =~= b.color);
}

/// The gradient of a projected splat: that of its mean and opacity, of its
/// conic and of its colour, each padded to a quadruple.
#[derive(Clone, Copy, Debug)]
pub struct ProjectedGrad {
    pub dmean_opacity: [u32; 4],
    pub dconic: [u32; 4],
    pub dcolor: [u32; 4],
}

impl ProjectedGrad {
    /// The gradient that a record holds.
    pub fn from_words(words: &[u32; 12]) -> (grad: Self)
        ensures
            grad.dmean_opacity@ == words@.subrange(0, 4),
            grad.dconic@ == words@.subrange(4, 8),
            grad.dcolor@ == words@.subrange(8, 12),
    {
        let grad: ProjectedGrad = ProjectedGrad {
            dmean_opacity: [words[0], words[1], words[2], words[3]],
            dconic: [words[4], words[5], words[6], words[7]],
            dcolor: [words[8], words[9], words[10], words[11]],
        };
        assert(grad.dmean_opacity@ =~= words@.subrange(0, 4));
        assert(grad.dconic@ =~= words@.subrange(4, 8));
        assert(grad.dcolor@ =~= words@.subrange(8, 12));
        grad
    }
}

/// The camera as the passes read it.
#[derive(Clone, Copy, Debug)]
pub struct CameraUniform {
    /// World to camera space, column by column.
    pub view: [[u32; 4]; 4],
    pub cam_pos: [u32; 3],
    pub near: u32,
    pub focal: u32,
    pub width: u32,
    pub height: u32,
    /// A count, not a float.
    pub n_splats: u32,
}

impl CameraUniform {
    /// The words of the uniform block: the four columns, the position and the
    /// near plane, and the image plane with the number of splats.
    pub open spec fn block(self) -> Seq<u32> {
        self.view[0]@ + self.view[1]@ + self.view[2]@ + self.view[3]@ + self.cam_pos@ + seq![
            self.near,
            self.focal,
            self.width,
            self.height,
            self.n_splats,
        ]
    }

    /// The words of the uniform block.
    pub fn words(&self) -> (words: [u32; 24])
        ensures
            words@ == self.block(),
    {
        let words: [u32; 24] = [
            self.view[0][0],
            self.view[0][1],
            self.view[0][2],
            self.view[0][3],
            self.view[1][0],
            self.view[1][1],
            self.view[1][2],
            self.view[1][3],
            self.view[2][0],
            self.view[2][1],
            self.view[2][2],
            self.view[2][3],
            self.view[3][0],
            self.view[3][1],
            self.view[3][2],
            self.view[3][3],
            self.cam_pos[0],
            self.cam_pos[1],
            self.cam_pos[2],
            self.near,
            self.focal,
            self.width,
            self.height,
            self.n_splats,
        ];
        assert(words@ =~= self.block());
        words
    }
}

/// Word by word, a projected splat's record is three quadruples: mean, depth
/// and radius; conic and visibility; colour and opacity.
pub proof fn law_record_words(s: ProjectedSplat)
    ensures
        s.record().len() == 12,
        s.record()[0] == s.mean_xy[0] && s.record()[1] == s.mean_xy[1],
        s.record()[2] == s.depth && s.record()[3] == s.radius,
        s.record()[4] == s.conic[0] && s.record()[5] == s.conic[1] && s.record()[6] == s.conic[2],
        s.record()[7] == s.visible,
        s.record()[8] == s.color[0] && s.record()[9] == s.color[1] && s.record()[10] == s.color[2],
        s.record()[11] == s.opacity,
{
}

/// Word by word, the camera's block is its view column by column, its position,
/// the near plane, the focal length, the image's width and height, and the
/// number of splats.
pub proof fn law_camera_words(c: CameraUniform, i: int, j: int)
    requires
        0 <= i < 4,
        0 <= j < 4,
    ensures
        c.block().len() == 24,
        c.block()[4 * i + j] == c.view[i][j],
        c.block()[16] == c.cam_pos[0] && c.block()[17] == c.cam_pos[1] && c.block()[18]
            == c.cam_pos[2],
        c.block()[19] == c.near,
        c.block()[20] == c.focal,
        c.block()[21] == c.width,
        c.block()[22] == c.height,
        c.block()[23] == c.n_splats,
{
}

} // verus!
