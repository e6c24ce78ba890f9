//! HDR environment maps, as float bit patterns.
use vstd::prelude::*;

use crate::float_bits::{Vec3, ONE, ZERO};

verus! {

/// An environment map: row-major pixels, or the procedural sky.
pub struct EnvironmentMap {
    /// Pixels in linear RGB, row by row; empty for the procedural sky.
    pub data: Vec<Vec3>,
    pub width: u32,
    pub height: u32,
    /// Whether the procedural sky takes the place of the pixels.
    pub use_sky: bool,
    /// Exposure multiplier.
    pub exposure: u32,
}

/// An environment map as it is uploaded.
pub struct EnvGpuData {
    pub data: Vec<[u32; 4]>,
    pub width: u32,
    pub height: u32,
    pub exposure: u32,
    pub use_sky: bool,
}

/// A pixel with its padding component.
pub open spec fn padded(v: Vec3) -> [u32; 4] {
    [v.x, v.y, v.z, ONE]
}

/// A texture extent: never below one.
pub open spec fn extent(side: u32) -> int {
    if side == 0 {
        1
    } else {
        side as int
    }
}

impl EnvironmentMap {
    /// The pixels fill the image; the procedural sky has none.
    pub open spec fn wf(self) -> bool {
        self.data.len() == if self.use_sky { 0 } else { self.width * self.height }
    }

    /// The texels that the map uploads: its pixels, or opaque black ones where
    /// it has none.
    pub open spec fn texels(self) -> Seq<[u32; 4]> {
        if self.use_sky {
            seq![[ZERO, ZERO, ZERO, ONE]]
        } else if self.data.len() == 0 {
            Seq::new(
                (extent(self.width) * extent(self.height)) as nat,
                |i: int| [ZERO, ZERO, ZERO, ONE],
            )
        } else {
            self.data@.map_values(|v: Vec3| padded(v))
        }
    }
}

/// `env` is what a map uploads.
pub open spec fn uploads(map: EnvironmentMap, env: EnvGpuData) -> bool {
    &&& env.use_sky == map.use_sky
    &&& env.exposure == map.exposure
    &&& env.width == if map.use_sky { 1 } else { extent(map.width) }
    &&& env.height == if map.use_sky { 1 } else { extent(map.height) }
    &&& env.data@ == map.texels()
}

/// `width * height` black pixels.
pub fn blank_pixels(width: u32, height: u32) -> (pixels: Vec<Vec3>)
    requires
        width * height <= u32::MAX,
    ensures
        pixels@ == Seq::new((width * height) as nat, |i: int| Vec3::zero()),
{
    let n: u32 = width * height;
    let mut pixels: Vec<Vec3> = Vec::new();
    let mut i: u32 = 0;
    while i < n
        invariant
            i <= n,
            pixels.len() == i,
            forall|k: int| 0 <= k < i ==> pixels@[k] == Vec3::zero(),
        decreases n - i,
    {
        pixels.push(Vec3::new(ZERO, ZERO, ZERO));
        i = i + 1;
    }
    assert(pixels@ =~= Seq::new((width * height) as nat, |i: int| Vec3::zero()));
    pixels
}

/// Stores the pixel at column `x` and row `y` of an image of `width` columns;
/// positions outside the buffer are ignored.
pub fn store_pixel(pixels: &mut Vec<Vec3>, width: usize, x: usize, y: usize, color: Vec3)
    requires
        y * width + x <= usize::MAX,
    ensures
        final(pixels)@ == if y * width + x < old(pixels).len() {
            old(pixels)@.update(y * width + x, color)
        } else {
            old(pixels)@
        },
{
    proof {
        assert(y * width >= 0) by (nonlinear_arith)
            requires
                y >= 0,
                width >= 0,
        ;
    }
    let index: usize = y * width + x;
    if index < pixels.len() {
        pixels.set(index, color);
    }
}

/// Row-major storage gives every pixel of an image a slot of its own.
pub proof fn law_pixels_do_not_collide(width: int, x: int, y: int, u: int, v: int)
    requires
        0 <= x < width,
        0 <= u < width,
        0 <= y,
        0 <= v,
        y * width + x == v * width + u,
    ensures
        x == u && y == v,
{
    assert(y == v) by (nonlinear_arith)
        requires
            0 <= x < width,
            0 <= u < width,
            y * width + x == v * width + u,
    ;
}

impl EnvironmentMap {
    /// A map of loaded pixels.
    pub fn from_pixels(data: Vec<Vec3>, width: u32, height: u32, exposure: u32) -> (map: Self)
        requires
            data.len() == width * height,
        ensures
            map.wf(),
            map == (EnvironmentMap { data, width, height, use_sky: false, exposure }),
    {
        EnvironmentMap { data, width, height, use_sky: false, exposure }
    }

    /// The procedural sky: no pixels, exposure `1.0`.
    pub fn procedural_sky() -> (map: Self)
        ensures
            map.wf(),
            map.data.len() == 0,
            map.width == 0,
            map.height == 0,
            map.use_sky,
            map.exposure == ONE,
    {
        EnvironmentMap { data: Vec::new(), width: 0, height: 0, use_sky: true, exposure: ONE }
    }

    pub fn width(&self) -> (w: u32)
        ensures
            w == self.width,
    {
        self.width
    }

    pub fn height(&self) -> (h: u32)
        ensures
            h == self.height,
    {
        self.height
    }

    /// The map as it is uploaded. It is never smaller than one by one texel
    /// and its texels fill it; the procedural sky is a single opaque black one.
    pub fn gpu_data(&self) -> (gpu: EnvGpuData)
        requires
            self.wf(),
        ensures
            uploads(*self, gpu),
            gpu.width >= 1 && gpu.height >= 1,
            gpu.data.len() == gpu.width * gpu.height,
    {
        let width: u32 = if self.use_sky || self.width == 0 { 1 } else { self.width };
        let height: u32 = if self.use_sky || self.height == 0 { 1 } else { self.height };
        let mut data: Vec<[u32; 4]> = Vec::new();
        if self.data.len() == 0 {
            proof {
                if !self.use_sky {
                    assert(self.width == 0 || self.height == 0) by (nonlinear_arith)
                        requires
                            self.width * self.height == 0,
                    ;
                    assert(width == 1 || height == 1);
                }
            }
            let n: u32 = width * height;
            let mut i: u32 = 0;
            while i < n
                invariant
                    i <= n,
                    data.len() == i,
                    forall|k: int| 0 <= k < i ==> data@[k] == [ZERO, ZERO, ZERO, ONE],
                decreases n - i,
            {
                data.push([ZERO, ZERO, ZERO, ONE]);
                i = i + 1;
            }
            assert(data@ =~= self.texels());
        } else {
            let mut i: usize = 0;
            while i < self.data.len()
                invariant
                    i <= self.data.len(),
                    data.len() == i,
                    forall|k: int| 0 <= k < i ==> data@[k] == padded(self.data@[k]),
                decreases self.data.len() - i,
            {
                let v: Vec3 = self.data[i];
                data.push([v.x, v.y, v.z, ONE]);
                i = i + 1;
            }
            assert(data@ =~= self.texels());
        }
        EnvGpuData { data, width, height, exposure: self.exposure, use_sky: self.use_sky }
    }
}

/// What a map uploads. The procedural sky is one opaque black texel. Any other
/// map keeps its width, height and pixels, each with a fourth component of
/// one: the pixel in column `x` of row `y` is texel `y * width + x`. A map
/// without pixels is black, and no side is ever below one.
pub proof fn law_uploaded_texels(map: EnvironmentMap, env: EnvGpuData, x: int, y: int)
    requires
        map.wf(),
        uploads(map, env),
        0 <= x < env.width,
        0 <= y < env.height,
    ensures
        env.use_sky == map.use_sky,
        env.exposure == map.exposure,
        env.data.len() == env.width * env.height,
        0 <= y * env.width + x < env.data.len(),
        map.use_sky ==> env.width == 1 && env.height == 1,
        !map.use_sky && map.width > 0 ==> env.width == map.width,
        !map.use_sky && map.height > 0 ==> env.height == map.height,
        !map.use_sky && map.width == 0 ==> env.width == 1,
        !map.use_sky && map.height == 0 ==> env.height == 1,
        ({
            let texel = env.data@[y * env.width + x];
            if map.use_sky || map.data.len() == 0 {
                texel@ == seq![0u32, 0u32, 0u32, 0x3f80_0000u32]
            } else {
                let pixel = map.data@[y * map.width + x];
                texel@ == seq![pixel.x, pixel.y, pixel.z, 0x3f80_0000u32]
            }
        }),
{
    let w = env.width as int;
    let h = env.height as int;
    assert(0 <= y * w + x < w * h) by (nonlinear_arith)
        requires
            0 <= x < w,
            0 <= y < h,
    ;
    if !map.use_sky {
        assert(map.width == 0 || map.height == 0 ==> map.width * map.height == 0)
            by (nonlinear_arith);
        assert(map.width > 0 && map.height > 0 ==> map.width * map.height > 0)
            by (nonlinear_arith);
    }
    let texel = env.data@[y * w + x];
    if map.use_sky || map.data.len() == 0 {
        assert(texel@ =~= seq![0u32, 0u32, 0u32, 0x3f80_0000u32]);
    } else {
        let pixel = map.data@[y * map.width + x];
        assert(texel@ =~= seq![pixel.x, pixel.y, pixel.z, 0x3f80_0000u32]);
    }
}

} // verus!
