//! Surface materials, as float bit patterns.
use vstd::prelude::*;

use crate::float_bits::{Vec3, ONE, ZERO};

verus! {

/// A surface material. `albedo` holds the diffuse, specular, mirror and
/// refraction weights.
#[derive(Clone, Copy, Debug)]
pub struct Material {
    pub refractive_index: u32,
    pub albedo: [u32; 4],
    pub diffuse_color: Vec3,
    pub specular_exponent: u32,
}

/// The matte tile of the checkerboard plane: index `1.0`, weights
/// `[0.9, 0.1, 0.0, 0.0]`, exponent `10.0`.
pub fn checkerboard_material(diffuse_color: Vec3) -> (material: Material)
    ensures
        material == (Material {
            refractive_index: ONE,
            albedo: [0x3f66_6666u32, 0x3dcc_cccdu32, ZERO, ZERO],
            diffuse_color,
            specular_exponent: 0x4120_0000,
        }),
        material.conserves_energy(),
{
    proof {
        lemma_stock_weights();
    }
    Material {
        refractive_index: ONE,
        albedo: [0x3f66_6666u32, 0x3dcc_cccdu32, ZERO, ZERO],
        diffuse_color,
        specular_exponent: 0x4120_0000,
    }
}

/// `2^30` times the value of a float bit pattern between `2^-7` and one, or of
/// zero.
pub open spec fn weight_units(bits: u32) -> int {
    let exponent = bits as int / 0x80_0000;
    let mantissa = 0x80_0000 + bits as int % 0x80_0000;
    if bits == ZERO {
        0
    } else {
        mantissa * vstd::arithmetic::power2::pow2((exponent - 120) as nat)
    }
}

impl Material {
    /// No more light leaves a surface than comes in: the four weights sum to at
    /// most one.
    pub open spec fn conserves_energy(self) -> bool {
        weight_units(self.albedo[0]) + weight_units(self.albedo[1]) + weight_units(self.albedo[2])
            + weight_units(self.albedo[3]) <= 0x4000_0000
    }
}

proof fn lemma_weight(bits: u32, shift: nat, scale: int)
    requires
        bits != ZERO,
        bits as int / 0x80_0000 == 120 + shift,
        vstd::arithmetic::power2::pow2(shift) == scale,
    ensures
        weight_units(bits) == (0x80_0000 + bits as int % 0x80_0000) * scale,
{
}

/// The weights of the materials: `0.85`, `0.1`, `0.9`, `0.96`, `0.95` and
/// `0.04`.
proof fn lemma_stock_weights()
    ensures
        weight_units(0x3f59_999a) == 912680576,
        weight_units(0x3dcc_cccd) == 107374184,
        weight_units(0x3f66_6666) == 966367616,
        weight_units(0x3f75_c28f) == 1030792128,
        weight_units(0x3f73_3333) == 1020054720,
        weight_units(0x3d23_d70a) == 42949672,
{
    vstd::arithmetic::power2::lemma2_to64();
    lemma_weight(0x3f59_999a, 6, 64);
    lemma_weight(0x3dcc_cccd, 3, 8);
    lemma_weight(0x3f66_6666, 6, 64);
    lemma_weight(0x3f75_c28f, 6, 64);
    lemma_weight(0x3f73_3333, 6, 64);
    lemma_weight(0x3d23_d70a, 2, 4);
}

/// Warm off-white with a soft highlight and a hint of reflection: index `1.0`,
/// weights `[0.85, 0.04, 0.1, 0.0]`, colour `(0.85, 0.85, 0.75)`, exponent
/// `50.0`.
pub fn ivory() -> (material: Material)
    ensures
        material == (Material {
            refractive_index: ONE,
            albedo: [0x3f59_999au32, 0x3d23_d70au32, 0x3dcc_cccdu32, ZERO],
            diffuse_color: Vec3 { x: 0x3f59_999au32, y: 0x3f59_999au32, z: 0x3f40_0000u32 },
            specular_exponent: 0x4248_0000u32,
        }),
        material.conserves_energy(),
{
    proof {
        lemma_stock_weights();
    }
    Material {
        refractive_index: ONE,
        albedo: [0x3f59_999au32, 0x3d23_d70au32, 0x3dcc_cccdu32, ZERO],
        diffuse_color: Vec3 { x: 0x3f59_999au32, y: 0x3f59_999au32, z: 0x3f40_0000u32 },
        specular_exponent: 0x4248_0000u32,
    }
}

/// Clear glass; how its reflection and refraction split rests on the angle:
/// index `1.5`, weights `[0.0, 0.04, 0.1, 0.85]`, colour `(0.95, 0.97, 1.0)`,
/// exponent `300.0`.
pub fn glass() -> (material: Material)
    ensures
        material == (Material {
            refractive_index: 0x3fc0_0000u32,
            albedo: [ZERO, 0x3d23_d70au32, 0x3dcc_cccdu32, 0x3f59_999au32],
            diffuse_color: Vec3 { x: 0x3f73_3333u32, y: 0x3f78_51ecu32, z: ONE },
            specular_exponent: 0x4396_0000u32,
        }),
        material.conserves_energy(),
{
    proof {
        lemma_stock_weights();
    }
    Material {
        refractive_index: 0x3fc0_0000u32,
        albedo: [ZERO, 0x3d23_d70au32, 0x3dcc_cccdu32, 0x3f59_999au32],
        diffuse_color: Vec3 { x: 0x3f73_3333u32, y: 0x3f78_51ecu32, z: ONE },
        specular_exponent: 0x4396_0000u32,
    }
}

/// Saturated red rubber: index `1.0`, weights `[0.9, 0.04, 0.0, 0.0]`, colour
/// `(0.65, 0.2, 0.2)`, exponent `10.0`.
pub fn red_rubber() -> (material: Material)
    ensures
        material == (Material {
            refractive_index: ONE,
            albedo: [0x3f66_6666u32, 0x3d23_d70au32, ZERO, ZERO],
            diffuse_color: Vec3 { x: 0x3f26_6666u32, y: 0x3e4c_cccdu32, z: 0x3e4c_cccdu32 },
            specular_exponent: 0x4120_0000u32,
        }),
        material.conserves_energy(),
{
    proof {
        lemma_stock_weights();
    }
    Material {
        refractive_index: ONE,
        albedo: [0x3f66_6666u32, 0x3d23_d70au32, ZERO, ZERO],
        diffuse_color: Vec3 { x: 0x3f26_6666u32, y: 0x3e4c_cccdu32, z: 0x3e4c_cccdu32 },
        specular_exponent: 0x4120_0000u32,
    }
}

/// Near-perfect metallic mirror: index `1.0`, weights `[0.0, 0.04, 0.96, 0.0]`,
/// colour `(1.0, 1.0, 1.0)`, exponent `1500.0`.
pub fn mirror() -> (material: Material)
    ensures
        material == (Material {
            refractive_index: ONE,
            albedo: [ZERO, 0x3d23_d70au32, 0x3f75_c28fu32, ZERO],
            diffuse_color: Vec3 { x: ONE, y: ONE, z: ONE },
            specular_exponent: 0x44bb_8000u32,
        }),
        material.conserves_energy(),
{
    proof {
        lemma_stock_weights();
    }
    Material {
        refractive_index: ONE,
        albedo: [ZERO, 0x3d23_d70au32, 0x3f75_c28fu32, ZERO],
        diffuse_color: Vec3 { x: ONE, y: ONE, z: ONE },
        specular_exponent: 0x44bb_8000u32,
    }
}

/// Matte white: index `1.0`, weights `[0.95, 0.04, 0.0, 0.0]`, colour `(0.85,
/// 0.85, 0.85)`, exponent `20.0`.
pub fn matte_white() -> (material: Material)
    ensures
        material == (Material {
            refractive_index: ONE,
            albedo: [0x3f73_3333u32, 0x3d23_d70au32, ZERO, ZERO],
            diffuse_color: Vec3 { x: 0x3f59_999au32, y: 0x3f59_999au32, z: 0x3f59_999au32 },
            specular_exponent: 0x41a0_0000u32,
        }),
        material.conserves_energy(),
{
    proof {
        lemma_stock_weights();
    }
    Material {
        refractive_index: ONE,
        albedo: [0x3f73_3333u32, 0x3d23_d70au32, ZERO, ZERO],
        diffuse_color: Vec3 { x: 0x3f59_999au32, y: 0x3f59_999au32, z: 0x3f59_999au32 },
        specular_exponent: 0x41a0_0000u32,
    }
}

/// Matte red: index `1.0`, weights `[0.95, 0.04, 0.0, 0.0]`, colour `(0.85,
/// 0.2, 0.2)`, exponent `20.0`.
pub fn matte_red() -> (material: Material)
    ensures
        material == (Material {
            refractive_index: ONE,
            albedo: [0x3f73_3333u32, 0x3d23_d70au32, ZERO, ZERO],
            diffuse_color: Vec3 { x: 0x3f59_999au32, y: 0x3e4c_cccdu32, z: 0x3e4c_cccdu32 },
            specular_exponent: 0x41a0_0000u32,
        }),
        material.conserves_energy(),
{
    proof {
        lemma_stock_weights();
    }
    Material {
        refractive_index: ONE,
        albedo: [0x3f73_3333u32, 0x3d23_d70au32, ZERO, ZERO],
        diffuse_color: Vec3 { x: 0x3f59_999au32, y: 0x3e4c_cccdu32, z: 0x3e4c_cccdu32 },
        specular_exponent: 0x41a0_0000u32,
    }
}

/// Matte blue: index `1.0`, weights `[0.95, 0.04, 0.0, 0.0]`, colour `(0.2,
/// 0.3, 0.85)`, exponent `20.0`.
pub fn matte_blue() -> (material: Material)
    ensures
        material == (Material {
            refractive_index: ONE,
            albedo: [0x3f73_3333u32, 0x3d23_d70au32, ZERO, ZERO],
            diffuse_color: Vec3 { x: 0x3e4c_cccdu32, y: 0x3e99_999au32, z: 0x3f59_999au32 },
            specular_exponent: 0x41a0_0000u32,
        }),
        material.conserves_energy(),
{
    proof {
        lemma_stock_weights();
    }
    Material {
        refractive_index: ONE,
        albedo: [0x3f73_3333u32, 0x3d23_d70au32, ZERO, ZERO],
        diffuse_color: Vec3 { x: 0x3e4c_cccdu32, y: 0x3e99_999au32, z: 0x3f59_999au32 },
        specular_exponent: 0x41a0_0000u32,
    }
}

/// Matte green: index `1.0`, weights `[0.95, 0.04, 0.0, 0.0]`, colour `(0.2,
/// 0.85, 0.3)`, exponent `20.0`.
pub fn matte_green() -> (material: Material)
    ensures
        material == (Material {
            refractive_index: ONE,
            albedo: [0x3f73_3333u32, 0x3d23_d70au32, ZERO, ZERO],
            diffuse_color: Vec3 { x: 0x3e4c_cccdu32, y: 0x3f59_999au32, z: 0x3e99_999au32 },
            specular_exponent: 0x41a0_0000u32,
        }),
        material.conserves_energy(),
{
    proof {
        lemma_stock_weights();
    }
    Material {
        refractive_index: ONE,
        albedo: [0x3f73_3333u32, 0x3d23_d70au32, ZERO, ZERO],
        diffuse_color: Vec3 { x: 0x3e4c_cccdu32, y: 0x3f59_999au32, z: 0x3e99_999au32 },
        specular_exponent: 0x41a0_0000u32,
    }
}

} // verus!
