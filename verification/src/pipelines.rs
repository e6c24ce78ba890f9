//! The compute passes of training and viewing: what each binds, how many
//! workgroups cover its work, the parameter words it reads, and how large its
//! buffers are.
use vstd::prelude::*;

use crate::adam::AdamConfig;
use crate::dispatch::{group_count, group_count_min_one};
#[allow(unused_imports)]
use crate::dispatch::{groups_for, lemma_groups_cover};
use crate::splat_gpu::SH_REST_PADDED;
use crate::tile_binner::TilingParams;

verus! {

/// What a binding of a compute pass is.
#[derive(Clone, Copy, Debug, PartialEq, Eq, Structural)]
pub enum Binding {
    /// The pass's parameters.
    Uniform,
    /// A buffer that the pass only reads.
    ReadOnly,
    /// A buffer that the pass writes.
    ReadWrite,
    /// An 8-bit RGBA texture that the pass writes.
    WriteTexture,
}

/// A compute pass.
#[derive(Clone, Copy, Debug, PartialEq, Eq, Structural)]
pub enum Pass {
    ScanBlock,
    AddOffsets,
    Predicate,
    Total,
    Scatter,
    CountTiles,
    EmitPairs,
    TileRanges,
    AdamStep,
    Constraints,
    AccumulateGrad,
    Project,
    Composite,
    CompositeBackward,
    ProjectBackward,
    Tonemap,
}

impl Pass {
    /// The bindings of a pass, in binding order.
    pub open spec fn bindings(self) -> Seq<Binding> {
        let u = Binding::Uniform;
        let r = Binding::ReadOnly;
        let w = Binding::ReadWrite;
        match self {
            Pass::ScanBlock => seq![w, w, u],
            Pass::AddOffsets => seq![w, r, u],
            Pass::Predicate => seq![r, w, u],
            Pass::Total => seq![r, r, w, u],
            Pass::Scatter => seq![r, r, w, w, r, r, u],
            Pass::CountTiles => seq![r, w, w, u],
            Pass::EmitPairs => seq![r, r, w, w, u],
            Pass::TileRanges => seq![r, w, u],
            Pass::AdamStep => seq![w, r, w, w, u],
            Pass::Constraints => seq![w, w, w, u],
            Pass::AccumulateGrad => seq![r, w, u],
            Pass::Project => seq![u, r, r, r, r, r, r, w],
            Pass::Composite => seq![r, r, r, w, u],
            Pass::CompositeBackward => seq![r, r, r, r, r, w, u],
            Pass::ProjectBackward => seq![u, r, r, r, r, r, r, r, w, w, w, w, w, w],
            Pass::Tonemap => seq![r, Binding::WriteTexture, u],
        }
    }

    /// The bindings of the pass, in binding order.
    pub fn layout(self) -> (layout: Vec<Binding>)
        ensures
            layout@ == self.bindings(),
    {
        let u: Binding = Binding::Uniform;
        let r: Binding = Binding::ReadOnly;
        let w: Binding = Binding::ReadWrite;
        let layout: Vec<Binding> = match self {
            Pass::ScanBlock => vec![w, w, u],
            Pass::AddOffsets => vec![w, r, u],
            Pass::Predicate => vec![r, w, u],
            Pass::Total => vec![r, r, w, u],
            Pass::Scatter => vec![r, r, w, w, r, r, u],
            Pass::CountTiles => vec![r, w, w, u],
            Pass::EmitPairs => vec![r, r, w, w, u],
            Pass::TileRanges => vec![r, w, u],
            Pass::AdamStep => vec![w, r, w, w, u],
            Pass::Constraints => vec![w, w, w, u],
            Pass::AccumulateGrad => vec![r, w, u],
            Pass::Project => vec![u, r, r, r, r, r, r, w],
            Pass::Composite => vec![r, r, r, w, u],
            Pass::CompositeBackward => vec![r, r, r, r, r, w, u],
            Pass::ProjectBackward => vec![u, r, r, r, r, r, r, r, w, w, w, w, w, w],
            Pass::Tonemap => vec![r, Binding::WriteTexture, u],
        };
        assert(layout@ =~= self.bindings());
        layout
    }

    /// Lanes per workgroup of a pass with one lane per item.
    pub open spec fn group_size(self) -> int {
        match self {
            Pass::Constraints | Pass::AccumulateGrad | Pass::Project | Pass::ProjectBackward => 64,
            _ => 256,
        }
    }

    /// Whether a pass without items still runs one workgroup.
    pub open spec fn runs_empty(self) -> bool {
        match self {
            Pass::AdamStep
            | Pass::Constraints
            | Pass::AccumulateGrad
            | Pass::Project
            | Pass::ProjectBackward => true,
            _ => false,
        }
    }

    /// The workgroups that a pass with one lane per item runs for `lanes` items.
    pub open spec fn lane_groups(self, lanes: int) -> int {
        if lanes == 0 && self.runs_empty() {
            1
        } else {
            groups_for(lanes, self.group_size())
        }
    }

    /// The workgroups for `lanes` items.
    pub fn groups(self, lanes: u32) -> (groups: u32)
        ensures
            groups == self.lane_groups(lanes as int),
    {
        match self {
            Pass::Constraints | Pass::AccumulateGrad | Pass::Project | Pass::ProjectBackward =>
                group_count_min_one(lanes, 64),
            Pass::AdamStep => group_count_min_one(lanes, 256),
            _ => group_count(lanes, 256),
        }
    }
}

/// The workgroups of a pass reach every item, and no workgroup is without one
/// unless the pass has no items at all.
pub proof fn law_groups_reach_every_item(pass: Pass, lanes: int)
    requires
        lanes >= 0,
    ensures
        lanes <= pass.lane_groups(lanes) * pass.group_size(),
        lanes > 0 ==> (pass.lane_groups(lanes) - 1) * pass.group_size() < lanes,
{
    lemma_groups_cover(lanes, pass.group_size());
    let g = pass.lane_groups(lanes);
    let s = pass.group_size();
    assert((g - 1) * s == g * s - s) by (nonlinear_arith);
}

/// A per-splat attribute of the device buffers.
#[derive(Clone, Copy, Debug, PartialEq, Eq, Structural)]
pub enum Attribute {
    Positions,
    Rotations,
    Scales,
    Opacities,
    ShDc,
    ShRest,
}

impl Attribute {
    /// Words per splat, padding included.
    pub open spec fn words(self) -> int {
        match self {
            Attribute::Opacities => 1,
            Attribute::ShRest => 48,
            _ => 4,
        }
    }
}

/// One optimiser step over an attribute.
#[derive(Clone, Copy, Debug, PartialEq, Eq, Structural)]
pub struct AttributeStep {
    pub attribute: Attribute,
    /// Words that the step covers.
    pub lanes: u32,
    pub config: AdamConfig,
}

/// The attributes in stepping order.
pub open spec fn stepping_order() -> Seq<Attribute> {
    seq![
        Attribute::Positions,
        Attribute::Rotations,
        Attribute::Scales,
        Attribute::Opacities,
        Attribute::ShDc,
        Attribute::ShRest,
    ]
}

/// The steps of one iteration over `n` splats. Positions follow their own
/// configuration and all else the shared one; each step covers the whole of
/// its buffer.
pub fn step_all(n: u32, cfg_pos: &AdamConfig, cfg_attr: &AdamConfig) -> (steps: Vec<AttributeStep>)
    requires
        n * 48 <= u32::MAX,
    ensures
        steps@ == stepping_order().map_values(
            |a: Attribute|
                AttributeStep {
                    attribute: a,
                    lanes: (n * a.words()) as u32,
                    config: if a is Positions {
                        *cfg_pos
                    } else {
                        *cfg_attr
                    },
                },
        ),
        steps.len() == 6,
        steps@[0] == (AttributeStep {
            attribute: Attribute::Positions,
            lanes: (4 * n) as u32,
            config: *cfg_pos,
        }),
        steps@[1] == (AttributeStep {
            attribute: Attribute::Rotations,
            lanes: (4 * n) as u32,
            config: *cfg_attr,
        }),
        steps@[2] == (AttributeStep {
            attribute: Attribute::Scales,
            lanes: (4 * n) as u32,
            config: *cfg_attr,
        }),
        steps@[3] == (AttributeStep {
            attribute: Attribute::Opacities,
            lanes: n,
            config: *cfg_attr,
        }),
        steps@[4] == (AttributeStep {
            attribute: Attribute::ShDc,
            lanes: (4 * n) as u32,
            config: *cfg_attr,
        }),
        steps@[5] == (AttributeStep {
            attribute: Attribute::ShRest,
            lanes: (48 * n) as u32,
            config: *cfg_attr,
        }),
{
    let n4: u32 = n * 4;
    let n_rest: u32 = n * SH_REST_PADDED as u32;
    let mut steps: Vec<AttributeStep> = Vec::new();
    steps.push(AttributeStep { attribute: Attribute::Positions, lanes: n4, config: *cfg_pos });
    steps.push(AttributeStep { attribute: Attribute::Rotations, lanes: n4, config: *cfg_attr });
    steps.push(AttributeStep { attribute: Attribute::Scales, lanes: n4, config: *cfg_attr });
    steps.push(AttributeStep { attribute: Attribute::Opacities, lanes: n, config: *cfg_attr });
    steps.push(AttributeStep { attribute: Attribute::ShDc, lanes: n4, config: *cfg_attr });
    steps.push(AttributeStep { attribute: Attribute::ShRest, lanes: n_rest, config: *cfg_attr });
    assert(steps@ =~= stepping_order().map_values(
        |a: Attribute|
            AttributeStep {
                attribute: a,
                lanes: (n * a.words()) as u32,
                config: if a is Positions {
                    *cfg_pos
                } else {
                    *cfg_attr
                },
            },
    ));
    steps
}

/// The parameter block of an optimiser step.
pub open spec fn adam_block(config: AdamConfig, bc1: u32, bc2: u32, lanes: u32) -> Seq<u32> {
    seq![config.lr, config.beta1, config.beta2, config.eps, bc1, bc2, lanes, 0]
}

/// The parameter block of the pass that keeps splats physical.
pub open spec fn constraint_block(n: u32, low: u32, high: u32, opacity: u32) -> Seq<u32> {
    seq![n, 0, 0, 0, low, high, opacity, 0]
}

/// The parameter block of the pass that counts tiles.
pub open spec fn tile_count_block(n: u32, tiling: TilingParams) -> Seq<u32> {
    seq![n, tiling.tile_size, tiling.columns() as u32, tiling.rows() as u32]
}

/// The parameter block of the pass that emits pairs.
pub open spec fn emit_block(n: u32, tiling: TilingParams) -> Seq<u32> {
    tile_count_block(n, tiling) + seq![tiling.depth_max, 0, 0, 0]
}

/// The parameter block of the compositing passes.
pub open spec fn composite_block(tiling: TilingParams) -> Seq<u32> {
    seq![tiling.width, tiling.height, tiling.tile_size, tiling.columns() as u32]
}

/// The parameter block of a pass with two parameters, the second zero where it
/// has one.
pub open spec fn pair_block(first: u32, second: u32) -> Seq<u32> {
    seq![first, second, 0, 0]
}

/// Parameters of one optimiser step. `bc1` and `bc2` are the bias
/// corrections of the two moments.
pub fn adam_params(config: &AdamConfig, bc1: u32, bc2: u32, lanes: u32) -> (words: [u32; 8])
    ensures
        words@ == seq![
            config.lr,
            config.beta1,
            config.beta2,
            config.eps,
            bc1,
            bc2,
            lanes,
            0,
        ],
        words@ == adam_block(*config, bc1, bc2, lanes),
{
    let words: [u32; 8] = [
        config.lr,
        config.beta1,
        config.beta2,
        config.eps,
        bc1,
        bc2,
        lanes,
        0,
    ];
    assert(words@ =~= seq![
        config.lr,
        config.beta1,
        config.beta2,
        config.eps,
        bc1,
        bc2,
        lanes,
        0,
    ]);
    words
}

/// Parameters of the pass that keeps splats physical.
pub fn constraint_params(
    n: u32,
    log_scale_min: u32,
    log_scale_max: u32,
    opacity_logit_max: u32,
) -> (words: [u32; 8])
    ensures
        words@ == seq![n, 0, 0, 0, log_scale_min, log_scale_max, opacity_logit_max, 0],
        words@ == constraint_block(n, log_scale_min, log_scale_max, opacity_logit_max),
{
    let words: [u32; 8] = [n, 0, 0, 0, log_scale_min, log_scale_max, opacity_logit_max, 0];
    assert(words@ =~= seq![n, 0, 0, 0, log_scale_min, log_scale_max, opacity_logit_max, 0]);
    words
}

/// Parameters of a pass over `n` items.
pub fn count_params(n: u32) -> (words: [u32; 4])
    ensures
        words@ == seq![n, 0, 0, 0],
        words@ == pair_block(n, 0),
{
    let words: [u32; 4] = [n, 0, 0, 0];
    assert(words@ =~= seq![n, 0, 0, 0]);
    words
}

/// Parameters of the passes that sort `n` pairs on bit `bit`.
pub fn sort_params(n: u32, bit: u32) -> (words: [u32; 4])
    ensures
        words@ == seq![n, bit, 0, 0],
        words@ == pair_block(n, bit),
{
    let words: [u32; 4] = [n, bit, 0, 0];
    assert(words@ =~= seq![n, bit, 0, 0]);
    words
}

/// Parameters of the pass that counts the tiles of `n` splats.
pub fn tile_count_params(n: u32, tiling: &TilingParams) -> (words: [u32; 4])
    requires
        tiling.tile_size > 0,
    ensures
        words@ == seq![n, tiling.tile_size, tiling.columns() as u32, tiling.rows() as u32],
        words@ == tile_count_block(n, *tiling),
{
    let words: [u32; 4] = [n, tiling.tile_size, tiling.tiles_x(), tiling.tiles_y()];
    assert(words@ =~= seq![
        n,
        tiling.tile_size,
        tiling.columns() as u32,
        tiling.rows() as u32,
    ]);
    words
}

/// Parameters of the pass that emits the pairs of `n` splats.
pub fn emit_params(n: u32, tiling: &TilingParams) -> (words: [u32; 8])
    requires
        tiling.tile_size > 0,
    ensures
        words@ == seq![
            n,
            tiling.tile_size,
            tiling.columns() as u32,
            tiling.rows() as u32,
            tiling.depth_max,
            0,
            0,
            0,
        ],
        words@ == emit_block(n, *tiling),
{
    let words: [u32; 8] = [
        n,
        tiling.tile_size,
        tiling.tiles_x(),
        tiling.tiles_y(),
        tiling.depth_max,
        0,
        0,
        0,
    ];
    assert(words@ =~= seq![
        n,
        tiling.tile_size,
        tiling.columns() as u32,
        tiling.rows() as u32,
        tiling.depth_max,
        0,
        0,
        0,
    ]);
    words
}

/// Parameters of the pass that records the runs of `num_tiles` tiles among
/// `total_pairs` sorted pairs.
pub fn ranges_params(total_pairs: u32, num_tiles: u32) -> (words: [u32; 4])
    ensures
        words@ == seq![total_pairs, num_tiles, 0, 0],
        words@ == pair_block(total_pairs, num_tiles),
{
    let words: [u32; 4] = [total_pairs, num_tiles, 0, 0];
    assert(words@ =~= seq![total_pairs, num_tiles, 0, 0]);
    words
}

/// Parameters of the compositing passes, and their workgroups: one per tile.
pub fn composite_params(tiling: &TilingParams) -> (r: ([u32; 4], (u32, u32)))
    requires
        tiling.tile_size > 0,
    ensures
        r.0@ == seq![tiling.width, tiling.height, tiling.tile_size, tiling.columns() as u32],
        r.1.0 == tiling.columns(),
        r.1.1 == tiling.rows(),
        r.0@ == composite_block(*tiling),
{
    let tiles_x: u32 = tiling.tiles_x();
    let tiles_y: u32 = tiling.tiles_y();
    let words: [u32; 4] = [tiling.width, tiling.height, tiling.tile_size, tiles_x];
    assert(words@ =~= seq![
        tiling.width,
        tiling.height,
        tiling.tile_size,
        tiling.columns() as u32,
    ]);
    (words, (tiles_x, tiles_y))
}

/// Parameters of the tone mapper, and its workgroups of sixteen by sixteen
/// pixels.
pub fn tonemap_params(width: u32, height: u32) -> (r: ([u32; 4], (u32, u32)))
    ensures
        r.0@ == seq![width, height, 0, 0],
        r.1.0 == groups_for(width as int, 16),
        r.1.1 == groups_for(height as int, 16),
        r.0@ == pair_block(width, height),
{
    let words: [u32; 4] = [width, height, 0, 0];
    assert(words@ =~= seq![width, height, 0, 0]);
    (words, (group_count(width, 16), group_count(height, 16)))
}

/// Bytes of a composited image: four floats per pixel.
pub fn image_bytes(width: u32, height: u32) -> (bytes: u64)
    requires
        width * height * 16 <= u64::MAX,
    ensures
        bytes == width * height * 16,
{
    proof {
        assert(0 <= width * height) by (nonlinear_arith)
            requires
                0 <= width,
                0 <= height,
        ;
    }
    (width as u64) * (height as u64) * 16
}

/// Bytes of a projected splat, and of its gradient.
pub const PROJECTED_BYTES: u64 = 48;

/// Bytes of a buffer of projected splats or of their gradients; without splats
/// it still holds one.
pub fn projected_bytes(n: u32) -> (bytes: u64)
    ensures
        bytes == (if n == 0 { 1int } else { n as int }) * 48,
{
    let m: u64 = if n == 0 { 1 } else { n as u64 };
    m * PROJECTED_BYTES
}

/// What each pass writes and where its parameters are. A pass has one uniform
/// binding, which is its last one, but for the two projections, where it is
/// the first. Only the tone mapper writes a texture. The buffers that a pass
/// writes stand at fixed bindings; all others it only reads.
pub proof fn law_pass_bindings(pass: Pass, i: int)
    requires
        0 <= i < pass.bindings().len(),
    ensures
        pass.bindings().len() == (match pass {
                Pass::ScanBlock => 3int,
                Pass::AddOffsets => 3int,
                Pass::Predicate => 3int,
                Pass::Total => 4int,
                Pass::Scatter => 7int,
                Pass::CountTiles => 4int,
                Pass::EmitPairs => 5int,
                Pass::TileRanges => 3int,
                Pass::AdamStep => 5int,
                Pass::Constraints => 4int,
                Pass::AccumulateGrad => 3int,
                Pass::Project => 8int,
                Pass::Composite => 5int,
                Pass::CompositeBackward => 7int,
                Pass::ProjectBackward => 14int,
                Pass::Tonemap => 3int,
            }),
        pass.bindings()[i] is Uniform <==> i == if pass is Project || pass is ProjectBackward {
            0
        } else {
            pass.bindings().len() - 1
        },
        pass.bindings()[i] is WriteTexture <==> pass is Tonemap && i == 1,
        pass.bindings()[i] is ReadWrite <==> (match pass {
                Pass::ScanBlock => 0 <= i <= 1,
                Pass::AddOffsets => i == 0,
                Pass::Predicate => i == 1,
                Pass::Total => i == 2,
                Pass::Scatter => 2 <= i <= 3,
                Pass::CountTiles => 1 <= i <= 2,
                Pass::EmitPairs => 2 <= i <= 3,
                Pass::TileRanges => i == 1,
                Pass::AdamStep => i == 0 || 2 <= i <= 3,
                Pass::Constraints => 0 <= i <= 2,
                Pass::AccumulateGrad => i == 1,
                Pass::Project => i == 7,
                Pass::Composite => i == 3,
                Pass::CompositeBackward => i == 5,
                Pass::ProjectBackward => 8 <= i <= 13,
                Pass::Tonemap => false,
            }),
{
}

/// A pass covers its items with workgroups of 64 lanes where it works on whole
/// splats and of 256 otherwise. Without items the passes of the optimiser and
/// the two projections still run one workgroup, and the others none.
pub proof fn law_pass_groups(pass: Pass, full: int)
    requires
        full > 0,
    ensures
        ({
            let size: int = if pass is Constraints || pass is AccumulateGrad || pass is Project
                || pass is ProjectBackward {
                64
            } else {
                256
            };
            &&& pass.lane_groups(size * full) == full
            &&& pass.lane_groups(size * full + 1) == full + 1
            &&& pass.lane_groups(size * full - 1) == full
        }),
        pass.lane_groups(0) == if pass is AdamStep || pass is Constraints || pass
            is AccumulateGrad || pass is Project || pass is ProjectBackward {
            1int
        } else {
            0int
        },
{
}

/// The optimiser steps through every attribute once, in this order, and each
/// step covers the attribute's padded words: four per splat, but one for
/// opacities and 48 for the higher coefficients.
pub proof fn law_steps_cover_every_attribute(a: Attribute)
    ensures
        stepping_order().len() == 6,
        stepping_order()[0] is Positions && Attribute::Positions.words() == 4,
        stepping_order()[1] is Rotations && Attribute::Rotations.words() == 4,
        stepping_order()[2] is Scales && Attribute::Scales.words() == 4,
        stepping_order()[3] is Opacities && Attribute::Opacities.words() == 1,
        stepping_order()[4] is ShDc && Attribute::ShDc.words() == 4,
        stepping_order()[5] is ShRest && Attribute::ShRest.words() == 48,
        stepping_order().contains(a),
{
    let order = stepping_order();
    let i: int = match a {
        Attribute::Positions => 0,
        Attribute::Rotations => 1,
        Attribute::Scales => 2,
        Attribute::Opacities => 3,
        Attribute::ShDc => 4,
        Attribute::ShRest => 5,
    };
    assert(order[i] == a);
}

/// Word by word, an optimiser step reads the learning rate, the two decay rates
/// and the epsilon of its configuration, the bias corrections of the first and
/// of the second moment, and the number of words that it covers.
pub proof fn law_adam_words(config: AdamConfig, bc1: u32, bc2: u32, lanes: u32)
    ensures
        adam_block(config, bc1, bc2, lanes).len() == 8,
        adam_block(config, bc1, bc2, lanes)[0] == config.lr,
        adam_block(config, bc1, bc2, lanes)[1] == config.beta1,
        adam_block(config, bc1, bc2, lanes)[2] == config.beta2,
        adam_block(config, bc1, bc2, lanes)[3] == config.eps,
        adam_block(config, bc1, bc2, lanes)[4] == bc1,
        adam_block(config, bc1, bc2, lanes)[5] == bc2,
        adam_block(config, bc1, bc2, lanes)[6] == lanes,
        adam_block(config, bc1, bc2, lanes)[7] == 0,
{
}

/// Word by word, the pass that keeps splats physical reads the number of
/// splats in the first quadruple and its three bounds in the second: least and
/// greatest log scale, greatest opacity.
pub proof fn law_constraint_words(n: u32, low: u32, high: u32, opacity: u32)
    ensures
        constraint_block(n, low, high, opacity).len() == 8,
        constraint_block(n, low, high, opacity)[0] == n,
        forall|i: int| 1 <= i < 4 ==> #[trigger] constraint_block(n, low, high, opacity)[i] == 0,
        constraint_block(n, low, high, opacity)[4] == low,
        constraint_block(n, low, high, opacity)[5] == high,
        constraint_block(n, low, high, opacity)[6] == opacity,
        constraint_block(n, low, high, opacity)[7] == 0,
{
}

/// Word by word, the tile passes read the number of splats, the side of a tile,
/// the tiles per row and per column, and the emitting one the depth limit too.
/// The compositing passes read the image's width and height, the side of a tile
/// and the tiles per row. The other passes read one or two counts, in order.
pub proof fn law_tile_pass_words(n: u32, tiling: TilingParams, second: u32)
    requires
        tiling.tile_size > 0,
    ensures
        tile_count_block(n, tiling).len() == 4,
        tile_count_block(n, tiling)[0] == n,
        tile_count_block(n, tiling)[1] == tiling.tile_size,
        tile_count_block(n, tiling)[2] == tiling.columns(),
        tile_count_block(n, tiling)[3] == tiling.rows(),
        emit_block(n, tiling).len() == 8,
        emit_block(n, tiling)[0] == n,
        emit_block(n, tiling)[1] == tiling.tile_size,
        emit_block(n, tiling)[2] == tiling.columns(),
        emit_block(n, tiling)[3] == tiling.rows(),
        emit_block(n, tiling)[4] == tiling.depth_max,
        forall|i: int| 5 <= i < 8 ==> #[trigger] emit_block(n, tiling)[i] == 0,
        composite_block(tiling).len() == 4,
        composite_block(tiling)[0] == tiling.width,
        composite_block(tiling)[1] == tiling.height,
        composite_block(tiling)[2] == tiling.tile_size,
        composite_block(tiling)[3] == tiling.columns(),
        pair_block(n, second).len() == 4,
        pair_block(n, second)[0] == n,
        pair_block(n, second)[1] == second,
        pair_block(n, second)[2] == 0,
        pair_block(n, second)[3] == 0,
{
    lemma_groups_cover(tiling.width as int, tiling.tile_size as int);
    lemma_groups_cover(tiling.height as int, tiling.tile_size as int);
}

} // verus!
