//! What the training loss decides before any arithmetic on pixels: which
//! terms count, which pixels a blur window touches, and how images split into
//! channels.
use vstd::prelude::*;

use crate::float_bits::{less_or_equal, Vec3, ONE, ZERO};
#[allow(unused_imports)]
use crate::float_bits::{is_nan, le, lt};

verus! {

/// Taps of the blur window along one axis.
pub const SSIM_WINDOW_SIZE: usize = 11;

/// Taps on either side of the window's centre.
pub const SSIM_RADIUS: usize = 5;

/// Position `i` folded back into `0..n` by mirroring at the first and the last
/// pixel, neither of which is repeated.
pub open spec fn reflected(i: int, n: int) -> int {
    if n == 1 {
        0
    } else {
        let x = i % (2 * (n - 1));
        if x >= n {
            2 * (n - 1) - x
        } else {
            x
        }
    }
}

/// Positions in range stay where they are.
pub proof fn law_reflection_keeps_range(i: int, n: int)
    requires
        0 <= i < n,
    ensures
        reflected(i, n) == i,
{
    if n > 1 {
        vstd::arithmetic::div_mod::lemma_small_mod(i as nat, (2 * (n - 1)) as nat);
    }
}

/// Every position lands in range.
pub proof fn law_reflection_lands_in_range(i: int, n: int)
    requires
        n >= 1,
    ensures
        0 <= reflected(i, n) < n,
{
    if n > 1 {
        vstd::arithmetic::div_mod::lemma_mod_bound(i, 2 * (n - 1));
    }
}

/// Reflection mirrors at the first and at the last pixel.
pub proof fn law_reflection_mirrors(i: int, n: int)
    requires
        n >= 1,
    ensures
        reflected(-i, n) == reflected(i, n),
        reflected(n - 1 + i, n) == reflected(n - 1 - i, n),
{
    if n > 1 {
        let p = 2 * (n - 1);
        lemma_negated_remainder(i, p);
        lemma_negated_remainder(n - 1 - i, p);
        vstd::arithmetic::div_mod::lemma_mod_add_multiples_vanish(-(n - 1 - i), p);
        assert(p + -(n - 1 - i) == n - 1 + i);
        assert((n - 1 + i) % p == (-(n - 1 - i)) % p);
    }
}

proof fn lemma_negated_remainder(i: int, p: int)
    requires
        p > 0,
    ensures
        (-i) % p == if i % p == 0 {
            0
        } else {
            p - i % p
        },
{
    let q = i / p;
    let r = i % p;
    vstd::arithmetic::div_mod::lemma_fundamental_div_mod(i, p);
    vstd::arithmetic::div_mod::lemma_mod_bound(i, p);
    if r == 0 {
        assert(-i == p * (-q) + 0) by (nonlinear_arith)
            requires
                i == p * q + 0,
        ;
        vstd::arithmetic::div_mod::lemma_fundamental_div_mod_converse(-i, p, -q, 0);
    } else {
        assert(-i == p * (-q - 1) + (p - r)) by (nonlinear_arith)
            requires
                i == p * q + r,
        ;
        vstd::arithmetic::div_mod::lemma_fundamental_div_mod_converse(-i, p, -q - 1, p - r);
    }
}

/// Folds a position back into `0..n`.
pub fn reflect_index(i: i32, n: i32) -> (index: usize)
    requires
        1 <= n,
        2 * (n - 1) <= i32::MAX,
    ensures
        index == reflected(i as int, n as int),
        index < n,
{
    proof {
        law_reflection_lands_in_range(i as int, n as int);
    }
    if n == 1 {
        return 0;
    }
    let period: i32 = 2 * (n - 1);
    let x: i32 = match i.checked_rem_euclid(period) {
        Some(x) => x,
        None => 0,
    };
    if x >= n {
        (period - x) as usize
    } else {
        x as usize
    }
}

/// The pixel under tap `k` of the window around pixel `x`.
pub open spec fn tap(x: int, k: int, n: int) -> int {
    reflected(x + k - SSIM_RADIUS, n)
}

/// A window seen from the other end of the line touches the mirrored pixels in
/// the opposite order.
pub proof fn law_taps_are_symmetric(x: int, k: int, n: int)
    requires
        n >= 1,
    ensures
        tap(n - 1 - x, SSIM_WINDOW_SIZE - 1 - k, n) == n - 1 - tap(x, k, n),
{
    let i = x + k - SSIM_RADIUS;
    assert((n - 1 - x) + (SSIM_WINDOW_SIZE - 1 - k) - SSIM_RADIUS == n - 1 - i);
    if n > 1 {
        let p = 2 * (n - 1);
        let r = i % p;
        vstd::arithmetic::div_mod::lemma_fundamental_div_mod(i, p);
        vstd::arithmetic::div_mod::lemma_mod_bound(i, p);
        let q = i / p;
        if r <= n - 1 {
            assert(n - 1 - i == p * (-q) + (n - 1 - r)) by (nonlinear_arith)
                requires
                    i == p * q + r,
            ;
            vstd::arithmetic::div_mod::lemma_fundamental_div_mod_converse(
                n - 1 - i,
                p,
                -q,
                n - 1 - r,
            );
        } else {
            assert(n - 1 - i == p * (-q - 1) + (n - 1 - r + p)) by (nonlinear_arith)
                requires
                    i == p * q + r,
            ;
            vstd::arithmetic::div_mod::lemma_fundamental_div_mod_converse(
                n - 1 - i,
                p,
                -q - 1,
                n - 1 - r + p,
            );
        }
    }
}

/// The pixels under every window along a line of `n` pixels: the taps of pixel
/// `x` stand at `x * SSIM_WINDOW_SIZE` and on. Blurring gathers from them; its
/// adjoint scatters to them.
pub fn blur_taps(n: u32) -> (taps: Vec<usize>)
    requires
        2 * (n - 1) <= i32::MAX,
        n * SSIM_WINDOW_SIZE <= usize::MAX,
    ensures
        taps.len() == n * SSIM_WINDOW_SIZE,
        forall|j: int|
            0 <= j < taps.len() ==> #[trigger] taps@[j] == tap(
                j / SSIM_WINDOW_SIZE as int,
                j % SSIM_WINDOW_SIZE as int,
                n as int,
            ),
        forall|j: int| 0 <= j < taps.len() ==> #[trigger] taps@[j] < n,
{
    let mut taps: Vec<usize> = Vec::new();
    let mut x: u32 = 0;
    while x < n
        invariant
            x <= n,
            2 * (n - 1) <= i32::MAX,
            taps.len() == x * SSIM_WINDOW_SIZE,
            forall|j: int|
                0 <= j < taps.len() ==> #[trigger] taps@[j] == tap(
                    j / SSIM_WINDOW_SIZE as int,
                    j % SSIM_WINDOW_SIZE as int,
                    n as int,
                ),
            forall|j: int| 0 <= j < taps.len() ==> #[trigger] taps@[j] < n,
        decreases n - x,
    {
        let mut k: usize = 0;
        while k < SSIM_WINDOW_SIZE
            invariant
                x < n,
                k <= SSIM_WINDOW_SIZE,
                2 * (n - 1) <= i32::MAX,
                taps.len() == x * SSIM_WINDOW_SIZE + k,
                forall|j: int|
                    0 <= j < taps.len() ==> #[trigger] taps@[j] == tap(
                        j / SSIM_WINDOW_SIZE as int,
                        j % SSIM_WINDOW_SIZE as int,
                        n as int,
                    ),
                forall|j: int| 0 <= j < taps.len() ==> #[trigger] taps@[j] < n,
            decreases SSIM_WINDOW_SIZE - k,
        {
            let index: usize = reflect_index(x as i32 + k as i32 - SSIM_RADIUS as i32, n as i32);
            proof {
                let j = x * 11 + k;
                assert(j / 11 == x && j % 11 == k);
            }
            taps.push(index);
            k = k + 1;
        }
        x = x + 1;
    }
    taps
}

/// Which terms of `(1 - lambda) * MSE + lambda * (1 - SSIM)` count.
#[derive(Clone, Copy, Debug, PartialEq, Eq, Structural)]
pub enum LossTerms {
    /// The squared error alone: the weight is zero or below.
    MseOnly,
    /// The structural similarity alone: the weight is one or above.
    SsimOnly,
    /// Both, with this weight.
    Mixed(u32),
}

/// The terms that a weight selects once it is clamped to `0.0..=1.0`. A weight
/// that is no number mixes both.
pub open spec fn terms_of(lambda: u32) -> LossTerms {
    if le(lambda, ZERO) {
        LossTerms::MseOnly
    } else if le(ONE, lambda) {
        LossTerms::SsimOnly
    } else {
        LossTerms::Mixed(lambda)
    }
}

/// The terms that a weight selects.
pub fn loss_terms(lambda: u32) -> (terms: LossTerms)
    ensures
        terms == terms_of(lambda),
{
    if less_or_equal(lambda, ZERO) {
        LossTerms::MseOnly
    } else if less_or_equal(ONE, lambda) {
        LossTerms::SsimOnly
    } else {
        LossTerms::Mixed(lambda)
    }
}

/// One plane per channel.
pub struct Channels {
    pub x: Vec<u32>,
    pub y: Vec<u32>,
    pub z: Vec<u32>,
}

impl Channels {
    /// The planes are those of an image.
    pub open spec fn planes_of(self, pixels: Seq<Vec3>) -> bool {
        &&& self.x@ == pixels.map_values(|p: Vec3| p.x)
        &&& self.y@ == pixels.map_values(|p: Vec3| p.y)
        &&& self.z@ == pixels.map_values(|p: Vec3| p.z)
    }
}

/// Splits an image into its channels.
pub fn split_channels(pixels: &[Vec3]) -> (channels: Channels)
    ensures
        channels.planes_of(pixels@),
{
    let mut x: Vec<u32> = Vec::new();
    let mut y: Vec<u32> = Vec::new();
    let mut z: Vec<u32> = Vec::new();
    let mut i: usize = 0;
    while i < pixels.len()
        invariant
            i <= pixels.len(),
            x.len() == i,
            y.len() == i,
            z.len() == i,
            forall|k: int| 0 <= k < i ==> #[trigger] x@[k] == pixels@[k].x,
            forall|k: int| 0 <= k < i ==> #[trigger] y@[k] == pixels@[k].y,
            forall|k: int| 0 <= k < i ==> #[trigger] z@[k] == pixels@[k].z,
        decreases pixels.len() - i,
    {
        let p: Vec3 = pixels[i];
        x.push(p.x);
        y.push(p.y);
        z.push(p.z);
        i = i + 1;
    }
    assert(x@ =~= pixels@.map_values(|p: Vec3| p.x));
    assert(y@ =~= pixels@.map_values(|p: Vec3| p.y));
    assert(z@ =~= pixels@.map_values(|p: Vec3| p.z));
    Channels { x, y, z }
}

/// Joins channels of one length into an image.
pub fn merge_channels(channels: &Channels) -> (pixels: Vec<Vec3>)
    requires
        channels.y.len() == channels.x.len(),
        channels.z.len() == channels.x.len(),
    ensures
        channels.planes_of(pixels@),
        pixels.len() == channels.x.len(),
{
    let mut pixels: Vec<Vec3> = Vec::new();
    let mut i: usize = 0;
    while i < channels.x.len()
        invariant
            i <= channels.x.len(),
            channels.y.len() == channels.x.len(),
            channels.z.len() == channels.x.len(),
            pixels.len() == i,
            forall|k: int|
                0 <= k < i ==> #[trigger] pixels@[k] == (Vec3 {
                    x: channels.x@[k],
                    y: channels.y@[k],
                    z: channels.z@[k],
                }),
        decreases channels.x.len() - i,
    {
        pixels.push(Vec3::new(channels.x[i], channels.y[i], channels.z[i]));
        i = i + 1;
    }
    assert(channels.x@ =~= pixels@.map_values(|p: Vec3| p.x));
    assert(channels.y@ =~= pixels@.map_values(|p: Vec3| p.y));
    assert(channels.z@ =~= pixels@.map_values(|p: Vec3| p.z));
    pixels
}

/// Channels determine their image: splitting and joining loses nothing.
pub proof fn law_channels_determine_image(channels: Channels, a: Seq<Vec3>, b: Seq<Vec3>)
    requires
        channels.planes_of(a),
        channels.planes_of(b),
    ensures
        a == b,
{
    assert(a.map_values(|p: Vec3| p.x).len() == a.len());
    assert(b.map_values(|p: Vec3| p.x).len() == b.len());
    assert forall|i: int| 0 <= i < a.len() implies a[i] == b[i] by {
        assert(a.map_values(|p: Vec3| p.x)[i] == b.map_values(|p: Vec3| p.x)[i]);
        assert(a.map_values(|p: Vec3| p.y)[i] == b.map_values(|p: Vec3| p.y)[i]);
        assert(a.map_values(|p: Vec3| p.z)[i] == b.map_values(|p: Vec3| p.z)[i]);
    }
    assert(a =~= b);
}

/// A window has eleven taps and its sixth lies on its own pixel; inside the
/// line its taps are that pixel and the five on either side, in order. The
/// window of the next pixel has the same taps, one place earlier.
pub proof fn law_window_is_centred(x: int, k: int, n: int)
    requires
        n >= 1,
        0 <= x < n,
        0 <= k < SSIM_WINDOW_SIZE,
    ensures
        SSIM_WINDOW_SIZE == 11,
        tap(x, 5, n) == x,
        5 <= x < n - 5 ==> tap(x, k, n) == x + k - 5,
        tap(x + 1, k, n) == tap(x, k + 1, n),
{
    law_reflection_keeps_range(x, n);
    if 5 <= x < n - 5 {
        law_reflection_keeps_range(x + k - 5, n);
    }
}

/// The loss takes the squared error alone for a weight of zero or below, the
/// similarity alone for one or above, and both, with the weight as it is, for
/// any other, one that is no number included.
pub proof fn law_terms(lambda: u32)
    ensures
        lt(lambda, 0) || lambda == 0 || lambda == 0x8000_0000 ==> terms_of(lambda) is MseOnly,
        lt(0x3f80_0000, lambda) || lambda == 0x3f80_0000 ==> terms_of(lambda) is SsimOnly,
        lt(0, lambda) && lt(lambda, 0x3f80_0000) ==> terms_of(lambda) == LossTerms::Mixed(lambda),
        is_nan(lambda) ==> terms_of(lambda) == LossTerms::Mixed(lambda),
{
}

/// Each plane holds its own channel of every pixel, in order.
pub proof fn law_planes(channels: Channels, pixels: Seq<Vec3>, i: int)
    requires
        channels.planes_of(pixels),
        0 <= i < pixels.len(),
    ensures
        channels.x.len() == pixels.len(),
        channels.y.len() == pixels.len(),
        channels.z.len() == pixels.len(),
        channels.x@[i] == pixels[i].x,
        channels.y@[i] == pixels[i].y,
        channels.z@[i] == pixels[i].z,
{
}

} // verus!
