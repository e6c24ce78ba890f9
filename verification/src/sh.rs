//! Spherical-harmonics coefficients and their file layout.
use vstd::prelude::*;

use crate::float_bits::ZERO;

verus! {

/// Coefficients up to a degree, one RGB triple each.
pub struct ShCoeffs {
    pub coeffs: Vec<[u32; 3]>,
    pub degree: u32,
}

/// Coefficient `k` of channel `c`, or zero where there is none.
pub open spec fn channel_or_zero(coeffs: Seq<[u32; 3]>, k: int, c: int) -> u32 {
    if k < coeffs.len() {
        coeffs[k][c]
    } else {
        ZERO
    }
}

/// Coefficients `1..16` of each channel in turn.
pub open spec fn planar_rest(coeffs: Seq<[u32; 3]>) -> Seq<u32> {
    Seq::new(45, |i: int| channel_or_zero(coeffs, i % 15 + 1, i / 15))
}

/// The red coefficients come first, then the green and then the blue ones, each
/// from the first order up: coefficient `k` of channel `c` is number
/// `15 * c + k - 1`, and zero where there is none.
pub proof fn law_channels_in_turn(coeffs: Seq<[u32; 3]>, k: int, c: int)
    requires
        1 <= k < 16,
        0 <= c < 3,
    ensures
        planar_rest(coeffs).len() == 45,
        k < coeffs.len() ==> planar_rest(coeffs)[15 * c + k - 1] == coeffs[k][c],
        k >= coeffs.len() ==> planar_rest(coeffs)[15 * c + k - 1] == 0,
{
    let i = 15 * c + k - 1;
    assert(i % 15 == k - 1 && i / 15 == c);
}

impl ShCoeffs {
    /// `(degree + 1)` squared zero coefficients.
    pub fn new(degree: u32) -> (sh: Self)
        requires
            (degree + 1) * (degree + 1) <= u32::MAX,
        ensures
            sh.degree == degree,
            sh.coeffs@ == Seq::new(
                ((degree + 1) * (degree + 1)) as nat,
                |i: int| [ZERO, ZERO, ZERO],
            ),
    {
        proof {
            assert(degree + 1 <= (degree + 1) * (degree + 1)) by (nonlinear_arith)
                requires
                    degree >= 0,
            ;
        }
        let n: u32 = (degree + 1) * (degree + 1);
        let mut coeffs: Vec<[u32; 3]> = Vec::new();
        let mut i: u32 = 0;
        while i < n
            invariant
                i <= n,
                coeffs.len() == i,
                forall|k: int| 0 <= k < i ==> coeffs@[k] == [ZERO, ZERO, ZERO],
            decreases n - i,
        {
            coeffs.push([ZERO, ZERO, ZERO]);
            i = i + 1;
        }
        assert(coeffs@ =~= Seq::new(
            ((degree + 1) * (degree + 1)) as nat,
            |i: int| [ZERO, ZERO, ZERO],
        ));
        ShCoeffs { coeffs, degree }
    }

    /// The constant coefficient.
    pub fn dc(&self) -> (dc: [u32; 3])
        requires
            self.coeffs.len() > 0,
        ensures
            dc == self.coeffs@[0],
    {
        self.coeffs[0]
    }

    /// Coefficients `1..16` of each channel in turn, 45 in all; missing ones
    /// are zero.
    pub fn rest_planar(&self) -> (rest: Vec<u32>)
        ensures
            rest@ == Seq::new(
                45,
                |i: int| channel_or_zero(self.coeffs@, i % 15 + 1, i / 15),
            ),
            rest@ == planar_rest(self.coeffs@),
    {
        let mut rest: Vec<u32> = Vec::new();
        let mut c: usize = 0;
        while c < 3
            invariant
                c <= 3,
                rest.len() == c * 15,
                forall|i: int|
                    0 <= i < rest.len() ==> #[trigger] rest@[i] == channel_or_zero(
                        self.coeffs@,
                        i % 15 + 1,
                        i / 15,
                    ),
            decreases 3 - c,
        {
            let mut k: usize = 1;
            while k < 16
                invariant
                    c < 3,
                    1 <= k <= 16,
                    rest.len() == c * 15 + (k - 1),
                    forall|i: int|
                        0 <= i < rest.len() ==> #[trigger] rest@[i] == channel_or_zero(
                            self.coeffs@,
                            i % 15 + 1,
                            i / 15,
                        ),
                decreases 16 - k,
            {
                let w: u32 = if k < self.coeffs.len() {
                    self.coeffs[k][c]
                } else {
                    ZERO
                };
                assert((c * 15 + (k - 1)) % 15 == k - 1);
                assert((c * 15 + (k - 1)) / 15 == c);
                rest.push(w);
                k = k + 1;
            }
            c = c + 1;
        }
        assert(rest@ =~= Seq::new(
            45,
            |i: int| channel_or_zero(self.coeffs@, i % 15 + 1, i / 15),
        ));
        rest
    }
}

} // verus!
