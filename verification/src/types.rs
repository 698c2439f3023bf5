//! Vector and matrix types and their approximate-equality operations.
//!
//! Each type stores its scalar components as binary32 bit patterns and
//! compares by flattening to its canonical component sequence (x, y, z,
//! w for vectors; column-major axis order for the matrix) and requiring
//! the scalar comparison to hold for every corresponding pair.

use crate::scalar::{
    is_finite, is_nan, is_nonneg, lemma_scalar_abs_diff_mono, lemma_scalar_abs_diff_refl,
    lemma_scalar_nan, lemma_scalar_sym, lemma_scalar_ulps_mono, lemma_scalar_ulps_refl, scalar_le,
    scalar_abs_diff_eq, scalar_ulps_eq, spec_abs_diff_eq, spec_ulps_eq,
};
use vstd::prelude::*;

verus! {

/// Default absolute tolerance: the bit pattern of 2^-23, the machine
/// epsilon of binary32 (the conventional default for the scalar type).
pub const DEFAULT_EPSILON_BITS: u32 = 0x3400_0000;

/// Default bound on representable steps apart: four, the conventional
/// default for the scalar type.
pub const DEFAULT_MAX_ULPS: u32 = 4;

/// Componentwise conjunction of the scalar absolute-difference
/// comparison: true exactly when the sequences have equal length and
/// every corresponding pair of components compares within `epsilon`.
pub open spec fn seq_abs_diff_eq(a: Seq<u32>, b: Seq<u32>, epsilon: u32) -> bool {
    a.len() == b.len() && forall|i: int|
        0 <= i < a.len() ==> spec_abs_diff_eq(a[i], b[i], epsilon)
}

/// Componentwise conjunction of the scalar ULPs comparison.
pub open spec fn seq_ulps_eq(a: Seq<u32>, b: Seq<u32>, epsilon: u32, max_ulps: u32) -> bool {
    a.len() == b.len() && forall|i: int|
        0 <= i < a.len() ==> spec_ulps_eq(a[i], b[i], epsilon, max_ulps)
}

/// Every component encodes a finite value.
pub open spec fn seq_all_finite(s: Seq<u32>) -> bool {
    forall|i: int| 0 <= i < s.len() ==> is_finite(s[i])
}

/// Some component is a NaN.
pub open spec fn seq_has_nan(s: Seq<u32>) -> bool {
    exists|i: int| 0 <= i < s.len() && is_nan(s[i])
}

/// Reflexivity: a sequence of finite components compares equal to
/// itself under any nonnegative absolute tolerance.
pub proof fn lemma_abs_diff_eq_refl(s: Seq<u32>, epsilon: u32)
    requires
        seq_all_finite(s),
        is_nonneg(epsilon),
    ensures
        seq_abs_diff_eq(s, s, epsilon),
{
    assert forall|i: int| 0 <= i < s.len() implies spec_abs_diff_eq(s[i], s[i], epsilon) by {
        lemma_scalar_abs_diff_refl(s[i], epsilon);
    }
}

/// Reflexivity of the ULPs comparison: a sequence of finite components
/// compares equal to itself under any step bound and any absolute
/// tolerance.
pub proof fn lemma_ulps_eq_refl(s: Seq<u32>, epsilon: u32, max_ulps: u32)
    requires
        seq_all_finite(s),
    ensures
        seq_ulps_eq(s, s, epsilon, max_ulps),
{
    assert forall|i: int| 0 <= i < s.len() implies spec_ulps_eq(s[i], s[i], epsilon, max_ulps) by {
        lemma_scalar_ulps_refl(s[i], epsilon, max_ulps);
    }
}

/// Symmetry: swapping the operands never changes either comparison.
pub proof fn lemma_eq_sym(a: Seq<u32>, b: Seq<u32>, epsilon: u32, max_ulps: u32)
    ensures
        seq_abs_diff_eq(a, b, epsilon) == seq_abs_diff_eq(b, a, epsilon),
        seq_ulps_eq(a, b, epsilon, max_ulps) == seq_ulps_eq(b, a, epsilon, max_ulps),
{
    if seq_abs_diff_eq(a, b, epsilon) {
        assert forall|i: int| 0 <= i < b.len() implies spec_abs_diff_eq(b[i], a[i], epsilon) by {
            lemma_scalar_sym(a[i], b[i], epsilon, max_ulps);
        }
    }
    if seq_abs_diff_eq(b, a, epsilon) {
        assert forall|i: int| 0 <= i < a.len() implies spec_abs_diff_eq(a[i], b[i], epsilon) by {
            lemma_scalar_sym(a[i], b[i], epsilon, max_ulps);
        }
    }
    if seq_ulps_eq(a, b, epsilon, max_ulps) {
        assert forall|i: int| 0 <= i < b.len() implies spec_ulps_eq(b[i], a[i], epsilon, max_ulps) by {
            lemma_scalar_sym(a[i], b[i], epsilon, max_ulps);
        }
    }
    if seq_ulps_eq(b, a, epsilon, max_ulps) {
        assert forall|i: int| 0 <= i < a.len() implies spec_ulps_eq(a[i], b[i], epsilon, max_ulps) by {
            lemma_scalar_sym(a[i], b[i], epsilon, max_ulps);
        }
    }
}

/// Monotonicity in the absolute tolerance: a positive comparison stays
/// positive for any tolerance at least as large (in the scalar order).
pub proof fn lemma_abs_diff_eq_mono(a: Seq<u32>, b: Seq<u32>, e1: u32, e2: u32)
    requires
        seq_abs_diff_eq(a, b, e1),
        scalar_le(e1, e2),
    ensures
        seq_abs_diff_eq(a, b, e2),
{
    assert forall|i: int| 0 <= i < a.len() implies spec_abs_diff_eq(a[i], b[i], e2) by {
        lemma_scalar_abs_diff_mono(a[i], b[i], e1, e2);
    }
}

/// Monotonicity in the step bound: a positive ULPs comparison stays
/// positive for any bound at least as large.
pub proof fn lemma_ulps_eq_mono(a: Seq<u32>, b: Seq<u32>, epsilon: u32, m1: u32, m2: u32)
    requires
        seq_ulps_eq(a, b, epsilon, m1),
        m1 <= m2,
    ensures
        seq_ulps_eq(a, b, epsilon, m2),
{
    assert forall|i: int| 0 <= i < a.len() implies spec_ulps_eq(a[i], b[i], epsilon, m2) by {
        lemma_scalar_ulps_mono(a[i], b[i], epsilon, m1, m2);
    }
}

/// A NaN anywhere in either operand makes both comparisons negative,
/// even against the very same sequence.
pub proof fn lemma_nan_not_eq(a: Seq<u32>, b: Seq<u32>, epsilon: u32, max_ulps: u32)
    requires
        seq_has_nan(a) || seq_has_nan(b),
    ensures
        !seq_abs_diff_eq(a, b, epsilon),
        !seq_ulps_eq(a, b, epsilon, max_ulps),
{
    if a.len() == b.len() {
        if seq_has_nan(a) {
            let i = choose|i: int| 0 <= i < a.len() && is_nan(a[i]);
            lemma_scalar_nan(a[i], b[i], epsilon, max_ulps);
            assert(!spec_abs_diff_eq(a[i], b[i], epsilon));
            assert(!spec_ulps_eq(a[i], b[i], epsilon, max_ulps));
        } else {
            let i = choose|i: int| 0 <= i < b.len() && is_nan(b[i]);
            lemma_scalar_nan(a[i], b[i], epsilon, max_ulps);
            assert(!spec_abs_diff_eq(a[i], b[i], epsilon));
            assert(!spec_ulps_eq(a[i], b[i], epsilon, max_ulps));
        }
    }
}

/// An ordered pair of scalar components, stored as bit patterns.
#[derive(Clone, Copy, PartialEq, Eq, Structural, Debug)]
pub struct Vec2 {
    pub x: u32,
    pub y: u32,
}

/// An ordered triple of scalar components, stored as bit patterns.
#[derive(Clone, Copy, PartialEq, Eq, Structural, Debug)]
pub struct Vec3 {
    pub x: u32,
    pub y: u32,
    pub z: u32,
}

/// An ordered quadruple of scalar components, stored as bit patterns.
#[derive(Clone, Copy, PartialEq, Eq, Structural, Debug)]
pub struct Vec4 {
    pub x: u32,
    pub y: u32,
    pub z: u32,
    pub w: u32,
}

/// A 4x4 column-major matrix: four column vectors of four components.
#[derive(Clone, Copy, PartialEq, Eq, Structural, Debug)]
pub struct Mat4 {
    pub x_axis: Vec4,
    pub y_axis: Vec4,
    pub z_axis: Vec4,
    pub w_axis: Vec4,
}

impl View for Vec2 {
    type V = Seq<u32>;

    open spec fn view(&self) -> Seq<u32> {
        seq![self.x, self.y]
    }
}

impl View for Vec3 {
    type V = Seq<u32>;

    open spec fn view(&self) -> Seq<u32> {
        seq![self.x, self.y, self.z]
    }
}

impl View for Vec4 {
    type V = Seq<u32>;

    open spec fn view(&self) -> Seq<u32> {
        seq![self.x, self.y, self.z, self.w]
    }
}

impl View for Mat4 {
    type V = Seq<u32>;

    open spec fn view(&self) -> Seq<u32> {
        self.x_axis@ + self.y_axis@ + self.z_axis@ + self.w_axis@
    }
}

impl Vec2 {
    /// Default absolute tolerance for this type.
    pub fn default_epsilon() -> (r: u32)
        ensures
            r == DEFAULT_EPSILON_BITS,
    {
        DEFAULT_EPSILON_BITS
    }

    /// Default step bound for this type.
    pub fn default_max_ulps() -> (r: u32)
        ensures
            r == DEFAULT_MAX_ULPS,
    {
        DEFAULT_MAX_ULPS
    }

    /// True exactly when every component pair is within `epsilon`
    /// absolute difference.
    pub fn abs_diff_eq(&self, other: &Vec2, epsilon: u32) -> (r: bool)
        ensures
            r == seq_abs_diff_eq(self@, other@, epsilon),
    {
        let r0 = scalar_abs_diff_eq(self.x, other.x, epsilon);
        let r1 = scalar_abs_diff_eq(self.y, other.y, epsilon);
        let r = r0 && r1;
        proof {
            if r {
                assert forall|i: int| 0 <= i < self@.len() implies spec_abs_diff_eq(
                    self@[i],
                    other@[i],
                    epsilon,
                ) by {
                    assert(i == 0 || i == 1);
                }
            } else {
                if !r0 {
                    assert(!spec_abs_diff_eq(self@[0], other@[0], epsilon));
                } else {
                    assert(!spec_abs_diff_eq(self@[1], other@[1], epsilon));
                }
            }
        }
        r
    }

    /// True exactly when every component pair is within `epsilon`
    /// absolute difference or within `max_ulps` representable steps.
    pub fn ulps_eq(&self, other: &Vec2, epsilon: u32, max_ulps: u32) -> (r: bool)
        ensures
            r == seq_ulps_eq(self@, other@, epsilon, max_ulps),
    {
        let r0 = scalar_ulps_eq(self.x, other.x, epsilon, max_ulps);
        let r1 = scalar_ulps_eq(self.y, other.y, epsilon, max_ulps);
        let r = r0 && r1;
        proof {
            if r {
                assert forall|i: int| 0 <= i < self@.len() implies spec_ulps_eq(
                    self@[i],
                    other@[i],
                    epsilon,
                    max_ulps,
                ) by {
                    assert(i == 0 || i == 1);
                }
            } else {
                if !r0 {
                    assert(!spec_ulps_eq(self@[0], other@[0], epsilon, max_ulps));
                } else {
                    assert(!spec_ulps_eq(self@[1], other@[1], epsilon, max_ulps));
                }
            }
        }
        r
    }
}

impl Vec3 {
    /// Default absolute tolerance for this type.
    pub fn default_epsilon() -> (r: u32)
        ensures
            r == DEFAULT_EPSILON_BITS,
    {
        DEFAULT_EPSILON_BITS
    }

    /// Default step bound for this type.
    pub fn default_max_ulps() -> (r: u32)
        ensures
            r == DEFAULT_MAX_ULPS,
    {
        DEFAULT_MAX_ULPS
    }

    /// True exactly when every component pair is within `epsilon`
    /// absolute difference.
    pub fn abs_diff_eq(&self, other: &Vec3, epsilon: u32) -> (r: bool)
        ensures
            r == seq_abs_diff_eq(self@, other@, epsilon),
    {
        let r0 = scalar_abs_diff_eq(self.x, other.x, epsilon);
        let r1 = scalar_abs_diff_eq(self.y, other.y, epsilon);
        let r2 = scalar_abs_diff_eq(self.z, other.z, epsilon);
        let r = r0 && r1 && r2;
        proof {
            if r {
                assert forall|i: int| 0 <= i < self@.len() implies spec_abs_diff_eq(
                    self@[i],
                    other@[i],
                    epsilon,
                ) by {
                    assert(i == 0 || i == 1 || i == 2);
                }
            } else {
                if !r0 {
                    assert(!spec_abs_diff_eq(self@[0], other@[0], epsilon));
                } else if !r1 {
                    assert(!spec_abs_diff_eq(self@[1], other@[1], epsilon));
                } else {
                    assert(!spec_abs_diff_eq(self@[2], other@[2], epsilon));
                }
            }
        }
        r
    }

    /// True exactly when every component pair is within `epsilon`
    /// absolute difference or within `max_ulps` representable steps.
    pub fn ulps_eq(&self, other: &Vec3, epsilon: u32, max_ulps: u32) -> (r: bool)
        ensures
            r == seq_ulps_eq(self@, other@, epsilon, max_ulps),
    {
        let r0 = scalar_ulps_eq(self.x, other.x, epsilon, max_ulps);
        let r1 = scalar_ulps_eq(self.y, other.y, epsilon, max_ulps);
        let r2 = scalar_ulps_eq(self.z, other.z, epsilon, max_ulps);
        let r = r0 && r1 && r2;
        proof {
            if r {
                assert forall|i: int| 0 <= i < self@.len() implies spec_ulps_eq(
                    self@[i],
                    other@[i],
                    epsilon,
                    max_ulps,
                ) by {
                    assert(i == 0 || i == 1 || i == 2);
                }
            } else {
                if !r0 {
                    assert(!spec_ulps_eq(self@[0], other@[0], epsilon, max_ulps));
                } else if !r1 {
                    assert(!spec_ulps_eq(self@[1], other@[1], epsilon, max_ulps));
                } else {
                    assert(!spec_ulps_eq(self@[2], other@[2], epsilon, max_ulps));
                }
            }
        }
        r
    }
}

impl Vec4 {
    /// Default absolute tolerance for this type.
    pub fn default_epsilon() -> (r: u32)
        ensures
            r == DEFAULT_EPSILON_BITS,
    {
        DEFAULT_EPSILON_BITS
    }

    /// Default step bound for this type.
    pub fn default_max_ulps() -> (r: u32)
        ensures
            r == DEFAULT_MAX_ULPS,
    {
        DEFAULT_MAX_ULPS
    }

    /// True exactly when every component pair is within `epsilon`
    /// absolute difference.
    pub fn abs_diff_eq(&self, other: &Vec4, epsilon: u32) -> (r: bool)
        ensures
            r == seq_abs_diff_eq(self@, other@, epsilon),
    {
        let r0 = scalar_abs_diff_eq(self.x, other.x, epsilon);
        let r1 = scalar_abs_diff_eq(self.y, other.y, epsilon);
        let r2 = scalar_abs_diff_eq(self.z, other.z, epsilon);
        let r3 = scalar_abs_diff_eq(self.w, other.w, epsilon);
        let r = r0 && r1 && r2 && r3;
        proof {
            if r {
                assert forall|i: int| 0 <= i < self@.len() implies spec_abs_diff_eq(
                    self@[i],
                    other@[i],
                    epsilon,
                ) by {
                    assert(i == 0 || i == 1 || i == 2 || i == 3);
                }
            } else {
                if !r0 {
                    assert(!spec_abs_diff_eq(self@[0], other@[0], epsilon));
                } else if !r1 {
                    assert(!spec_abs_diff_eq(self@[1], other@[1], epsilon));
                } else if !r2 {
                    assert(!spec_abs_diff_eq(self@[2], other@[2], epsilon));
                } else {
                    assert(!spec_abs_diff_eq(self@[3], other@[3], epsilon));
                }
            }
        }
        r
    }

    /// True exactly when every component pair is within `epsilon`
    /// absolute difference or within `max_ulps` representable steps.
    pub fn ulps_eq(&self, other: &Vec4, epsilon: u32, max_ulps: u32) -> (r: bool)
        ensures
            r == seq_ulps_eq(self@, other@, epsilon, max_ulps),
    {
        let r0 = scalar_ulps_eq(self.x, other.x, epsilon, max_ulps);
        let r1 = scalar_ulps_eq(self.y, other.y, epsilon, max_ulps);
        let r2 = scalar_ulps_eq(self.z, other.z, epsilon, max_ulps);
        let r3 = scalar_ulps_eq(self.w, other.w, epsilon, max_ulps);
        let r = r0 && r1 && r2 && r3;
        proof {
            if r {
                assert forall|i: int| 0 <= i < self@.len() implies spec_ulps_eq(
                    self@[i],
                    other@[i],
                    epsilon,
                    max_ulps,
                ) by {
                    assert(i == 0 || i == 1 || i == 2 || i == 3);
                }
            } else {
                if !r0 {
                    assert(!spec_ulps_eq(self@[0], other@[0], epsilon, max_ulps));
                } else if !r1 {
                    assert(!spec_ulps_eq(self@[1], other@[1], epsilon, max_ulps));
                } else if !r2 {
                    assert(!spec_ulps_eq(self@[2], other@[2], epsilon, max_ulps));
                } else {
                    assert(!spec_ulps_eq(self@[3], other@[3], epsilon, max_ulps));
                }
            }
        }
        r
    }
}

/// The componentwise comparison of two concatenations of four
/// four-component columns is the conjunction of the columnwise
/// comparisons.
proof fn lemma_concat4_abs(
    a0: Seq<u32>, a1: Seq<u32>, a2: Seq<u32>, a3: Seq<u32>,
    b0: Seq<u32>, b1: Seq<u32>, b2: Seq<u32>, b3: Seq<u32>,
    epsilon: u32,
)
    requires
        a0.len() == 4 && a1.len() == 4 && a2.len() == 4 && a3.len() == 4,
        b0.len() == 4 && b1.len() == 4 && b2.len() == 4 && b3.len() == 4,
    ensures
        seq_abs_diff_eq(a0 + a1 + a2 + a3, b0 + b1 + b2 + b3, epsilon) == (seq_abs_diff_eq(
            a0,
            b0,
            epsilon,
        ) && seq_abs_diff_eq(a1, b1, epsilon) && seq_abs_diff_eq(a2, b2, epsilon)
            && seq_abs_diff_eq(a3, b3, epsilon)),
{
    let a = a0 + a1 + a2 + a3;
    let b = b0 + b1 + b2 + b3;
    assert forall|i: int| 0 <= i < 16 implies a[i] == (if i < 4 {
        a0[i]
    } else if i < 8 {
        a1[i - 4]
    } else if i < 12 {
        a2[i - 8]
    } else {
        a3[i - 12]
    }) && b[i] == (if i < 4 {
        b0[i]
    } else if i < 8 {
        b1[i - 4]
    } else if i < 12 {
        b2[i - 8]
    } else {
        b3[i - 12]
    }) by {}
    if seq_abs_diff_eq(a, b, epsilon) {
        assert forall|i: int| 0 <= i < 4 implies spec_abs_diff_eq(a0[i], b0[i], epsilon)
            && spec_abs_diff_eq(a1[i], b1[i], epsilon) && spec_abs_diff_eq(a2[i], b2[i], epsilon)
            && spec_abs_diff_eq(a3[i], b3[i], epsilon) by {
            assert(spec_abs_diff_eq(a[i], b[i], epsilon));
            assert(spec_abs_diff_eq(a[i + 4], b[i + 4], epsilon));
            assert(spec_abs_diff_eq(a[i + 8], b[i + 8], epsilon));
            assert(spec_abs_diff_eq(a[i + 12], b[i + 12], epsilon));
        }
    }
    if seq_abs_diff_eq(a0, b0, epsilon) && seq_abs_diff_eq(a1, b1, epsilon) && seq_abs_diff_eq(
        a2,
        b2,
        epsilon,
    ) && seq_abs_diff_eq(a3, b3, epsilon) {
        assert forall|i: int| 0 <= i < a.len() implies spec_abs_diff_eq(a[i], b[i], epsilon) by {
            if i < 4 {
                assert(spec_abs_diff_eq(a0[i], b0[i], epsilon));
            } else if i < 8 {
                assert(spec_abs_diff_eq(a1[i - 4], b1[i - 4], epsilon));
            } else if i < 12 {
                assert(spec_abs_diff_eq(a2[i - 8], b2[i - 8], epsilon));
            } else {
                assert(spec_abs_diff_eq(a3[i - 12], b3[i - 12], epsilon));
            }
        }
    }
}

/// Columnwise decomposition of the ULPs comparison, as for
/// `lemma_concat4_abs`.
proof fn lemma_concat4_ulps(
    a0: Seq<u32>, a1: Seq<u32>, a2: Seq<u32>, a3: Seq<u32>,
    b0: Seq<u32>, b1: Seq<u32>, b2: Seq<u32>, b3: Seq<u32>,
    epsilon: u32, max_ulps: u32,
)
    requires
        a0.len() == 4 && a1.len() == 4 && a2.len() == 4 && a3.len() == 4,
        b0.len() == 4 && b1.len() == 4 && b2.len() == 4 && b3.len() == 4,
    ensures
        seq_ulps_eq(a0 + a1 + a2 + a3, b0 + b1 + b2 + b3, epsilon, max_ulps) == (seq_ulps_eq(
            a0,
            b0,
            epsilon,
            max_ulps,
        ) && seq_ulps_eq(a1, b1, epsilon, max_ulps) && seq_ulps_eq(a2, b2, epsilon, max_ulps)
            && seq_ulps_eq(a3, b3, epsilon, max_ulps)),
{
    let a = a0 + a1 + a2 + a3;
    let b = b0 + b1 + b2 + b3;
    if seq_ulps_eq(a, b, epsilon, max_ulps) {
        assert forall|i: int| 0 <= i < 4 implies spec_ulps_eq(a0[i], b0[i], epsilon, max_ulps)
            && spec_ulps_eq(a1[i], b1[i], epsilon, max_ulps) && spec_ulps_eq(
            a2[i],
            b2[i],
            epsilon,
            max_ulps,
        ) && spec_ulps_eq(a3[i], b3[i], epsilon, max_ulps) by {
            assert(spec_ulps_eq(a[i], b[i], epsilon, max_ulps));
            assert(spec_ulps_eq(a[i + 4], b[i + 4], epsilon, max_ulps));
            assert(spec_ulps_eq(a[i + 8], b[i + 8], epsilon, max_ulps));
            assert(spec_ulps_eq(a[i + 12], b[i + 12], epsilon, max_ulps));
        }
    }
    if seq_ulps_eq(a0, b0, epsilon, max_ulps) && seq_ulps_eq(a1, b1, epsilon, max_ulps)
        && seq_ulps_eq(a2, b2, epsilon, max_ulps) && seq_ulps_eq(a3, b3, epsilon, max_ulps) {
        assert forall|i: int| 0 <= i < a.len() implies spec_ulps_eq(a[i], b[i], epsilon, max_ulps) by {
            if i < 4 {
                assert(spec_ulps_eq(a0[i], b0[i], epsilon, max_ulps));
            } else if i < 8 {
                assert(spec_ulps_eq(a1[i - 4], b1[i - 4], epsilon, max_ulps));
            } else if i < 12 {
                assert(spec_ulps_eq(a2[i - 8], b2[i - 8], epsilon, max_ulps));
            } else {
                assert(spec_ulps_eq(a3[i - 12], b3[i - 12], epsilon, max_ulps));
            }
        }
    }
}

impl Mat4 {
    /// Default absolute tolerance for this type.
    pub fn default_epsilon() -> (r: u32)
        ensures
            r == DEFAULT_EPSILON_BITS,
    {
        DEFAULT_EPSILON_BITS
    }

    /// Default step bound for this type.
    pub fn default_max_ulps() -> (r: u32)
        ensures
            r == DEFAULT_MAX_ULPS,
    {
        DEFAULT_MAX_ULPS
    }

    /// True exactly when all sixteen component pairs, in column-major
    /// order, are within `epsilon` absolute difference.
    pub fn abs_diff_eq(&self, other: &Mat4, epsilon: u32) -> (r: bool)
        ensures
            r == seq_abs_diff_eq(self@, other@, epsilon),
    {
        proof {
            lemma_concat4_abs(
                self.x_axis@, self.y_axis@, self.z_axis@, self.w_axis@,
                other.x_axis@, other.y_axis@, other.z_axis@, other.w_axis@,
                epsilon,
            );
        }
        self.x_axis.abs_diff_eq(&other.x_axis, epsilon) && self.y_axis.abs_diff_eq(
            &other.y_axis,
            epsilon,
        ) && self.z_axis.abs_diff_eq(&other.z_axis, epsilon) && self.w_axis.abs_diff_eq(
            &other.w_axis,
            epsilon,
        )
    }

    /// True exactly when all sixteen component pairs, in column-major
    /// order, are within `epsilon` absolute difference or within
    /// `max_ulps` representable steps.
    pub fn ulps_eq(&self, other: &Mat4, epsilon: u32, max_ulps: u32) -> (r: bool)
        ensures
            r == seq_ulps_eq(self@, other@, epsilon, max_ulps),
    {
        proof {
            lemma_concat4_ulps(
                self.x_axis@, self.y_axis@, self.z_axis@, self.w_axis@,
                other.x_axis@, other.y_axis@, other.z_axis@, other.w_axis@,
                epsilon, max_ulps,
            );
        }
        self.x_axis.ulps_eq(&other.x_axis, epsilon, max_ulps) && self.y_axis.ulps_eq(
            &other.y_axis,
            epsilon,
            max_ulps,
        ) && self.z_axis.ulps_eq(&other.z_axis, epsilon, max_ulps) && self.w_axis.ulps_eq(
            &other.w_axis,
            epsilon,
            max_ulps,
        )
    }
}

} // verus!
