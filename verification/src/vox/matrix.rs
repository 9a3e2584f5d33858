//! 4x4 integer matrices for placing `.vox` models in a scene.
//!
//! A matrix is modelled by the sequence of its 16 entries, row by row: entry
//! `(r, c)` is at `4 * r + c`. Products are exact over the integers; the
//! executable product reports when an entry does not fit an `i32`.
use vstd::prelude::*;

verus! {

/// A 4x4 matrix of `i32`, stored row by row.
#[derive(Clone, Copy)]
pub struct VoxTransform {
    pub m: [i32; 16],
}

impl View for VoxTransform {
    type V = Seq<int>;

    open spec fn view(&self) -> Seq<int> {
        Seq::new(16, |k: int| self.m@[k] as int)
    }
}

pub open spec fn fits_i32(x: int) -> bool {
    i32::MIN <= x <= i32::MAX
}

/// Entry `(r, c)` of the matrix `a`.
pub open spec fn mat_at(a: Seq<int>, r: int, c: int) -> int {
    a[4 * r + c]
}

/// Entry `(r, c)` of the product `a * b`.
pub open spec fn mul_entry(a: Seq<int>, b: Seq<int>, r: int, c: int) -> int {
    mat_at(a, r, 0) * mat_at(b, 0, c) + mat_at(a, r, 1) * mat_at(b, 1, c) + mat_at(a, r, 2)
        * mat_at(b, 2, c) + mat_at(a, r, 3) * mat_at(b, 3, c)
}

/// The exact product `a * b`.
pub open spec fn mat_mul(a: Seq<int>, b: Seq<int>) -> Seq<int> {
    Seq::new(16, |k: int| mul_entry(a, b, k / 4, k % 4))
}

/// Every entry of `a` fits an `i32`.
pub open spec fn all_fit(a: Seq<int>) -> bool {
    forall|k: int| 0 <= k < a.len() ==> fits_i32(#[trigger] a[k])
}

/// The matrix whose rows are `r0` to `r3`.
pub open spec fn mat_from_rows(r0: Seq<int>, r1: Seq<int>, r2: Seq<int>, r3: Seq<int>) -> Seq<int> {
    r0 + r1 + r2 + r3
}

/// The translation by `(x, y, z)`.
pub open spec fn translation(x: int, y: int, z: int) -> Seq<int> {
    seq![1, 0, 0, x, 0, 1, 0, y, 0, 0, 1, z, 0, 0, 0, 1]
}

/// The diagonal matrix with `a, b, c, d` on its diagonal.
pub open spec fn diagonal(a: int, b: int, c: int, d: int) -> Seq<int> {
    seq![a, 0, 0, 0, 0, b, 0, 0, 0, 0, c, 0, 0, 0, 0, d]
}

/// Coordinate `r` of `t * (x, y, z, 1)`.
pub open spec fn apply_row(t: Seq<int>, r: int, x: int, y: int, z: int) -> int {
    mat_at(t, r, 0) * x + mat_at(t, r, 1) * y + mat_at(t, r, 2) * z + mat_at(t, r, 3)
}

pub open spec fn is_unit_or_zero(x: int) -> bool {
    x == -1 || x == 0 || x == 1
}

/// Row `r` of the linear part holds at most one non-zero entry, and it is 1 or -1.
pub open spec fn monomial_row(t: Seq<int>, r: int) -> bool {
    &&& is_unit_or_zero(mat_at(t, r, 0))
    &&& is_unit_or_zero(mat_at(t, r, 1))
    &&& is_unit_or_zero(mat_at(t, r, 2))
    &&& (if mat_at(t, r, 0) != 0 { 1int } else { 0 }) + (if mat_at(t, r, 1) != 0 { 1int } else { 0 })
        + (if mat_at(t, r, 2) != 0 { 1int } else { 0 }) <= 1
}

/// An affine map of the voxel grid onto itself, up to translation: the last row is
/// `(0, 0, 0, 1)` and each coordinate of the image is one source coordinate, maybe
/// negated, or none, plus a constant. Signed permutations with a translation are such maps.
pub open spec fn is_grid_transform(t: Seq<int>) -> bool {
    &&& t.len() == 16
    &&& mat_at(t, 3, 0) == 0
    &&& mat_at(t, 3, 1) == 0
    &&& mat_at(t, 3, 2) == 0
    &&& mat_at(t, 3, 3) == 1
    &&& monomial_row(t, 0)
    &&& monomial_row(t, 1)
    &&& monomial_row(t, 2)
}

proof fn lemma_mul_bound(x: i32, y: i32)
    ensures
        -0x4000_0000_0000_0000 <= (x as int) * (y as int) <= 0x4000_0000_0000_0000,
{
    assert(-0x4000_0000_0000_0000 <= (x as int) * (y as int) <= 0x4000_0000_0000_0000)
        by (nonlinear_arith)
        requires
            -0x8000_0000 <= x <= 0x7fff_ffff,
            -0x8000_0000 <= y <= 0x7fff_ffff,
    ;
}

proof fn lemma_unit_times(a: int, b: int)
    requires
        is_unit_or_zero(a),
    ensures
        a == 0 ==> a * b == 0,
        a == 1 ==> a * b == b,
        a == -1 ==> a * b == -b,
{
}

/// Entry `(r, c)` of `a * b` for a monomial row `r` of `a` and a grid transform `b`.
proof fn lemma_monomial_row_product(a: Seq<int>, b: Seq<int>, r: int)
    requires
        a.len() == 16,
        0 <= r < 3,
        monomial_row(a, r),
        is_grid_transform(b),
    ensures
        monomial_row(mat_mul(a, b), r),
{
    let p = mat_mul(a, b);
    assert forall|c: int| 0 <= c < 3 implies mat_at(p, r, c) == mul_entry(a, b, r, c) by {
        assert((4 * r + c) / 4 == r);
        assert((4 * r + c) % 4 == c);
    }
    lemma_unit_times(mat_at(a, r, 0), mat_at(b, 0, 0));
    lemma_unit_times(mat_at(a, r, 0), mat_at(b, 0, 1));
    lemma_unit_times(mat_at(a, r, 0), mat_at(b, 0, 2));
    lemma_unit_times(mat_at(a, r, 1), mat_at(b, 1, 0));
    lemma_unit_times(mat_at(a, r, 1), mat_at(b, 1, 1));
    lemma_unit_times(mat_at(a, r, 1), mat_at(b, 1, 2));
    lemma_unit_times(mat_at(a, r, 2), mat_at(b, 2, 0));
    lemma_unit_times(mat_at(a, r, 2), mat_at(b, 2, 1));
    lemma_unit_times(mat_at(a, r, 2), mat_at(b, 2, 2));
    assert(mat_at(a, r, 3) * mat_at(b, 3, 0) == 0);
    assert(mat_at(a, r, 3) * mat_at(b, 3, 1) == 0);
    assert(mat_at(a, r, 3) * mat_at(b, 3, 2) == 0);
}

/// Grid transforms are closed under products.
pub proof fn lemma_grid_transform_mul(a: Seq<int>, b: Seq<int>)
    requires
        is_grid_transform(a),
        is_grid_transform(b),
    ensures
        is_grid_transform(mat_mul(a, b)),
{
    let p = mat_mul(a, b);
    assert forall|c: int| 0 <= c < 4 implies mat_at(p, 3, c) == mul_entry(a, b, 3, c) by {
        assert((12 + c) / 4 == 3);
        assert((12 + c) % 4 == c);
    }
    assert(mat_at(p, 3, 0) == 0);
    assert(mat_at(p, 3, 1) == 0);
    assert(mat_at(p, 3, 2) == 0);
    assert(mat_at(p, 3, 3) == 1);
    lemma_monomial_row_product(a, b, 0);
    lemma_monomial_row_product(a, b, 1);
    lemma_monomial_row_product(a, b, 2);
}

impl VoxTransform {
    /// The matrix whose rows are `r0` to `r3`.
    pub fn from_rows(r0: [i32; 4], r1: [i32; 4], r2: [i32; 4], r3: [i32; 4]) -> (t: VoxTransform)
        ensures
            t@ == mat_from_rows(
                Seq::new(4, |c: int| r0@[c] as int),
                Seq::new(4, |c: int| r1@[c] as int),
                Seq::new(4, |c: int| r2@[c] as int),
                Seq::new(4, |c: int| r3@[c] as int),
            ),
    {
        let t = VoxTransform {
            m: [
                r0[0],
                r0[1],
                r0[2],
                r0[3],
                r1[0],
                r1[1],
                r1[2],
                r1[3],
                r2[0],
                r2[1],
                r2[2],
                r2[3],
                r3[0],
                r3[1],
                r3[2],
                r3[3],
            ],
        };
        assert(t@ =~= mat_from_rows(
            Seq::new(4, |c: int| r0@[c] as int),
            Seq::new(4, |c: int| r1@[c] as int),
            Seq::new(4, |c: int| r2@[c] as int),
            Seq::new(4, |c: int| r3@[c] as int),
        ));
        t
    }

    /// The translation by `(x, y, z)`.
    pub fn translation(x: i32, y: i32, z: i32) -> (t: VoxTransform)
        ensures
            t@ == translation(x as int, y as int, z as int),
    {
        let t = VoxTransform { m: [1, 0, 0, x, 0, 1, 0, y, 0, 0, 1, z, 0, 0, 0, 1] };
        assert(t@ =~= translation(x as int, y as int, z as int));
        t
    }

    /// The diagonal matrix with `a, b, c, d` on its diagonal.
    pub fn diagonal(a: i32, b: i32, c: i32, d: i32) -> (t: VoxTransform)
        ensures
            t@ == diagonal(a as int, b as int, c as int, d as int),
    {
        let t = VoxTransform { m: [a, 0, 0, 0, 0, b, 0, 0, 0, 0, c, 0, 0, 0, 0, d] };
        assert(t@ =~= diagonal(a as int, b as int, c as int, d as int));
        t
    }

    /// The product `self * rhs`, or `None` when an entry of the exact product does
    /// not fit an `i32`.
    pub fn checked_mul(&self, rhs: &VoxTransform) -> (p: Option<VoxTransform>)
        ensures
            p is Some <==> all_fit(mat_mul(self@, rhs@)),
            p matches Some(q) ==> q@ == mat_mul(self@, rhs@),
    {
        let ghost exact = mat_mul(self@, rhs@);
        let mut out = [0i32; 16];
        let mut k: usize = 0;
        while k < 16
            invariant
                k <= 16,
                exact == mat_mul(self@, rhs@),
                forall|j: int| 0 <= j < k ==> (out@[j] as int) == #[trigger] exact[j],
            decreases 16 - k,
        {
            let r = k / 4;
            let c = k % 4;
            proof {
                lemma_mul_bound(self.m[4 * r as int], rhs.m[c as int]);
                lemma_mul_bound(self.m[4 * r + 1], rhs.m[4 + c]);
                lemma_mul_bound(self.m[4 * r + 2], rhs.m[8 + c]);
                lemma_mul_bound(self.m[4 * r + 3], rhs.m[12 + c]);
            }
            let v: i128 = (self.m[4 * r] as i128) * (rhs.m[c] as i128) + (self.m[4 * r + 1] as i128)
                * (rhs.m[4 + c] as i128) + (self.m[4 * r + 2] as i128) * (rhs.m[8 + c] as i128) + (
            self.m[4 * r + 3] as i128) * (rhs.m[12 + c] as i128);
            assert(v == exact[k as int]);
            if v < -0x8000_0000 || v > 0x7fff_ffff {
                return None;
            }
            out[k] = v as i32;
            k = k + 1;
        }
        let q = VoxTransform { m: out };
        assert(q@ =~= exact);
        Some(q)
    }

    /// Whether column `c` of the linear part holds a negative entry, that is,
    /// whether the smallest of its first three entries is below zero.
    pub fn column_has_negative(&self, c: usize) -> (b: bool)
        requires
            c < 4,
        ensures
            b == (mat_at(self@, 0, c as int) < 0 || mat_at(self@, 1, c as int) < 0 || mat_at(
                self@,
                2,
                c as int,
            ) < 0),
    {
        let lo = min3(self.m[c], self.m[4 + c], self.m[8 + c]);
        lo < 0
    }

    /// The point `self * (x, y, z, 1)` with its last coordinate dropped, or `None`
    /// when a coordinate does not fit an `i32`.
    pub fn apply(&self, x: i32, y: i32, z: i32) -> (p: Option<[i32; 3]>)
        ensures
            p is Some <==> (fits_i32(apply_row(self@, 0, x as int, y as int, z as int)) && fits_i32(
                apply_row(self@, 1, x as int, y as int, z as int),
            ) && fits_i32(apply_row(self@, 2, x as int, y as int, z as int))),
            p matches Some(q) ==> (q[0] as int == apply_row(self@, 0, x as int, y as int, z as int)
                && q[1] as int == apply_row(self@, 1, x as int, y as int, z as int) && q[2] as int
                == apply_row(self@, 2, x as int, y as int, z as int)),
    {
        let a = self.apply_row_exec(0, x, y, z);
        let b = self.apply_row_exec(1, x, y, z);
        let c = self.apply_row_exec(2, x, y, z);
        if a < -0x8000_0000 || a > 0x7fff_ffff || b < -0x8000_0000 || b > 0x7fff_ffff || c
            < -0x8000_0000 || c > 0x7fff_ffff {
            return None;
        }
        Some([a as i32, b as i32, c as i32])
    }

    fn apply_row_exec(&self, r: usize, x: i32, y: i32, z: i32) -> (v: i128)
        requires
            r < 3,
        ensures
            v as int == apply_row(self@, r as int, x as int, y as int, z as int),
    {
        proof {
            lemma_mul_bound(self.m[4 * r as int], x);
            lemma_mul_bound(self.m[4 * r + 1], y);
            lemma_mul_bound(self.m[4 * r + 2], z);
        }
        (self.m[4 * r] as i128) * (x as i128) + (self.m[4 * r + 1] as i128) * (y as i128) + (self.m[4
            * r + 2] as i128) * (z as i128) + (self.m[4 * r + 3] as i128)
    }
}

fn min3(a: i32, b: i32, c: i32) -> (m: i32)
    ensures
        m <= a && m <= b && m <= c,
        m == a || m == b || m == c,
{
    let ab = if a < b { a } else { b };
    if ab < c { ab } else { c }
}

} // verus!
