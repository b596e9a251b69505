//! Integer 3-vectors and the exact arithmetic the solver is built from.
use vstd::prelude::*;

verus! {

/// Largest absolute value of a component of a surface normal or an up axis.
pub const NORMAL_LIMIT: i64 = 1024;

/// Largest absolute value of a component of a velocity or a motion.
pub const SPEED_LIMIT: i64 = 16_777_216;

/// Largest absolute value of a component of a position.
pub const POSITION_LIMIT: i64 = 1_125_899_906_842_624;

/// Largest absolute value of a component that plain addition takes.
pub const WIDE_LIMIT: i64 = 2_305_843_009_213_693_952;

/// Largest absolute value of a component of the left side of a cross
/// product with a normal.
pub const CROSS_LIMIT: i64 = 137_438_953_472;

/// Largest absolute value of a component of a direction that a motion is
/// projected onto.
pub const DIRECTION_LIMIT: i64 = 281_474_976_710_656;

/// A vector of mathematical integers: the meaning of a [`Vec3`].
pub struct IVec {
    pub x: int,
    pub y: int,
    pub z: int,
}

/// An integer 3-vector.
#[derive(Clone, Copy, Debug, PartialEq, Eq, Structural)]
pub struct Vec3 {
    pub x: i64,
    pub y: i64,
    pub z: i64,
}

impl View for Vec3 {
    type V = IVec;

    open spec fn view(&self) -> IVec {
        IVec { x: self.x as int, y: self.y as int, z: self.z as int }
    }
}

pub open spec fn ivec(x: int, y: int, z: int) -> IVec {
    IVec { x, y, z }
}

pub open spec fn zero() -> IVec {
    ivec(0, 0, 0)
}

pub open spec fn vadd(a: IVec, b: IVec) -> IVec {
    ivec(a.x + b.x, a.y + b.y, a.z + b.z)
}

pub open spec fn vsub(a: IVec, b: IVec) -> IVec {
    ivec(a.x - b.x, a.y - b.y, a.z - b.z)
}

pub open spec fn neg(a: IVec) -> IVec {
    ivec(-a.x, -a.y, -a.z)
}

pub open spec fn scale(a: IVec, k: int) -> IVec {
    ivec(a.x * k, a.y * k, a.z * k)
}

pub open spec fn dot(a: IVec, b: IVec) -> int {
    a.x * b.x + a.y * b.y + a.z * b.z
}

pub open spec fn cross(a: IVec, b: IVec) -> IVec {
    ivec(a.y * b.z - a.z * b.y, a.z * b.x - a.x * b.z, a.x * b.y - a.y * b.x)
}

pub open spec fn len_sq(a: IVec) -> int {
    dot(a, a)
}

pub open spec fn is_zero(a: IVec) -> bool {
    a.x == 0 && a.y == 0 && a.z == 0
}

pub open spec fn iabs(n: int) -> int {
    if n >= 0 {
        n
    } else {
        -n
    }
}

/// Integer division rounded toward zero (`d != 0`).
pub open spec fn tdiv(n: int, d: int) -> int {
    if (n >= 0) == (d > 0) {
        iabs(n) / iabs(d)
    } else {
        -(iabs(n) / iabs(d))
    }
}

/// `a` projected onto the line of `d`, each component rounded toward zero;
/// zero where `d` is zero.
pub open spec fn project_onto(a: IVec, d: IVec) -> IVec {
    if is_zero(d) {
        zero()
    } else {
        div_each(scale(d, dot(a, d)), len_sq(d))
    }
}

/// `a` with its component along `n` removed, `a - n (a·n) / (n·n)`, each
/// component rounded toward zero; `a` where `n` is zero.
pub open spec fn reject_from(a: IVec, n: IVec) -> IVec {
    if is_zero(n) {
        a
    } else {
        div_each(reject_numerator(a, n), len_sq(n))
    }
}

/// `(n·n) a - (a·n) n`: the rejection of `a` from `n`, scaled by `n·n`.
pub open spec fn reject_numerator(a: IVec, n: IVec) -> IVec {
    vsub(scale(a, len_sq(n)), scale(n, dot(a, n)))
}

pub open spec fn within(a: IVec, limit: int) -> bool {
    -limit <= a.x <= limit && -limit <= a.y <= limit && -limit <= a.z <= limit
}

/// A usable surface normal or up axis: not zero, components within
/// [`NORMAL_LIMIT`].
pub open spec fn valid_normal(n: IVec) -> bool {
    within(n, NORMAL_LIMIT as int) && !is_zero(n)
}

/// A velocity or motion that the solver can carry: its length is at most
/// [`SPEED_LIMIT`].
pub open spec fn speed_ok(v: IVec) -> bool {
    len_sq(v) <= SPEED_LIMIT as int * SPEED_LIMIT as int
}

/// Two vectors point the same way: parallel and not opposed.
pub open spec fn same_direction(a: IVec, b: IVec) -> bool {
    is_zero(cross(a, b)) && dot(a, b) > 0
}

pub proof fn lemma_len_sq_nonneg(a: IVec)
    ensures
        len_sq(a) >= 0,
        len_sq(a) == 0 <==> is_zero(a),
{
    assert(a.x * a.x >= 0) by (nonlinear_arith);
    assert(a.y * a.y >= 0) by (nonlinear_arith);
    assert(a.z * a.z >= 0) by (nonlinear_arith);
    if a.x != 0 {
        assert(a.x * a.x > 0) by (nonlinear_arith)
            requires
                a.x != 0,
        ;
    }
    if a.y != 0 {
        assert(a.y * a.y > 0) by (nonlinear_arith)
            requires
                a.y != 0,
        ;
    }
    if a.z != 0 {
        assert(a.z * a.z > 0) by (nonlinear_arith)
            requires
                a.z != 0,
        ;
    }
}

pub proof fn lemma_square_bound(x: int, l: int)
    requires
        l >= 0,
        x * x <= l * l,
    ensures
        -l <= x <= l,
{
    if x > l {
        assert(x * x > l * l) by (nonlinear_arith)
            requires
                x > l,
                l >= 0,
        ;
    }
    if x < -l {
        assert(x * x > l * l) by (nonlinear_arith)
            requires
                x < -l,
                l >= 0,
        ;
    }
}

/// A vector within the speed bound has each component within it.
pub proof fn lemma_speed_ok_within(v: IVec)
    requires
        speed_ok(v),
    ensures
        within(v, SPEED_LIMIT as int),
{
    let l = SPEED_LIMIT as int;
    assert(v.x * v.x >= 0 && v.y * v.y >= 0 && v.z * v.z >= 0) by (nonlinear_arith);
    lemma_square_bound(v.x, l);
    lemma_square_bound(v.y, l);
    lemma_square_bound(v.z, l);
}

/// `r * r * (m * m) <= e * e` where `r` is `e / m` rounded toward zero.
proof fn lemma_tdiv_sq(e: int, m: int)
    requires
        m > 0,
    ensures
        tdiv(e, m) * tdiv(e, m) * (m * m) <= e * e,
{
    let r = tdiv(e, m);
    lemma_tdiv(e, m);
    assert(r * r * (m * m) <= e * e) by (nonlinear_arith)
        requires
            m > 0,
            iabs(r) * m <= iabs(e),
            iabs(r) == (if r >= 0 { r } else { -r }),
            iabs(e) == (if e >= 0 { e } else { -e }),
    ;
}

/// Rejection never makes a vector longer.
pub proof fn lemma_reject_shortens(a: IVec, n: IVec)
    ensures
        len_sq(reject_from(a, n)) <= len_sq(a),
{
    if !is_zero(n) {
        lemma_len_sq_nonneg(n);
        let d = dot(a, n);
        let m = len_sq(n);
        let r = reject_from(a, n);
        let (ex, ey, ez) = (a.x * m - n.x * d, a.y * m - n.y * d, a.z * m - n.z * d);
        assert(a.x * m == m * a.x && a.y * m == m * a.y && a.z * m == m * a.z) by (nonlinear_arith);
        lemma_tdiv_sq(ex, m);
        lemma_tdiv_sq(ey, m);
        lemma_tdiv_sq(ez, m);
        lemma_reject_residual(a.x, a.y, a.z, n.x, n.y, n.z);
        assert(d * d * m >= 0) by (nonlinear_arith)
            requires
                m > 0,
        ;
        assert(len_sq(r) * (m * m) <= len_sq(a) * (m * m)) by (nonlinear_arith)
            requires
                r.x * r.x * (m * m) <= ex * ex,
                r.y * r.y * (m * m) <= ey * ey,
                r.z * r.z * (m * m) <= ez * ez,
                ex * ex + ey * ey + ez * ez == (m * m) * len_sq(a) - d * d * m,
                d * d * m >= 0,
                len_sq(r) == r.x * r.x + r.y * r.y + r.z * r.z,
        ;
        assert(len_sq(r) <= len_sq(a)) by (nonlinear_arith)
            requires
                m > 0,
                len_sq(r) * (m * m) <= len_sq(a) * (m * m),
        ;
    }
}

/// `|m a - n (a·n)|^2 = m^2 |a|^2 - m (a·n)^2` for `m = |n|^2`.
proof fn lemma_reject_residual(ax: int, ay: int, az: int, nx: int, ny: int, nz: int)
    ensures
        ({
            let d = ax * nx + ay * ny + az * nz;
            let m = nx * nx + ny * ny + nz * nz;
            (m * ax - nx * d) * (m * ax - nx * d) + (m * ay - ny * d) * (m * ay - ny * d) + (m * az
                - nz * d) * (m * az - nz * d) == (m * m) * (ax * ax + ay * ay + az * az) - d * d * m
        }),
{
    let d = ax * nx + ay * ny + az * nz;
    let m = nx * nx + ny * ny + nz * nz;
    lemma_sq_diff(m * ax, nx, d);
    lemma_sq_diff(m * ay, ny, d);
    lemma_sq_diff(m * az, nz, d);
    assert(d * ((m * ax) * nx) == (m * d) * (ax * nx)) by (nonlinear_arith);
    assert(d * ((m * ay) * ny) == (m * d) * (ay * ny)) by (nonlinear_arith);
    assert(d * ((m * az) * nz) == (m * d) * (az * nz)) by (nonlinear_arith);
    lemma_dist3(m * d, ax * nx, ay * ny, az * nz);
    assert((m * d) * d == m * (d * d)) by (nonlinear_arith);
    lemma_dist3(d * d, nx * nx, ny * ny, nz * nz);
    lemma_sq_prod(m, ax);
    lemma_sq_prod(m, ay);
    lemma_sq_prod(m, az);
    lemma_dist3(m * m, ax * ax, ay * ay, az * az);
    assert(m * (d * d) == d * d * m) by (nonlinear_arith);
}

proof fn lemma_sq_diff(a: int, n: int, q: int)
    ensures
        (a - n * q) * (a - n * q) == a * a - 2 * (q * (a * n)) + q * q * (n * n),
{
    assert((a - n * q) * (a - n * q) == a * a - 2 * (q * (a * n)) + q * q * (n * n))
        by (nonlinear_arith);
}

pub proof fn lemma_dist3(p: int, u: int, v: int, w: int)
    ensures
        p * (u + v + w) == p * u + p * v + p * w,
{
    assert(p * (u + v + w) == p * u + p * v + p * w) by (nonlinear_arith);
}

proof fn lemma_dist3r(u: int, v: int, w: int, p: int)
    ensures
        (u + v + w) * p == u * p + v * p + w * p,
{
    assert((u + v + w) * p == u * p + v * p + w * p) by (nonlinear_arith);
}

proof fn lemma_sq_prod(a: int, b: int)
    ensures
        (a * a) * (b * b) == (a * b) * (a * b),
{
    assert((a * a) * (b * b) == (a * b) * (a * b)) by (nonlinear_arith);
}

proof fn lemma_lagrange(ax: int, ay: int, az: int, bx: int, by: int, bz: int)
    ensures
        (ax * ax + ay * ay + az * az) * (bx * bx + by * by + bz * bz) == (ax * bx + ay * by + az
            * bz) * (ax * bx + ay * by + az * bz) + ((ay * bz - az * by) * (ay * bz - az * by) + (az
            * bx - ax * bz) * (az * bx - ax * bz) + (ax * by - ay * bx) * (ax * by - ay * bx)),
{
    let (xx, yy, zz) = (ax * bx, ay * by, az * bz);
    let (xy, yx) = (ax * by, ay * bx);
    let (yz, zy) = (ay * bz, az * by);
    let (zx, xz) = (az * bx, ax * bz);
    let (pa, pb, pc) = (ax * ax, ay * ay, az * az);
    let bb = bx * bx + by * by + bz * bz;
    lemma_dist3(pa + pb + pc, bx * bx, by * by, bz * bz);
    lemma_dist3r(pa, pb, pc, bx * bx);
    lemma_dist3r(pa, pb, pc, by * by);
    lemma_dist3r(pa, pb, pc, bz * bz);
    lemma_sq_prod(ax, bx);
    lemma_sq_prod(ax, by);
    lemma_sq_prod(ax, bz);
    lemma_sq_prod(ay, bx);
    lemma_sq_prod(ay, by);
    lemma_sq_prod(ay, bz);
    lemma_sq_prod(az, bx);
    lemma_sq_prod(az, by);
    lemma_sq_prod(az, bz);
    assert((xx + yy + zz) * (xx + yy + zz) == xx * xx + yy * yy + zz * zz + 2 * (xx * yy) + 2 * (
    yy * zz) + 2 * (xx * zz)) by (nonlinear_arith);
    assert((yz - zy) * (yz - zy) == yz * yz + zy * zy - 2 * (yz * zy)) by (nonlinear_arith);
    assert((zx - xz) * (zx - xz) == zx * zx + xz * xz - 2 * (zx * xz)) by (nonlinear_arith);
    assert((xy - yx) * (xy - yx) == xy * xy + yx * yx - 2 * (xy * yx)) by (nonlinear_arith);
    assert(yz * zy == yy * zz) by (nonlinear_arith)
        requires
            yy == ay * by,
            zz == az * bz,
            yz == ay * bz,
            zy == az * by,
    ;
    assert(zx * xz == xx * zz) by (nonlinear_arith)
        requires
            xx == ax * bx,
            zz == az * bz,
            zx == az * bx,
            xz == ax * bz,
    ;
    assert(xy * yx == xx * yy) by (nonlinear_arith)
        requires
            xx == ax * bx,
            yy == ay * by,
            xy == ax * by,
            yx == ay * bx,
    ;
}

/// `(a·b)^2 <= |a|^2 |b|^2`.
pub proof fn lemma_cauchy_schwarz(a: IVec, b: IVec)
    ensures
        dot(a, b) * dot(a, b) <= len_sq(a) * len_sq(b),
{
    let c = cross(a, b);
    lemma_lagrange(a.x, a.y, a.z, b.x, b.y, b.z);
    lemma_len_sq_nonneg(c);
}

/// Projection onto a line never makes a vector longer.
pub proof fn lemma_project_shortens(a: IVec, d: IVec)
    ensures
        len_sq(project_onto(a, d)) <= len_sq(a),
{
    lemma_len_sq_nonneg(a);
    if !is_zero(d) {
        lemma_len_sq_nonneg(d);
        let k = dot(a, d);
        let n = len_sq(d);
        let r = project_onto(a, d);
        lemma_tdiv(d.x * k, n);
        lemma_tdiv(d.y * k, n);
        lemma_tdiv(d.z * k, n);
        assert(r.x * r.x * (n * n) <= d.x * d.x * (k * k)) by (nonlinear_arith)
            requires
                n > 0,
                iabs(r.x) * n <= iabs(d.x * k),
                iabs(r.x) == (if r.x >= 0 { r.x } else { -r.x }),
                iabs(d.x * k) == (if d.x * k >= 0 { d.x * k } else { -(d.x * k) }),
        ;
        assert(r.y * r.y * (n * n) <= d.y * d.y * (k * k)) by (nonlinear_arith)
            requires
                n > 0,
                iabs(r.y) * n <= iabs(d.y * k),
                iabs(r.y) == (if r.y >= 0 { r.y } else { -r.y }),
                iabs(d.y * k) == (if d.y * k >= 0 { d.y * k } else { -(d.y * k) }),
        ;
        assert(r.z * r.z * (n * n) <= d.z * d.z * (k * k)) by (nonlinear_arith)
            requires
                n > 0,
                iabs(r.z) * n <= iabs(d.z * k),
                iabs(r.z) == (if r.z >= 0 { r.z } else { -r.z }),
                iabs(d.z * k) == (if d.z * k >= 0 { d.z * k } else { -(d.z * k) }),
        ;
        lemma_cauchy_schwarz(a, d);
        assert(len_sq(r) * (n * n) <= n * (k * k)) by (nonlinear_arith)
            requires
                r.x * r.x * (n * n) <= d.x * d.x * (k * k),
                r.y * r.y * (n * n) <= d.y * d.y * (k * k),
                r.z * r.z * (n * n) <= d.z * d.z * (k * k),
                n == d.x * d.x + d.y * d.y + d.z * d.z,
                len_sq(r) == r.x * r.x + r.y * r.y + r.z * r.z,
        ;
        assert(len_sq(r) <= len_sq(a)) by (nonlinear_arith)
            requires
                n > 0,
                len_sq(r) * (n * n) <= n * (k * k),
                k * k <= len_sq(a) * n,
        ;
    }
}

/// Sum of the absolute values of the components.
pub open spec fn l1(a: IVec) -> int {
    iabs(a.x) + iabs(a.y) + iabs(a.z)
}

/// `e / m` rounded toward zero, component by component.
pub open spec fn div_each(e: IVec, m: int) -> IVec {
    ivec(tdiv(e.x, m), tdiv(e.y, m), tdiv(e.z, m))
}

pub open spec fn divides_each(e: IVec, m: int) -> bool {
    e.x % m == 0 && e.y % m == 0 && e.z % m == 0
}

/// The remainder of a truncating division is smaller than the divisor, and
/// vanishes where the division is exact.
pub proof fn lemma_tdiv_rem(e: int, m: int)
    requires
        m > 0,
    ensures
        iabs(e - m * tdiv(e, m)) < m,
        e % m == 0 ==> e == m * tdiv(e, m),
{
    let q = tdiv(e, m);
    lemma_tdiv(e, m);
    assert(iabs(e - m * q) < m) by (nonlinear_arith)
        requires
            m > 0,
            iabs(q) * m <= iabs(e),
            iabs(e) < (iabs(q) + 1) * m,
            e * m >= 0 ==> q >= 0,
            e * m <= 0 ==> q <= 0,
            iabs(q) == (if q >= 0 { q } else { -q }),
            iabs(e) == (if e >= 0 { e } else { -e }),
            iabs(e - m * q) == (if e - m * q >= 0 { e - m * q } else { -(e - m * q) }),
    ;
    if e % m == 0 {
        let k = e / m;
        assert(e == m * k) by (nonlinear_arith)
            requires
                m > 0,
                k == e / m,
                e % m == 0,
        ;
        if e >= 0 {
            assert(q == k);
        } else {
            assert(-e == m * (-k)) by (nonlinear_arith)
                requires
                    e == m * k,
            ;
            vstd::arithmetic::div_mod::lemma_div_by_multiple(-k, m);
            assert((-e) / m == -k) by (nonlinear_arith)
                requires
                    -e == m * (-k),
                    (-k * m) / m == -k,
            ;
            assert(q == k);
        }
    }
}

/// Rounding each component of `e / m` toward zero moves the dot product with
/// `w` by less than `l1(w)`: `|m (p·w) - e·w| < m l1(w)`, with equality of
/// the two where every division is exact.
pub proof fn lemma_rounded_dot(e: IVec, m: int, w: IVec)
    requires
        m > 0,
        !is_zero(w),
    ensures
        ({
            let g = m * dot(div_each(e, m), w) - dot(e, w);
            -(m * l1(w)) < g < m * l1(w)
        }),
        divides_each(e, m) ==> m * dot(div_each(e, m), w) == dot(e, w),
{
    let p = div_each(e, m);
    lemma_tdiv_rem(e.x, m);
    lemma_tdiv_rem(e.y, m);
    lemma_tdiv_rem(e.z, m);
    let (rx, ry, rz) = (e.x - m * p.x, e.y - m * p.y, e.z - m * p.z);
    lemma_split_term(e.x, p.x, rx, w.x, m);
    lemma_split_term(e.y, p.y, ry, w.y, m);
    lemma_split_term(e.z, p.z, rz, w.z, m);
    lemma_dist3(m, p.x * w.x, p.y * w.y, p.z * w.z);
    assert(m * dot(p, w) - dot(e, w) == -(rx * w.x + ry * w.y + rz * w.z));
    lemma_rem_term(rx, w.x, m);
    lemma_rem_term(ry, w.y, m);
    lemma_rem_term(rz, w.z, m);
    lemma_dist3(m, iabs(w.x), iabs(w.y), iabs(w.z));
    if divides_each(e, m) {
        assert(rx == 0 && ry == 0 && rz == 0);
        assert(rx * w.x == 0 && ry * w.y == 0 && rz * w.z == 0) by (nonlinear_arith)
            requires
                rx == 0 && ry == 0 && rz == 0,
        ;
    }
}

proof fn lemma_split_term(e: int, p: int, r: int, w: int, m: int)
    requires
        r == e - m * p,
    ensures
        e * w == m * (p * w) + r * w,
{
    assert(e * w == m * (p * w) + r * w) by (nonlinear_arith)
        requires
            r == e - m * p,
    ;
}

proof fn lemma_rem_term(r: int, w: int, m: int)
    requires
        iabs(r) < m,
    ensures
        iabs(r * w) <= (m - 1) * iabs(w),
        iabs(r * w) <= m * iabs(w),
        w != 0 ==> iabs(r * w) < m * iabs(w),
{
    assert(iabs(r * w) <= (m - 1) * iabs(w)) by (nonlinear_arith)
        requires
            iabs(r) < m,
            iabs(r) == (if r >= 0 { r } else { -r }),
            iabs(w) == (if w >= 0 { w } else { -w }),
            iabs(r * w) == (if r * w >= 0 { r * w } else { -(r * w) }),
    ;
    assert(m * iabs(w) == (m - 1) * iabs(w) + iabs(w)) by (nonlinear_arith);
}

/// `|p * q| <= lp * lq` for `|p| <= lp`, `|q| <= lq`.
pub proof fn lemma_mul_bound(p: int, q: int, lp: int, lq: int)
    requires
        -lp <= p <= lp,
        -lq <= q <= lq,
    ensures
        -(lp * lq) <= p * q <= lp * lq,
{
    assert(-(lp * lq) <= p * q <= lp * lq) by (nonlinear_arith)
        requires
            -lp <= p <= lp,
            -lq <= q <= lq,
    ;
}

pub proof fn lemma_dot_bound(a: IVec, b: IVec, la: int, lb: int)
    requires
        within(a, la),
        within(b, lb),
    ensures
        -3 * (la * lb) <= dot(a, b) <= 3 * (la * lb),
{
    lemma_mul_bound(a.x, b.x, la, lb);
    lemma_mul_bound(a.y, b.y, la, lb);
    lemma_mul_bound(a.z, b.z, la, lb);
}

pub proof fn lemma_cross_bound(a: IVec, b: IVec, la: int, lb: int)
    requires
        within(a, la),
        within(b, lb),
    ensures
        within(cross(a, b), 2 * (la * lb)),
{
    lemma_mul_bound(a.x, b.y, la, lb);
    lemma_mul_bound(a.x, b.z, la, lb);
    lemma_mul_bound(a.y, b.x, la, lb);
    lemma_mul_bound(a.y, b.z, la, lb);
    lemma_mul_bound(a.z, b.x, la, lb);
    lemma_mul_bound(a.z, b.y, la, lb);
}

/// `|tdiv(n, d)| <= |n| / |d|`, and the sign of the quotient.
pub proof fn lemma_tdiv(n: int, d: int)
    requires
        d != 0,
    ensures
        iabs(tdiv(n, d)) <= iabs(n),
        iabs(tdiv(n, d)) * iabs(d) <= iabs(n),
        iabs(n) < (iabs(tdiv(n, d)) + 1) * iabs(d),
        (n * d >= 0) ==> tdiv(n, d) >= 0,
        (n * d <= 0) ==> tdiv(n, d) <= 0,
        n == 0 ==> tdiv(n, d) == 0,
{
    let q = iabs(n) / iabs(d);
    assert(q * iabs(d) <= iabs(n) < (q + 1) * iabs(d)) by (nonlinear_arith)
        requires
            iabs(d) > 0,
            iabs(n) >= 0,
            q == iabs(n) / iabs(d),
    ;
    assert(q <= iabs(n)) by (nonlinear_arith)
        requires
            iabs(d) >= 1,
            q * iabs(d) <= iabs(n),
            q >= 0,
    ;
    if n * d >= 0 && n != 0 {
        assert((n >= 0) == (d > 0)) by (nonlinear_arith)
            requires
                n * d >= 0,
                n != 0,
                d != 0,
        ;
    }
    if n * d <= 0 && n != 0 {
        assert((n >= 0) != (d > 0)) by (nonlinear_arith)
            requires
                n * d <= 0,
                n != 0,
                d != 0,
        ;
    }
}

/// Truncating division on exec integers, with its meaning.
pub fn div_toward_zero(n: i128, d: i128) -> (r: i128)
    requires
        d > 0,
        n > i128::MIN,
    ensures
        r == tdiv(n as int, d as int),
{
    if n >= 0 {
        n / d
    } else {
        let q = (-n) / d;
        -q
    }
}

pub fn narrow(v: i128) -> (r: i64)
    requires
        i64::MIN <= v <= i64::MAX,
    ensures
        r as int == v as int,
{
    v as i64
}

impl Vec3 {
    pub fn new(x: i64, y: i64, z: i64) -> (r: Vec3)
        ensures
            r@ == ivec(x as int, y as int, z as int),
    {
        Vec3 { x, y, z }
    }

    pub fn zero() -> (r: Vec3)
        ensures
            r@ == zero(),
    {
        Vec3 { x: 0, y: 0, z: 0 }
    }

    pub fn is_zero(&self) -> (r: bool)
        ensures
            r == is_zero(self@),
    {
        self.x == 0 && self.y == 0 && self.z == 0
    }

    pub fn add(&self, o: &Vec3) -> (r: Vec3)
        requires
            within(self@, WIDE_LIMIT as int),
            within(o@, WIDE_LIMIT as int),
        ensures
            r@ == vadd(self@, o@),
    {
        Vec3 { x: self.x + o.x, y: self.y + o.y, z: self.z + o.z }
    }

    pub fn sub(&self, o: &Vec3) -> (r: Vec3)
        requires
            within(self@, WIDE_LIMIT as int),
            within(o@, WIDE_LIMIT as int),
        ensures
            r@ == vsub(self@, o@),
    {
        Vec3 { x: self.x - o.x, y: self.y - o.y, z: self.z - o.z }
    }

    pub fn neg(&self) -> (r: Vec3)
        requires
            within(self@, WIDE_LIMIT as int),
        ensures
            r@ == neg(self@),
    {
        Vec3 { x: -self.x, y: -self.y, z: -self.z }
    }

    /// Dot product of two vectors with components within [`SPEED_LIMIT`].
    pub fn dot(&self, o: &Vec3) -> (r: i128)
        requires
            within(self@, 2 * SPEED_LIMIT as int),
            within(o@, 2 * SPEED_LIMIT as int),
        ensures
            r == dot(self@, o@),
    {
        proof {
            let l = 2 * SPEED_LIMIT as int;
            assert(l * l == 1_125_899_906_842_624) by (nonlinear_arith)
                requires
                    l == 33_554_432,
            ;
            lemma_mul_bound(self.x as int, o.x as int, l, l);
            lemma_mul_bound(self.y as int, o.y as int, l, l);
            lemma_mul_bound(self.z as int, o.z as int, l, l);
        }
        let x = self.x as i128 * o.x as i128;
        let y = self.y as i128 * o.y as i128;
        let z = self.z as i128 * o.z as i128;
        x + y + z
    }

    pub fn len_sq(&self) -> (r: i128)
        requires
            within(self@, 2 * SPEED_LIMIT as int),
        ensures
            r == len_sq(self@),
            r >= 0,
    {
        proof {
            lemma_len_sq_nonneg(self@);
        }
        self.dot(self)
    }
}

impl Vec3 {
    /// Cross product of a vector with a normal.
    pub fn cross(&self, o: &Vec3) -> (r: Vec3)
        requires
            within(self@, CROSS_LIMIT as int),
            within(o@, NORMAL_LIMIT as int),
        ensures
            r@ == cross(self@, o@),
            within(r@, DIRECTION_LIMIT as int),
            within(self@, NORMAL_LIMIT as int) ==> within(
                r@,
                2 * (NORMAL_LIMIT as int * NORMAL_LIMIT as int),
            ),
            within(self@, 2 * SPEED_LIMIT as int) ==> within(r@, CROSS_LIMIT as int),
    {
        proof {
            let (la, lb) = (CROSS_LIMIT as int, NORMAL_LIMIT as int);
            assert(la * lb == 140_737_488_355_328) by (nonlinear_arith)
                requires
                    la == 137_438_953_472,
                    lb == 1024,
            ;
            lemma_cross_bound(self@, o@, la, lb);
            lemma_mul_bound(self.x as int, o.y as int, la, lb);
            lemma_mul_bound(self.x as int, o.z as int, la, lb);
            lemma_mul_bound(self.y as int, o.x as int, la, lb);
            lemma_mul_bound(self.y as int, o.z as int, la, lb);
            lemma_mul_bound(self.z as int, o.x as int, la, lb);
            lemma_mul_bound(self.z as int, o.y as int, la, lb);
            if within(self@, NORMAL_LIMIT as int) {
                lemma_cross_bound(self@, o@, lb, lb);
            }
            if within(self@, 2 * SPEED_LIMIT as int) {
                lemma_cross_bound(self@, o@, 2 * SPEED_LIMIT as int, lb);
            }
        }
        let (ax, ay, az) = (self.x as i128, self.y as i128, self.z as i128);
        let (bx, by, bz) = (o.x as i128, o.y as i128, o.z as i128);
        Vec3 {
            x: narrow(ay * bz - az * by),
            y: narrow(az * bx - ax * bz),
            z: narrow(ax * by - ay * bx),
        }
    }

    /// Dot product of a motion with a direction.
    pub fn dot_wide(&self, o: &Vec3) -> (r: i128)
        requires
            within(self@, 2 * SPEED_LIMIT as int),
            within(o@, DIRECTION_LIMIT as int),
        ensures
            r == dot(self@, o@),
    {
        proof {
            let (la, lb) = (2 * SPEED_LIMIT as int, DIRECTION_LIMIT as int);
            lemma_mul_bound(self.x as int, o.x as int, la, lb);
            lemma_mul_bound(self.y as int, o.y as int, la, lb);
            lemma_mul_bound(self.z as int, o.z as int, la, lb);
            assert(la * lb == 9_444_732_965_739_290_427_392) by (nonlinear_arith)
                requires
                    la == 33_554_432,
                    lb == 281_474_976_710_656,
            ;
        }
        self.x as i128 * o.x as i128 + self.y as i128 * o.y as i128 + self.z as i128 * o.z as i128
    }

    /// Squared length of a direction.
    pub fn len_sq_wide(&self) -> (r: i128)
        requires
            within(self@, DIRECTION_LIMIT as int),
        ensures
            r == len_sq(self@),
            r >= 0,
    {
        proof {
            let l = DIRECTION_LIMIT as int;
            lemma_mul_bound(self.x as int, self.x as int, l, l);
            lemma_mul_bound(self.y as int, self.y as int, l, l);
            lemma_mul_bound(self.z as int, self.z as int, l, l);
            assert(l * l == 79_228_162_514_264_337_593_543_950_336) by (nonlinear_arith)
                requires
                    l == 281_474_976_710_656,
            ;
            lemma_len_sq_nonneg(self@);
        }
        self.x as i128 * self.x as i128 + self.y as i128 * self.y as i128 + self.z as i128
            * self.z as i128
    }

    /// This velocity with its component along the normal `n` removed.
    pub fn reject_from(&self, n: &Vec3) -> (r: Vec3)
        requires
            speed_ok(self@),
            within(n@, NORMAL_LIMIT as int),
        ensures
            r@ == reject_from(self@, n@),
            speed_ok(r@),
    {
        proof {
            lemma_reject_shortens(self@, n@);
            lemma_speed_ok_within(self@);
            lemma_speed_ok_within(reject_from(self@, n@));
        }
        if n.is_zero() {
            return *self;
        }
        let d = self.dot(n);
        let nn = n.len_sq();
        proof {
            lemma_len_sq_nonneg(n@);
            lemma_dot_bound(self@, n@, SPEED_LIMIT as int, NORMAL_LIMIT as int);
            lemma_dot_bound(n@, n@, NORMAL_LIMIT as int, NORMAL_LIMIT as int);
            assert(3 * (SPEED_LIMIT as int * NORMAL_LIMIT as int) == 51_539_607_552);
            assert(3 * (NORMAL_LIMIT as int * NORMAL_LIMIT as int) == 3_145_728);
        }
        proof {
            let l = NORMAL_LIMIT as int;
            lemma_mul_bound(nn as int, self.x as int, 3_145_728, SPEED_LIMIT as int);
            lemma_mul_bound(nn as int, self.y as int, 3_145_728, SPEED_LIMIT as int);
            lemma_mul_bound(nn as int, self.z as int, 3_145_728, SPEED_LIMIT as int);
            lemma_mul_bound(n.x as int, d as int, l, 51_539_607_552);
            lemma_mul_bound(n.y as int, d as int, l, 51_539_607_552);
            lemma_mul_bound(n.z as int, d as int, l, 51_539_607_552);
        }
        let x = div_toward_zero(nn * self.x as i128 - n.x as i128 * d, nn);
        let y = div_toward_zero(nn * self.y as i128 - n.y as i128 * d, nn);
        let z = div_toward_zero(nn * self.z as i128 - n.z as i128 * d, nn);
        Vec3 { x: narrow(x), y: narrow(y), z: narrow(z) }
    }

    /// This motion projected onto the line of `d`, such as a crease.
    pub fn project_onto(&self, d: &Vec3) -> (r: Vec3)
        requires
            within(self@, 2 * SPEED_LIMIT as int),
            within(d@, DIRECTION_LIMIT as int),
        ensures
            r@ == project_onto(self@, d@),
            len_sq(r@) <= len_sq(self@),
            speed_ok(self@) ==> speed_ok(r@),
    {
        proof {
            lemma_project_shortens(self@, d@);
            let m = project_onto(self@, d@);
            lemma_len_sq_nonneg(self@);
            let l = 2 * SPEED_LIMIT as int;
            lemma_dot_bound(self@, self@, l, l);
            assert(3 * (l * l) == 3_377_699_720_527_872) by (nonlinear_arith)
                requires
                    l == 33_554_432,
            ;
            assert(m.x * m.x >= 0 && m.y * m.y >= 0 && m.z * m.z >= 0) by (nonlinear_arith);
            assert(67_108_864 * 67_108_864 == 4_503_599_627_370_496) by (nonlinear_arith);
            lemma_square_bound(m.x, 67_108_864);
            lemma_square_bound(m.y, 67_108_864);
            lemma_square_bound(m.z, 67_108_864);
        }
        if d.is_zero() {
            return Vec3::zero();
        }
        let k = self.dot_wide(d);
        let n = d.len_sq_wide();
        proof {
            lemma_len_sq_nonneg(d@);
            let (la, lb) = (2 * SPEED_LIMIT as int, DIRECTION_LIMIT as int);
            lemma_dot_bound(self@, d@, la, lb);
            let kb = 3 * (la * lb);
            assert(kb == 28_334_198_897_217_871_282_176) by (nonlinear_arith)
                requires
                    la == 33_554_432,
                    lb == 281_474_976_710_656,
                    kb == 3 * (la * lb),
            ;
            lemma_mul_bound(d.x as int, k as int, lb, kb);
            lemma_mul_bound(d.y as int, k as int, lb, kb);
            lemma_mul_bound(d.z as int, k as int, lb, kb);
            assert(lb * kb < 170_141_183_460_469_231_731_687_303_715_884_105_727) by (nonlinear_arith)
                requires
                    lb == 281_474_976_710_656,
                    kb == 28_334_198_897_217_871_282_176,
            ;
        }
        let x = div_toward_zero(d.x as i128 * k, n);
        let y = div_toward_zero(d.y as i128 * k, n);
        let z = div_toward_zero(d.z as i128 * k, n);
        Vec3 { x: narrow(x), y: narrow(y), z: narrow(z) }
    }
}

} // verus!
