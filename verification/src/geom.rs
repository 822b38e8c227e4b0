//! Rigid-body geometry over fixed-point scalars.
//!
//! Vectors, rotation quaternions and rigid isometries (rotation plus
//! translation). Every executable operation returns exactly the value of
//! its spec-level mirror, so transform compositions can be reasoned about
//! as pure mathematical functions.

use vstd::prelude::*;

use crate::num::{fx_add_s, fx_div_n_s, fx_div_s, fx_mul_s, fx_neg_s, fx_sqrt_s, fx_sub_s, Fx, FX_ONE};

verus! {

/// A 3-vector of fixed-point scalars.
#[derive(Clone, Copy, Debug, PartialEq, Eq, Structural, Hash)]
pub struct Vec3 {
    pub x: Fx,
    pub y: Fx,
    pub z: Fx,
}

/// A rotation quaternion (`w` the scalar part). Quaternions produced by
/// this crate are normalized up to fixed-point rounding; nothing relies
/// on exact unit length.
#[derive(Clone, Copy, Debug, PartialEq, Eq, Structural, Hash)]
pub struct Quat {
    pub x: Fx,
    pub y: Fx,
    pub z: Fx,
    pub w: Fx,
}

/// A rigid transform: rotate, then translate.
#[derive(Clone, Copy, Debug, PartialEq, Eq, Structural, Hash)]
pub struct Iso3 {
    pub rotation: Quat,
    pub translation: Vec3,
}

pub open spec fn v3_add_s(a: Vec3, b: Vec3) -> Vec3 {
    Vec3 { x: fx_add_s(a.x, b.x), y: fx_add_s(a.y, b.y), z: fx_add_s(a.z, b.z) }
}

pub open spec fn v3_sub_s(a: Vec3, b: Vec3) -> Vec3 {
    Vec3 { x: fx_sub_s(a.x, b.x), y: fx_sub_s(a.y, b.y), z: fx_sub_s(a.z, b.z) }
}

pub open spec fn v3_neg_s(a: Vec3) -> Vec3 {
    Vec3 { x: fx_neg_s(a.x), y: fx_neg_s(a.y), z: fx_neg_s(a.z) }
}

pub open spec fn v3_scale_s(a: Vec3, f: Fx) -> Vec3 {
    Vec3 { x: fx_mul_s(a.x, f), y: fx_mul_s(a.y, f), z: fx_mul_s(a.z, f) }
}

pub open spec fn v3_div_n_s(a: Vec3, n: int) -> Vec3 {
    Vec3 { x: fx_div_n_s(a.x, n), y: fx_div_n_s(a.y, n), z: fx_div_n_s(a.z, n) }
}

pub open spec fn v3_dot_s(a: Vec3, b: Vec3) -> Fx {
    fx_add_s(fx_add_s(fx_mul_s(a.x, b.x), fx_mul_s(a.y, b.y)), fx_mul_s(a.z, b.z))
}

pub open spec fn v3_cross_s(a: Vec3, b: Vec3) -> Vec3 {
    Vec3 {
        x: fx_sub_s(fx_mul_s(a.y, b.z), fx_mul_s(a.z, b.y)),
        y: fx_sub_s(fx_mul_s(a.z, b.x), fx_mul_s(a.x, b.z)),
        z: fx_sub_s(fx_mul_s(a.x, b.y), fx_mul_s(a.y, b.x)),
    }
}

pub open spec fn v3_norm_s(a: Vec3) -> Fx {
    fx_sqrt_s(v3_dot_s(a, a))
}

/// Euclidean distance, the error measure of the IK solvers.
pub open spec fn v3_dist_s(a: Vec3, b: Vec3) -> Fx {
    v3_norm_s(v3_sub_s(a, b))
}

pub open spec fn quat_identity_s() -> Quat {
    Quat { x: Fx { raw: 0 }, y: Fx { raw: 0 }, z: Fx { raw: 0 }, w: Fx { raw: FX_ONE } }
}

/// Hamilton product: the rotation `a` followed locally by `b`.
pub open spec fn quat_mul_s(a: Quat, b: Quat) -> Quat {
    Quat {
        x: fx_sub_s(
            fx_add_s(fx_add_s(fx_mul_s(a.w, b.x), fx_mul_s(a.x, b.w)), fx_mul_s(a.y, b.z)),
            fx_mul_s(a.z, b.y),
        ),
        y: fx_sub_s(
            fx_add_s(fx_add_s(fx_mul_s(a.w, b.y), fx_mul_s(a.y, b.w)), fx_mul_s(a.z, b.x)),
            fx_mul_s(a.x, b.z),
        ),
        z: fx_sub_s(
            fx_add_s(fx_add_s(fx_mul_s(a.w, b.z), fx_mul_s(a.z, b.w)), fx_mul_s(a.x, b.y)),
            fx_mul_s(a.y, b.x),
        ),
        w: fx_sub_s(
            fx_sub_s(fx_sub_s(fx_mul_s(a.w, b.w), fx_mul_s(a.x, b.x)), fx_mul_s(a.y, b.y)),
            fx_mul_s(a.z, b.z),
        ),
    }
}

/// Conjugate; the inverse rotation for (approximately) unit quaternions.
pub open spec fn quat_conj_s(a: Quat) -> Quat {
    Quat { x: fx_neg_s(a.x), y: fx_neg_s(a.y), z: fx_neg_s(a.z), w: a.w }
}

/// Rotate a vector: `v + w*t + qv x t` with `t = 2 (qv x v)`.
pub open spec fn quat_rotate_s(q: Quat, v: Vec3) -> Vec3 {
    let qv = Vec3 { x: q.x, y: q.y, z: q.z };
    let t1 = v3_cross_s(qv, v);
    let t = v3_add_s(t1, t1);
    v3_add_s(v3_add_s(v, v3_scale_s(t, q.w)), v3_cross_s(qv, t))
}

pub open spec fn quat_len_s(a: Quat) -> Fx {
    fx_sqrt_s(
        fx_add_s(
            fx_add_s(fx_add_s(fx_mul_s(a.x, a.x), fx_mul_s(a.y, a.y)), fx_mul_s(a.z, a.z)),
            fx_mul_s(a.w, a.w),
        ),
    )
}

/// The shortest-arc rotation carrying direction `a` onto direction `b`:
/// the normalization of `(a x b, |a||b| + a . b)`. `None` when that
/// quaternion vanishes (a degenerate or anti-parallel pair).
pub open spec fn rotation_between_s(a: Vec3, b: Vec3) -> Option<Quat> {
    let c = v3_cross_s(a, b);
    let w = fx_add_s(fx_mul_s(v3_norm_s(a), v3_norm_s(b)), v3_dot_s(a, b));
    let q = Quat { x: c.x, y: c.y, z: c.z, w: w };
    let n = quat_len_s(q);
    if n.raw == 0 {
        None
    } else {
        Some(
            Quat {
                x: fx_div_s(q.x, n),
                y: fx_div_s(q.y, n),
                z: fx_div_s(q.z, n),
                w: fx_div_s(q.w, n),
            },
        )
    }
}

pub open spec fn iso_identity_s() -> Iso3 {
    Iso3 {
        rotation: quat_identity_s(),
        translation: Vec3 { x: Fx { raw: 0 }, y: Fx { raw: 0 }, z: Fx { raw: 0 } },
    }
}

/// Composition: apply `b` in the local frame of `a`.
pub open spec fn iso_mul_s(a: Iso3, b: Iso3) -> Iso3 {
    Iso3 {
        rotation: quat_mul_s(a.rotation, b.rotation),
        translation: v3_add_s(a.translation, quat_rotate_s(a.rotation, b.translation)),
    }
}

/// The transform applied to a point.
pub open spec fn iso_transform_s(a: Iso3, p: Vec3) -> Vec3 {
    v3_add_s(quat_rotate_s(a.rotation, p), a.translation)
}

/// The inverse transform applied to a point (conjugate rotation).
pub open spec fn iso_inv_transform_s(a: Iso3, p: Vec3) -> Vec3 {
    quat_rotate_s(quat_conj_s(a.rotation), v3_sub_s(p, a.translation))
}

/// Right-multiplication of the rotation part only: a rotation about the
/// transform's own origin.
pub open spec fn iso_rotated_s(a: Iso3, q: Quat) -> Iso3 {
    Iso3 { rotation: quat_mul_s(a.rotation, q), translation: a.translation }
}

/// Left-multiplication by a rotation: re-places the transform within its
/// parent frame (both parts are rotated).
pub open spec fn iso_prerotated_s(a: Iso3, q: Quat) -> Iso3 {
    Iso3 { rotation: quat_mul_s(q, a.rotation), translation: quat_rotate_s(q, a.translation) }
}

/// Translation of the transform's own position.
pub open spec fn iso_translated_s(a: Iso3, t: Vec3) -> Iso3 {
    Iso3 { rotation: a.rotation, translation: v3_add_s(a.translation, t) }
}

impl Vec3 {
    pub fn new(x: Fx, y: Fx, z: Fx) -> (r: Vec3)
        ensures
            r == (Vec3 { x, y, z }),
    {
        Vec3 { x, y, z }
    }

    pub fn zero() -> (r: Vec3)
        ensures
            r == (Vec3 { x: Fx { raw: 0 }, y: Fx { raw: 0 }, z: Fx { raw: 0 } }),
    {
        Vec3 { x: Fx { raw: 0 }, y: Fx { raw: 0 }, z: Fx { raw: 0 } }
    }

    pub fn add(self, o: Vec3) -> (r: Vec3)
        ensures
            r == v3_add_s(self, o),
    {
        Vec3 { x: self.x.add(o.x), y: self.y.add(o.y), z: self.z.add(o.z) }
    }

    pub fn sub(self, o: Vec3) -> (r: Vec3)
        ensures
            r == v3_sub_s(self, o),
    {
        Vec3 { x: self.x.sub(o.x), y: self.y.sub(o.y), z: self.z.sub(o.z) }
    }

    pub fn neg(self) -> (r: Vec3)
        ensures
            r == v3_neg_s(self),
    {
        Vec3 { x: self.x.neg(), y: self.y.neg(), z: self.z.neg() }
    }

    pub fn scale(self, f: Fx) -> (r: Vec3)
        ensures
            r == v3_scale_s(self, f),
    {
        Vec3 { x: self.x.mul(f), y: self.y.mul(f), z: self.z.mul(f) }
    }

    pub fn div_count(self, n: usize) -> (r: Vec3)
        requires
            n >= 1,
        ensures
            r == v3_div_n_s(self, n as int),
    {
        Vec3 { x: self.x.div_count(n), y: self.y.div_count(n), z: self.z.div_count(n) }
    }

    pub fn dot(self, o: Vec3) -> (r: Fx)
        ensures
            r == v3_dot_s(self, o),
    {
        self.x.mul(o.x).add(self.y.mul(o.y)).add(self.z.mul(o.z))
    }

    pub fn cross(self, o: Vec3) -> (r: Vec3)
        ensures
            r == v3_cross_s(self, o),
    {
        Vec3 {
            x: self.y.mul(o.z).sub(self.z.mul(o.y)),
            y: self.z.mul(o.x).sub(self.x.mul(o.z)),
            z: self.x.mul(o.y).sub(self.y.mul(o.x)),
        }
    }

    pub fn norm(self) -> (r: Fx)
        ensures
            r == v3_norm_s(self),
    {
        self.dot(self).sqrt()
    }

    pub fn dist(self, o: Vec3) -> (r: Fx)
        ensures
            r == v3_dist_s(self, o),
    {
        self.sub(o).norm()
    }
}

impl Quat {
    pub fn identity() -> (r: Quat)
        ensures
            r == quat_identity_s(),
    {
        Quat { x: Fx { raw: 0 }, y: Fx { raw: 0 }, z: Fx { raw: 0 }, w: Fx { raw: FX_ONE } }
    }

    pub fn mul(self, o: Quat) -> (r: Quat)
        ensures
            r == quat_mul_s(self, o),
    {
        Quat {
            x: self.w.mul(o.x).add(self.x.mul(o.w)).add(self.y.mul(o.z)).sub(self.z.mul(o.y)),
            y: self.w.mul(o.y).add(self.y.mul(o.w)).add(self.z.mul(o.x)).sub(self.x.mul(o.z)),
            z: self.w.mul(o.z).add(self.z.mul(o.w)).add(self.x.mul(o.y)).sub(self.y.mul(o.x)),
            w: self.w.mul(o.w).sub(self.x.mul(o.x)).sub(self.y.mul(o.y)).sub(self.z.mul(o.z)),
        }
    }

    pub fn conj(self) -> (r: Quat)
        ensures
            r == quat_conj_s(self),
    {
        Quat { x: self.x.neg(), y: self.y.neg(), z: self.z.neg(), w: self.w }
    }

    pub fn rotate(self, v: Vec3) -> (r: Vec3)
        ensures
            r == quat_rotate_s(self, v),
    {
        let qv = Vec3 { x: self.x, y: self.y, z: self.z };
        let t1 = qv.cross(v);
        let t = t1.add(t1);
        v.add(t.scale(self.w)).add(qv.cross(t))
    }

    pub fn len(self) -> (r: Fx)
        ensures
            r == quat_len_s(self),
    {
        self.x.mul(self.x).add(self.y.mul(self.y)).add(self.z.mul(self.z)).add(
            self.w.mul(self.w),
        ).sqrt()
    }

    /// The shortest-arc rotation from `a` to `b`, if defined.
    pub fn rotation_between(a: Vec3, b: Vec3) -> (r: Option<Quat>)
        ensures
            r == rotation_between_s(a, b),
    {
        let c = a.cross(b);
        let w = a.norm().mul(b.norm()).add(a.dot(b));
        let q = Quat { x: c.x, y: c.y, z: c.z, w: w };
        let n = q.len();
        if n.raw == 0 {
            None
        } else {
            Some(Quat { x: q.x.div(n), y: q.y.div(n), z: q.z.div(n), w: q.w.div(n) })
        }
    }
}

impl Iso3 {
    pub fn identity() -> (r: Iso3)
        ensures
            r == iso_identity_s(),
    {
        Iso3 { rotation: Quat::identity(), translation: Vec3::zero() }
    }

    pub fn compose(self, o: Iso3) -> (r: Iso3)
        ensures
            r == iso_mul_s(self, o),
    {
        Iso3 {
            rotation: self.rotation.mul(o.rotation),
            translation: self.translation.add(self.rotation.rotate(o.translation)),
        }
    }

    pub fn transform(self, p: Vec3) -> (r: Vec3)
        ensures
            r == iso_transform_s(self, p),
    {
        self.rotation.rotate(p).add(self.translation)
    }

    pub fn inv_transform(self, p: Vec3) -> (r: Vec3)
        ensures
            r == iso_inv_transform_s(self, p),
    {
        self.rotation.conj().rotate(p.sub(self.translation))
    }

    pub fn rotated_by(self, q: Quat) -> (r: Iso3)
        ensures
            r == iso_rotated_s(self, q),
    {
        Iso3 { rotation: self.rotation.mul(q), translation: self.translation }
    }

    pub fn prerotated_by(self, q: Quat) -> (r: Iso3)
        ensures
            r == iso_prerotated_s(self, q),
    {
        Iso3 { rotation: q.mul(self.rotation), translation: q.rotate(self.translation) }
    }

    pub fn translated_by(self, t: Vec3) -> (r: Iso3)
        ensures
            r == iso_translated_s(self, t),
    {
        Iso3 { rotation: self.rotation, translation: self.translation.add(t) }
    }
}

} // verus!
