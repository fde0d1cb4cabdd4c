use vstd::prelude::*;

verus! {

/// A two-component value, used for screen positions and resolutions.
#[derive(Debug, Clone, Copy, PartialEq, Eq)]
pub struct Vec2<T> {
    pub x: T,
    pub y: T,
}

/// A three-component value, used for points in world and in camera space.
#[derive(Debug, Clone, Copy, PartialEq, Eq)]
pub struct Vec3<T> {
    pub x: T,
    pub y: T,
    pub z: T,
}

impl<T> Vec2<T> {
    pub fn new(x: T, y: T) -> (r: Self)
        ensures
            r.x == x,
            r.y == y,
    {
        Vec2 { x, y }
    }
}

impl<T> Vec3<T> {
    pub fn new(x: T, y: T, z: T) -> (r: Self)
        ensures
            r.x == x,
            r.y == y,
            r.z == z,
    {
        Vec3 { x, y, z }
    }
}

/// `a / b` rounded toward zero, as Rust's integer division.
pub open spec fn quociente(a: int, b: int) -> int {
    let q = (if a < 0 { -a } else { a }) / (if b < 0 { -b } else { b });
    if (a < 0) == (b < 0) {
        q
    } else {
        -q
    }
}

/// The remainder that goes with [`quociente`]: `a - b * quociente(a, b)`.
pub open spec fn resto(a: int, b: int) -> int {
    a - b * quociente(a, b)
}

fn dividir(a: i32, b: i32) -> (r: (i64, i64))
    requires
        b != 0,
    ensures
        r.0 == quociente(a as int, b as int),
        r.1 == resto(a as int, b as int),
{
    let ua: u64 = if a < 0 {
        (-(a as i64)) as u64
    } else {
        a as u64
    };
    let ub: u64 = if b < 0 {
        (-(b as i64)) as u64
    } else {
        b as u64
    };
    let q = (ua / ub) as i64;
    let q = if (a < 0) == (b < 0) {
        q
    } else {
        -q
    };
    assert(-0x8000_0000 <= q <= 0x8000_0000) by {
        vstd::arithmetic::div_mod::lemma_div_is_ordered_by_denominator(ua as int, 1, ub as int);
    }
    assert(-0x4000_0000_0000_0000 <= (b as int) * (q as int) <= 0x4000_0000_0000_0000) by (nonlinear_arith)
        requires
            -0x8000_0000 <= q <= 0x8000_0000,
            -0x8000_0000 <= b <= 0x8000_0000,
    ;
    (q, a as i64 - (b as i64) * q)
}

impl Vec2<i32> {
    /// Componentwise sum, widened so that it cannot overflow.
    pub fn mais(self, o: Vec2<i32>) -> (r: Vec2<i64>)
        ensures
            r.x == self.x + o.x,
            r.y == self.y + o.y,
    {
        Vec2 { x: self.x as i64 + o.x as i64, y: self.y as i64 + o.y as i64 }
    }

    /// Componentwise difference, widened so that it cannot overflow.
    pub fn menos(self, o: Vec2<i32>) -> (r: Vec2<i64>)
        ensures
            r.x == self.x - o.x,
            r.y == self.y - o.y,
    {
        Vec2 { x: self.x as i64 - o.x as i64, y: self.y as i64 - o.y as i64 }
    }
}

impl Vec3<i32> {
    /// Componentwise product, widened so that it cannot overflow.
    pub fn vezes(self, o: Vec3<i32>) -> (r: Vec3<i64>)
        ensures
            r.x == self.x * o.x,
            r.y == self.y * o.y,
            r.z == self.z * o.z,
    {
        assert(-0x4000_0000_0000_0000 <= (self.x as int) * (o.x as int) <= 0x4000_0000_0000_0000) by (nonlinear_arith)
            requires
                i32::MIN <= self.x <= i32::MAX,
                i32::MIN <= o.x <= i32::MAX,
        ;
        assert(-0x4000_0000_0000_0000 <= (self.y as int) * (o.y as int) <= 0x4000_0000_0000_0000) by (nonlinear_arith)
            requires
                i32::MIN <= self.y <= i32::MAX,
                i32::MIN <= o.y <= i32::MAX,
        ;
        assert(-0x4000_0000_0000_0000 <= (self.z as int) * (o.z as int) <= 0x4000_0000_0000_0000) by (nonlinear_arith)
            requires
                i32::MIN <= self.z <= i32::MAX,
                i32::MIN <= o.z <= i32::MAX,
        ;
        Vec3 { x: self.x as i64 * o.x as i64, y: self.y as i64 * o.y as i64, z: self.z as i64 * o.z as i64 }
    }

    /// Componentwise quotient rounded toward zero; no component of `o` is zero.
    pub fn dividido(self, o: Vec3<i32>) -> (r: Vec3<i64>)
        requires
            o.x != 0,
            o.y != 0,
            o.z != 0,
        ensures
            r.x == quociente(self.x as int, o.x as int),
            r.y == quociente(self.y as int, o.y as int),
            r.z == quociente(self.z as int, o.z as int),
    {
        Vec3 { x: dividir(self.x, o.x).0, y: dividir(self.y, o.y).0, z: dividir(self.z, o.z).0 }
    }

    /// Componentwise remainder of [`Vec3::dividido`]; no component of `o` is zero.
    pub fn resto(self, o: Vec3<i32>) -> (r: Vec3<i64>)
        requires
            o.x != 0,
            o.y != 0,
            o.z != 0,
        ensures
            r.x == resto(self.x as int, o.x as int),
            r.y == resto(self.y as int, o.y as int),
            r.z == resto(self.z as int, o.z as int),
    {
        Vec3 { x: dividir(self.x, o.x).1, y: dividir(self.y, o.y).1, z: dividir(self.z, o.z).1 }
    }

    /// Componentwise difference `self - o`, widened so that it cannot overflow.
    pub fn menos(self, o: Vec3<i32>) -> (r: Vec3<i64>)
        ensures
            r.x == self.x - o.x,
            r.y == self.y - o.y,
            r.z == self.z - o.z,
    {
        Vec3 {
            x: self.x as i64 - o.x as i64,
            y: self.y as i64 - o.y as i64,
            z: self.z as i64 - o.z as i64,
        }
    }

    /// Componentwise sum `self + o`, widened so that it cannot overflow.
    pub fn mais(self, o: Vec3<i32>) -> (r: Vec3<i64>)
        ensures
            r.x == self.x + o.x,
            r.y == self.y + o.y,
            r.z == self.z + o.z,
    {
        Vec3 {
            x: self.x as i64 + o.x as i64,
            y: self.y as i64 + o.y as i64,
            z: self.z as i64 + o.z as i64,
        }
    }
}

} // verus!
