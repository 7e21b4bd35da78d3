//! Integer coordinates on the cell grid.

use vstd::prelude::*;

verus! {

/// A position on the grid, or a displacement between two positions.
#[derive(Debug, Clone, Copy, PartialEq, Eq, Hash, Structural)]
pub struct Vec2 {
    pub x: i16,
    pub y: i16,
}

/// Why a division of two vectors has no result.
#[derive(Debug, Clone, Copy, PartialEq, Eq, Structural)]
pub enum DivError {
    /// A component of the divisor is zero.
    DivisionByZero,
    /// A quotient does not fit in a component (`i16::MIN / -1`).
    Overflow,
}

/// The 16-bit two's complement number that `v` wraps to.
pub open spec fn wrap16(v: int) -> int {
    let r = v % 65536;
    if r > 32767 {
        r - 65536
    } else {
        r
    }
}

/// Whether `v` is a value of a component.
pub open spec fn fits_i16(v: int) -> bool {
    -32768 <= v <= 32767
}

/// The quotient of `a` by `b` rounded toward zero.
pub open spec fn trunc_div(a: int, b: int) -> int
    recommends
        b != 0,
{
    if a >= 0 && b > 0 {
        a / b
    } else if a >= 0 {
        -(a / (-b))
    } else if b > 0 {
        -((-a) / b)
    } else {
        (-a) / (-b)
    }
}

/// The outcome of dividing one component by another.
pub open spec fn div_component(a: int, b: int) -> Result<int, DivError> {
    if b == 0 {
        Err(DivError::DivisionByZero)
    } else if !fits_i16(trunc_div(a, b)) {
        Err(DivError::Overflow)
    } else {
        Ok(trunc_div(a, b))
    }
}

/// `num::ToPrimitive::to_i16` for an `i64`: the same number as an `i16`
/// where it lies in the range of `i16`, and `None` everywhere else.
#[verifier::external_body]
fn to_i16(v: i64) -> (r: Option<i16>)
    ensures
        fits_i16(v as int) ==> r == Some(v as i16),
        !fits_i16(v as int) ==> r.is_none(),
{
    num::cast::ToPrimitive::to_i16(&v)
}

fn div_i16(a: i16, b: i16) -> (r: Result<i16, DivError>)
    ensures
        match div_component(a as int, b as int) {
            Ok(q) => r == Ok::<i16, DivError>(q as i16),
            Err(e) => r == Err::<i16, DivError>(e),
        },
{
    if b == 0 {
        return Err(DivError::DivisionByZero);
    }
    match a.checked_div(b) {
        Some(q) => Ok(q),
        None => Err(DivError::Overflow),
    }
}

impl Vec2 {
    /// The origin.
    pub fn zero() -> (v: Vec2)
        ensures
            v.x == 0,
            v.y == 0,
    {
        Vec2 { x: 0, y: 0 }
    }

    /// The vector with the given components.
    pub fn new(x: i64, y: i64) -> (v: Vec2)
        requires
            fits_i16(x as int),
            fits_i16(y as int),
        ensures
            v.x == x,
            v.y == y,
    {
        let vx = to_i16(x);
        let vy = to_i16(y);
        Vec2 { x: vx.unwrap(), y: vy.unwrap() }
    }

    /// Componentwise sum, wrapping around at the ends of `i16`.
    pub fn add(self, rhs: Vec2) -> (v: Vec2)
        ensures
            v.x == wrap16(self.x + rhs.x),
            v.y == wrap16(self.y + rhs.y),
    {
        Vec2 { x: self.x.wrapping_add(rhs.x), y: self.y.wrapping_add(rhs.y) }
    }

    /// Componentwise difference, wrapping around at the ends of `i16`.
    pub fn sub(self, rhs: Vec2) -> (v: Vec2)
        ensures
            v.x == wrap16(self.x - rhs.x),
            v.y == wrap16(self.y - rhs.y),
    {
        Vec2 { x: self.x.wrapping_sub(rhs.x), y: self.y.wrapping_sub(rhs.y) }
    }

    /// Componentwise product, wrapping around at the ends of `i16`.
    pub fn mul(self, rhs: Vec2) -> (v: Vec2)
        ensures
            v.x == wrap16(self.x * rhs.x),
            v.y == wrap16(self.y * rhs.y),
    {
        Vec2 { x: self.x.wrapping_mul(rhs.x), y: self.y.wrapping_mul(rhs.y) }
    }

    /// Both components multiplied by `k`, wrapping around at the ends of `i16`.
    pub fn scale(self, k: i16) -> (v: Vec2)
        ensures
            v.x == wrap16(self.x * k),
            v.y == wrap16(self.y * k),
    {
        Vec2 { x: self.x.wrapping_mul(k), y: self.y.wrapping_mul(k) }
    }

    /// Componentwise quotient rounded toward zero. The first component that
    /// cannot be divided decides the error.
    pub fn div(self, rhs: Vec2) -> (r: Result<Vec2, DivError>)
        ensures
            match (div_component(self.x as int, rhs.x as int), div_component(self.y as int, rhs.y as int)) {
                (Ok(qx), Ok(qy)) => r matches Ok(v) && v.x == qx && v.y == qy,
                (Err(e), _) => r == Err::<Vec2, DivError>(e),
                (Ok(_), Err(e)) => r == Err::<Vec2, DivError>(e),
            },
    {
        let x = match div_i16(self.x, rhs.x) {
            Ok(q) => q,
            Err(e) => { return Err(e); },
        };
        match div_i16(self.y, rhs.y) {
            Ok(y) => Ok(Vec2 { x, y }),
            Err(e) => Err(e),
        }
    }

    /// Both components divided by `k`, rounded toward zero.
    pub fn div_scalar(self, k: i16) -> (r: Result<Vec2, DivError>)
        ensures
            match (div_component(self.x as int, k as int), div_component(self.y as int, k as int)) {
                (Ok(qx), Ok(qy)) => r matches Ok(v) && v.x == qx && v.y == qy,
                (Err(e), _) => r == Err::<Vec2, DivError>(e),
                (Ok(_), Err(e)) => r == Err::<Vec2, DivError>(e),
            },
    {
        self.div(Vec2 { x: k, y: k })
    }

    /// The opposite vector, wrapping around at the ends of `i16`.
    pub fn neg(self) -> (v: Vec2)
        ensures
            v.x == wrap16(-self.x),
            v.y == wrap16(-self.y),
    {
        Vec2 { x: (0i16).wrapping_sub(self.x), y: (0i16).wrapping_sub(self.y) }
    }
}

} // verus!
