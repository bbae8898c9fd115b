use vstd::prelude::*;

verus! {

/// A hex cell address: axial planar coordinates `q`, `r` and a vertical level `z`.
#[derive(Debug, Clone, Copy, PartialEq, Eq, Hash, Structural)]
pub struct HexPosition {
    pub q: i32,
    pub r: i32,
    pub z: i32,
}

/// A cardinal direction on the hex plane.
#[derive(Debug, Clone, Copy, PartialEq, Eq, Structural)]
pub enum Direction {
    North,
    NorthEast,
    SouthEast,
    South,
    SouthWest,
    NorthWest,
}

pub open spec fn abs_int(x: int) -> int {
    if x < 0 {
        -x
    } else {
        x
    }
}

/// Combined travel distance: the cube-coordinate planar distance plus the
/// vertical difference.
pub open spec fn hex_distance(a: HexPosition, b: HexPosition) -> int {
    (abs_int(a.q - b.q) + abs_int((-a.q - a.r) - (-b.q - b.r)) + abs_int(a.r - b.r)) / 2
        + abs_int(a.z - b.z)
}

fn abs_i64(x: i64) -> (r: i64)
    requires
        x > i64::MIN,
    ensures
        r == abs_int(x as int),
{
    if x < 0 {
        -x
    } else {
        x
    }
}

/// The distance of two positions, computed without overflow for any coordinates.
pub(crate) fn distance_wide(a: &HexPosition, b: &HexPosition) -> (r: i64)
    ensures
        r == hex_distance(*a, *b),
        0 <= r <= 0x3_0000_0000,
{
    let dx = a.q as i64 - b.q as i64;
    let dy = (-(a.q as i64) - a.r as i64) - (-(b.q as i64) - b.r as i64);
    let dz = a.r as i64 - b.r as i64;
    let dh = a.z as i64 - b.z as i64;
    let planar = (abs_i64(dx) + abs_i64(dy) + abs_i64(dz)) / 2;
    planar + abs_i64(dh)
}

/// Whether `p` occurs in `s`.
pub(crate) fn contains_position(s: &Vec<HexPosition>, p: &HexPosition) -> (r: bool)
    ensures
        r == s@.contains(*p),
{
    let mut i: usize = 0;
    while i < s.len()
        invariant
            i <= s@.len(),
            forall|j: int| 0 <= j < i ==> s@[j] != *p,
        decreases s@.len() - i,
    {
        if s[i] == *p {
            assert(s@[i as int] == *p);
            return true;
        }
        i = i + 1;
    }
    false
}

impl HexPosition {
    pub fn new(q: i32, r: i32, z: i32) -> (p: HexPosition)
        ensures
            p == (HexPosition { q, r, z }),
    {
        HexPosition { q, r, z }
    }

    pub fn new_2d(q: i32, r: i32) -> (p: HexPosition)
        ensures
            p == (HexPosition { q, r, z: 0 }),
    {
        HexPosition { q, r, z: 0 }
    }

    /// Cube coordinates `(x, y, z)` with `x = q`, `z = r` and `y = -x - z`.
    pub fn cube_coords(&self) -> (c: (i32, i32, i32))
        requires
            i32::MIN <= -(self.q + self.r) <= i32::MAX,
        ensures
            c.0 == self.q,
            c.1 == -self.q - self.r,
            c.2 == self.r,
    {
        let y = (-(self.q as i64) - self.r as i64) as i32;
        (self.q, y, self.r)
    }

    /// Planar cube distance plus the vertical difference.
    pub fn distance(&self, other: &HexPosition) -> (d: i32)
        requires
            hex_distance(*self, *other) <= i32::MAX,
        ensures
            d == hex_distance(*self, *other),
    {
        distance_wide(self, other) as i32
    }
}

/// Every position is at distance zero from itself, and distance does not
/// depend on the order of its arguments.
pub proof fn lemma_distance_reflexive_symmetric(a: HexPosition, b: HexPosition)
    ensures
        hex_distance(a, a) == 0,
        hex_distance(a, b) == hex_distance(b, a),
{
}

} // verus!
