//! Integer grid coordinates with the Manhattan metric.

use vstd::prelude::*;

verus! {

/// A cell coordinate, or an offset between two cells: row `y`, column `x`.
#[derive(PartialEq, Eq, Structural, PartialOrd, Ord, Hash, Clone, Copy, Debug)]
pub struct Location {
    pub y: i32,
    pub x: i32,
}

/// Absolute value of a mathematical integer.
pub open spec fn abs_int(v: int) -> int {
    if v < 0 {
        -v
    } else {
        v
    }
}

/// Manhattan distance between two locations, as an unbounded integer.
pub open spec fn manhattan(a: Location, b: Location) -> int {
    abs_int(a.y - b.y) + abs_int(a.x - b.x)
}

/// The origin, which is also the zero offset.
pub open spec fn origin() -> Location {
    Location { y: 0, x: 0 }
}

/// The location with the row-major flattened index `i` on a grid `width` cells
/// wide: row `i / width`, column `i % width`, each cut to 32 bits.
pub open spec fn index_location(i: u32, width: u32) -> Location {
    Location { y: (i / width) as i32, x: (i % width) as i32 }
}

impl Location {
    /// Manhattan distance from `self` to `other`.
    pub fn distance_to(&self, other: &Location) -> (d: u32)
        requires
            manhattan(*self, *other) <= u32::MAX,
        ensures
            d == manhattan(*self, *other),
    {
        let dy: i64 = self.y as i64 - other.y as i64;
        let dx: i64 = self.x as i64 - other.x as i64;
        let ady: i64 = if dy < 0 { -dy } else { dy };
        let adx: i64 = if dx < 0 { -dx } else { dx };
        (ady + adx) as u32
    }

    /// Manhattan distance from the origin to `self`.
    pub fn norm(&self) -> (n: u32)
        requires
            manhattan(*self, origin()) <= u32::MAX,
        ensures
            n == manhattan(*self, origin()),
            n == abs_int(self.y as int) + abs_int(self.x as int),
    {
        let y: i64 = self.y as i64;
        let x: i64 = self.x as i64;
        let ay: i64 = if y < 0 { -y } else { y };
        let ax: i64 = if x < 0 { -x } else { x };
        (ay + ax) as u32
    }

    /// Decodes a row-major flattened index on a grid `width` cells wide.
    ///
    /// A quotient or remainder above `i32::MAX` is cut to 32 bits by the cast.
    pub fn from_index(i: u32, width: u32) -> (loc: Location)
        requires
            width > 0,
        ensures
            loc == index_location(i, width),
            i / width <= i32::MAX ==> loc.y == i as int / width as int,
            i % width <= i32::MAX ==> loc.x == i as int % width as int,
    {
        Location {
            y: #[verifier::truncate] ((i / width) as i32),
            x: #[verifier::truncate] ((i % width) as i32),
        }
    }

    /// Component-wise sum of two locations.
    pub fn add(&self, other: &Location) -> (sum: Location)
        requires
            i32::MIN <= self.y + other.y <= i32::MAX,
            i32::MIN <= self.x + other.x <= i32::MAX,
        ensures
            sum.y == self.y + other.y,
            sum.x == self.x + other.x,
    {
        Location { y: self.y + other.y, x: self.x + other.x }
    }

    /// Component-wise difference of two locations.
    pub fn sub(&self, other: &Location) -> (diff: Location)
        requires
            i32::MIN <= self.y - other.y <= i32::MAX,
            i32::MIN <= self.x - other.x <= i32::MAX,
        ensures
            diff.y == self.y - other.y,
            diff.x == self.x - other.x,
    {
        Location { y: self.y - other.y, x: self.x - other.x }
    }
}

/// Decoding the flattened index of a cell gives the cell back: for a grid
/// `width` cells wide, row `y` and column `x` inside that width.
pub proof fn lemma_from_index_round_trip(y: i32, x: i32, width: u32)
    requires
        width > 0,
        0 <= y,
        0 <= x < width,
        y * width + x <= u32::MAX,
    ensures
        index_location((y * width + x) as u32, width) == (Location { y, x }),
{
    vstd::arithmetic::div_mod::lemma_fundamental_div_mod_converse(
        y * width + x,
        width as int,
        y as int,
        x as int,
    );
}

/// The distance from a location to itself is zero, and only to itself.
pub proof fn lemma_distance_zero_iff_equal(a: Location, b: Location)
    ensures
        manhattan(a, b) >= 0,
        manhattan(a, b) == 0 <==> a == b,
{
}

/// The distance does not depend on the direction in which it is measured.
pub proof fn lemma_distance_symmetric(a: Location, b: Location)
    ensures
        manhattan(a, b) == manhattan(b, a),
{
}

/// Going through a third location is never shorter.
pub proof fn lemma_distance_triangle(a: Location, b: Location, c: Location)
    ensures
        manhattan(a, c) <= manhattan(a, b) + manhattan(b, c),
{
}

/// Whether `v` lists `c`.
pub fn contains_location(v: &Vec<Location>, c: Location) -> (found: bool)
    ensures
        found == v@.contains(c),
{
    let mut i: usize = 0;
    while i < v.len()
        invariant
            i <= v.len(),
            forall|k: int| 0 <= k < i ==> v@[k] != c,
        decreases v.len() - i,
    {
        if v[i] == c {
            return true;
        }
        i += 1;
    }
    false
}

/// Whether some location is listed both in `a` and in `b`.
pub fn intersects(a: &Vec<Location>, b: &Vec<Location>) -> (found: bool)
    ensures
        found == exists|c: Location| a@.contains(c) && b@.contains(c),
{
    let mut i: usize = 0;
    while i < a.len()
        invariant
            i <= a.len(),
            forall|k: int| 0 <= k < i ==> !b@.contains(#[trigger] a@[k]),
        decreases a.len() - i,
    {
        if contains_location(b, a[i]) {
            assert(a@.contains(a@[i as int]));
            return true;
        }
        i += 1;
    }
    false
}

/// A copy of `v` in the same order.
pub fn copy_locations(v: &Vec<Location>) -> (r: Vec<Location>)
    ensures
        r@ == v@,
{
    let mut r: Vec<Location> = Vec::new();
    let mut i: usize = 0;
    while i < v.len()
        invariant
            i <= v.len(),
            r@ == v@.take(i as int),
        decreases v.len() - i,
    {
        r.push(v[i]);
        assert(r@ =~= v@.take(i + 1));
        i += 1;
    }
    assert(v@.take(v.len() as int) =~= v@);
    r
}

/// The locations of `v`, each kept at its first occurrence only.
pub fn distinct_locations(v: &Vec<Location>) -> (r: Vec<Location>)
    ensures
        r@.no_duplicates(),
        forall|c: Location| r@.contains(c) <==> v@.contains(c),
        v@.no_duplicates() ==> r@ == v@,
{
    let mut r: Vec<Location> = Vec::new();
    let mut i: usize = 0;
    while i < v.len()
        invariant
            i <= v.len(),
            r@.no_duplicates(),
            forall|c: Location| r@.contains(c) <==> v@.take(i as int).contains(c),
            v@.no_duplicates() ==> r@ == v@.take(i as int),
        decreases v.len() - i,
    {
        let c = v[i];
        let ghost before = r@;
        let ghost s0 = v@.take(i as int);
        let ghost s1 = v@.take(i + 1);
        let seen = contains_location(&r, c);
        if !seen {
            r.push(c);
        }
        proof {
            assert(s1 =~= s0.push(c));
            assert forall|d: Location| r@.contains(d) <==> s1.contains(d) by {
                if before.contains(d) {
                    let k = choose|k: int| 0 <= k < before.len() && before[k] == d;
                    assert(r@[k] == d);
                }
                if s0.contains(d) {
                    let k = choose|k: int| 0 <= k < s0.len() && s0[k] == d;
                    assert(s1[k] == d);
                }
                if d == c {
                    assert(s1[i as int] == c);
                    if !seen {
                        assert(r@[before.len() as int] == c);
                    }
                }
                if s1.contains(d) {
                    let k = choose|k: int| 0 <= k < s1.len() && s1[k] == d;
                    if k < i {
                        assert(s0[k] == d);
                    }
                }
            }
            if v@.no_duplicates() {
                if seen {
                    let k = choose|k: int| 0 <= k < s0.len() && s0[k] == c;
                    assert(v@[k] == v@[i as int]);
                }
                assert(r@ =~= s1);
            }
        }
        i += 1;
    }
    assert(v@.take(v.len() as int) =~= v@);
    r
}

} // verus!
