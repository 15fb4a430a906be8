//! Axial hex-coordinate geometry: the coordinate type, the hex distance
//! metric, and the enumeration of every cell of a hexagonal board.

use vstd::prelude::*;

verus! {

/// An axial hex coordinate `(q, r)` identifying one cell of the board's
/// hexagonal tiling. Equality is structural; the value is immutable.
#[derive(Clone, Copy, Debug, PartialEq, Eq, Structural)]
pub struct HexCoordinate {
    pub q: i32,
    pub r: i32,
}

impl HexCoordinate {
    /// The board origin `(0, 0)`.
    pub open spec fn spec_origin() -> HexCoordinate {
        HexCoordinate { q: 0, r: 0 }
    }

    /// Returns the board origin `(0, 0)`.
    pub fn origin() -> (c: HexCoordinate)
        ensures
            c == Self::spec_origin(),
    {
        HexCoordinate { q: 0, r: 0 }
    }
}

/// The axial hex distance between two coordinates: the number of single-cell
/// steps needed to walk from one to the other. Two coordinates are neighbors
/// exactly when their distance is 1.
pub open spec fn hex_dist(a: HexCoordinate, b: HexCoordinate) -> int {
    let dq = a.q - b.q;
    let dr = a.r - b.r;
    vstd::math::max(
        vstd::math::max(vstd::math::abs(dq) as int, vstd::math::abs(dr) as int),
        vstd::math::abs(dq + dr) as int,
    )
}

/// The number of cells of a hexagonal board of the given radius: the center
/// plus `radius` full rings around it.
pub open spec fn hex_count(radius: int) -> int {
    3 * radius * radius + 3 * radius + 1
}

/// Relies on `hexx::shapes::hexagon` (that is, `hexx::Hex::range`): its nested
/// enumeration yields, exactly once each, every offset `(dq, dr)` with
/// `-radius <= dq, dr, dq + dr <= radius` added to `center`, which is exactly
/// every coordinate within `radius` of `center`; its documentation gives the
/// count as `3 * radius * (radius + 1) + 1`. The bounds on `center` and
/// `radius` keep hexx's internal `i32` and `u32` arithmetic from overflowing.
#[verifier::external_body]
pub(crate) fn cells_in_radius(center: HexCoordinate, radius: u32) -> (cells: Vec<HexCoordinate>)
    requires
        radius <= 10_000,
        -1_000_000_000 <= center.q <= 1_000_000_000,
        -1_000_000_000 <= center.r <= 1_000_000_000,
    ensures
        cells@.len() == hex_count(radius as int),
        forall|i: int| 0 <= i < cells@.len() ==> hex_dist(#[trigger] cells@[i], center) <= radius,
        forall|i: int, j: int| 0 <= i < j < cells@.len() ==> cells@[i] != cells@[j],
        forall|c: HexCoordinate| hex_dist(c, center) <= radius ==> cells@.contains(c),
{
    hexx::shapes::hexagon(hexx::Hex::new(center.q, center.r), radius)
        .map(|h: hexx::Hex| HexCoordinate { q: h.x, r: h.y })
        .collect()
}

} // verus!
