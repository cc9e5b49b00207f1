use vstd::prelude::*;

verus! {

/// The eight compass directions in which coordinate descent moves a sample.
#[derive(Debug, Clone, Copy, PartialEq, Eq, Structural)]
pub enum CDDirection {
    N,
    E,
    S,
    W,
    NE,
    NW,
    SE,
    SW,
}

/// Horizontal component of a direction: east is `1`, west is `-1`.
pub open spec fn dx(d: CDDirection) -> int {
    match d {
        CDDirection::E | CDDirection::NE | CDDirection::SE => 1,
        CDDirection::W | CDDirection::NW | CDDirection::SW => -1,
        CDDirection::N | CDDirection::S => 0,
    }
}

/// Vertical component of a direction: north is `1`, south is `-1`.
pub open spec fn dy(d: CDDirection) -> int {
    match d {
        CDDirection::N | CDDirection::NE | CDDirection::NW => 1,
        CDDirection::S | CDDirection::SE | CDDirection::SW => -1,
        CDDirection::E | CDDirection::W => 0,
    }
}

/// The direction with components `(x, y)`, for `(x, y)` a non-zero vector
/// of `{-1, 0, 1}`.
pub open spec fn direction(x: int, y: int) -> CDDirection {
    if x == 0 {
        if y > 0 { CDDirection::N } else { CDDirection::S }
    } else if x > 0 {
        if y > 0 { CDDirection::NE } else if y < 0 { CDDirection::SE } else { CDDirection::E }
    } else {
        if y > 0 { CDDirection::NW } else if y < 0 { CDDirection::SW } else { CDDirection::W }
    }
}

/// Cardinal directions first (north, east, south, west), then the diagonals
/// (north-east, north-west, south-east, south-west).
pub open spec fn all_directions_seq() -> Seq<CDDirection> {
    seq![
        direction(0, 1),
        direction(1, 0),
        direction(0, -1),
        direction(-1, 0),
        direction(1, 1),
        direction(-1, 1),
        direction(1, -1),
        direction(-1, -1),
    ]
}

/// A direction followed by the two directions 45 degrees away from it.
/// For a cardinal direction these are the diagonals that share its component,
/// the eastern (resp. northern) one first; for a diagonal they are its
/// vertical component, then its horizontal one.
pub open spec fn neighbors(d: CDDirection) -> Seq<CDDirection> {
    if dx(d) == 0 {
        seq![d, direction(1, dy(d)), direction(-1, dy(d))]
    } else if dy(d) == 0 {
        seq![d, direction(dx(d), 1), direction(dx(d), -1)]
    } else {
        seq![d, direction(0, dy(d)), direction(dx(d), 0)]
    }
}

/// Distance between two integers.
pub open spec fn abs_diff(a: int, b: int) -> int {
    if a >= b { a - b } else { b - a }
}

/// A direction is determined by its components, which form a non-zero
/// vector of `{-1, 0, 1}`.
pub proof fn lemma_direction_components(d: CDDirection)
    ensures
        direction(dx(d), dy(d)) == d,
        -1 <= dx(d) <= 1,
        -1 <= dy(d) <= 1,
        dx(d) != 0 || dy(d) != 0,
{
}

/// Every direction occurs exactly once among all directions.
pub proof fn lemma_all_directions_each_once(d: CDDirection)
    ensures
        all_directions_seq().len() == 8,
        all_directions_seq().contains(d),
        forall|i: int, j: int|
            0 <= i < j < 8 ==> all_directions_seq()[i] != all_directions_seq()[j],
{
    let s = all_directions_seq();
    match d {
        CDDirection::N => assert(s[0] == d),
        CDDirection::E => assert(s[1] == d),
        CDDirection::S => assert(s[2] == d),
        CDDirection::W => assert(s[3] == d),
        CDDirection::NE => assert(s[4] == d),
        CDDirection::NW => assert(s[5] == d),
        CDDirection::SE => assert(s[6] == d),
        CDDirection::SW => assert(s[7] == d),
    }
}

/// The neighbours of a direction are three distinct directions, the first
/// being the direction itself, each of them one unit step away in one
/// component (or equal to it); neighbourhood is symmetric.
pub proof fn lemma_neighbors_adjacent(d: CDDirection, e: CDDirection)
    ensures
        neighbors(d).len() == 3,
        neighbors(d)[0] == d,
        neighbors(d)[0] != neighbors(d)[1],
        neighbors(d)[0] != neighbors(d)[2],
        neighbors(d)[1] != neighbors(d)[2],
        neighbors(d).contains(e) ==> abs_diff(dx(e), dx(d)) + abs_diff(dy(e), dy(d)) <= 1,
        neighbors(d).contains(e) ==> neighbors(e).contains(d),
{
    let nd = neighbors(d);
    let ne = neighbors(e);
    if nd.contains(e) {
        let i = choose|i: int| 0 <= i < nd.len() && nd[i] == e;
        match d {
            CDDirection::N => {},
            CDDirection::E => {},
            CDDirection::S => {},
            CDDirection::W => {},
            CDDirection::NE => {},
            CDDirection::NW => {},
            CDDirection::SE => {},
            CDDirection::SW => {},
        }
        match e {
            CDDirection::N => {},
            CDDirection::E => {},
            CDDirection::S => {},
            CDDirection::W => {},
            CDDirection::NE => {},
            CDDirection::NW => {},
            CDDirection::SE => {},
            CDDirection::SW => {},
        }
        assert(ne[0] == d || ne[1] == d || ne[2] == d);
    }
}

impl CDDirection {
    /// All eight directions: the cardinal ones first, then the diagonals.
    pub fn all_directions() -> (dirs: [CDDirection; 8])
        ensures
            dirs@ == all_directions_seq(),
    {
        let dirs = [
            CDDirection::N,
            CDDirection::E,
            CDDirection::S,
            CDDirection::W,
            CDDirection::NE,
            CDDirection::NW,
            CDDirection::SE,
            CDDirection::SW,
        ];
        assert(dirs@ =~= all_directions_seq());
        dirs
    }

    /// This direction followed by the two directions 45 degrees away from it.
    pub fn neighboring(&self) -> (dirs: [CDDirection; 3])
        ensures
            dirs@ == neighbors(*self),
    {
        let dirs = match self {
            CDDirection::N => [CDDirection::N, CDDirection::NE, CDDirection::NW],
            CDDirection::E => [CDDirection::E, CDDirection::NE, CDDirection::SE],
            CDDirection::S => [CDDirection::S, CDDirection::SE, CDDirection::SW],
            CDDirection::W => [CDDirection::W, CDDirection::NW, CDDirection::SW],
            CDDirection::NE => [CDDirection::NE, CDDirection::N, CDDirection::E],
            CDDirection::NW => [CDDirection::NW, CDDirection::N, CDDirection::W],
            CDDirection::SW => [CDDirection::SW, CDDirection::S, CDDirection::W],
            CDDirection::SE => [CDDirection::SE, CDDirection::S, CDDirection::E],
        };
        assert(dirs@ =~= neighbors(*self));
        dirs
    }
}

} // verus!
