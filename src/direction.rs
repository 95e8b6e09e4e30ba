use vstd::prelude::*;
use vstd::string::StringExecFns;

use crate::dungeon::{ErrorModel, Errors};
use crate::text::str_eq;

verus! {

/// One of the four directions in which a room can have a neighbour.
#[derive(Clone, Copy, Debug, PartialEq, Eq, Structural, Hash)]
pub enum Direction {
    North,
    South,
    East,
    West,
}

impl Direction {
    /// The direction pointing the other way.
    pub open spec fn spec_opposite(self) -> Direction {
        match self {
            Direction::North => Direction::South,
            Direction::South => Direction::North,
            Direction::East => Direction::West,
            Direction::West => Direction::East,
        }
    }

    /// The slot of this direction in a four-slot adjacency table.
    pub open spec fn spec_slot(self) -> int {
        match self {
            Direction::North => 0,
            Direction::South => 1,
            Direction::East => 2,
            Direction::West => 3,
        }
    }

    /// The exact token that names this direction in the text format.
    pub open spec fn spec_name(self) -> Seq<char> {
        match self {
            Direction::North => seq!['N', 'o', 'r', 't', 'h'],
            Direction::South => seq!['S', 'o', 'u', 't', 'h'],
            Direction::East => seq!['E', 'a', 's', 't'],
            Direction::West => seq!['W', 'e', 's', 't'],
        }
    }

    pub fn opposite(&self) -> (r: Direction)
        ensures
            r == self.spec_opposite(),
    {
        match self {
            Direction::North => Direction::South,
            Direction::South => Direction::North,
            Direction::East => Direction::West,
            Direction::West => Direction::East,
        }
    }

    pub fn slot(&self) -> (r: usize)
        ensures
            r as int == self.spec_slot(),
    {
        match self {
            Direction::North => 0,
            Direction::South => 1,
            Direction::East => 2,
            Direction::West => 3,
        }
    }
}

/// The direction whose token is exactly `s`, if any.
pub open spec fn parse_direction(s: Seq<char>) -> Option<Direction> {
    if s == Direction::North.spec_name() {
        Some(Direction::North)
    } else if s == Direction::South.spec_name() {
        Some(Direction::South)
    } else if s == Direction::East.spec_name() {
        Some(Direction::East)
    } else if s == Direction::West.spec_name() {
        Some(Direction::West)
    } else {
        None
    }
}

impl Direction {
    /// The token that names this direction: `North`, `South`, `East` or `West`.
    pub fn as_str(&self) -> (r: &'static str)
        ensures
            r@ == self.spec_name(),
    {
        proof {
            reveal_strlit("North");
            reveal_strlit("South");
            reveal_strlit("East");
            reveal_strlit("West");
        }
        match self {
            Direction::North => "North",
            Direction::South => "South",
            Direction::East => "East",
            Direction::West => "West",
        }
    }

    /// Reads a direction from its exact, case-sensitive token.
    pub fn from_token(s: &str) -> (r: Result<Direction, Errors>)
        ensures
            parse_direction(s@) matches Some(d) ==> r == Ok::<Direction, Errors>(d),
            parse_direction(s@) is None ==> (r matches Err(e) && e@ == ErrorModel::DirectionParseError(s@)),
    {
        let all = [Direction::North, Direction::South, Direction::East, Direction::West];
        let mut k: usize = 0;
        while k < 4
            invariant
                k <= 4,
                all@ == seq![Direction::North, Direction::South, Direction::East, Direction::West],
                forall|j: int| 0 <= j < k ==> s@ != (#[trigger] all@[j]).spec_name(),
            decreases 4 - k,
        {
            let d = all[k];
            if str_eq(s, d.as_str()) {
                return Ok(d);
            }
            k = k + 1;
        }
        assert(s@ != all@[0].spec_name() && s@ != all@[1].spec_name());
        assert(s@ != all@[2].spec_name() && s@ != all@[3].spec_name());
        Err(Errors::DirectionParseError(String::from_str(s)))
    }
}

impl core::str::FromStr for Direction {
    type Err = Errors;

    fn from_str(s: &str) -> Result<Direction, Errors> {
        Direction::from_token(s)
    }
}

/// Taking the opposite twice gives back the direction itself.
pub proof fn lemma_opposite_involution(d: Direction)
    ensures
        d.spec_opposite().spec_opposite() == d,
{
}

} // verus!
