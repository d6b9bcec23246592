//! The five actions a hero can take on its turn.
use vstd::prelude::*;

verus! {

/// A compass direction, or `Stay` to pass the turn.
#[derive(Clone, Copy, Debug, PartialEq, Eq, Structural)]
pub enum Direction {
    North,
    East,
    South,
    West,
    Stay,
}

/// The total ordering of directions used by move encodings: `0..=4`.
pub open spec fn dir_code(d: Direction) -> int {
    match d {
        Direction::North => 0,
        Direction::East => 1,
        Direction::South => 2,
        Direction::West => 3,
        Direction::Stay => 4,
    }
}

/// The wire name of a direction, as the game server spells it.
pub open spec fn dir_name(d: Direction) -> Seq<char> {
    match d {
        Direction::North => "North"@,
        Direction::East => "East"@,
        Direction::South => "South"@,
        Direction::West => "West"@,
        Direction::Stay => "Stay"@,
    }
}

impl Direction {
    /// The code of this direction in the `0..=4` ordering.
    pub fn as_index(self) -> (r: u8)
        ensures
            r == dir_code(self),
    {
        match self {
            Direction::North => 0,
            Direction::East => 1,
            Direction::South => 2,
            Direction::West => 3,
            Direction::Stay => 4,
        }
    }

    /// The direction with the given code; `Stay` for anything above 3.
    pub fn from_index(x: u8) -> (r: Direction)
        ensures
            x <= 4 ==> dir_code(r) == x,
            x > 4 ==> r == Direction::Stay,
    {
        match x {
            0 => Direction::North,
            1 => Direction::East,
            2 => Direction::South,
            3 => Direction::West,
            _ => Direction::Stay,
        }
    }

    /// The direction a wire name denotes; the empty string, like `"Stay"`
    /// or anything unrecognized, means `Stay`.
    pub fn from_name(s: &str) -> (r: Direction)
        ensures
            forall|d: Direction| s@ == dir_name(d) ==> r == d,
            s@.len() == 0 ==> r == Direction::Stay,
    {
        let b = s.as_bytes();
        let r = if b.len() == 5 && b[0] == 78 && b[1] == 111 && b[2] == 114 && b[3] == 116 && b[4]
            == 104 {
            Direction::North
        } else if b.len() == 4 && b[0] == 69 && b[1] == 97 && b[2] == 115 && b[3] == 116 {
            Direction::East
        } else if b.len() == 5 && b[0] == 83 && b[1] == 111 && b[2] == 117 && b[3] == 116 && b[4]
            == 104 {
            Direction::South
        } else if b.len() == 4 && b[0] == 87 && b[1] == 101 && b[2] == 115 && b[3] == 116 {
            Direction::West
        } else {
            Direction::Stay
        };
        proof {
            broadcast use vstd::string::is_ascii_spec_bytes;

            reveal_strlit("North");
            reveal_strlit("East");
            reveal_strlit("South");
            reveal_strlit("West");
            reveal_strlit("Stay");
            assert forall|d: Direction| s@ == dir_name(d) implies r == d by {
                assert(vstd::string::is_ascii(s));
                assert(b@ =~= Seq::new(s@.len(), |i: int| s@.index(i) as u8));
            }
            if s@.len() == 0 {
                assert(vstd::string::is_ascii(s));
                assert(b@ =~= Seq::new(s@.len(), |i: int| s@.index(i) as u8));
            }
        }
        r
    }

    /// The ASCII wire name: `"North" | "East" | "South" | "West" | "Stay"`.
    pub fn name(self) -> (r: &'static str)
        ensures
            r@ == dir_name(self),
    {
        match self {
            Direction::North => "North",
            Direction::East => "East",
            Direction::South => "South",
            Direction::West => "West",
            Direction::Stay => "Stay",
        }
    }
}

impl Default for Direction {
    /// The default action is to pass.
    fn default() -> (r: Direction)
        ensures
            r == Direction::Stay,
    {
        Direction::Stay
    }
}

} // verus!
