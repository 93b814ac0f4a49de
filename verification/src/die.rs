//! The die catalog: the closed set of supported dice and their faces.

use vstd::prelude::*;
use vstd::std_specs::convert::TryFromSpecImpl;
use crate::error::ParseErrorKind;
use crate::text::{decimal_text, push_decimal};

verus! {

/// The letter that introduces a die in dice notation: `d6`, `3d6`.
pub const DELIMITER: char = 'd';

/// A supported die, named after its number of faces.
#[derive(Clone, Copy, Debug, PartialEq, Eq, Structural)]
pub enum DieType {
    D4,
    D6,
    D8,
    D10,
    D20,
}

/// The catalog as a mapping from a face count to the die that has it, if any.
pub open spec fn die_with_sides(sides: nat) -> Option<DieType> {
    if sides == 4 {
        Some(DieType::D4)
    } else if sides == 6 {
        Some(DieType::D6)
    } else if sides == 8 {
        Some(DieType::D8)
    } else if sides == 10 {
        Some(DieType::D10)
    } else if sides == 20 {
        Some(DieType::D20)
    } else {
        None
    }
}

/// The faces of a die with `sides` faces, in ascending order: `1, 2, .., sides`.
pub open spec fn face_values(sides: nat) -> Seq<u8> {
    Seq::new(sides, |i: int| (i + 1) as u8)
}

impl DieType {
    /// The number of faces of this die.
    pub open spec fn spec_sides(self) -> u8 {
        match self {
            DieType::D4 => 4,
            DieType::D6 => 6,
            DieType::D8 => 8,
            DieType::D10 => 10,
            DieType::D20 => 20,
        }
    }

    /// The number of faces of this die.
    #[verifier::when_used_as_spec(spec_sides)]
    pub fn sides(self) -> (n: u8)
        ensures
            n == self.spec_sides(),
    {
        match self {
            DieType::D4 => 4,
            DieType::D6 => 6,
            DieType::D8 => 8,
            DieType::D10 => 10,
            DieType::D20 => 20,
        }
    }

    /// The name of this die: the delimiter and the number of faces, as in `d6`.
    pub open spec fn label_text(self) -> Seq<char> {
        seq![DELIMITER] + decimal_text(self.sides() as nat)
    }

    /// The name of this die: see [`DieType::label_text`].
    pub fn label(self) -> (name: String)
        ensures
            name@ == self.label_text(),
    {
        proof {
            reveal_strlit("d");
        }
        let mut name = "d".to_owned();
        push_decimal(&mut name, self.sides());
        name
    }

    /// The faces of this die in ascending order.
    pub fn faces(self) -> (table: Vec<u8>)
        ensures
            table@ == face_values(self.sides() as nat),
    {
        let n: u8 = self.sides();
        let mut table: Vec<u8> = Vec::new();
        let mut face: u8 = 0;
        while face < n
            invariant
                face <= n,
                table@ == face_values(face as nat),
            decreases n - face,
        {
            face = face + 1;
            table.push(face);
        }
        table
    }
}

/// Looks a face count up in the catalog. Only 4, 6, 8, 10 and 20 are listed;
/// every other count is an unrecognized die type, never the nearest die.
impl TryFrom<u8> for DieType {
    type Error = ParseErrorKind;

    fn try_from(item: u8) -> (found: Result<DieType, ParseErrorKind>) {
        match item {
            4 => Ok(DieType::D4),
            6 => Ok(DieType::D6),
            8 => Ok(DieType::D8),
            10 => Ok(DieType::D10),
            20 => Ok(DieType::D20),
            _ => Err(ParseErrorKind::UnrecognizedDieType),
        }
    }
}

impl TryFromSpecImpl<u8> for DieType {
    open spec fn obeys_try_from_spec() -> bool {
        true
    }

    open spec fn try_from_spec(item: u8) -> Result<DieType, ParseErrorKind> {
        match die_with_sides(item as nat) {
            Some(die) => Ok(die),
            None => Err(ParseErrorKind::UnrecognizedDieType),
        }
    }
}

/// Every die is found again under its own face count, and a face count that
/// the catalog lists belongs to the die it yields.
pub proof fn lemma_catalog_round_trip(die: DieType, sides: nat)
    ensures
        die_with_sides(die.sides() as nat) == Some(die),
        die_with_sides(sides) matches Some(d) ==> d.sides() == sides,
        die_with_sides(sides) is Some <==> sides == 4 || sides == 6 || sides == 8 || sides == 10
            || sides == 20,
{
}

} // verus!
