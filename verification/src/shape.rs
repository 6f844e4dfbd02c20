//! The closed set of recognizable symbols: three trigger shapes plus the
//! two reserved control symbols used by the confirmation phase.

use vstd::prelude::*;
use vstd::string::*;

verus! {

/// The classified meaning of a gesture: a drawable shape, or one of the
/// two control symbols (`Tick` confirms, `Cross` cancels).
#[derive(Clone, Copy, Debug, PartialEq, Eq, Structural)]
pub enum Shape {
    Circle,
    Square,
    Triangle,
    Tick,
    Cross,
}

impl Shape {
    /// Stable textual name of the symbol, used by the surrounding system
    /// as a configuration-file key and in user-facing text.
    pub open spec fn name_spec(self) -> Seq<char> {
        match self {
            Shape::Circle => "Circle"@,
            Shape::Square => "Square"@,
            Shape::Triangle => "Triangle"@,
            Shape::Tick => "Tick"@,
            Shape::Cross => "Cross"@,
        }
    }

    /// Returns the symbol's stable textual name.
    pub fn name(&self) -> (r: String)
        ensures
            r@ == self.name_spec(),
    {
        match self {
            Shape::Circle => String::from_str("Circle"),
            Shape::Square => String::from_str("Square"),
            Shape::Triangle => String::from_str("Triangle"),
            Shape::Tick => String::from_str("Tick"),
            Shape::Cross => String::from_str("Cross"),
        }
    }
}

} // verus!
