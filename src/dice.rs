use vstd::prelude::*;

verus! {

/// A practice die.
#[derive(Debug, Clone, Copy, PartialEq, Eq, Structural)]
pub enum Dice {
    /// Rolls 1, 2, ..., 100 and then starts again at 1; holds the next value.
    DETERMINISTIC(u32),
}

impl Dice {
    /// Rolls the die: the value it shows, and the die for the next roll.
    pub fn roll(self) -> (r: (Dice, u32))
        ensures
            r.1 == self->DETERMINISTIC_0,
            r.0 == Dice::DETERMINISTIC(
                if self->DETERMINISTIC_0 + 1 <= 100 {
                    (self->DETERMINISTIC_0 + 1) as u32
                } else {
                    1u32
                },
            ),
    {
        match self {
            Dice::DETERMINISTIC(v) => {
                (Dice::DETERMINISTIC(if v < 100 { v + 1 } else { 1 }), v)
            },
        }
    }
}

} // verus!
