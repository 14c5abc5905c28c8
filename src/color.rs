use vstd::prelude::*;

verus! {

/// Display tint of an entity or a message; how a tint is drawn is up to the
/// front end.
#[derive(Clone, Copy, Debug, PartialEq, Eq, Structural)]
pub enum Color {
    White,
    Red,
    Green,
    DarkerGreen,
    Blue,
    Violet,
    LightViolet,
}

} // verus!
