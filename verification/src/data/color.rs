//! Colors that text and blocks can carry.
use vstd::prelude::*;

verus! {

/// A foreground or background color of a block or of its text.
#[derive(Debug, Clone, Copy, PartialEq, Eq)]
pub enum Color {
    Blue,
    BlueBackground,
    Brown,
    BrownBackground,
    Default,
    Gray,
    GrayBackground,
    Green,
    GreenBackground,
    Orange,
    OrangeBackground,
    Yellow,
    Pink,
    PinkBackground,
    Purple,
    PurpleBackground,
    Red,
    RedBackground,
    YellowBackground,
}

} // verus!
