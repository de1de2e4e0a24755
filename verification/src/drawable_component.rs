use vstd::prelude::*;

verus! {

/// Attaches a display character to an entity.
#[derive(Clone, Copy, PartialEq, Eq, Structural, Debug)]
pub struct DrawableComponent {
    pub symbol: char,
}

impl DrawableComponent {
    pub fn new(symbol: char) -> (r: DrawableComponent)
        ensures
            r.symbol == symbol,
    {
        DrawableComponent { symbol }
    }
}

} // verus!
