use vstd::prelude::*;

verus! {

/// The occupancy tag of one grid slot. Exactly one tag per slot; `Empty` is
/// the state of a freshly built grid.
#[derive(Clone, Copy, PartialEq, Eq, Structural, Debug)]
pub enum CellType {
    Empty,
    Base,
    Tree,
    Worker,
}

/// The character that stands for `t` in the rendered text.
pub open spec fn char_of(t: CellType) -> char {
    match t {
        CellType::Empty => ' ',
        CellType::Base => 'B',
        CellType::Tree => 'T',
        CellType::Worker => 'W',
    }
}

impl CellType {
    pub fn to_char(&self) -> (r: char)
        ensures
            r == char_of(*self),
    {
        match self {
            CellType::Empty => ' ',
            CellType::Base => 'B',
            CellType::Tree => 'T',
            CellType::Worker => 'W',
        }
    }
}

} // verus!
