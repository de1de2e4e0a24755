use vstd::prelude::*;

use crate::cell::Cell;
use crate::cell_type::char_of;
use crate::cell_type::CellType;
use crate::position::Position;

verus! {

/// Everything that can stand on the grid: it has a position, a display
/// character, and says which kind of occupant it is.
pub trait GameObject {
    spec fn spec_position(&self) -> Position;

    spec fn spec_char(&self) -> char;

    spec fn spec_is_base(&self) -> bool;

    spec fn spec_is_tree(&self) -> bool;

    fn get_position(&self) -> (r: Position)
        ensures
            r == self.spec_position(),
    ;

    fn get_char_representation(&self) -> (r: char)
        ensures
            r == self.spec_char(),
    ;

    fn is_base(&self) -> (r: bool)
        ensures
            r == self.spec_is_base(),
    ;

    fn is_tree(&self) -> (r: bool)
        ensures
            r == self.spec_is_tree(),
    ;
}

/// A base: the anchor occupant that trees keep clear of and workers gather
/// around.
#[derive(Clone, Copy, PartialEq, Eq, Structural, Debug)]
pub struct Base {
    pub position: Position,
}

impl Base {
    pub fn new(position: Position) -> (r: Base)
        ensures
            r.position == position,
    {
        Base { position }
    }
}

impl GameObject for Base {
    open spec fn spec_position(&self) -> Position {
        self.position
    }

    open spec fn spec_char(&self) -> char {
        'B'
    }

    open spec fn spec_is_base(&self) -> bool {
        true
    }

    open spec fn spec_is_tree(&self) -> bool {
        false
    }

    fn get_position(&self) -> Position {
        self.position
    }

    fn get_char_representation(&self) -> char {
        'B'
    }

    fn is_base(&self) -> bool {
        true
    }

    fn is_tree(&self) -> bool {
        false
    }
}

/// A tree occupant.
#[derive(Clone, Copy, PartialEq, Eq, Structural, Debug)]
pub struct Tree {
    pub position: Position,
}

impl Tree {
    pub fn new(position: Position) -> (r: Tree)
        ensures
            r.position == position,
    {
        Tree { position }
    }
}

impl GameObject for Tree {
    open spec fn spec_position(&self) -> Position {
        self.position
    }

    open spec fn spec_char(&self) -> char {
        'T'
    }

    open spec fn spec_is_base(&self) -> bool {
        false
    }

    open spec fn spec_is_tree(&self) -> bool {
        true
    }

    fn get_position(&self) -> Position {
        self.position
    }

    fn get_char_representation(&self) -> char {
        'T'
    }

    fn is_base(&self) -> bool {
        false
    }

    fn is_tree(&self) -> bool {
        true
    }
}

/// A worker occupant.
#[derive(Clone, Copy, PartialEq, Eq, Structural, Debug)]
pub struct Worker {
    pub position: Position,
}

impl Worker {
    pub fn new(position: Position) -> (r: Worker)
        ensures
            r.position == position,
    {
        Worker { position }
    }
}

impl GameObject for Worker {
    open spec fn spec_position(&self) -> Position {
        self.position
    }

    open spec fn spec_char(&self) -> char {
        'W'
    }

    open spec fn spec_is_base(&self) -> bool {
        false
    }

    open spec fn spec_is_tree(&self) -> bool {
        false
    }

    fn get_position(&self) -> Position {
        self.position
    }

    fn get_char_representation(&self) -> char {
        'W'
    }

    fn is_base(&self) -> bool {
        false
    }

    fn is_tree(&self) -> bool {
        false
    }
}

impl GameObject for Cell {
    open spec fn spec_position(&self) -> Position {
        self.position
    }

    open spec fn spec_char(&self) -> char {
        char_of(self.cell_type)
    }

    open spec fn spec_is_base(&self) -> bool {
        self.cell_type is Base
    }

    open spec fn spec_is_tree(&self) -> bool {
        self.cell_type is Tree
    }

    fn get_position(&self) -> Position {
        self.position
    }

    fn get_char_representation(&self) -> char {
        self.cell_type.to_char()
    }

    fn is_base(&self) -> bool {
        matches!(self.cell_type, CellType::Base)
    }

    fn is_tree(&self) -> bool {
        matches!(self.cell_type, CellType::Tree)
    }
}

} // verus!
