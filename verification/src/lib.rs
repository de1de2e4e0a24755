pub mod cell;
pub mod cell_type;
pub mod drawable_component;
pub mod game_object;
pub mod laws;
pub mod placement;
pub mod position;
pub mod rng;
pub mod world;
