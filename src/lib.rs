pub mod gf2;
pub mod matrix;
pub mod rows;
pub mod solver;
pub mod state;
pub mod system;
