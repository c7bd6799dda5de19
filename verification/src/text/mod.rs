pub mod class;
pub mod compose;
pub mod edge;
pub mod number;
pub mod order;
pub mod path;
pub mod split;
