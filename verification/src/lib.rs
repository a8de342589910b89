pub mod color;
pub mod path;
pub mod branch;
pub mod render;
