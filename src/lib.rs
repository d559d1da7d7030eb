pub mod chor;
pub mod json;
pub mod names;
pub mod number;
mod text;
