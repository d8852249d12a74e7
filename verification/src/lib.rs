//! A recipe-scaling library: parses a constrained Markdown dialect into a
//! structured recipe, scales ingredient quantities exactly, and renders the
//! structure back to text.
#![allow(unused_imports)]

mod frac;
mod ingredient;
mod number;
mod quantity;
mod recipe;
mod text;
mod volume;

pub use frac::Fraction;
pub use ingredient::Ingredient;
pub use quantity::Quantity;
pub use recipe::Recipe;
pub use volume::Volume;
