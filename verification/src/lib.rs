//! A hash set with separate chaining.
//!
//! The table is an array of slots. Each slot holds, in insertion order, the elements
//! whose hash selects it. The number of slots is a power of two, at least 16, and it
//! doubles before the table would become more than three quarters full.

pub mod element;
pub mod hashset;
pub mod iter;
pub mod laws;
pub mod lemmas;
pub mod model;
pub mod render;

pub use element::Element;
pub use element::ExactClone;
pub use element::Probe;
pub use hashset::HashSet;
pub use iter::Iter;
