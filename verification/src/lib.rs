//! Plane-slicing kernel: intersects triangle edges with a horizontal plane
//! `y = h`, with tolerance-mediated comparison, sorting and deduplication.
//!
//! Coordinates are fixed-point integers: the caller picks a unit (for
//! instance one micrometer per unit) and hands every coordinate, the layer
//! height and the tolerance in that unit. Approximate equality is a single
//! absolute tolerance, passed explicitly and used identically in the
//! comparator, the sort and the deduplication.

pub mod compare;
pub mod laws;
pub mod normalize;
pub mod point;
pub mod segment;
pub mod triangle;
