//! A first-person grid raycaster whose geometry runs on fixed-point integers.
//!
//! World coordinates are measured in sub-units (`caster::FIX` per world unit) and
//! direction vectors are unit vectors scaled by the same factor. Trigonometry is
//! left to the caller, which hands in the direction of each screen column.

pub mod caster;
pub mod frame;
pub mod map_view;
pub mod maze;
pub mod sprites;
pub mod texture;
