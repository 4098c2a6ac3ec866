//! Shapes, block layouts and index structure of linear state-space models.
//!
//! The numerical side of the library (floating-point linear algebra) lives
//! outside the verified core; everything here is generic over the element
//! type and proves where every entry of an assembled matrix comes from.

pub mod matrix;
pub mod system;
pub mod interconnect;
pub mod transfer;
pub mod spectrum;
pub mod ctrb_obs;
pub mod estimation;
pub mod feedback;
pub mod dynamics;
pub mod closed_loop;
