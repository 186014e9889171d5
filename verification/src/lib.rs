//! A simulation core for a vehicle riding a closed network of cubic Bezier
//! track segments.
//!
//! All quantities are fixed-point integers: lengths and coordinates are
//! thousandths of a meter, speeds thousandths of a meter per second, times
//! thousandths of a second, and curve parameters thousandths of the unit
//! interval.  Working over integers keeps every computation exact enough to
//! state and prove: curve evaluation, arc-length tables, distance-to-parameter
//! lookup, boundary traversal and the gravity/friction/movement pipeline all
//! carry contracts that pin their results down.

pub mod math;
pub mod track;
pub mod train;
pub mod utils;
pub mod vec3;
