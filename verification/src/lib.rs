//! The decided half of a parametric CAD kernel model: sketch topology (closed
//! loops, walk order, arc sweep senses, degree-of-freedom classification), the
//! ISO 286 limits-and-fits table in integer micrometres, the discrete side of
//! tolerance stack-up, and manufacturing-process routing and profile naming.
pub mod fits;
pub mod process;
pub mod sketch;
pub mod tolerance;
