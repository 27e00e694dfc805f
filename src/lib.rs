//! Integer and structural core of a small ray tracer.
//!
//! The geometry and shading of the renderer work on real numbers and live
//! with the program around this library. What is proved here is the part of
//! the renderer that decides: which sub-samples make up a pixel and in which
//! order pixels are emitted, which primitive a ray meets first, when the
//! recursive colour resolution stops, and how parallel sub-sample results are
//! put back into a fixed order before they are summed.

pub mod gather;
pub mod nearest;
pub mod resolve;
pub mod sampling;

pub use gather::gather_in_order;
pub use nearest::nearest_hit;
pub use resolve::{resolve_step, Step, MAX_DEPTH};
pub use sampling::{pixel_order, quantize_channel, sample_position, subsample_grid};
