//! Shapes, broadcasting, and the host side of elementwise tensor operations.
//!
//! A tensor couples a linear buffer with a [`shape::DynShape`]: an ordered
//! list of axes laid out in dense row-major order.  Two tensors of different
//! shapes are combined by right-aligned broadcasting, where an axis of extent
//! one is stretched to match its peer by reading the same element repeatedly
//! (a stride of zero).  This crate proves the shape algebra, the stride
//! derivation, and the index decomposition that an elementwise kernel runs
//! per output element; an accelerator backend only has to launch the kernel
//! named by [`dispatch`] with the strides computed here.

pub mod broadcast;
pub mod dispatch;
pub mod kernel;
pub mod render;
pub mod shape;
pub mod tensor;
