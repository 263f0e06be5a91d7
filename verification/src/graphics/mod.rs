//! Graphics: the fast-path update framing, bitmap decoding, and the RGBA
//! framebuffer that decoded rectangles are blitted into.

pub mod bitmap;
pub mod fastpath;
pub mod framebuffer;
pub mod planar;
pub mod pointer;
pub mod rle;
pub mod update;
