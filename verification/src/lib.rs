//! A small drawing library: a persistent off-screen pixel canvas that pointer
//! strokes are composited into, together with the pointer-gesture state
//! machine that decides when a touch sample becomes a stroke.
//!
//! The canvas is a grayscale buffer: every pixel is an 8-bit luminance value,
//! `255` for the white background and `0` for full ink. A stroke paints black
//! ink whose opacity is the pointer pressure; compositing, resizing and
//! presentation (scaling plus an optional grid overlay) are all specified and
//! verified down to the individual pixel.

pub mod canvas;
pub mod geom;
pub mod gesture;
