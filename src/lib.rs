//! Headless rendering of a tree of styled boxes into an RGBA canvas.
//!
//! The library holds the document model (styles, nodes, inheritance and
//! resource hydration), a bounded least-recently-used image cache, and the
//! compositing layer with its drawing routines.

pub mod canvas;
pub mod layout;
pub mod style;
pub mod border;
pub mod node;
pub mod codec;
pub mod store;
pub mod font;
pub mod renderer;
pub mod render;
