//! Verified core of a dot-matrix styled Wayland desktop: the software canvas
//! with its drawing primitives and dot-matrix glyphs, the rendered UI scenes,
//! the window layouts, the keyboard and pointer decisions and the system
//! statistics parsers.

pub mod pixels;
pub mod canvas;
pub mod shapes;
pub mod glyphs;
pub mod text;
pub mod state;
pub mod layout;
pub mod input;
pub mod clock;
pub mod scene;
pub mod stats;
