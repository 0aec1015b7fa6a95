//! A rectangular grid of text cells with bounds-checked structural
//! mutation and two renderings: comma-separated rows and an aligned
//! box-drawing layout.

pub mod csv;
pub mod ext;
pub mod render;
pub mod text;
