//! Verified core of a technical-drawing loader.
//!
//! The library turns the contents of a DXF file into things to draw, and tells a
//! renderer what to do to show them. Everything that is decided on the way is decided
//! here, and proved: which entities are drawn, what their outlines are made of, how
//! blocks are resolved, which paints there are and what is drawn in which order.
//!
//! Coordinates are never computed with. The library holds them by their place in the
//! total order of floating-point numbers, see [`number`], and hands out recipes for
//! paths: which entities, in which cells of which inserts.
//!
//! What holds of the library as a whole is stated, and proved, in the modules whose names
//! end in `_laws`: how results relate to what they are made of, and to each other.

pub mod block_chunk_laws;
pub mod block_laws;
pub mod block_order_laws;
pub mod block_style_laws;
pub mod blocks;
pub mod color;
pub mod color_laws;
pub mod drawing;
pub mod drawing_laws;
pub mod drawing_types;
pub mod dxf_file;
pub mod graphics;
pub mod handle_laws;
pub mod handles;
pub mod load;
pub mod load_item_laws;
pub mod load_laws;
pub mod name_laws;
pub mod number;
pub mod number_laws;
pub mod paints;
pub mod path;
pub mod path_laws;
pub mod scene;
pub mod scene_laws;
pub mod spline;
pub mod spline_laws;
pub mod style_laws;
pub mod text;
pub mod text_laws;
pub mod text_style;
