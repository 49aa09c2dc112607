//! VoidGrid: a glyph-grid terminal engine.
//!
//! This crate holds the verified core of the engine: cell buffers,
//! glyph lookup tables, palettes, atlas descriptors, the virtual mount
//! tree, the layout hierarchy and the VTP byte protocol.

pub mod keys;
pub mod types;
pub mod text;
pub mod strmap;
pub mod palette;
pub mod registry;
pub mod glyphset;
pub mod order;
pub mod atlas;
pub mod vtree;
pub mod buffer;
pub mod arena;
pub mod hierarchy;
pub mod vtp;
pub mod asset_manager;
pub mod buffer_manager;
pub mod grids;
pub mod terminal;
pub mod text_ops;
pub mod chrome;
pub mod input;
pub mod semantic;
pub mod pack;
pub mod compose;
pub mod script;
pub mod resource;
pub mod batch;
pub mod bloom;
