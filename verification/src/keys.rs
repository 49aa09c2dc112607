//! Handles to engine resources.
//!
//! Each handle carries the 64-bit form of an arena key, so that the
//! verified core can compare and store handles as plain integers.

use vstd::prelude::*;

verus! {

/// Handle of a loaded sprite sheet.
#[derive(Debug, Clone, Copy, PartialEq, Eq, Structural, Hash)]
pub struct AtlasKey {
    pub ffi: u64,
}

/// Handle of a cell buffer.
#[derive(Debug, Clone, Copy, PartialEq, Eq, Structural, Hash)]
pub struct BufferKey {
    pub ffi: u64,
}

/// Handle of a palette.
#[derive(Debug, Clone, Copy, PartialEq, Eq, Structural, Hash)]
pub struct PaletteKey {
    pub ffi: u64,
}

/// Handle of a shader.
#[derive(Debug, Clone, Copy, PartialEq, Eq, Structural, Hash)]
pub struct ShaderKey {
    pub ffi: u64,
}

/// Handle of a glyphset.
#[derive(Debug, Clone, Copy, PartialEq, Eq, Structural, Hash)]
pub struct GlyphsetKey {
    pub ffi: u64,
}

/// Handle of a node of the layout hierarchy.
#[derive(Debug, Clone, Copy, PartialEq, Eq, Structural, Hash)]
pub struct NodeKey {
    pub ffi: u64,
}

} // verus!
