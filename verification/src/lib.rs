//! A library for building OpenSCAD code as a typed object tree.
//!
//! Hosts construct primitive, modifier and block nodes tagged with a
//! dimension (2D, 3D or dimension-agnostic), compose them with the CSG
//! operators `+`, `-` and `*`, and render the tree to SCAD source text.

pub mod algebra;
pub mod display;
pub mod model;
pub mod object;
pub mod sentence;
pub mod text;

pub use display::Identifier;
pub use display::ScadDisplay;
pub use display::ScadOption;
pub use display::generate_sentence_repr;
pub use model::CsgOp;
pub use object::ScadBlock;
pub use object::ScadModifier;
pub use object::ScadModifierBody;
pub use object::ScadModifierSentence;
pub use object::ScadObject;
pub use object::ScadObjectBody;
pub use object::ScadObjectTrait;
pub use object::ScadPrimitive;
pub use object::block_2d;
pub use object::block_2d_commented;
pub use object::block_3d;
pub use object::block_3d_commented;
pub use object::block_mixed;
pub use object::block_mixed_commented;
pub use object::block_repr;
pub use object::modifier_2d;
pub use object::modifier_2d_commented;
pub use object::modifier_3d;
pub use object::modifier_3d_commented;
pub use object::modifier_mixed;
pub use object::modifier_mixed_commented;
pub use object::modifier_repr;
pub use object::primitive_2d;
pub use object::primitive_2d_commented;
pub use object::primitive_3d;
pub use object::primitive_3d_commented;
pub use object::primitive_repr;
pub use object::try_block_2d;
pub use object::try_block_2d_commented;
pub use object::try_block_3d;
pub use object::try_block_3d_commented;
pub use object::try_modifier_2d;
pub use object::try_modifier_2d_commented;
pub use object::try_modifier_3d;
pub use object::try_modifier_3d_commented;
pub use sentence::ResizeAuto2D;
pub use sentence::ResizeAuto3D;
pub use sentence::ScadBuildable;
pub use sentence::ScadBuilder;
pub use sentence::ScadBuilderError;
pub use sentence::Surface;
pub use sentence::SurfaceBuilder;
pub use sentence::validate_path_indices;
pub use text::INDENT;
pub use text::format_number;
pub use text::indent_str;

use vstd::prelude::*;

verus! {

/// The dimension classification of a SCAD object.
#[derive(Clone, Copy, Debug, Hash, PartialEq, Eq, Structural)]
pub enum ScadObjectDimensionType {
    /// 2D SCAD object.
    Object2D,
    /// 3D SCAD object.
    Object3D,
    /// Mixed (dimension-agnostic) SCAD object.
    ObjectMixed,
}

} // verus!
