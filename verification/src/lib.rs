//! Converts a parsed vector-graphics scene tree into Asymptote source code.
//!
//! The crate is organised like the conversion pipeline: `asy` holds the
//! numeric formatter and the `Asy` trait, `color` and `pen` render styling
//! attributes, `path` renders geometry, `group` walks the tree, and
//! `svg2asy` assigns identifiers and drives the whole conversion.
use vstd::prelude::*;

pub mod asy;
pub mod color;
pub mod group;
pub mod path;
pub mod pen;
pub mod svg2asy;

verus! {

/// Options that control code generation: the number of decimal
/// places / significant figures used for every floating value.
#[derive(Clone, Copy)]
pub struct AsyOptions {
    pub precision: u32,
}

impl AsyOptions {
    /// The default precision is six digits.
    pub fn new() -> (r: AsyOptions)
        ensures
            r.precision == 6,
    {
        AsyOptions { precision: 6 }
    }
}

/// A fatal condition: the conversion aborts and produces no output.
#[derive(Clone, Copy, PartialEq, Eq, Structural, Debug)]
pub enum AsyError {
    /// A fill or stroke uses a linear gradient, which is not implemented.
    LinearGradientPaint,
    /// A fill or stroke uses a radial gradient, which is not implemented.
    RadialGradientPaint,
    /// A fill or stroke uses a pattern, which is not implemented.
    PatternPaint,
    /// The root node of the tree is not a group.
    RootNotGroup,
}

impl AsyError {
    /// A human-readable description of the error.
    pub fn message(&self) -> (r: &'static str)
        ensures
            r@ == self.message_spec(),
    {
        match self {
            AsyError::LinearGradientPaint => "linear gradients are not implemented",
            AsyError::RadialGradientPaint => "radial gradients are not implemented",
            AsyError::PatternPaint => "patterns are not implemented",
            AsyError::RootNotGroup => "root node is not a group",
        }
    }

    pub open spec fn message_spec(&self) -> Seq<char> {
        match self {
            AsyError::LinearGradientPaint => "linear gradients are not implemented"@,
            AsyError::RadialGradientPaint => "radial gradients are not implemented"@,
            AsyError::PatternPaint => "patterns are not implemented"@,
            AsyError::RootNotGroup => "root node is not a group"@,
        }
    }
}

/// A recoverable condition: the unsupported visual effect is dropped from
/// the output and the conversion continues.
#[derive(Clone, Copy, PartialEq, Eq, Structural, Debug)]
pub enum Warning {
    GroupOpacity,
    BlendMode,
    Isolation,
    ClipPath,
    Mask,
    Filters,
    EnableBackground,
    Image,
    Text,
    PathVisibility,
}

impl Warning {
    /// A human-readable description of the warning.
    pub fn message(&self) -> (r: &'static str)
        ensures
            r@ == self.message_spec(),
    {
        match self {
            Warning::GroupOpacity => "group opacity is not supported",
            Warning::BlendMode => "group blend mode is not supported",
            Warning::Isolation => "group isolation is not supported",
            Warning::ClipPath => "clipping is not supported",
            Warning::Mask => "masks are not supported",
            Warning::Filters => "filters are not supported",
            Warning::EnableBackground => "enable-background is deprecated",
            Warning::Image => "images are not supported",
            Warning::Text => "text is not supported",
            Warning::PathVisibility => "path visibility is not supported",
        }
    }

    pub open spec fn message_spec(&self) -> Seq<char> {
        match self {
            Warning::GroupOpacity => "group opacity is not supported"@,
            Warning::BlendMode => "group blend mode is not supported"@,
            Warning::Isolation => "group isolation is not supported"@,
            Warning::ClipPath => "clipping is not supported"@,
            Warning::Mask => "masks are not supported"@,
            Warning::Filters => "filters are not supported"@,
            Warning::EnableBackground => "enable-background is deprecated"@,
            Warning::Image => "images are not supported"@,
            Warning::Text => "text is not supported"@,
            Warning::PathVisibility => "path visibility is not supported"@,
        }
    }
}

/// Sequence concatenation is associative.
pub proof fn lemma_seq_assoc<T>(a: Seq<T>, b: Seq<T>, c: Seq<T>)
    ensures
        (a + b) + c == a + (b + c),
{
    assert((a + b) + c =~= a + (b + c));
}

} // verus!
