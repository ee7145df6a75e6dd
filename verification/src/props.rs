//! Ready-made property kinds.
//!
//! A property kind is an open tag: any `u64` can key a record's property,
//! and a binding on a (record, kind) pair writes the filter's value into
//! that property. The markers here reserve the kinds a scene-graph host
//! commonly animates; hosts are free to register further kinds of their
//! own beside them.
use vstd::prelude::*;

verus! {

/// Kind tag of a record's whole value: a record that is itself one
/// vector-space quantity (a color, a single vector) animated as a unit.
pub const PROP_ID: u64 = 1;

/// Kind tag of a record's transform animated as one value.
pub const PROP_TRANSFORM: u64 = 2;

/// Kind tag of a record's translation (a three-lane value).
pub const PROP_TRANSLATION: u64 = 3;

/// Kind tag of a record's scale (a three-lane value).
pub const PROP_SCALE: u64 = 4;

/// Marker for animating a record's whole value as a unit.
#[derive(Clone, Copy, PartialEq, Eq, Structural, Debug)]
pub struct IdProperty;

impl IdProperty {
    /// The property kind this marker selects.
    pub fn key() -> (k: u64)
        ensures
            k == PROP_ID,
    {
        PROP_ID
    }
}

impl Default for IdProperty {
    /// There is nothing to configure in the marker.
    fn default() -> (r: Self)
        ensures
            r == IdProperty,
    {
        IdProperty
    }
}

/// Marker for animating a record's transform as one value.
#[derive(Clone, Copy, PartialEq, Eq, Structural, Debug)]
pub struct TransformProperty;

impl TransformProperty {
    /// The property kind this marker selects.
    pub fn key() -> (k: u64)
        ensures
            k == PROP_TRANSFORM,
    {
        PROP_TRANSFORM
    }
}

/// Marker for animating a record's translation.
#[derive(Clone, Copy, PartialEq, Eq, Structural, Debug)]
pub struct TranslationProperty;

impl TranslationProperty {
    /// The property kind this marker selects.
    pub fn key() -> (k: u64)
        ensures
            k == PROP_TRANSLATION,
    {
        PROP_TRANSLATION
    }
}

/// Marker for animating a record's scale.
#[derive(Clone, Copy, PartialEq, Eq, Structural, Debug)]
pub struct ScaleProperty;

impl ScaleProperty {
    /// The property kind this marker selects.
    pub fn key() -> (k: u64)
        ensures
            k == PROP_SCALE,
    {
        PROP_SCALE
    }
}

} // verus!
