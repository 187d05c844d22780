//! Recoverable error values of the component API.
//!
//! Borrow conflicts and schedule-construction mistakes are program bugs
//! and are excluded by preconditions instead of being reported as values.

use vstd::prelude::*;

verus! {

/// Looking up a component can fail two ways: the handle is dead, or the
/// entity is live but lacks the requested component type.
#[derive(Clone, Copy, PartialEq, Eq, Structural, Debug)]
pub enum ComponentError {
    NoSuchEntity,
    MissingComponent(u64),
}

/// The entity handle is not live: its id was freed or its generation is
/// stale.
#[derive(Clone, Copy, PartialEq, Eq, Structural, Debug)]
pub struct NoSuchEntity;

/// Building a bundle can fail two ways: the same component type appears
/// twice, or a value's byte length does not match its descriptor.
#[derive(Clone, Copy, PartialEq, Eq, Structural, Debug)]
pub enum BundleError {
    DuplicateComponent(u64),
    SizeMismatch(u64),
}

impl ComponentError {
    /// A short description, usable where a display string is expected.
    pub fn describe(&self) -> (r: &'static str)
        ensures
            self is NoSuchEntity ==> r@ == "no such entity"@,
            self is MissingComponent ==> r@ == "missing component"@,
    {
        match self {
            ComponentError::NoSuchEntity => "no such entity",
            ComponentError::MissingComponent(_) => "missing component",
        }
    }
}

} // verus!
