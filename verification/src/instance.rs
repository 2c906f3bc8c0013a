//! Instance-level vocabulary of the rendering layer: which backend to
//! create and under what application name.

use vstd::prelude::*;
use crate::error::LumeError;

verus! {

#[derive(Clone, Copy, Debug, PartialEq, Eq)]
pub enum Backend {
    Vulkan,
    Metal,
}

pub struct InstanceDescriptor<'a> {
    pub name: &'a str,
    pub backend: Backend,
}

/// The result type of the rendering layer.
pub type LumeResult<T> = Result<T, LumeError>;

} // verus!
