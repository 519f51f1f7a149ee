//! Handles for Python objects.

use vstd::prelude::*;

verus! {

/// The number under which the application keeps a Python object. The library
/// carries handles along and never looks behind one.
#[derive(Debug, Clone, Copy, PartialEq, Eq, Structural)]
pub struct Handle {
    pub id: u64,
}

} // verus!
