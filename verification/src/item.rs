//! Test items.

use vstd::prelude::*;

use crate::fixture::Scope;
use crate::object::Handle;

verus! {

/// A mark on a test function or class.
pub struct MarkData {
    pub name: String,
    /// The mark object.
    pub obj: Handle,
}

/// A parameter of an item: the argument, the scope it was parametrized at and
/// the index of the value.
pub struct SortKey {
    pub arg: String,
    pub scope: Scope,
    pub index: usize,
}

/// One collected test.
pub struct TestItem {
    pub nodeid: String,
    /// The components of the absolute path of the file.
    pub path: Vec<String>,
    pub module_name: String,
    pub func_name: String,
    pub func: Handle,
    pub cls: Option<Handle>,
    pub is_coroutine: bool,
    pub fixture_names: Vec<String>,
    /// Names of the fixture closure beyond `fixture_names`.
    pub extra_fixture_names: Vec<String>,
    pub marks: Vec<MarkData>,
    /// Direct parameters: argument name and value.
    pub callspec: Vec<(String, Handle)>,
    /// The widest scope of a parameter.
    pub max_param_scope: Scope,
    pub scope_sort_keys: Vec<SortKey>,
    pub is_doctest: bool,
    /// The class of the node of the file; "" for `Module`.
    pub collector_class: String,
    /// The class of the node itself; "" for `Function`.
    pub func_class: String,
}

} // verus!
