//! The errors that scheduling can report.

use vstd::prelude::*;

verus! {

/// An operation was used where its kind does not fit.
#[derive(Debug, PartialEq, Eq)]
pub enum OperationError {
    /// A dispatch was queued on the named solver before anything was bound.
    BindingNotPresent(String),
    /// A parallel group was put where a single command stream is recorded.
    ComputePassOnParallel,
    /// A buffer write was put where a single command stream is recorded.
    ComputePassOnBuffer,
    /// A parallel group holds something other than single command streams.
    NestedParallel,
}

/// A read-back was asked for a variable that no function has attached.
#[derive(Debug, PartialEq, Eq)]
pub struct VariableNotFound {
    /// The name of the variable.
    pub variable: Option<String>,
    /// The label of the algorithm that was asked.
    pub label: Option<String>,
}

/// A variable's extents cannot be dispatched.
#[derive(Debug, PartialEq, Eq)]
pub enum VariableError<T> {
    /// The object spans more than three dimensions.
    DimensionError(T),
    /// The extent along the given axis exceeds what one dispatch can cover.
    WorkgroupDimensionError(u32),
}

} // verus!
