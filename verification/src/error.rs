use vstd::prelude::*;

verus! {

/// Why an operation on the graph was refused.
#[derive(Debug, Clone, Copy, PartialEq, Eq)]
pub enum Errors {
    /// A direct value is already stored for this node or pair.
    AlreadyExists,
    /// No direct value is stored, but one already follows from other values.
    AlreadyConstrained(()),
    /// No direct value is stored for this node or pair.
    NotFound,
    /// More than one simple path joins the two nodes.
    AmbiguousPath,
}

} // verus!
