//! The two persisted top-level documents.

use vstd::prelude::*;
use crate::ser::query::Query;

verus! {

/// The persisted program-state document: the query definitions, excluding
/// the implicit all-query, which is never persisted.
#[derive(Clone, Debug, PartialEq)]
pub struct ProgState {
    /// The persisted query definitions.
    pub queries: Vec<Query>,
}

impl ProgState {
    /// The empty program-state document, standing in for a missing file.
    pub fn empty() -> (r: Self)
        ensures
            r.queries@.len() == 0,
    {
        ProgState { queries: Vec::new() }
    }
}

/// The persisted task-state document: templates plus tasks.
pub type TaskState = crate::ser::tasks::Tasks;

} // verus!
