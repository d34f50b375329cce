//! Serializable query descriptors: a display name plus the tags a task
//! must carry to appear in the view.

use vstd::prelude::*;
use crate::ser::tags::Tag;

verus! {

/// A persisted query definition.
#[derive(Clone, Debug, PartialEq)]
pub struct Query {
    /// The query's display name.
    pub name: String,
    /// The tags a task must carry, all of them, to match the query; an
    /// empty list matches every task.
    pub tags: Vec<Tag>,
}

} // verus!
