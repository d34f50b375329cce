//! Serializable tag records: an id as persisted, a tag reference, and a
//! template definition.

use vstd::prelude::*;

verus! {

/// A persisted tag id.
#[derive(Clone, Copy, Debug, PartialEq, Eq, Structural)]
pub struct Id {
    /// The raw id value as it stands in the document.
    pub value: u64,
}

impl Id {
    /// Create a new persisted id from a raw value.
    pub fn new(value: u64) -> (r: Self)
        ensures
            r.value == value,
    {
        Id { value }
    }
}

/// A reference to a tag template, as persisted on a task.
#[derive(Clone, Copy, Debug, PartialEq, Eq, Structural)]
pub struct Tag {
    /// The id of the referenced template.
    pub id: Id,
}

/// A persisted tag template definition.
#[derive(Clone, Debug, PartialEq)]
pub struct Template {
    /// The template's persisted id.
    pub id: Id,
    /// The template's display name.
    pub name: String,
}

/// The list of persisted tag templates.
#[derive(Clone, Debug, PartialEq)]
pub struct Templates(pub Vec<Template>);

/// True if some template in `templates` carries the id `value`.
pub open spec fn templates_have_id(templates: Seq<Template>, value: u64) -> bool {
    exists|i: int| 0 <= i < templates.len() && templates[i].id.value == value
}

impl Templates {
    /// Check whether the given id references one of the templates, or the
    /// implicit completion template that every registry provides.
    pub fn is_valid(&self, id: Id) -> (r: bool)
        ensures
            r == (id.value == crate::tags::COMPLETE_TAG_ID || templates_have_id(
                self.0@,
                id.value,
            )),
    {
        if id.value == crate::tags::COMPLETE_TAG_ID {
            return true;
        }
        let n = self.0.len();
        let mut i: usize = 0;
        while i < n
            invariant
                i <= n,
                n == self.0@.len(),
                forall|j: int| 0 <= j < i ==> self.0@[j].id.value != id.value,
            decreases n - i,
        {
            if self.0[i].id.value == id.value {
                return true;
            }
            i = i + 1;
        }
        false
    }
}

} // verus!
