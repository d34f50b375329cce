//! Serializable task records and their referential validation against the
//! persisted template list.

use vstd::prelude::*;
use crate::error::LoadError;
use crate::ser::tags::Tag;
use crate::ser::tags::Template;
use crate::ser::tags::Templates;
use crate::ser::tags::templates_have_id;

verus! {

/// A task as it stands in the persisted document.
#[derive(Clone, Debug, PartialEq)]
pub struct Task {
    /// The task's one-line summary.
    pub summary: String,
    /// The tags attached to the task; empty when the document omits them.
    pub tags: Vec<Tag>,
}

/// The persisted task-state document: templates plus the tasks referring
/// to them.
#[derive(Clone, Debug, PartialEq)]
pub struct Tasks {
    /// The tag templates the tasks may reference.
    pub templates: Templates,
    /// The tasks, in their persisted order.
    pub tasks: Vec<Task>,
}

/// True if the given persisted tag id references one of `templates` or
/// the implicit completion template.
pub open spec fn tag_id_valid(templates: Seq<Template>, value: u64) -> bool {
    value == crate::tags::COMPLETE_TAG_ID || templates_have_id(templates, value)
}

/// The first tag id in `tags` that `templates` cannot resolve, if any.
pub open spec fn first_invalid_in_tags(templates: Seq<Template>, tags: Seq<Tag>) -> Option<u64>
    decreases tags.len(),
{
    if tags.len() == 0 {
        None
    } else if !tag_id_valid(templates, tags[0].id.value) {
        Some(tags[0].id.value)
    } else {
        first_invalid_in_tags(templates, tags.drop_first())
    }
}

/// The first tag id across `tasks`, in document order, that `templates`
/// cannot resolve, if any.
pub open spec fn first_invalid_in_tasks(templates: Seq<Template>, tasks: Seq<Task>) -> Option<u64>
    decreases tasks.len(),
{
    if tasks.len() == 0 {
        None
    } else {
        match first_invalid_in_tags(templates, tasks[0].tags@) {
            Some(value) => Some(value),
            None => first_invalid_in_tasks(templates, tasks.drop_first()),
        }
    }
}

/// Find the first tag in `tags` that `templates` cannot resolve.
fn first_invalid_tag(templates: &Templates, tags: &Vec<Tag>) -> (r: Option<u64>)
    ensures
        r == first_invalid_in_tags(templates.0@, tags@),
{
    let m = tags.len();
    let mut j: usize = 0;
    proof {
        assert(tags@.skip(0) =~= tags@);
    }
    while j < m
        invariant
            j <= m,
            m == tags@.len(),
            first_invalid_in_tags(templates.0@, tags@) == first_invalid_in_tags(
                templates.0@,
                tags@.skip(j as int),
            ),
        decreases m - j,
    {
        let tag = tags[j];
        proof {
            assert(tags@.skip(j as int)[0] == tags@[j as int]);
        }
        if !templates.is_valid(tag.id) {
            proof {
                assert(first_invalid_in_tags(templates.0@, tags@.skip(j as int)) == Some(
                    tag.id.value,
                ));
            }
            return Some(tag.id.value);
        }
        proof {
            assert(tags@.skip(j as int).drop_first() =~= tags@.skip(j + 1));
        }
        j = j + 1;
    }
    proof {
        assert(first_invalid_in_tags(templates.0@, tags@.skip(m as int)) is None);
    }
    None
}

impl Tasks {
    /// Check that all contained task objects reference valid tags: either
    /// a listed template or the implicit completion template. On the
    /// first unresolvable reference the whole document is rejected.
    pub fn validate_tags(&self) -> (r: Result<(), LoadError>)
        ensures
            match r {
                Ok(()) => first_invalid_in_tasks(self.templates.0@, self.tasks@) is None,
                Err(e) => first_invalid_in_tasks(self.templates.0@, self.tasks@) == Some(
                    e.spec_tag_id(),
                ),
            },
    {
        let n = self.tasks.len();
        let mut i: usize = 0;
        proof {
            assert(self.tasks@.skip(0) =~= self.tasks@);
        }
        while i < n
            invariant
                i <= n,
                n == self.tasks@.len(),
                first_invalid_in_tasks(self.templates.0@, self.tasks@) == first_invalid_in_tasks(
                    self.templates.0@,
                    self.tasks@.skip(i as int),
                ),
            decreases n - i,
        {
            let task = &self.tasks[i];
            proof {
                assert(self.tasks@.skip(i as int)[0] == self.tasks@[i as int]);
            }
            if let Some(value) = first_invalid_tag(&self.templates, &task.tags) {
                proof {
                    assert(first_invalid_in_tasks(
                        self.templates.0@,
                        self.tasks@.skip(i as int),
                    ) == Some(value));
                }
                return Err(LoadError::InvalidTag(value));
            }
            proof {
                assert(self.tasks@.skip(i as int).drop_first() =~= self.tasks@.skip(i + 1));
            }
            i = i + 1;
        }
        proof {
            assert(first_invalid_in_tasks(self.templates.0@, self.tasks@.skip(n as int)) is None);
        }
        Ok(())
    }
}

} // verus!
