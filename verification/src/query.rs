//! Named, filtered views over the task collection. A query holds a filter
//! over tag ids, reads the collection without owning it, and keeps its
//! own cyclic selection cursor over the filtered sequence.

use vstd::prelude::*;
use crate::error::LoadError;
use crate::selection::Selection;
use crate::selection::SelectionState;
use crate::selection::first_key_index;
use crate::selection::has_key;
use crate::selection::wrap;
use crate::ser;
use crate::tags::Tag;
use crate::tags::TagMap;
use crate::tags::Templates;
use crate::tasks::Task;
use crate::tasks::Tasks;
use crate::tasks::first_unresolved;
use crate::tasks::model_has;
use crate::tasks::models_valid;
use crate::tasks::ser_tag_ids;
use crate::tasks::tag_model;
use crate::tasks::tags_model;

verus! {

/// The full view of a task: id, summary, and tag models.
pub open spec fn task_view(t: Task) -> (u64, Seq<char>, Seq<(u64, Seq<char>)>) {
    (t.spec_id(), t.spec_summary(), t.spec_tags())
}

/// The views of a task sequence.
pub open spec fn task_views(s: Seq<Task>) -> Seq<(u64, Seq<char>, Seq<(u64, Seq<char>)>)> {
    s.map_values(|t: Task| task_view(t))
}

/// True if a task carrying the given tag models matches a filter: the
/// task carries every tag id the filter lists. An empty filter matches
/// every task.
pub open spec fn query_matches(filter: Seq<u64>, tags: Seq<(u64, Seq<char>)>) -> bool {
    forall|i: int| 0 <= i < filter.len() ==> model_has(tags, filter[i])
}

/// The views of the tasks a filter lets through, in collection order.
pub open spec fn spec_filtered(s: Seq<Task>, filter: Seq<u64>) -> Seq<
    (u64, Seq<char>, Seq<(u64, Seq<char>)>),
>
    decreases s.len(),
{
    if s.len() == 0 {
        Seq::empty()
    } else {
        let rest = spec_filtered(s.drop_last(), filter);
        if query_matches(filter, s.last().spec_tags()) {
            rest.push(task_view(s.last()))
        } else {
            rest
        }
    }
}

/// The ids of the tasks a filter lets through, in collection order.
pub open spec fn spec_filtered_ids(s: Seq<Task>, filter: Seq<u64>) -> Seq<u64> {
    spec_filtered(s, filter).map_values(|v: (u64, Seq<char>, Seq<(u64, Seq<char>)>)| v.0)
}

/// The id values of a sequence of task ids.
pub open spec fn ids_view(ids: Seq<crate::tasks::Id>) -> Seq<u64> {
    ids.map_values(|id: crate::tasks::Id| id@)
}

/// The first position carrying id value `v`; meaningful only when one
/// exists.
pub open spec fn first_u64_index(s: Seq<u64>, v: u64) -> int
    decreases s.len(),
{
    if s.len() == 0 {
        0
    } else if s[0] == v {
        0
    } else {
        1 + first_u64_index(s.drop_first(), v)
    }
}

/// Resolving an anchor over a sequence of task ids is resolving it over
/// their id values: task ids compare by value.
proof fn lemma_first_index_bridge(ids: Seq<crate::tasks::Id>, k: crate::tasks::Id)
    ensures
        has_key(ids, k) <==> ids_view(ids).contains(k@),
        has_key(ids, k) ==> first_key_index(ids, k) == first_u64_index(ids_view(ids), k@),
    decreases ids.len(),
{
    let vids = ids_view(ids);
    assert(has_key(ids, k) <==> vids.contains(k@)) by {
        if has_key(ids, k) {
            let i = choose|i: int|
                0 <= i < ids.len() && vstd::std_specs::cmp::PartialEqSpec::eq_spec(&ids[i], &k);
            assert(vids[i] == k@);
        }
        if vids.contains(k@) {
            let i = choose|i: int| 0 <= i < vids.len() && vids[i] == k@;
            assert(vstd::std_specs::cmp::PartialEqSpec::eq_spec(&ids[i], &k));
        }
    }
    if ids.len() > 0 && has_key(ids, k) {
        if ids[0]@ == k@ {
        } else {
            let d = ids.drop_first();
            assert(ids_view(d) =~= vids.drop_first());
            assert(has_key(d, k)) by {
                let i = choose|i: int|
                    0 <= i < ids.len() && vstd::std_specs::cmp::PartialEqSpec::eq_spec(
                        &ids[i],
                        &k,
                    );
                assert(i >= 1);
                assert(d[i - 1] == ids[i]);
                assert(vstd::std_specs::cmp::PartialEqSpec::eq_spec(&d[i - 1], &k));
            }
            lemma_first_index_bridge(d, k);
        }
    }
}

/// Check whether a tag vector carries a tag with id `v`.
fn tags_have(tags: &Vec<Tag>, v: u64) -> (r: bool)
    ensures
        r == model_has(tags_model(tags@), v),
{
    let n = tags.len();
    let mut i: usize = 0;
    while i < n
        invariant
            i <= n,
            n == tags@.len(),
            forall|j: int| 0 <= j < i ==> tags_model(tags@)[j].0 != v,
        decreases n - i,
    {
        if tags[i].id().value() == v {
            proof {
                assert(tags_model(tags@)[i as int].0 == v);
            }
            return true;
        }
        i = i + 1;
    }
    false
}

/// A named, filtered view over the task collection, with its own cyclic
/// selection cursor. The collection itself stays with its single owner:
/// every read takes it as an argument.
#[derive(Debug)]
pub struct Query {
    name: String,
    tags: Vec<Tag>,
    selection: SelectionState<crate::tasks::Id>,
}

impl Query {
    /// The query's display name.
    pub closed spec fn spec_name(self) -> Seq<char> {
        self.name@
    }

    /// The tag ids a task must all carry to match; empty matches all.
    pub closed spec fn spec_filter(self) -> Seq<u64> {
        tags_model(self.tags@).map_values(|m: (u64, Seq<char>)| m.0)
    }

    /// The models of the filter's tags.
    pub closed spec fn spec_filter_tags(self) -> Seq<(u64, Seq<char>)> {
        tags_model(self.tags@)
    }

    /// The query's selection cursor.
    pub closed spec fn spec_selection(self) -> SelectionState<crate::tasks::Id> {
        self.selection
    }

    /// Create a query with the given name and filter tags; the selection
    /// starts resolved at index zero.
    pub fn new(name: String, tags: Vec<Tag>) -> (r: Query)
        ensures
            r.spec_name() == name@,
            r.spec_filter_tags() == tags_model(tags@),
            r.spec_filter() == tags_model(tags@).map_values(|m: (u64, Seq<char>)| m.0),
            r.spec_selection().anchor() == Selection::<crate::tasks::Id>::Normalized(0),
            !r.spec_selection().spec_reversed(),
            r.spec_selection().spec_advanced() == 0,
            r.spec_selection().spec_total() == 0,
    {
        Query { name, tags, selection: SelectionState::new_at(0) }
    }

    /// Create a query from a serializable one, resolving every persisted
    /// tag id through the validated map; the first unresolvable id aborts
    /// with an error carrying it.
    pub fn with_serde(query: &ser::query::Query, templates: &Templates, map: &TagMap) -> (r: Result<
        Query,
        LoadError,
    >)
        requires
            templates.wf(),
            map.consistent_with(*templates),
        ensures
            match r {
                Ok(q) => {
                    &&& first_unresolved(*map, query.tags@) is None
                    &&& q.spec_name() == query.name@
                    &&& q.spec_filter() == ser_tag_ids(query.tags@)
                    &&& models_valid(q.spec_filter_tags(), *templates)
                    &&& q.spec_selection().anchor() == Selection::<
                        crate::tasks::Id,
                    >::Normalized(0)
                    &&& q.spec_selection().spec_advanced() == 0
                    &&& q.spec_selection().spec_total() == 0
                },
                Err(e) => first_unresolved(*map, query.tags@) == Some(e.spec_tag_id()),
            },
    {
        let mut tags: Vec<Tag> = Vec::new();
        let n = query.tags.len();
        let mut j: usize = 0;
        proof {
            assert(query.tags@.skip(0) =~= query.tags@);
        }
        while j < n
            invariant
                j <= n,
                n == query.tags@.len(),
                templates.wf(),
                map.consistent_with(*templates),
                first_unresolved(*map, query.tags@) == first_unresolved(
                    *map,
                    query.tags@.skip(j as int),
                ),
                tags@.len() == j,
                forall|k: int|
                    0 <= k < j ==> tag_model(#[trigger] tags@[k]) == crate::tasks::resolved_model(
                        *templates,
                        query.tags@[k].id.value,
                    ),
                forall|k: int|
                    0 <= k < j ==> templates.contains_id((#[trigger] query.tags@[k]).id.value),
            decreases n - j,
        {
            let sertag = query.tags[j];
            proof {
                assert(query.tags@.skip(j as int)[0] == query.tags@[j as int]);
            }
            match map.get(sertag.id.value) {
                None => {
                    proof {
                        assert(first_unresolved(*map, query.tags@.skip(j as int)) == Some(
                            sertag.id.value,
                        ));
                    }
                    return Err(LoadError::InvalidTag(sertag.id.value));
                },
                Some(tid) => {
                    let tag = templates.instantiate(tid);
                    tags.push(tag);
                    proof {
                        assert(query.tags@.skip(j as int).drop_first() =~= query.tags@.skip(j + 1));
                    }
                },
            }
            j = j + 1;
        }
        proof {
            assert(first_unresolved(*map, query.tags@.skip(n as int)) is None);
        }
        let r = Query { name: query.name.clone(), tags, selection: SelectionState::new_at(0) };
        proof {
            assert forall|k: int|
                0 <= k < r.spec_filter().len() implies r.spec_filter()[k] == ser_tag_ids(
                query.tags@,
            )[k] by {
                assert(tag_model(r.tags@[k]).0 == query.tags@[k].id.value);
            }
            assert(r.spec_filter() =~= ser_tag_ids(query.tags@));
            assert forall|k: int|
                0 <= k < r.spec_filter_tags().len() implies templates.contains_id(
                r.spec_filter_tags()[k].0,
            ) && r.spec_filter_tags()[k] == crate::tasks::resolved_model(
                *templates,
                r.spec_filter_tags()[k].0,
            ) by {
                assert(r.spec_filter_tags()[k] == tag_model(r.tags@[k]));
            }
        }
        Ok(r)
    }

    /// Convert this query into a serializable one.
    pub fn to_serde(&self) -> (r: ser::query::Query)
        ensures
            r.name@ == self.spec_name(),
            ser_tag_ids(r.tags@) == self.spec_filter(),
    {
        let mut out: Vec<ser::tags::Tag> = Vec::new();
        let n = self.tags.len();
        let mut i: usize = 0;
        while i < n
            invariant
                i <= n,
                n == self.tags@.len(),
                out@.len() == i,
                forall|j: int| 0 <= j < i ==> (#[trigger] out@[j]).id.value == self.tags@[
                    j
                ].spec_id(),
            decreases n - i,
        {
            out.push(self.tags[i].to_serde());
            i = i + 1;
        }
        proof {
            assert forall|j: int|
                0 <= j < out@.len() implies ser_tag_ids(out@)[j] == self.spec_filter()[j] by {
                assert(ser_tag_ids(out@)[j] == out@[j].id.value);
                assert(self.spec_filter()[j] == tag_model(self.tags@[j]).0);
            }
            assert(ser_tag_ids(out@) =~= self.spec_filter());
        }
        ser::query::Query { name: self.name.clone(), tags: out }
    }

    /// Retrieve the query's name.
    pub fn name(&self) -> (r: &str)
        ensures
            r@ == self.spec_name(),
    {
        self.name.as_str()
    }

    /// Check whether a task matches the query's filter.
    pub fn matches(&self, task: &Task) -> (r: bool)
        ensures
            r == query_matches(self.spec_filter(), task.spec_tags()),
    {
        let task_tags = task.tags();
        let n = self.tags.len();
        let mut i: usize = 0;
        while i < n
            invariant
                i <= n,
                n == self.tags@.len(),
                tags_model(task_tags@) == task.spec_tags(),
                forall|j: int| 0 <= j < i ==> model_has(task.spec_tags(), self.spec_filter()[j]),
            decreases n - i,
        {
            let v = self.tags[i].id().value();
            proof {
                assert(self.spec_filter()[i as int] == tag_model(self.tags@[i as int]).0);
            }
            if !tags_have(task_tags, v) {
                proof {
                    assert(!query_matches(self.spec_filter(), task.spec_tags())) by {
                        assert(!model_has(task.spec_tags(), self.spec_filter()[i as int]));
                    }
                }
                return false;
            }
            i = i + 1;
        }
        true
    }

    /// Enumerate the tasks the filter lets through, as (relative index,
    /// task) pairs given by position: the element at relative index `i`
    /// is the i-th matching task in collection order.
    pub fn enumerate(&self, tasks: &Tasks) -> (r: Vec<Task>)
        ensures
            task_views(r@) == spec_filtered(tasks.spec_tasks(), self.spec_filter()),
    {
        let all = tasks.iter();
        let n = all.len();
        let mut out: Vec<Task> = Vec::new();
        let mut i: usize = 0;
        proof {
            assert(task_views(out@) =~= spec_filtered(
                tasks.spec_tasks().take(0),
                self.spec_filter(),
            ));
        }
        while i < n
            invariant
                i <= n,
                n == all@.len(),
                all@ == tasks.spec_tasks(),
                task_views(out@) == spec_filtered(
                    tasks.spec_tasks().take(i as int),
                    self.spec_filter(),
                ),
            decreases n - i,
        {
            let ghost pre = task_views(out@);
            if self.matches(&all[i]) {
                out.push(all[i].clone());
                proof {
                    assert(task_views(out@) =~= pre.push(task_view(all@[i as int])));
                }
            }
            proof {
                let taken1 = tasks.spec_tasks().take(i + 1);
                assert(taken1.drop_last() =~= tasks.spec_tasks().take(i as int));
                assert(taken1.last() == tasks.spec_tasks()[i as int]);
                assert(task_views(out@) =~= spec_filtered(taken1, self.spec_filter()));
            }
            i = i + 1;
        }
        proof {
            assert(tasks.spec_tasks().take(n as int) =~= tasks.spec_tasks());
        }
        out
    }

    /// The ids of the tasks the filter lets through, in collection order:
    /// the sequence the selection cursor resolves against.
    pub fn filtered_ids(&self, tasks: &Tasks) -> (r: Vec<crate::tasks::Id>)
        ensures
            ids_view(r@) == spec_filtered_ids(tasks.spec_tasks(), self.spec_filter()),
    {
        let matching = self.enumerate(tasks);
        let n = matching.len();
        let mut out: Vec<crate::tasks::Id> = Vec::new();
        let mut i: usize = 0;
        while i < n
            invariant
                i <= n,
                n == matching@.len(),
                task_views(matching@) == spec_filtered(tasks.spec_tasks(), self.spec_filter()),
                out@.len() == i,
                forall|j: int| 0 <= j < i ==> (#[trigger] out@[j])@ == task_views(matching@)[j].0,
            decreases n - i,
        {
            out.push(matching[i].id());
            proof {
                assert(task_views(matching@)[i as int] == task_view(matching@[i as int]));
            }
            i = i + 1;
        }
        proof {
            assert forall|j: int|
                0 <= j < out@.len() implies ids_view(out@)[j] == spec_filtered_ids(
                tasks.spec_tasks(),
                self.spec_filter(),
            )[j] by {
                assert(ids_view(out@)[j] == out@[j]@);
            }
            assert(ids_view(out@) =~= spec_filtered_ids(tasks.spec_tasks(), self.spec_filter()));
        }
        out
    }

    /// Advance the selection by one, against the current direction.
    pub fn advance(&mut self)
        requires
            isize::MIN < old(self).spec_selection().spec_advanced() < isize::MAX,
            isize::MIN < old(self).spec_selection().spec_total() < isize::MAX,
        ensures
            final(self).spec_name() == old(self).spec_name(),
            final(self).spec_filter_tags() == old(self).spec_filter_tags(),
            final(self).spec_selection().spec_advanced() == old(
                self,
            ).spec_selection().spec_advanced() + (
            if old(self).spec_selection().spec_reversed() {
                -1int
            } else {
                1int
            }),
            final(self).spec_selection().spec_total() == old(self).spec_selection().spec_total()
                + (
            if old(self).spec_selection().spec_reversed() {
                -1int
            } else {
                1int
            }),
            final(self).spec_selection().anchor() == old(self).spec_selection().anchor(),
            final(self).spec_selection().spec_reversed() == old(
                self,
            ).spec_selection().spec_reversed(),
    {
        self.selection.advance()
    }

    /// Set the selection's direction.
    pub fn reverse(&mut self, reverse: bool)
        ensures
            final(self).spec_name() == old(self).spec_name(),
            final(self).spec_filter_tags() == old(self).spec_filter_tags(),
            final(self).spec_selection().spec_reversed() == reverse,
            final(self).spec_selection().anchor() == old(self).spec_selection().anchor(),
            final(self).spec_selection().spec_advanced() == old(
                self,
            ).spec_selection().spec_advanced(),
            final(self).spec_selection().spec_total() == old(self).spec_selection().spec_total(),
    {
        self.selection.reverse(reverse)
    }

    /// Check whether the selection has cycled through all of `count`
    /// elements once.
    pub fn has_cycled(&self, count: usize) -> (r: bool)
        requires
            isize::MIN < self.spec_selection().spec_total(),
        ensures
            r == crate::selection::spec_has_cycled(self.spec_selection().spec_total(), count as int),
    {
        self.selection.has_cycled(count)
    }

    /// Zero the selection's cycle-detection delta.
    pub fn reset_cycled(&mut self)
        ensures
            final(self).spec_name() == old(self).spec_name(),
            final(self).spec_filter_tags() == old(self).spec_filter_tags(),
            final(self).spec_selection().spec_total() == 0,
            final(self).spec_selection().anchor() == old(self).spec_selection().anchor(),
            final(self).spec_selection().spec_advanced() == old(
                self,
            ).spec_selection().spec_advanced(),
            final(self).spec_selection().spec_reversed() == old(
                self,
            ).spec_selection().spec_reversed(),
    {
        self.selection.reset_cycled()
    }

    /// The index the selection's anchor stands for within the filtered
    /// id values, before the accumulated delta is applied.
    pub open spec fn spec_anchor_start(self, ids: Seq<u64>) -> int {
        match self.spec_selection().anchor() {
            Selection::Start(k) => first_u64_index(ids, k@),
            Selection::Normalized(i) => i as int,
        }
    }

    /// True if the selection's anchor can be resolved against the
    /// filtered id values.
    pub open spec fn spec_anchor_resolvable(self, ids: Seq<u64>) -> bool {
        match self.spec_selection().anchor() {
            Selection::Start(k) => ids.contains(k@),
            Selection::Normalized(_) => true,
        }
    }

    /// Normalize the selection against the tasks the filter currently
    /// lets through, never caching an index across mutations: the anchor
    /// is re-resolved against the present filtered sequence, the
    /// accumulated delta wrapped around its length.
    pub fn normalize(&mut self, tasks: &Tasks) -> (idx: usize)
        requires
            spec_filtered(tasks.spec_tasks(), old(self).spec_filter()).len() > 0,
            old(self).spec_anchor_resolvable(
                spec_filtered_ids(tasks.spec_tasks(), old(self).spec_filter()),
            ),
        ensures
            ({
                let ids = spec_filtered_ids(tasks.spec_tasks(), old(self).spec_filter());
                &&& idx == wrap(
                    old(self).spec_anchor_start(ids) + old(self).spec_selection().spec_advanced(),
                    ids.len() as int,
                )
                &&& 0 <= idx < ids.len()
            }),
            final(self).spec_name() == old(self).spec_name(),
            final(self).spec_filter_tags() == old(self).spec_filter_tags(),
            final(self).spec_selection().anchor() == Selection::<
                crate::tasks::Id,
            >::Normalized(idx),
            final(self).spec_selection().spec_advanced() == 0,
            final(self).spec_selection().spec_total() == old(self).spec_selection().spec_total(),
            final(self).spec_selection().spec_reversed() == old(
                self,
            ).spec_selection().spec_reversed(),
    {
        let ids = self.filtered_ids(tasks);
        proof {
            let vids = ids_view(ids@);
            assert(vids.len() == ids@.len());
            assert(spec_filtered_ids(tasks.spec_tasks(), old(self).spec_filter()).len()
                == spec_filtered(tasks.spec_tasks(), old(self).spec_filter()).len());
            match old(self).spec_selection().anchor() {
                Selection::Start(k) => {
                    lemma_first_index_bridge(ids@, k);
                },
                Selection::Normalized(_) => {},
            }
        }
        self.selection.normalize(&ids)
    }
}

} // verus!
