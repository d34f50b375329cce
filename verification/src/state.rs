//! The program's relevant state: the template registry, the task
//! collection, and the queries, built all-or-nothing from the two
//! persisted documents. Referential validation runs before any query is
//! constructed, so an inconsistent task document never yields a partially
//! usable state.

use vstd::prelude::*;
use vstd::string::StringExecFns;
use crate::error::LoadError;
use crate::query::Query;
use crate::ser;
use crate::ser::tasks::first_invalid_in_tags;
use crate::ser::tasks::first_invalid_in_tasks;
use crate::ser::tasks::tag_id_valid;
use crate::tags::Tag;
use crate::tags::TagMap;
use crate::tags::Templates;
use crate::tasks::Id as TaskId;
use crate::tasks::Task;
use crate::tasks::Tasks;
use crate::tasks::lemma_map_matches_doc_tags;
use crate::tasks::lemma_map_matches_doc_tasks;
use crate::tasks::models_dedup;
use crate::tasks::ser_tag_ids;
use crate::tasks::spec_has_task;
use crate::tasks::spec_load_tags;
use crate::tasks::spec_task_index;
use crate::tasks::tags_model;

verus! {

/// The first tag id among the persisted queries, in document order, that
/// the persisted templates cannot resolve, if any.
pub open spec fn first_invalid_in_queries(
    templates: Seq<ser::tags::Template>,
    queries: Seq<ser::query::Query>,
) -> Option<u64>
    decreases queries.len(),
{
    if queries.len() == 0 {
        None
    } else {
        match first_invalid_in_tags(templates, queries[0].tags@) {
            Some(value) => Some(value),
            None => first_invalid_in_queries(templates, queries.drop_first()),
        }
    }
}

/// The first unresolvable tag id across both documents: task references
/// are validated first, query references after them.
pub open spec fn spec_first_invalid(
    task_state: ser::state::TaskState,
    queries: Seq<ser::query::Query>,
) -> Option<u64> {
    match first_invalid_in_tasks(task_state.templates.0@, task_state.tasks@) {
        Some(value) => Some(value),
        None => first_invalid_in_queries(task_state.templates.0@, queries),
    }
}

/// The name of the implicit all-query.
fn all_name() -> (r: String)
    ensures
        r@ == "all"@,
{
    String::from_str("all")
}

/// The program's state: registry, task collection, and queries.
#[derive(Debug)]
pub struct State {
    templates: Templates,
    tasks: Tasks,
    queries: Vec<Query>,
}

impl State {
    /// The template registry the state was loaded with.
    pub closed spec fn spec_templates(self) -> Templates {
        self.templates
    }

    /// The task collection.
    pub closed spec fn spec_collection(self) -> Tasks {
        self.tasks
    }

    /// The tasks, in insertion order.
    pub open spec fn spec_tasks(self) -> Seq<Task> {
        self.spec_collection().spec_tasks()
    }

    /// The value the next allocated task id will hold.
    pub open spec fn spec_next_id(self) -> u64 {
        self.spec_collection().spec_next_id()
    }

    /// The queries, the implicit all-query first.
    pub closed spec fn spec_queries(self) -> Seq<Query> {
        self.queries@
    }

    /// A well-formed state: a well-formed registry and collection, and
    /// the implicit all-query, which matches every task, in front.
    pub open spec fn wf(self) -> bool {
        &&& self.spec_templates().wf()
        &&& self.spec_collection().wf()
        &&& self.spec_queries().len() >= 1
        &&& self.spec_queries()[0].spec_name() == "all"@
        &&& self.spec_queries()[0].spec_filter() == Seq::<u64>::empty()
    }

    /// Create a new `State` object from the two serializable documents.
    /// Every tag reference is validated before any query is constructed:
    /// the first unresolvable id aborts the whole load with an error
    /// carrying it.
    pub fn with_serde(prog_state: &ser::state::ProgState, task_state: &ser::state::TaskState) -> (r:
        Result<State, LoadError>)
        ensures
            match r {
                Ok(st) => {
                    &&& spec_first_invalid(*task_state, prog_state.queries@) is None
                    &&& st.wf()
                    &&& forall|v: u64|
                        st.spec_templates().contains_id(v) <==> (v == crate::tags::COMPLETE_TAG_ID
                            || ser::tags::templates_have_id(task_state.templates.0@, v))
                    &&& forall|v: u64|
                        v != crate::tags::COMPLETE_TAG_ID && ser::tags::templates_have_id(
                            task_state.templates.0@,
                            v,
                        ) ==> st.spec_templates().name_of(v) == crate::tags::ser_first_name(
                            task_state.templates.0@,
                            v,
                        )
                    &&& st.spec_tasks().len() == task_state.tasks@.len()
                    &&& st.spec_next_id() == task_state.tasks@.len()
                    &&& forall|i: int|
                        0 <= i < task_state.tasks@.len() ==> (
                        #[trigger] st.spec_tasks()[i]).spec_summary() == task_state.tasks@[
                            i
                        ].summary@
                    &&& forall|i: int|
                        0 <= i < task_state.tasks@.len() ==> (
                        #[trigger] st.spec_tasks()[i]).spec_tags() == spec_load_tags(
                            ser_tag_ids(task_state.tasks@[i].tags@),
                            st.spec_templates(),
                        )
                    &&& st.spec_queries().len() == prog_state.queries@.len() + 1
                    &&& forall|i: int|
                        0 <= i < prog_state.queries@.len() ==> (#[trigger] st.spec_queries()[i
                            + 1]).spec_name() == prog_state.queries@[i].name@
                    &&& forall|i: int|
                        0 <= i < prog_state.queries@.len() ==> (#[trigger] st.spec_queries()[i
                            + 1]).spec_filter() == ser_tag_ids(prog_state.queries@[i].tags@)
                },
                Err(e) => spec_first_invalid(*task_state, prog_state.queries@) == Some(
                    e.spec_tag_id(),
                ),
            },
    {
        let (templates, map) = Templates::with_serde(&task_state.templates);
        proof {
            assert forall|v: u64| #[trigger]
                map.contains(v) <==> tag_id_valid(task_state.templates.0@, v) by {}
        }
        let tasks = match Tasks::with_serde(&task_state.tasks, &templates, &map) {
            Ok(tasks) => tasks,
            Err(e) => {
                proof {
                    lemma_map_matches_doc_tasks(map, task_state.templates.0@, task_state.tasks@);
                }
                return Err(e);
            },
        };
        proof {
            lemma_map_matches_doc_tasks(map, task_state.templates.0@, task_state.tasks@);
        }
        let mut queries: Vec<Query> = Vec::new();
        let all_query = Query::new(all_name(), Vec::new());
        proof {
            assert(all_query.spec_filter() =~= Seq::<u64>::empty());
        }
        queries.push(all_query);
        let n = prog_state.queries.len();
        let mut i: usize = 0;
        proof {
            assert(prog_state.queries@.skip(0) =~= prog_state.queries@);
        }
        while i < n
            invariant
                i <= n,
                n == prog_state.queries@.len(),
                templates.wf(),
                map.consistent_with(templates),
                forall|v: u64| #[trigger]
                    map.contains(v) <==> tag_id_valid(task_state.templates.0@, v),
                first_invalid_in_tasks(task_state.templates.0@, task_state.tasks@) is None,
                first_invalid_in_queries(task_state.templates.0@, prog_state.queries@)
                    == first_invalid_in_queries(
                    task_state.templates.0@,
                    prog_state.queries@.skip(i as int),
                ),
                queries@.len() == i + 1,
                queries@[0].spec_name() == "all"@,
                queries@[0].spec_filter() == Seq::<u64>::empty(),
                forall|j: int|
                    0 <= j < i ==> (#[trigger] queries@[j + 1]).spec_name() == prog_state.queries@[
                        j
                    ].name@,
                forall|j: int|
                    0 <= j < i ==> (#[trigger] queries@[j + 1]).spec_filter() == ser_tag_ids(
                        prog_state.queries@[j].tags@,
                    ),
            decreases n - i,
        {
            let serquery = &prog_state.queries[i];
            proof {
                assert(prog_state.queries@.skip(i as int)[0] == prog_state.queries@[i as int]);
                assert(prog_state.queries@.skip(i as int).drop_first()
                    =~= prog_state.queries@.skip(i + 1));
            }
            match Query::with_serde(serquery, &templates, &map) {
                Ok(query) => {
                    queries.push(query);
                    proof {
                        lemma_map_matches_doc_tags(
                            map,
                            task_state.templates.0@,
                            serquery.tags@,
                        );
                    }
                },
                Err(e) => {
                    proof {
                        lemma_map_matches_doc_tags(
                            map,
                            task_state.templates.0@,
                            serquery.tags@,
                        );
                        assert(first_invalid_in_queries(
                            task_state.templates.0@,
                            prog_state.queries@.skip(i as int),
                        ) == Some(e.spec_tag_id()));
                    }
                    return Err(e);
                },
            }
            i = i + 1;
        }
        proof {
            assert(first_invalid_in_queries(
                task_state.templates.0@,
                prog_state.queries@.skip(n as int),
            ) is None);
        }
        Ok(State { templates, tasks, queries })
    }

    /// Build a state from the two documents as read from disk, where a
    /// missing file stands for a valid empty document. Loading with both
    /// documents absent yields a state with zero tasks and only the
    /// implicit all-query: a freshly constructed empty state.
    pub fn from_documents(
        prog_state: Option<ser::state::ProgState>,
        task_state: Option<ser::state::TaskState>,
    ) -> (r: Result<State, LoadError>)
        ensures
            ({
                let queries = match prog_state {
                    Some(p) => p.queries@,
                    None => Seq::<ser::query::Query>::empty(),
                };
                match r {
                    Ok(st) => {
                        &&& st.wf()
                        &&& st.spec_tasks().len() == (match task_state {
                            Some(t) => t.tasks@.len(),
                            None => 0,
                        })
                        &&& st.spec_queries().len() == queries.len() + 1
                        &&& forall|i: int|
                            0 <= i < queries.len() ==> (#[trigger] st.spec_queries()[i
                                + 1]).spec_name() == queries[i].name@
                        &&& forall|i: int|
                            0 <= i < queries.len() ==> (#[trigger] st.spec_queries()[i
                                + 1]).spec_filter() == ser_tag_ids(queries[i].tags@)
                        &&& task_state matches Some(t) ==> forall|i: int|
                            0 <= i < t.tasks@.len() ==> (
                            #[trigger] st.spec_tasks()[i]).spec_summary() == t.tasks@[i].summary@
                        &&& task_state matches Some(t) ==> forall|i: int|
                            0 <= i < t.tasks@.len() ==> (
                            #[trigger] st.spec_tasks()[i]).spec_tags() == spec_load_tags(
                                ser_tag_ids(t.tasks@[i].tags@),
                                st.spec_templates(),
                            )
                    },
                    Err(e) => (match task_state {
                        Some(t) => spec_first_invalid(t, queries) == Some(e.spec_tag_id()),
                        None => first_invalid_in_queries(
                            Seq::<ser::tags::Template>::empty(),
                            queries,
                        ) == Some(e.spec_tag_id()),
                    }),
                }
            }),
            (prog_state is None && task_state is None) ==> (r is Ok
                && r->Ok_0.spec_tasks().len() == 0 && r->Ok_0.spec_queries().len() == 1),
    {
        let default_prog = ser::state::ProgState::empty();
        let default_tasks = ser::tasks::Tasks {
            templates: ser::tags::Templates(Vec::new()),
            tasks: Vec::new(),
        };
        let prog = match &prog_state {
            Some(p) => p,
            None => &default_prog,
        };
        let tasks = match &task_state {
            Some(t) => t,
            None => &default_tasks,
        };
        State::with_serde(prog, tasks)
    }

    /// Convert this object into its two serializable documents. The first
    /// query is the implicit all-query and is never persisted.
    pub fn to_serde(&self) -> (r: (ser::state::ProgState, ser::state::TaskState))
        requires
            self.spec_queries().len() >= 1,
        ensures
            r.0.queries@.len() + 1 == self.spec_queries().len(),
            forall|i: int|
                0 <= i < r.0.queries@.len() ==> (#[trigger] r.0.queries@[i]).name@
                    == self.spec_queries()[i + 1].spec_name(),
            forall|i: int|
                0 <= i < r.0.queries@.len() ==> ser_tag_ids((#[trigger] r.0.queries@[i]).tags@)
                    == self.spec_queries()[i + 1].spec_filter(),
            r.1.templates.0@.map_values(
                |t: ser::tags::Template| crate::tags::ser_template_model(t),
            ) == crate::tags::ser_models_of(self.spec_templates().spec_templates()),
            r.1.tasks@.len() == self.spec_tasks().len(),
            forall|i: int|
                0 <= i < r.1.tasks@.len() ==> (#[trigger] r.1.tasks@[i]).summary@
                    == self.spec_tasks()[i].spec_summary(),
            forall|i: int|
                0 <= i < r.1.tasks@.len() ==> ser_tag_ids((#[trigger] r.1.tasks@[i]).tags@)
                    == crate::tasks::model_ids(self.spec_tasks()[i].spec_tags()),
    {
        let mut serqueries: Vec<ser::query::Query> = Vec::new();
        let n = self.queries.len();
        let mut i: usize = 1;
        while i < n
            invariant
                1 <= i <= n,
                n == self.queries@.len(),
                serqueries@.len() == i - 1,
                forall|j: int|
                    0 <= j < i - 1 ==> (#[trigger] serqueries@[j]).name@ == self.queries@[j
                        + 1].spec_name(),
                forall|j: int|
                    0 <= j < i - 1 ==> ser_tag_ids((#[trigger] serqueries@[j]).tags@)
                        == self.queries@[j + 1].spec_filter(),
            decreases n - i,
        {
            serqueries.push(self.queries[i].to_serde());
            i = i + 1;
        }
        let prog = ser::state::ProgState { queries: serqueries };
        let task_state = ser::tasks::Tasks {
            templates: self.templates.to_serde(),
            tasks: self.tasks.to_serde(),
        };
        (prog, task_state)
    }

    /// Retrieve copies of the tasks associated with this state.
    pub fn tasks(&self) -> (r: Vec<Task>)
        ensures
            r@.len() == self.spec_tasks().len(),
            forall|i: int|
                0 <= i < r@.len() ==> crate::query::task_view(#[trigger] r@[i])
                    == crate::query::task_view(self.spec_tasks()[i]),
    {
        let all = self.tasks.iter();
        let n = all.len();
        let mut out: Vec<Task> = Vec::new();
        let mut i: usize = 0;
        while i < n
            invariant
                i <= n,
                n == all@.len(),
                all@ == self.spec_tasks(),
                out@.len() == i,
                forall|j: int|
                    0 <= j < i ==> crate::query::task_view(#[trigger] out@[j])
                        == crate::query::task_view(self.spec_tasks()[j]),
            decreases n - i,
        {
            out.push(all[i].clone());
            i = i + 1;
        }
        out
    }

    /// Retrieve the queries to use, the implicit all-query first.
    pub fn queries(&self) -> (r: &Vec<Query>)
        ensures
            r@ == self.spec_queries(),
    {
        &self.queries
    }

    /// Retrieve the queries for navigation. A caller that replaces the
    /// implicit all-query in front takes the state's well-formedness with
    /// it.
    pub fn queries_mut(&mut self) -> (r: &mut Vec<Query>)
        ensures
            (*r)@ == old(self).spec_queries(),
            final(self).spec_queries() == final(r)@,
            final(self).spec_collection() == old(self).spec_collection(),
            final(self).spec_templates() == old(self).spec_templates(),
    {
        &mut self.queries
    }

    /// Retrieve the template registry, e.g. to instantiate tags or to
    /// toggle completion.
    pub fn templates(&self) -> (r: &Templates)
        ensures
            *r == self.spec_templates(),
    {
        &self.templates
    }

    /// Retrieve the task collection, for reads such as enumeration.
    pub fn collection(&self) -> (r: &Tasks)
        ensures
            *r == self.spec_collection(),
    {
        &self.tasks
    }

    /// Add a new task to the list of tasks and return its id.
    pub fn add_task(&mut self, summary: String, tags: Vec<Tag>) -> (r: TaskId)
        requires
            old(self).wf(),
            old(self).spec_next_id() < u64::MAX,
        ensures
            final(self).wf(),
            r@ == old(self).spec_next_id(),
            !spec_has_task(old(self).spec_tasks(), r@),
            final(self).spec_next_id() == old(self).spec_next_id() + 1,
            final(self).spec_tasks().len() == old(self).spec_tasks().len() + 1,
            forall|i: int|
                0 <= i < old(self).spec_tasks().len() ==> final(self).spec_tasks()[i] == old(
                    self,
                ).spec_tasks()[i],
            final(self).spec_tasks().last().spec_id() == r@,
            final(self).spec_tasks().last().spec_summary() == summary@,
            final(self).spec_tasks().last().spec_tags() == models_dedup(tags_model(tags@)),
            final(self).spec_queries() == old(self).spec_queries(),
            final(self).spec_templates() == old(self).spec_templates(),
    {
        self.tasks.add(summary, tags)
    }

    /// Remove the task with the given id, which must be present: ids
    /// handed to this operation originate from a live enumeration.
    pub fn remove_task(&mut self, id: TaskId)
        requires
            old(self).wf(),
            spec_has_task(old(self).spec_tasks(), id@),
        ensures
            final(self).wf(),
            final(self).spec_next_id() == old(self).spec_next_id(),
            final(self).spec_tasks() == old(self).spec_tasks().remove(
                spec_task_index(old(self).spec_tasks(), id@),
            ),
            final(self).spec_queries() == old(self).spec_queries(),
            final(self).spec_templates() == old(self).spec_templates(),
    {
        self.tasks.remove(id)
    }

    /// Replace the task carrying the same id as the given task, which
    /// must be present: tasks handed to this operation originate from a
    /// live enumeration.
    pub fn update_task(&mut self, task: Task)
        requires
            old(self).wf(),
            task.wf(),
            spec_has_task(old(self).spec_tasks(), task.spec_id()),
        ensures
            final(self).wf(),
            final(self).spec_next_id() == old(self).spec_next_id(),
            final(self).spec_tasks() == old(self).spec_tasks().update(
                spec_task_index(old(self).spec_tasks(), task.spec_id()),
                task,
            ),
            final(self).spec_queries() == old(self).spec_queries(),
            final(self).spec_templates() == old(self).spec_templates(),
    {
        self.tasks.update(task)
    }
}

} // verus!
