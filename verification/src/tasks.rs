//! Tasks and the task collection: an ordered sequence of tasks, each
//! owning a deduplicated, id-sorted set of tags; the collection is the
//! single mutable source of truth.
//!
//! Contracts speak of tags through their (id, name) models, so that every
//! mutation pins down the resulting tag set exactly.

use vstd::prelude::*;
use crate::error::LoadError;
use crate::ids::Id as IdT;
use crate::ids::IdGen;
use crate::ser;
use crate::ser::tasks::first_invalid_in_tags;
use crate::ser::tasks::first_invalid_in_tasks;
use crate::ser::tasks::tag_id_valid;
use crate::tags::COMPLETE_TAG_ID;
use crate::tags::Tag;
use crate::tags::TagMap;
use crate::tags::Templates;

verus! {

/// The category of task identifiers.
#[derive(Clone, Copy, Debug)]
pub struct T(());

/// A task id.
pub type Id = IdT<T>;

/// The (id, name) model of a tag.
pub open spec fn tag_model(t: Tag) -> (u64, Seq<char>) {
    (t.spec_id(), t.spec_name())
}

/// The models of a tag sequence.
pub open spec fn tags_model(tags: Seq<Tag>) -> Seq<(u64, Seq<char>)> {
    tags.map_values(|t: Tag| tag_model(t))
}

/// The ids of a sequence of tag models.
pub open spec fn model_ids(s: Seq<(u64, Seq<char>)>) -> Seq<u64> {
    s.map_values(|m: (u64, Seq<char>)| m.0)
}

/// True if the tag models are sorted strictly ascending by id; strictness
/// makes the ids unique, so no task holds two tags of one template.
pub open spec fn model_sorted(s: Seq<(u64, Seq<char>)>) -> bool {
    forall|i: int, j: int| 0 <= i < j < s.len() ==> s[i].0 < s[j].0
}

/// True if some tag model carries id `v`.
pub open spec fn model_has(s: Seq<(u64, Seq<char>)>, v: u64) -> bool {
    exists|i: int| 0 <= i < s.len() && s[i].0 == v
}

/// Insert a tag model into an id-sorted sequence; an entry with the same
/// id is replaced.
pub open spec fn model_insert(s: Seq<(u64, Seq<char>)>, m: (u64, Seq<char>)) -> Seq<
    (u64, Seq<char>),
>
    decreases s.len(),
{
    if s.len() == 0 {
        seq![m]
    } else if m.0 < s[0].0 {
        seq![m] + s
    } else if m.0 == s[0].0 {
        seq![m] + s.drop_first()
    } else {
        seq![s[0]] + model_insert(s.drop_first(), m)
    }
}

/// Remove the entry carrying id `v` from an id-sorted sequence; without
/// such an entry the sequence is unchanged.
pub open spec fn model_remove(s: Seq<(u64, Seq<char>)>, v: u64) -> Seq<(u64, Seq<char>)>
    decreases s.len(),
{
    if s.len() == 0 {
        s
    } else if s[0].0 == v {
        s.drop_first()
    } else {
        seq![s[0]] + model_remove(s.drop_first(), v)
    }
}

/// The model of the tag that instantiating template `v` yields.
pub open spec fn resolved_model(templates: Templates, v: u64) -> (u64, Seq<char>) {
    (v, templates.name_of(v))
}

/// The tag models a task accumulates when loading the persisted tag ids
/// `ids` against `templates`, inserting one resolved tag after the other.
pub open spec fn spec_load_tags(ids: Seq<u64>, templates: Templates) -> Seq<(u64, Seq<char>)>
    decreases ids.len(),
{
    if ids.len() == 0 {
        Seq::empty()
    } else {
        model_insert(spec_load_tags(ids.drop_last(), templates), resolved_model(
            templates,
            ids.last(),
        ))
    }
}

/// The tag models accumulated from the given tags, in order, deduplicated
/// by id.
pub open spec fn models_dedup(s: Seq<(u64, Seq<char>)>) -> Seq<(u64, Seq<char>)>
    decreases s.len(),
{
    if s.len() == 0 {
        Seq::empty()
    } else {
        model_insert(models_dedup(s.drop_last()), s.last())
    }
}

/// Inserting preserves sortedness, extends membership by exactly the
/// inserted id, and introduces no entry besides the inserted one.
pub proof fn lemma_model_insert_sorted(s: Seq<(u64, Seq<char>)>, m: (u64, Seq<char>))
    requires
        model_sorted(s),
    ensures
        model_sorted(model_insert(s, m)),
        forall|v: u64| #[trigger] model_has(model_insert(s, m), v) <==> (model_has(s, v) || v
            == m.0),
        forall|i: int|
            0 <= i < model_insert(s, m).len() ==> (model_insert(s, m)[i] == m || s.contains(
                model_insert(s, m)[i],
            )),
    decreases s.len(),
{
    let r = model_insert(s, m);
    if s.len() == 0 {
        assert forall|v: u64| model_has(r, v) implies (model_has(s, v) || v == m.0) by {
            let i = choose|i: int| 0 <= i < r.len() && r[i].0 == v;
            assert(r[i] == m);
        }
        assert(r[0] == m);
    } else if m.0 < s[0].0 {
        assert forall|v: u64| model_has(r, v) implies (model_has(s, v) || v == m.0) by {
            let i = choose|i: int| 0 <= i < r.len() && r[i].0 == v;
            if i > 0 {
                assert(s[i - 1].0 == v);
            }
        }
        assert forall|v: u64| model_has(s, v) implies model_has(r, v) by {
            let i = choose|i: int| 0 <= i < s.len() && s[i].0 == v;
            assert(r[i + 1].0 == v);
        }
        assert(r[0] == m);
        assert forall|i: int| 0 < i < r.len() implies s.contains(r[i]) by {
            assert(r[i] == s[i - 1]);
        }
    } else if m.0 == s[0].0 {
        assert forall|v: u64| model_has(r, v) implies (model_has(s, v) || v == m.0) by {
            let i = choose|i: int| 0 <= i < r.len() && r[i].0 == v;
            if i > 0 {
                assert(s[i].0 == v);
            }
        }
        assert forall|v: u64| model_has(s, v) implies model_has(r, v) by {
            let i = choose|i: int| 0 <= i < s.len() && s[i].0 == v;
            if i == 0 {
                assert(r[0].0 == v);
            } else {
                assert(r[i].0 == v);
            }
        }
        assert(r[0] == m);
        assert forall|i: int| 0 < i < r.len() implies s.contains(r[i]) by {
            assert(r[i] == s[i]);
        }
    } else {
        let d = s.drop_first();
        lemma_model_insert_sorted(d, m);
        let rd = model_insert(d, m);
        assert(r =~= seq![s[0]] + rd);
        assert(model_sorted(r)) by {
            assert forall|i: int, j: int| 0 <= i < j < r.len() implies r[i].0 < r[j].0 by {
                if i == 0 {
                    assert(r[0] == s[0]);
                    assert(rd[j - 1] == m || d.contains(rd[j - 1]));
                    if d.contains(rd[j - 1]) {
                        let k = choose|k: int| 0 <= k < d.len() && d[k] == rd[j - 1];
                        assert(s[k + 1] == rd[j - 1]);
                    }
                } else {
                    assert(r[i] == rd[i - 1] && r[j] == rd[j - 1]);
                }
            }
        }
        assert forall|v: u64| model_has(r, v) implies (model_has(s, v) || v == m.0) by {
            let i = choose|i: int| 0 <= i < r.len() && r[i].0 == v;
            if i == 0 {
                assert(s[0].0 == v);
            } else {
                assert(rd[i - 1].0 == v);
                assert(model_has(d, v) || v == m.0);
                if model_has(d, v) {
                    let k = choose|k: int| 0 <= k < d.len() && d[k].0 == v;
                    assert(s[k + 1].0 == v);
                }
            }
        }
        assert forall|v: u64| (model_has(s, v) || v == m.0) implies model_has(r, v) by {
            if model_has(s, v) {
                let i = choose|i: int| 0 <= i < s.len() && s[i].0 == v;
                if i == 0 {
                    assert(r[0].0 == v);
                } else {
                    assert(d[i - 1].0 == v);
                    assert(model_has(d, v) || v == m.0);
                    assert(model_has(model_insert(d, m), v));
                    assert(model_has(rd, v));
                    let k = choose|k: int| 0 <= k < rd.len() && rd[k].0 == v;
                    assert(r[k + 1].0 == v);
                }
            } else {
                assert(model_has(d, v) || v == m.0);
                assert(model_has(model_insert(d, m), v));
                assert(model_has(rd, v));
                let k = choose|k: int| 0 <= k < rd.len() && rd[k].0 == v;
                assert(r[k + 1].0 == v);
            }
        }
        assert forall|i: int| 0 <= i < r.len() implies (r[i] == m || s.contains(r[i])) by {
            if i == 0 {
                assert(s[0] == r[0]);
            } else {
                assert(r[i] == rd[i - 1]);
                if d.contains(rd[i - 1]) {
                    let k = choose|k: int| 0 <= k < d.len() && d[k] == rd[i - 1];
                    assert(s[k + 1] == r[i]);
                }
            }
        }
    }
}

/// Removing preserves sortedness, shrinks membership by exactly the
/// removed id, and introduces no new entry.
pub proof fn lemma_model_remove_sorted(s: Seq<(u64, Seq<char>)>, v: u64)
    requires
        model_sorted(s),
    ensures
        model_sorted(model_remove(s, v)),
        forall|w: u64| #[trigger] model_has(model_remove(s, v), w) <==> (model_has(s, w) && w
            != v),
        forall|i: int| 0 <= i < model_remove(s, v).len() ==> s.contains(model_remove(s, v)[i]),
    decreases s.len(),
{
    let r = model_remove(s, v);
    if s.len() == 0 {
    } else if s[0].0 == v {
        assert(r =~= s.drop_first());
        assert forall|w: u64| model_has(r, w) implies (model_has(s, w) && w != v) by {
            let i = choose|i: int| 0 <= i < r.len() && r[i].0 == w;
            assert(s[i + 1].0 == w);
            assert(s[0].0 < s[i + 1].0);
        }
        assert forall|w: u64| (model_has(s, w) && w != v) implies model_has(r, w) by {
            let i = choose|i: int| 0 <= i < s.len() && s[i].0 == w;
            assert(i > 0);
            assert(r[i - 1].0 == w);
        }
        assert forall|i: int| 0 <= i < r.len() implies s.contains(r[i]) by {
            assert(r[i] == s[i + 1]);
        }
    } else {
        let d = s.drop_first();
        lemma_model_remove_sorted(d, v);
        let rd = model_remove(d, v);
        assert(r =~= seq![s[0]] + rd);
        assert forall|i: int| 0 <= i < r.len() implies s.contains(r[i]) by {
            if i == 0 {
                assert(r[0] == s[0]);
            } else {
                assert(r[i] == rd[i - 1]);
                if d.contains(rd[i - 1]) {
                    let k = choose|k: int| 0 <= k < d.len() && d[k] == rd[i - 1];
                    assert(s[k + 1] == r[i]);
                }
            }
        }
        assert(model_sorted(r)) by {
            assert forall|i: int, j: int| 0 <= i < j < r.len() implies r[i].0 < r[j].0 by {
                if i == 0 {
                    assert(r[j] == rd[j - 1]);
                    assert(model_has(model_remove(d, v), rd[j - 1].0)) by {
                        assert(rd[j - 1].0 == rd[j - 1].0);
                    }
                    assert(model_has(d, r[j].0));
                    let k = choose|k: int| 0 <= k < d.len() && d[k].0 == r[j].0;
                    assert(s[k + 1].0 == r[j].0);
                    assert(s[0].0 < s[k + 1].0);
                } else {
                    assert(r[i] == rd[i - 1] && r[j] == rd[j - 1]);
                }
            }
        }
        assert forall|w: u64| model_has(r, w) implies (model_has(s, w) && w != v) by {
            let i = choose|i: int| 0 <= i < r.len() && r[i].0 == w;
            if i == 0 {
                assert(s[0].0 == w);
            } else {
                assert(model_remove(d, v)[i - 1].0 == w);
                assert(model_has(model_remove(d, v), w));
                assert(model_has(d, w) && w != v);
                let k = choose|k: int| 0 <= k < d.len() && d[k].0 == w;
                assert(s[k + 1].0 == w);
            }
        }
        assert forall|w: u64| (model_has(s, w) && w != v) implies model_has(r, w) by {
            let i = choose|i: int| 0 <= i < s.len() && s[i].0 == w;
            if i == 0 {
                assert(r[0].0 == w);
            } else {
                assert(d[i - 1].0 == w);
                assert(model_has(d, w));
                assert(model_has(model_remove(d, v), w));
                let k = choose|k: int| 0 <= k < rd.len() && rd[k].0 == w;
                assert(r[k + 1].0 == w);
            }
        }
    }
}

/// Where an insertion lands: with `p` the first position whose id is not
/// below the inserted one, insertion splices the entry in at `p`,
/// replacing an entry of equal id.
pub proof fn lemma_model_insert_splice(s: Seq<(u64, Seq<char>)>, m: (u64, Seq<char>), p: int)
    requires
        model_sorted(s),
        0 <= p <= s.len(),
        forall|j: int| 0 <= j < p ==> s[j].0 < m.0,
        p < s.len() ==> s[p].0 >= m.0,
    ensures
        model_insert(s, m) == if p < s.len() && s[p].0 == m.0 {
            s.take(p) + seq![m] + s.skip(p + 1)
        } else {
            s.take(p) + seq![m] + s.skip(p)
        },
    decreases s.len(),
{
    if s.len() == 0 {
        assert(model_insert(s, m) =~= s.take(p) + seq![m] + s.skip(p));
    } else if p == 0 {
        if s[0].0 == m.0 {
            assert(model_insert(s, m) =~= s.take(0) + seq![m] + s.skip(1));
        } else {
            assert(m.0 < s[0].0);
            assert(model_insert(s, m) =~= s.take(0) + seq![m] + s.skip(0));
        }
    } else {
        let d = s.drop_first();
        lemma_model_insert_splice(d, m, p - 1);
        assert(s[0].0 < m.0);
        if p < s.len() && s[p].0 == m.0 {
            assert(d[p - 1].0 == m.0);
            assert(seq![s[0]] + (d.take(p - 1) + seq![m] + d.skip(p)) =~= s.take(p) + seq![m]
                + s.skip(p + 1));
        } else {
            assert(seq![s[0]] + (d.take(p - 1) + seq![m] + d.skip(p - 1)) =~= s.take(p) + seq![m]
                + s.skip(p));
        }
    }
}

/// Where a removal lands: with `p` the first position carrying the id,
/// removal deletes exactly that entry; without one it changes nothing.
pub proof fn lemma_model_remove_splice(s: Seq<(u64, Seq<char>)>, v: u64, p: int)
    requires
        0 <= p <= s.len(),
        forall|j: int| 0 <= j < p ==> s[j].0 != v,
        p < s.len() ==> s[p].0 == v,
    ensures
        model_remove(s, v) == if p < s.len() {
            s.take(p) + s.skip(p + 1)
        } else {
            s
        },
    decreases s.len(),
{
    if s.len() == 0 {
        assert(model_remove(s, v) =~= s);
    } else if p == 0 {
        assert(model_remove(s, v) =~= s.take(0) + s.skip(1));
    } else {
        let d = s.drop_first();
        lemma_model_remove_splice(d, v, p - 1);
        if p < s.len() {
            assert(seq![s[0]] + (d.take(p - 1) + d.skip(p)) =~= s.take(p) + s.skip(p + 1));
        } else {
            assert(seq![s[0]] + d =~= s);
        }
    }
}

/// Inserting a model whose id exceeds every id present appends it.
pub proof fn lemma_model_insert_greatest(s: Seq<(u64, Seq<char>)>, m: (u64, Seq<char>))
    requires
        model_sorted(s),
        forall|i: int| 0 <= i < s.len() ==> s[i].0 < m.0,
    ensures
        model_insert(s, m) == s.push(m),
    decreases s.len(),
{
    if s.len() == 0 {
        assert(model_insert(s, m) =~= s.push(m));
    } else {
        let d = s.drop_first();
        lemma_model_insert_greatest(d, m);
        assert(seq![s[0]] + d.push(m) =~= s.push(m));
    }
}

/// Law: toggling a tag that is absent and then toggling it again leaves
/// the tag models unchanged — the insert-then-remove direction of the
/// self-inverse property of completion toggling.
pub proof fn lemma_toggle_insert_then_remove(s: Seq<(u64, Seq<char>)>, m: (u64, Seq<char>))
    requires
        model_sorted(s),
        !model_has(s, m.0),
    ensures
        model_remove(model_insert(s, m), m.0) == s,
    decreases s.len(),
{
    if s.len() == 0 {
        assert(model_remove(model_insert(s, m), m.0) =~= s);
    } else if m.0 < s[0].0 {
        assert(model_insert(s, m) == seq![m] + s);
        assert((seq![m] + s)[0].0 == m.0);
        assert(model_remove(seq![m] + s, m.0) =~= s);
    } else {
        assert(s[0].0 != m.0) by {
            assert(s[0].0 == s[0].0);
        }
        let d = s.drop_first();
        assert(!model_has(d, m.0)) by {
            if model_has(d, m.0) {
                let k = choose|k: int| 0 <= k < d.len() && d[k].0 == m.0;
                assert(s[k + 1].0 == m.0);
            }
        }
        lemma_toggle_insert_then_remove(d, m);
        let rd = model_insert(d, m);
        assert(model_insert(s, m) == seq![s[0]] + rd);
        assert((seq![s[0]] + rd)[0].0 == s[0].0);
        assert((seq![s[0]] + rd).drop_first() =~= rd);
        assert(model_remove(seq![s[0]] + rd, m.0) == seq![s[0]] + model_remove(rd, m.0));
        assert(seq![s[0]] + model_remove(rd, m.0) =~= s);
    }
}

/// Law: toggling a tag that is present and then toggling it again leaves
/// the tag models unchanged — the remove-then-insert direction of the
/// self-inverse property of completion toggling.
pub proof fn lemma_toggle_remove_then_insert(s: Seq<(u64, Seq<char>)>, k: int)
    requires
        model_sorted(s),
        0 <= k < s.len(),
    ensures
        model_insert(model_remove(s, s[k].0), s[k]) == s,
    decreases s.len(),
{
    if k == 0 {
        assert(model_remove(s, s[0].0) == s.drop_first());
        let d = s.drop_first();
        if d.len() == 0 {
            assert(model_insert(d, s[0]) =~= s);
        } else {
            assert(s[0].0 < d[0].0) by {
                assert(d[0] == s[1]);
            }
            assert(model_insert(d, s[0]) == seq![s[0]] + d);
            assert(seq![s[0]] + d =~= s);
        }
    } else {
        let d = s.drop_first();
        assert(s[0].0 != s[k].0);
        assert(model_remove(s, s[k].0) == seq![s[0]] + model_remove(d, s[k].0));
        assert(d[k - 1] == s[k]);
        lemma_toggle_remove_then_insert(d, k - 1);
        let rd = model_remove(d, s[k].0);
        lemma_model_remove_sorted(d, s[k].0);
        let withhead = seq![s[0]] + rd;
        assert(model_insert(withhead, s[k]) == seq![s[0]] + model_insert(rd, s[k])) by {
            assert(s[0].0 < s[k].0);
            assert(withhead[0] == s[0]);
            assert(withhead.drop_first() =~= rd);
        }
        assert(seq![s[0]] + model_insert(rd, s[k]) =~= s);
    }
}

/// Law: loading back the ids of sorted tag models whose names came from
/// `templates` reproduces the models exactly — the tag-set half of the
/// serialization round trip.
pub proof fn lemma_tags_round_trip(s: Seq<(u64, Seq<char>)>, templates: Templates)
    requires
        model_sorted(s),
        forall|i: int| 0 <= i < s.len() ==> s[i] == resolved_model(templates, s[i].0),
    ensures
        spec_load_tags(model_ids(s), templates) == s,
    decreases s.len(),
{
    let ids = model_ids(s);
    if s.len() == 0 {
        assert(spec_load_tags(ids, templates) =~= s);
    } else {
        let d = s.drop_last();
        assert(ids.drop_last() =~= model_ids(d));
        lemma_tags_round_trip(d, templates);
        assert(ids.last() == s.last().0);
        assert(resolved_model(templates, ids.last()) == s.last());
        lemma_model_insert_greatest(d, s.last());
        assert(d.push(s.last()) =~= s);
    }
}

/// True if the tag models all come from the registry: each id is known
/// and each name is the one instantiation yields.
pub open spec fn models_valid(s: Seq<(u64, Seq<char>)>, templates: Templates) -> bool {
    forall|i: int|
        0 <= i < s.len() ==> templates.contains_id(s[i].0) && s[i] == resolved_model(
            templates,
            s[i].0,
        )
}

/// The persisted ids of a serializable tag sequence.
pub open spec fn ser_tag_ids(tags: Seq<ser::tags::Tag>) -> Seq<u64> {
    tags.map_values(|g: ser::tags::Tag| g.id.value)
}

/// The first persisted tag id that the map cannot resolve, if any.
pub open spec fn first_unresolved(map: TagMap, tags: Seq<ser::tags::Tag>) -> Option<u64>
    decreases tags.len(),
{
    if tags.len() == 0 {
        None
    } else if !map.contains(tags[0].id.value) {
        Some(tags[0].id.value)
    } else {
        first_unresolved(map, tags.drop_first())
    }
}

/// The first persisted tag id across the serializable tasks, in document
/// order, that the map cannot resolve, if any.
pub open spec fn first_unresolved_in_tasks(map: TagMap, tasks: Seq<ser::tasks::Task>) -> Option<
    u64,
>
    decreases tasks.len(),
{
    if tasks.len() == 0 {
        None
    } else {
        match first_unresolved(map, tasks[0].tags@) {
            Some(value) => Some(value),
            None => first_unresolved_in_tasks(map, tasks.drop_first()),
        }
    }
}

/// Resolution through a map that mirrors the document's templates agrees
/// with document-level validation, on one tag list.
pub proof fn lemma_map_matches_doc_tags(
    map: TagMap,
    doc: Seq<ser::tags::Template>,
    tags: Seq<ser::tags::Tag>,
)
    requires
        forall|v: u64| #[trigger] map.contains(v) <==> tag_id_valid(doc, v),
    ensures
        first_unresolved(map, tags) == first_invalid_in_tags(doc, tags),
    decreases tags.len(),
{
    if tags.len() > 0 {
        lemma_map_matches_doc_tags(map, doc, tags.drop_first());
    }
}

/// Resolution through a map that mirrors the document's templates agrees
/// with document-level validation, across the task list.
pub proof fn lemma_map_matches_doc_tasks(
    map: TagMap,
    doc: Seq<ser::tags::Template>,
    tasks: Seq<ser::tasks::Task>,
)
    requires
        forall|v: u64| #[trigger] map.contains(v) <==> tag_id_valid(doc, v),
    ensures
        first_unresolved_in_tasks(map, tasks) == first_invalid_in_tasks(doc, tasks),
    decreases tasks.len(),
{
    if tasks.len() > 0 {
        lemma_map_matches_doc_tags(map, doc, tasks[0].tags@);
        lemma_map_matches_doc_tasks(map, doc, tasks.drop_first());
    }
}

/// Copy a tag sequence.
fn clone_tags(tags: &Vec<Tag>) -> (r: Vec<Tag>)
    ensures
        r@ == tags@,
{
    let mut out: Vec<Tag> = Vec::new();
    let n = tags.len();
    let mut i: usize = 0;
    while i < n
        invariant
            i <= n,
            n == tags@.len(),
            out@ =~= tags@.take(i as int),
        decreases n - i,
    {
        out.push(tags[i].clone());
        i = i + 1;
    }
    proof {
        assert(out@ =~= tags@);
    }
    out
}

/// Insert a tag into an id-sorted tag vector, replacing an entry of the
/// same id.
fn insert_tag(tags: &mut Vec<Tag>, tag: Tag)
    requires
        model_sorted(tags_model(old(tags)@)),
    ensures
        tags_model(final(tags)@) == model_insert(tags_model(old(tags)@), tag_model(tag)),
        model_sorted(tags_model(final(tags)@)),
{
    let v = tag.id().value();
    let n = tags.len();
    let mut p: usize = 0;
    while p < n && tags[p].id().value() < v
        invariant
            p <= n,
            n == tags@.len(),
            tags@ == old(tags)@,
            v == tag.spec_id(),
            forall|j: int| 0 <= j < p ==> tags@[j].spec_id() < v,
        decreases n - p,
    {
        p = p + 1;
    }
    let ghost pre = tags_model(tags@);
    proof {
        lemma_model_insert_splice(pre, tag_model(tag), p as int);
        lemma_model_insert_sorted(pre, tag_model(tag));
    }
    if p < n && tags[p].id().value() == v {
        tags.remove(p);
        tags.insert(p, tag);
        proof {
            assert(tags_model(tags@) =~= pre.take(p as int) + seq![tag_model(tag)] + pre.skip(
                p as int + 1,
            ));
        }
    } else {
        tags.insert(p, tag);
        proof {
            assert(tags_model(tags@) =~= pre.take(p as int) + seq![tag_model(tag)] + pre.skip(
                p as int,
            ));
        }
    }
}

/// Remove the tag carrying id `v` from a tag vector; a vector without one
/// stays unchanged.
fn remove_tag(tags: &mut Vec<Tag>, v: u64)
    ensures
        tags_model(final(tags)@) == model_remove(tags_model(old(tags)@), v),
{
    let n = tags.len();
    let mut p: usize = 0;
    while p < n && tags[p].id().value() != v
        invariant
            p <= n,
            n == tags@.len(),
            tags@ == old(tags)@,
            forall|j: int| 0 <= j < p ==> tags@[j].spec_id() != v,
        decreases n - p,
    {
        p = p + 1;
    }
    let ghost pre = tags_model(tags@);
    proof {
        lemma_model_remove_splice(pre, v, p as int);
    }
    if p < n {
        tags.remove(p);
        proof {
            assert(tags_model(tags@) =~= pre.take(p as int) + pre.skip(p as int + 1));
        }
    }
}

/// A task item: a stable in-memory id, a one-line summary, and an
/// id-sorted, deduplicated sequence of tags.
#[derive(Debug)]
pub struct Task {
    id: Id,
    /// The task's one-line summary.
    pub summary: String,
    tags: Vec<Tag>,
}

impl Task {
    /// The task's id value.
    pub closed spec fn spec_id(self) -> u64 {
        self.id@
    }

    /// The task's summary, as a character sequence.
    pub closed spec fn spec_summary(self) -> Seq<char> {
        self.summary@
    }

    /// The models of the task's tags, in id order.
    pub closed spec fn spec_tags(self) -> Seq<(u64, Seq<char>)> {
        tags_model(self.tags@)
    }

    /// A well-formed task holds its tags sorted strictly by id, so no
    /// template is attached twice.
    pub open spec fn wf(self) -> bool {
        model_sorted(self.spec_tags())
    }

    /// Create a new free-standing task without tags. Tasks living in a
    /// collection are created through the collection, which allocates
    /// their ids; a free-standing task carries id value zero.
    pub fn new(summary: String) -> (r: Task)
        ensures
            r.spec_id() == 0,
            r.spec_summary() == summary@,
            r.spec_tags() == Seq::<(u64, Seq<char>)>::empty(),
            r.wf(),
    {
        let r = Task { id: Id::from_value(0), summary, tags: Vec::new() };
        proof {
            assert(r.spec_tags() =~= Seq::<(u64, Seq<char>)>::empty());
        }
        r
    }

    /// Create a task from a summary and tags, deduplicating the tags by
    /// id; on equal ids the later tag wins.
    fn with_summary_and_tags(id: Id, summary: String, tags: Vec<Tag>) -> (r: Task)
        ensures
            r.spec_id() == id@,
            r.spec_summary() == summary@,
            r.spec_tags() == models_dedup(tags_model(tags@)),
            r.wf(),
    {
        let mut own: Vec<Tag> = Vec::new();
        let n = tags.len();
        let mut i: usize = 0;
        proof {
            assert(tags_model(own@) =~= models_dedup(tags_model(tags@.take(0))));
        }
        while i < n
            invariant
                i <= n,
                n == tags@.len(),
                tags_model(own@) == models_dedup(tags_model(tags@.take(i as int))),
                model_sorted(tags_model(own@)),
            decreases n - i,
        {
            insert_tag(&mut own, tags[i].clone());
            proof {
                let taken1 = tags_model(tags@.take(i + 1));
                assert(taken1.drop_last() =~= tags_model(tags@.take(i as int)));
                assert(taken1.last() == tag_model(tags@[i as int]));
            }
            i = i + 1;
        }
        proof {
            assert(tags@.take(n as int) =~= tags@);
        }
        Task { id, summary, tags: own }
    }

    /// Create a task from a serializable one, resolving every persisted
    /// tag id through the validated map; the first unresolvable id aborts
    /// with an error carrying it.
    fn with_serde(task: &ser::tasks::Task, templates: &Templates, map: &TagMap, id: Id) -> (r:
        Result<Task, LoadError>)
        requires
            templates.wf(),
            map.consistent_with(*templates),
        ensures
            match r {
                Ok(t) => {
                    &&& first_unresolved(*map, task.tags@) is None
                    &&& t.spec_id() == id@
                    &&& t.spec_summary() == task.summary@
                    &&& t.spec_tags() == spec_load_tags(ser_tag_ids(task.tags@), *templates)
                    &&& t.wf()
                    &&& models_valid(t.spec_tags(), *templates)
                },
                Err(e) => first_unresolved(*map, task.tags@) == Some(e.spec_tag_id()),
            },
    {
        let mut own: Vec<Tag> = Vec::new();
        let n = task.tags.len();
        let mut j: usize = 0;
        proof {
            assert(task.tags@.skip(0) =~= task.tags@);
            assert(ser_tag_ids(task.tags@.take(0)) =~= Seq::<u64>::empty());
            assert(tags_model(own@) =~= spec_load_tags(ser_tag_ids(task.tags@.take(0)), *templates));
        }
        while j < n
            invariant
                j <= n,
                n == task.tags@.len(),
                templates.wf(),
                map.consistent_with(*templates),
                first_unresolved(*map, task.tags@) == first_unresolved(
                    *map,
                    task.tags@.skip(j as int),
                ),
                tags_model(own@) == spec_load_tags(ser_tag_ids(task.tags@.take(j as int)), *templates),
                model_sorted(tags_model(own@)),
                models_valid(tags_model(own@), *templates),
            decreases n - j,
        {
            let sertag = task.tags[j];
            proof {
                assert(task.tags@.skip(j as int)[0] == task.tags@[j as int]);
            }
            match map.get(sertag.id.value) {
                None => {
                    proof {
                        assert(first_unresolved(*map, task.tags@.skip(j as int)) == Some(
                            sertag.id.value,
                        ));
                    }
                    return Err(LoadError::InvalidTag(sertag.id.value));
                },
                Some(tid) => {
                    let ghost pre = tags_model(own@);
                    let tag = templates.instantiate(tid);
                    proof {
                        lemma_model_insert_sorted(pre, tag_model(tag));
                    }
                    insert_tag(&mut own, tag);
                    proof {
                        let ids1 = ser_tag_ids(task.tags@.take(j + 1));
                        assert(ids1.drop_last() =~= ser_tag_ids(task.tags@.take(j as int)));
                        assert(ids1.last() == task.tags@[j as int].id.value);
                        assert(tag_model(tag) == resolved_model(*templates, sertag.id.value));
                        assert forall|k: int|
                            0 <= k < tags_model(own@).len() implies templates.contains_id(
                            tags_model(own@)[k].0,
                        ) && tags_model(own@)[k] == resolved_model(
                            *templates,
                            tags_model(own@)[k].0,
                        ) by {
                            if tags_model(own@)[k] != tag_model(tag) {
                                assert(pre.contains(tags_model(own@)[k]));
                                let w = choose|w: int|
                                    0 <= w < pre.len() && pre[w] == tags_model(own@)[k];
                                assert(pre[w] == resolved_model(*templates, pre[w].0));
                            }
                        }
                        assert(task.tags@.skip(j as int).drop_first() =~= task.tags@.skip(j + 1));
                    }
                },
            }
            j = j + 1;
        }
        proof {
            assert(first_unresolved(*map, task.tags@.skip(n as int)) is None);
            assert(task.tags@.take(n as int) =~= task.tags@);
        }
        Ok(Task { id, summary: task.summary.clone(), tags: own })
    }

    /// Produce the task's persisted record: summary plus tag ids.
    pub fn to_serde(&self) -> (r: ser::tasks::Task)
        ensures
            r.summary@ == self.spec_summary(),
            ser_tag_ids(r.tags@) == model_ids(self.spec_tags()),
    {
        let mut out: Vec<ser::tags::Tag> = Vec::new();
        let n = self.tags.len();
        let mut i: usize = 0;
        while i < n
            invariant
                i <= n,
                n == self.tags@.len(),
                out@.len() == i,
                forall|j: int| 0 <= j < i ==> (#[trigger] out@[j]).id.value == self.tags@[
                    j
                ].spec_id(),
            decreases n - i,
        {
            out.push(self.tags[i].to_serde());
            i = i + 1;
        }
        proof {
            assert forall|j: int|
                0 <= j < out@.len() implies ser_tag_ids(out@)[j] == model_ids(self.spec_tags())[
                j
            ] by {
                assert(ser_tag_ids(out@)[j] == out@[j].id.value);
                assert(tags_model(self.tags@)[j] == tag_model(self.tags@[j]));
                assert(model_ids(tags_model(self.tags@))[j] == tags_model(self.tags@)[j].0);
            }
            assert(ser_tag_ids(out@) =~= model_ids(self.spec_tags()));
        }
        ser::tasks::Task { summary: self.summary.clone(), tags: out }
    }

    /// The task's stable in-memory identifier.
    pub fn id(&self) -> (r: Id)
        ensures
            r@ == self.spec_id(),
    {
        self.id
    }

    /// Retrieve the task's tags, in id order.
    pub fn tags(&self) -> (r: &Vec<Tag>)
        ensures
            tags_model(r@) == self.spec_tags(),
    {
        &self.tags
    }

    /// True once the completion tag sits on the task.
    pub fn is_complete(&self) -> (r: bool)
        ensures
            r == model_has(self.spec_tags(), COMPLETE_TAG_ID),
    {
        let n = self.tags.len();
        let mut i: usize = 0;
        while i < n
            invariant
                i <= n,
                n == self.tags@.len(),
                forall|j: int| 0 <= j < i ==> tags_model(self.tags@)[j].0 != COMPLETE_TAG_ID,
            decreases n - i,
        {
            if self.tags[i].id().value() == COMPLETE_TAG_ID {
                proof {
                    assert(tags_model(self.tags@)[i as int].0 == COMPLETE_TAG_ID);
                }
                return true;
            }
            i = i + 1;
        }
        false
    }

    /// Toggle the completion state of the task: remove the completion tag
    /// if it is present, insert it otherwise.
    pub fn toggle_complete(&mut self, templates: &Templates)
        requires
            templates.wf(),
            old(self).wf(),
        ensures
            final(self).spec_id() == old(self).spec_id(),
            final(self).spec_summary() == old(self).spec_summary(),
            final(self).wf(),
            model_has(old(self).spec_tags(), COMPLETE_TAG_ID) ==> final(self).spec_tags()
                == model_remove(old(self).spec_tags(), COMPLETE_TAG_ID),
            !model_has(old(self).spec_tags(), COMPLETE_TAG_ID) ==> final(self).spec_tags()
                == model_insert(
                old(self).spec_tags(),
                resolved_model(*templates, COMPLETE_TAG_ID),
            ),
    {
        let ghost pre = tags_model(self.tags@);
        if self.is_complete() {
            remove_tag(&mut self.tags, COMPLETE_TAG_ID);
            proof {
                lemma_model_remove_sorted(pre, COMPLETE_TAG_ID);
            }
        } else {
            let tag = templates.complete_tag();
            insert_tag(&mut self.tags, tag);
            proof {
                assert(tag_model(tag) == resolved_model(*templates, COMPLETE_TAG_ID));
            }
        }
    }
}

impl Clone for Task {
    fn clone(&self) -> (r: Self)
        ensures
            r.spec_id() == self.spec_id(),
            r.spec_summary() == self.spec_summary(),
            r.spec_tags() == self.spec_tags(),
    {
        Task { id: self.id, summary: self.summary.clone(), tags: clone_tags(&self.tags) }
    }
}

/// True if the tasks hold no id twice.
pub open spec fn distinct_task_ids(s: Seq<Task>) -> bool {
    forall|i: int, j: int| 0 <= i < j < s.len() ==> s[i].spec_id() != s[j].spec_id()
}

/// True if some task carries id `v`.
pub open spec fn spec_has_task(s: Seq<Task>, v: u64) -> bool {
    exists|i: int| 0 <= i < s.len() && s[i].spec_id() == v
}

/// The position of the task carrying id `v`; meaningful only when one
/// exists and ids are distinct.
pub open spec fn spec_task_index(s: Seq<Task>, v: u64) -> int {
    choose|i: int| 0 <= i < s.len() && s[i].spec_id() == v
}

/// With distinct ids, any position holding id `v` is the position
/// `spec_task_index` denotes.
pub proof fn lemma_task_index_unique(s: Seq<Task>, i: int, v: u64)
    requires
        distinct_task_ids(s),
        0 <= i < s.len(),
        s[i].spec_id() == v,
    ensures
        spec_task_index(s, v) == i,
{
    let k = spec_task_index(s, v);
    assert(0 <= k < s.len() && s[k].spec_id() == v);
}

/// A management struct for tasks and their associated data. It is the
/// sole owner of the tasks and allocates their ids.
#[derive(Debug)]
pub struct Tasks {
    tasks: Vec<Task>,
    gen: IdGen<T>,
}

impl Tasks {
    /// The tasks, in insertion order.
    pub closed spec fn spec_tasks(self) -> Seq<Task> {
        self.tasks@
    }

    /// The value the next allocated task id will hold.
    pub closed spec fn spec_next_id(self) -> u64 {
        self.gen.spec_next()
    }

    /// A well-formed collection: distinct task ids, every id below the
    /// allocator's next value, and every task well-formed.
    pub open spec fn wf(self) -> bool {
        &&& distinct_task_ids(self.spec_tasks())
        &&& forall|i: int|
            0 <= i < self.spec_tasks().len() ==> self.spec_tasks()[i].spec_id()
                < self.spec_next_id()
        &&& forall|i: int| 0 <= i < self.spec_tasks().len() ==> self.spec_tasks()[i].wf()
    }

    /// Create a new `Tasks` object from serializable tasks, resolving
    /// every persisted tag reference through the validated map. The load
    /// is all-or-nothing: the first unresolvable tag id aborts it.
    pub fn with_serde(tasks: &Vec<ser::tasks::Task>, templates: &Templates, map: &TagMap) -> (r:
        Result<Tasks, LoadError>)
        requires
            templates.wf(),
            map.consistent_with(*templates),
        ensures
            match r {
                Ok(t) => {
                    &&& first_unresolved_in_tasks(*map, tasks@) is None
                    &&& t.wf()
                    &&& t.spec_tasks().len() == tasks@.len()
                    &&& t.spec_next_id() == tasks@.len()
                    &&& forall|i: int|
                        0 <= i < tasks@.len() ==> (#[trigger] t.spec_tasks()[i]).spec_id()
                            == i as u64
                    &&& forall|i: int|
                        0 <= i < tasks@.len() ==> (#[trigger] t.spec_tasks()[i]).spec_summary()
                            == tasks@[i].summary@
                    &&& forall|i: int|
                        0 <= i < tasks@.len() ==> (#[trigger] t.spec_tasks()[i]).spec_tags()
                            == spec_load_tags(ser_tag_ids(tasks@[i].tags@), *templates)
                    &&& forall|i: int|
                        0 <= i < tasks@.len() ==> models_valid(
                            (#[trigger] t.spec_tasks()[i]).spec_tags(),
                            *templates,
                        )
                },
                Err(e) => first_unresolved_in_tasks(*map, tasks@) == Some(e.spec_tag_id()),
            },
    {
        let mut new_tasks: Vec<Task> = Vec::new();
        let mut gen: IdGen<T> = IdGen::new();
        let total = tasks.len();
        let mut i: usize = 0;
        proof {
            assert(tasks@.skip(0) =~= tasks@);
        }
        while i < total
            invariant
                templates.wf(),
                map.consistent_with(*templates),
                tasks@.len() == total <= usize::MAX,
                new_tasks@.len() == i <= total,
                gen.spec_next() == i,
                first_unresolved_in_tasks(*map, tasks@) == first_unresolved_in_tasks(
                    *map,
                    tasks@.skip(i as int),
                ),
                forall|j: int|
                    0 <= j < i ==> (#[trigger] new_tasks@[j]).spec_id() == j as u64,
                forall|j: int|
                    0 <= j < i ==> (#[trigger] new_tasks@[j]).spec_summary() == tasks@[j].summary@,
                forall|j: int|
                    0 <= j < i ==> (#[trigger] new_tasks@[j]).spec_tags() == spec_load_tags(
                        ser_tag_ids(tasks@[j].tags@),
                        *templates,
                    ),
                forall|j: int|
                    0 <= j < i ==> (#[trigger] new_tasks@[j]).wf() && models_valid(
                        new_tasks@[j].spec_tags(),
                        *templates,
                    ),
            decreases total - i,
        {
            let sertask = &tasks[i];
            proof {
                assert(tasks@.skip(i as int)[0] == tasks@[i as int]);
                assert(tasks@.skip(i as int).drop_first() =~= tasks@.skip(i + 1));
            }
            let id = gen.fresh();
            match Task::with_serde(sertask, templates, map, id) {
                Ok(task) => {
                    new_tasks.push(task);
                },
                Err(e) => {
                    proof {
                        assert(first_unresolved_in_tasks(*map, tasks@.skip(i as int)) == Some(
                            e.spec_tag_id(),
                        ));
                    }
                    return Err(e);
                },
            }
            i = i + 1;
        }
        proof {
            assert(first_unresolved_in_tasks(*map, tasks@.skip(total as int)) is None);
        }
        let r = Tasks { tasks: new_tasks, gen };
        proof {
            assert(r.wf()) by {
                assert forall|i: int, j: int|
                    0 <= i < j < r.spec_tasks().len() implies r.spec_tasks()[i].spec_id()
                    != r.spec_tasks()[j].spec_id() by {
                    assert(r.spec_tasks()[i].spec_id() == i as u64);
                    assert(r.spec_tasks()[j].spec_id() == j as u64);
                }
            }
        }
        Ok(r)
    }

    /// Create a new `Tasks` object from serializable tasks without any
    /// tags, against a registry holding only the implicit completion
    /// template; a task carrying any other tag reference aborts the load.
    pub fn with_serde_tasks(tasks: Vec<ser::tasks::Task>) -> (r: Result<Tasks, LoadError>)
        ensures
            r is Ok ==> {
                let t = r->Ok_0;
                &&& t.wf()
                &&& t.spec_tasks().len() == tasks@.len()
                &&& t.spec_next_id() == tasks@.len()
                &&& forall|i: int|
                    0 <= i < tasks@.len() ==> (#[trigger] t.spec_tasks()[i]).spec_id() == i as u64
                &&& forall|i: int|
                    0 <= i < tasks@.len() ==> (#[trigger] t.spec_tasks()[i]).spec_summary()
                        == tasks@[i].summary@
                &&& forall|i: int|
                    0 <= i < tasks@.len() && tasks@[i].tags@.len() == 0 ==> (
                    #[trigger] t.spec_tasks()[i]).spec_tags() == Seq::<(u64, Seq<char>)>::empty()
            },
            (forall|i: int, j: int|
                0 <= i < tasks@.len() && 0 <= j < tasks@[i].tags@.len()
                    ==> (#[trigger] tasks@[i].tags@[j]).id.value == COMPLETE_TAG_ID) ==> r is Ok,
            r is Err ==> first_invalid_in_tasks(
                Seq::<ser::tags::Template>::empty(),
                tasks@,
            ) == Some(r->Err_0.spec_tag_id()),
    {
        let empty = ser::tags::Templates(Vec::new());
        let (templates, map) = Templates::with_serde(&empty);
        let ghost tasks0 = tasks@;
        let r = Self::with_serde(&tasks, &templates, &map);
        proof {
            assert forall|v: u64| #[trigger]
                map.contains(v) <==> tag_id_valid(Seq::<ser::tags::Template>::empty(), v) by {}
            lemma_map_matches_doc_tasks(map, Seq::<ser::tags::Template>::empty(), tasks0);
            let ghost gr = r;
            match gr {
                Ok(t) => {
                    assert forall|i: int|
                        0 <= i < tasks0.len() && tasks0[i].tags@.len() == 0 implies (
                    #[trigger] t.spec_tasks()[i]).spec_tags() == Seq::<(u64, Seq<char>)>::empty() by {
                        assert(ser_tag_ids(tasks0[i].tags@) =~= Seq::<u64>::empty());
                        assert(t.spec_tasks()[i].spec_tags() == spec_load_tags(
                            Seq::<u64>::empty(),
                            templates,
                        ));
                    }
                },
                Err(e) => {
                    lemma_unresolved_means_bad_id(map, tasks0, e.spec_tag_id());
                },
            }
        }
        r
    }

    /// Convert the tasks into their serializable form, in order.
    pub fn to_serde(&self) -> (r: Vec<ser::tasks::Task>)
        ensures
            r@.len() == self.spec_tasks().len(),
            forall|i: int|
                0 <= i < r@.len() ==> (#[trigger] r@[i]).summary@
                    == self.spec_tasks()[i].spec_summary(),
            forall|i: int|
                0 <= i < r@.len() ==> ser_tag_ids((#[trigger] r@[i]).tags@) == model_ids(
                    self.spec_tasks()[i].spec_tags(),
                ),
    {
        let mut out: Vec<ser::tasks::Task> = Vec::new();
        let n = self.tasks.len();
        let mut i: usize = 0;
        while i < n
            invariant
                i <= n,
                n == self.tasks@.len(),
                out@.len() == i,
                forall|j: int|
                    0 <= j < i ==> (#[trigger] out@[j]).summary@ == self.tasks@[j].spec_summary(),
                forall|j: int|
                    0 <= j < i ==> ser_tag_ids((#[trigger] out@[j]).tags@) == model_ids(
                        self.tasks@[j].spec_tags(),
                    ),
            decreases n - i,
        {
            out.push(self.tasks[i].to_serde());
            i = i + 1;
        }
        out
    }

    /// Retrieve the tasks, in insertion order.
    pub fn iter(&self) -> (r: &Vec<Task>)
        ensures
            r@ == self.spec_tasks(),
    {
        &self.tasks
    }

    /// Add a new task holding the given summary and tags and return its
    /// freshly allocated id.
    pub fn add(&mut self, summary: String, tags: Vec<Tag>) -> (r: Id)
        requires
            old(self).wf(),
            old(self).spec_next_id() < u64::MAX,
        ensures
            r@ == old(self).spec_next_id(),
            final(self).wf(),
            final(self).spec_next_id() == old(self).spec_next_id() + 1,
            final(self).spec_tasks().len() == old(self).spec_tasks().len() + 1,
            forall|i: int|
                0 <= i < old(self).spec_tasks().len() ==> final(self).spec_tasks()[i] == old(
                    self,
                ).spec_tasks()[i],
            final(self).spec_tasks().last().spec_id() == r@,
            final(self).spec_tasks().last().spec_summary() == summary@,
            final(self).spec_tasks().last().spec_tags() == models_dedup(tags_model(tags@)),
            !spec_has_task(old(self).spec_tasks(), r@),
    {
        let id = self.gen.fresh();
        let task = Task::with_summary_and_tags(id, summary, tags);
        self.tasks.push(task);
        proof {
            assert forall|i: int, j: int|
                0 <= i < j < self.tasks@.len() implies self.tasks@[i].spec_id()
                != self.tasks@[j].spec_id() by {
                if j < self.tasks@.len() - 1 {
                    assert(self.tasks@[i] == old(self).spec_tasks()[i]);
                    assert(self.tasks@[j] == old(self).spec_tasks()[j]);
                } else {
                    assert(self.tasks@[i] == old(self).spec_tasks()[i]);
                }
            }
            if spec_has_task(old(self).spec_tasks(), id@) {
                let k = choose|k: int|
                    0 <= k < old(self).spec_tasks().len() && old(self).spec_tasks()[k].spec_id()
                        == id@;
                assert(false);
            }
        }
        id
    }

    /// Find the position of the task carrying id `v`.
    fn find_task_index(tasks: &Vec<Task>, v: u64) -> (p: usize)
        requires
            distinct_task_ids(tasks@),
            spec_has_task(tasks@, v),
        ensures
            p == spec_task_index(tasks@, v),
            p < tasks@.len(),
            tasks@[p as int].spec_id() == v,
    {
        let n = tasks.len();
        let mut p: usize = 0;
        loop
            invariant
                p <= n,
                n == tasks@.len(),
                distinct_task_ids(tasks@),
                spec_has_task(tasks@, v),
                forall|j: int| 0 <= j < p ==> tasks@[j].spec_id() != v,
            decreases n - p,
        {
            proof {
                if p as int >= n {
                    let k = spec_task_index(tasks@, v);
                    assert(0 <= k < n && tasks@[k].spec_id() == v);
                    assert(false);
                }
            }
            if tasks[p].id().value() == v {
                proof {
                    lemma_task_index_unique(tasks@, p as int, v);
                }
                return p;
            }
            p = p + 1;
        }
    }

    /// Remove the task carrying the given id, which must be present: ids
    /// handed to this operation originate from a live enumeration.
    pub fn remove(&mut self, id: Id)
        requires
            old(self).wf(),
            spec_has_task(old(self).spec_tasks(), id@),
        ensures
            final(self).wf(),
            final(self).spec_next_id() == old(self).spec_next_id(),
            final(self).spec_tasks() == old(self).spec_tasks().remove(
                spec_task_index(old(self).spec_tasks(), id@),
            ),
    {
        let v = id.value();
        let p = Self::find_task_index(&self.tasks, v);
        self.tasks.remove(p);
        proof {
            let pre = old(self).spec_tasks();
            let post = self.tasks@;
            assert forall|i: int, j: int|
                0 <= i < j < post.len() implies post[i].spec_id() != post[j].spec_id() by {
                assert(post[i] == if i < p as int {
                    pre[i]
                } else {
                    pre[i + 1]
                });
                assert(post[j] == if j < p as int {
                    pre[j]
                } else {
                    pre[j + 1]
                });
            }
            assert forall|i: int| 0 <= i < post.len() implies post[i].spec_id()
                < self.spec_next_id() && post[i].wf() by {
                assert(post[i] == if i < p as int {
                    pre[i]
                } else {
                    pre[i + 1]
                });
            }
        }
    }

    /// Replace the task carrying the same id as the given task, which
    /// must be present: tasks handed to this operation originate from a
    /// live enumeration.
    pub fn update(&mut self, task: Task)
        requires
            old(self).wf(),
            task.wf(),
            spec_has_task(old(self).spec_tasks(), task.spec_id()),
        ensures
            final(self).wf(),
            final(self).spec_next_id() == old(self).spec_next_id(),
            final(self).spec_tasks() == old(self).spec_tasks().update(
                spec_task_index(old(self).spec_tasks(), task.spec_id()),
                task,
            ),
    {
        let v = task.id().value();
        let p = Self::find_task_index(&self.tasks, v);
        self.tasks.remove(p);
        self.tasks.insert(p, task);
        proof {
            let pre = old(self).spec_tasks();
            let post = self.tasks@;
            assert(post =~= pre.update(p as int, task));
            assert forall|i: int, j: int|
                0 <= i < j < post.len() implies post[i].spec_id() != post[j].spec_id() by {
                assert(pre[i].spec_id() != pre[j].spec_id());
            }
            assert forall|i: int| 0 <= i < post.len() implies post[i].spec_id()
                < self.spec_next_id() && post[i].wf() by {
                assert(pre[i].spec_id() < self.spec_next_id() && pre[i].wf());
                if i != p as int {
                    assert(post[i] == pre[i]);
                }
            }
        }
    }
}

/// An unresolvable id reported by the load is indeed the id of some tag
/// reference among the tasks.
proof fn lemma_unresolved_means_bad_id(map: TagMap, tasks: Seq<ser::tasks::Task>, v: u64)
    requires
        first_unresolved_in_tasks(map, tasks) == Some(v),
    ensures
        !map.contains(v),
        exists|i: int, j: int|
            0 <= i < tasks.len() && 0 <= j < tasks[i].tags@.len() && (#[trigger] tasks[i].tags@[
                j
            ]).id.value == v,
    decreases tasks.len(),
{
    if tasks.len() > 0 {
        if first_unresolved(map, tasks[0].tags@) == Some(v) {
            lemma_unresolved_means_bad_tag(map, tasks[0].tags@, v);
            let j = choose|j: int|
                0 <= j < tasks[0].tags@.len() && tasks[0].tags@[j].id.value == v;
            assert(tasks[0].tags@[j].id.value == v);
        } else {
            lemma_unresolved_means_bad_id(map, tasks.drop_first(), v);
            let (i, j) = choose|i: int, j: int|
                0 <= i < tasks.drop_first().len() && 0 <= j < tasks.drop_first()[i].tags@.len()
                    && tasks.drop_first()[i].tags@[j].id.value == v;
            assert(tasks[i + 1].tags@[j].id.value == v);
        }
    }
}

/// An unresolvable id reported for one task is the id of one of its tag
/// references.
proof fn lemma_unresolved_means_bad_tag(map: TagMap, tags: Seq<ser::tags::Tag>, v: u64)
    requires
        first_unresolved(map, tags) == Some(v),
    ensures
        !map.contains(v),
        exists|j: int| 0 <= j < tags.len() && tags[j].id.value == v,
    decreases tags.len(),
{
    if tags.len() > 0 {
        if !map.contains(tags[0].id.value) {
            assert(tags[0].id.value == v);
        } else {
            lemma_unresolved_means_bad_tag(map, tags.drop_first(), v);
            let j = choose|j: int|
                0 <= j < tags.drop_first().len() && tags.drop_first()[j].id.value == v;
            assert(tags[j + 1].id.value == v);
        }
    }
}

/// Law: a well-formed task's serialized tag ids, loaded back against the
/// same template registry, reproduce the task's tag models exactly: the
/// tag-set half of the serialization round trip.
pub proof fn lemma_task_round_trip(t: Task, templates: Templates)
    requires
        t.wf(),
        models_valid(t.spec_tags(), templates),
    ensures
        spec_load_tags(model_ids(t.spec_tags()), templates) == t.spec_tags(),
{
    lemma_tags_round_trip(t.spec_tags(), templates);
}

/// Law: adding a task and then removing it by the returned id restores
/// the collection, and with it the collection's serialized form: the
/// fresh id belongs to no other task, so the removal deletes exactly the
/// appended element.
pub proof fn lemma_add_then_remove_restores(s: Seq<Task>, t: Task)
    requires
        forall|i: int| 0 <= i < s.len() ==> (#[trigger] s[i]).spec_id() != t.spec_id(),
    ensures
        spec_task_index(s.push(t), t.spec_id()) == s.len(),
        s.push(t).remove(s.len() as int) == s,
{
    assert(s.push(t)[s.len() as int].spec_id() == t.spec_id());
    assert(spec_has_task(s.push(t), t.spec_id()));
    let k = spec_task_index(s.push(t), t.spec_id());
    assert(0 <= k < s.push(t).len() && s.push(t)[k].spec_id() == t.spec_id());
    if k < s.len() {
        assert(s.push(t)[k] == s[k]);
    }
    assert(s.push(t).remove(s.len() as int) =~= s);
}


/// Law: a task list whose tag references all name registry templates
/// resolves without error: together with the exactness of loading, the
/// serialized form of a well-formed collection always loads back.
pub proof fn lemma_valid_tags_resolve(map: TagMap, templates: Templates, tags: Seq<ser::tags::Tag>)
    requires
        map.consistent_with(templates),
        forall|j: int| 0 <= j < tags.len() ==> templates.contains_id((#[trigger] tags[j]).id.value),
    ensures
        first_unresolved(map, tags) is None,
    decreases tags.len(),
{
    if tags.len() > 0 {
        assert(map.contains(tags[0].id.value));
        assert forall|j: int| 0 <= j < tags.drop_first().len() implies templates.contains_id(
            (#[trigger] tags.drop_first()[j]).id.value,
        ) by {
            assert(tags.drop_first()[j] == tags[j + 1]);
        }
        lemma_valid_tags_resolve(map, templates, tags.drop_first());
    }
}

/// Law: loading a serialized task list whose tasks' tags all come from
/// the registry hits no unresolvable reference.
pub proof fn lemma_valid_tasks_resolve(
    map: TagMap,
    templates: Templates,
    tasks: Seq<ser::tasks::Task>,
)
    requires
        map.consistent_with(templates),
        forall|i: int, j: int|
            0 <= i < tasks.len() && 0 <= j < tasks[i].tags@.len() ==> templates.contains_id(
                (#[trigger] tasks[i].tags@[j]).id.value,
            ),
    ensures
        first_unresolved_in_tasks(map, tasks) is None,
    decreases tasks.len(),
{
    if tasks.len() > 0 {
        assert forall|j: int| 0 <= j < tasks[0].tags@.len() implies templates.contains_id(
            (#[trigger] tasks[0].tags@[j]).id.value,
        ) by {
            assert(tasks[0].tags@[j] == tasks[0].tags@[j]);
        }
        lemma_valid_tags_resolve(map, templates, tasks[0].tags@);
        assert forall|i: int, j: int|
            0 <= i < tasks.drop_first().len() && 0 <= j < tasks.drop_first()[i].tags@.len()
                implies templates.contains_id(
            (#[trigger] tasks.drop_first()[i].tags@[j]).id.value,
        ) by {
            assert(tasks.drop_first()[i] == tasks[i + 1]);
        }
        lemma_valid_tasks_resolve(map, templates, tasks.drop_first());
    }
}

} // verus!
