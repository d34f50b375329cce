//! Tag templates, concrete tags, and the validated id-to-instance map
//! built at load time.
//!
//! A registry always provides one implicit completion template under a
//! reserved id; persisted template definitions may use every other id.

use vstd::prelude::*;
use crate::ids::Id as IdT;
use crate::ser;
use vstd::string::StringExecFns;

verus! {

/// The category of tag identifiers.
#[derive(Clone, Copy, Debug)]
pub struct T(());

/// A tag id.
pub type Id = IdT<T>;

/// The reserved id of the implicit completion template. No persisted
/// template definition may claim it; a definition that does is ignored.
pub const COMPLETE_TAG_ID: u64 = u64::MAX;

/// An instance of a template, attached to a task.
#[derive(Debug)]
pub struct Tag {
    id: Id,
    name: String,
}

impl Tag {
    /// The id of the template this tag references.
    pub closed spec fn spec_id(self) -> u64 {
        self.id@
    }

    /// The display name copied from the template.
    pub closed spec fn spec_name(self) -> Seq<char> {
        self.name@
    }

    /// Retrieve the tag's id.
    pub fn id(&self) -> (r: Id)
        ensures
            r@ == self.spec_id(),
    {
        self.id
    }

    /// Retrieve the tag's name.
    pub fn name(&self) -> (r: &str)
        ensures
            r@ == self.spec_name(),
    {
        self.name.as_str()
    }

    /// Convert this tag into a serializable one.
    pub fn to_serde(&self) -> (r: ser::tags::Tag)
        ensures
            r.id.value == self.spec_id(),
    {
        ser::tags::Tag { id: ser::tags::Id::new(self.id.value()) }
    }
}

impl Clone for Tag {
    fn clone(&self) -> (r: Self)
        ensures
            r == *self,
    {
        Tag { id: self.id, name: self.name.clone() }
    }
}

/// The definition of a tag: an id, a display name, and whether carrying
/// the tag marks a task as complete.
#[derive(Debug)]
pub struct Template {
    id: Id,
    name: String,
    completes: bool,
}

impl Template {
    /// The template's id.
    pub closed spec fn spec_id(self) -> u64 {
        self.id@
    }

    /// The template's display name.
    pub closed spec fn spec_name(self) -> Seq<char> {
        self.name@
    }

    /// Whether the template marks tasks as complete.
    pub closed spec fn spec_completes(self) -> bool {
        self.completes
    }
}

impl Clone for Template {
    fn clone(&self) -> (r: Self)
        ensures
            r == *self,
    {
        Template { id: self.id, name: self.name.clone(), completes: self.completes }
    }
}

/// The (id, name) model of a template, as it appears serialized.
pub open spec fn template_model(t: Template) -> (u64, Seq<char>) {
    (t.spec_id(), t.spec_name())
}

/// The (id, name) model of a serializable template.
pub open spec fn ser_template_model(t: ser::tags::Template) -> (u64, Seq<char>) {
    (t.id.value, t.name@)
}

/// True if the template list holds no id twice.
pub open spec fn distinct_ids(list: Seq<Template>) -> bool {
    forall|i: int, j: int|
        0 <= i < j < list.len() ==> list[i].spec_id() != list[j].spec_id()
}

/// The models of the templates that serialization emits: every template
/// in order, except the implicit completion template.
pub open spec fn ser_models_of(list: Seq<Template>) -> Seq<(u64, Seq<char>)>
    decreases list.len(),
{
    if list.len() == 0 {
        Seq::empty()
    } else {
        let rest = ser_models_of(list.drop_last());
        if list.last().spec_completes() {
            rest
        } else {
            rest.push(template_model(list.last()))
        }
    }
}

/// The name of the first serialized template carrying id `v`; meaningful
/// only when one exists.
pub open spec fn ser_first_name(s: Seq<ser::tags::Template>, v: u64) -> Seq<char>
    decreases s.len(),
{
    if s.len() == 0 {
        Seq::empty()
    } else if s[0].id.value == v {
        s[0].name@
    } else {
        ser_first_name(s.drop_first(), v)
    }
}

/// How `ser_first_name` and id membership evolve when a template is
/// appended at the back of the list.
pub proof fn lemma_ser_first_name_push(s: Seq<ser::tags::Template>, e: ser::tags::Template, v: u64)
    ensures
        ser::tags::templates_have_id(s.push(e), v) <==> (ser::tags::templates_have_id(s, v)
            || e.id.value == v),
        ser::tags::templates_have_id(s, v) ==> ser_first_name(s.push(e), v) == ser_first_name(s, v),
        !ser::tags::templates_have_id(s, v) && e.id.value == v ==> ser_first_name(s.push(e), v)
            == e.name@,
    decreases s.len(),
{
    assert(ser::tags::templates_have_id(s.push(e), v) <==> (ser::tags::templates_have_id(s, v)
        || e.id.value == v)) by {
        if ser::tags::templates_have_id(s, v) {
            let i = choose|i: int| 0 <= i < s.len() && s[i].id.value == v;
            assert(s.push(e)[i].id.value == v);
        }
        if e.id.value == v {
            assert(s.push(e)[s.len() as int].id.value == v);
        }
        if ser::tags::templates_have_id(s.push(e), v) {
            let i = choose|i: int| 0 <= i < s.push(e).len() && s.push(e)[i].id.value == v;
            if i < s.len() {
                assert(s[i].id.value == v);
            }
        }
    }
    if s.len() > 0 {
        assert(s.push(e).drop_first() =~= s.drop_first().push(e));
        lemma_ser_first_name_push(s.drop_first(), e, v);
        if ser::tags::templates_have_id(s, v) && s[0].id.value != v {
            let i = choose|i: int| 0 <= i < s.len() && s[i].id.value == v;
            assert(s.drop_first()[i - 1].id.value == v);
        }
    }
}

/// The template models that survive loading a serialized template list:
/// every definition in order, skipping the reserved completion id and any
/// id already defined earlier (the first definition of an id wins).
pub open spec fn doc_models(s: Seq<ser::tags::Template>) -> Seq<(u64, Seq<char>)>
    decreases s.len(),
{
    if s.len() == 0 {
        Seq::empty()
    } else {
        let rest = doc_models(s.drop_last());
        if s.last().id.value == COMPLETE_TAG_ID || ser::tags::templates_have_id(
            s.drop_last(),
            s.last().id.value,
        ) {
            rest
        } else {
            rest.push(ser_template_model(s.last()))
        }
    }
}

/// A registry of tag templates: the persisted definitions plus the
/// implicit completion template.
#[derive(Debug)]
pub struct Templates {
    list: Vec<Template>,
}

impl Clone for Templates {
    fn clone(&self) -> (r: Self)
        ensures
            r.spec_templates() == self.spec_templates(),
    {
        let mut list: Vec<Template> = Vec::new();
        let n = self.list.len();
        let mut i: usize = 0;
        while i < n
            invariant
                i <= n,
                n == self.list@.len(),
                list@ =~= self.list@.take(i as int),
            decreases n - i,
        {
            list.push(self.list[i].clone());
            i = i + 1;
        }
        proof {
            assert(list@ =~= self.list@);
        }
        Templates { list }
    }
}

impl Templates {
    /// The templates the registry holds, in order.
    pub closed spec fn spec_templates(self) -> Seq<Template> {
        self.list@
    }

    /// True if the registry holds a template with id `v`.
    pub open spec fn contains_id(self, v: u64) -> bool {
        exists|i: int|
            0 <= i < self.spec_templates().len() && self.spec_templates()[i].spec_id() == v
    }

    /// The position of the template with id `v`; meaningful only when the
    /// registry contains `v` and ids are distinct.
    pub open spec fn template_index(self, v: u64) -> int {
        choose|i: int|
            0 <= i < self.spec_templates().len() && self.spec_templates()[i].spec_id() == v
    }

    /// The name of the template with id `v`.
    pub open spec fn name_of(self, v: u64) -> Seq<char> {
        self.spec_templates()[self.template_index(v)].spec_name()
    }

    /// A well-formed registry: distinct ids, the completion template
    /// present, and the completion role tied to the reserved id.
    pub open spec fn wf(self) -> bool {
        &&& distinct_ids(self.spec_templates())
        &&& self.contains_id(COMPLETE_TAG_ID)
        &&& forall|i: int|
            0 <= i < self.spec_templates().len() ==> (self.spec_templates()[i].spec_completes()
                <==> self.spec_templates()[i].spec_id() == COMPLETE_TAG_ID)
    }

    /// With distinct ids, any position holding id `v` is the position
    /// `template_index` denotes.
    pub proof fn lemma_index_unique(self, i: int, v: u64)
        requires
            distinct_ids(self.spec_templates()),
            0 <= i < self.spec_templates().len(),
            self.spec_templates()[i].spec_id() == v,
        ensures
            self.template_index(v) == i,
    {
        let k = self.template_index(v);
        assert(0 <= k < self.spec_templates().len() && self.spec_templates()[k].spec_id() == v);
    }

    /// Create a registry holding only the implicit completion template.
    pub fn new() -> (r: Templates)
        ensures
            r.wf(),
            forall|v: u64| r.contains_id(v) <==> v == COMPLETE_TAG_ID,
            r.name_of(COMPLETE_TAG_ID) == "complete"@,
            ser_models_of(r.spec_templates()) == Seq::<(u64, Seq<char>)>::empty(),
    {
        let mut list: Vec<Template> = Vec::new();
        list.push(
            Template {
                id: Id::from_value(COMPLETE_TAG_ID),
                name: complete_name(),
                completes: true,
            },
        );
        let r = Templates { list };
        proof {
            assert(r.spec_templates()[0].spec_id() == COMPLETE_TAG_ID);
            r.lemma_index_unique(0, COMPLETE_TAG_ID);
            assert forall|v: u64| r.contains_id(v) implies v == COMPLETE_TAG_ID by {
                let i = choose|i: int|
                    0 <= i < r.spec_templates().len() && r.spec_templates()[i].spec_id() == v;
                assert(i == 0);
            }
            assert(r.spec_templates().len() == 1);
            assert(r.spec_templates().last().spec_completes());
            assert(r.spec_templates().drop_last() =~= Seq::<Template>::empty());
            assert(ser_models_of(Seq::<Template>::empty()) =~= Seq::<(u64, Seq<char>)>::empty());
            assert(ser_models_of(r.spec_templates()) == ser_models_of(
                r.spec_templates().drop_last(),
            ));
        }
        r
    }

    /// Check whether the registry holds a template with the given id.
    pub fn is_valid(&self, v: u64) -> (r: bool)
        ensures
            r == self.contains_id(v),
    {
        let n = self.list.len();
        let mut i: usize = 0;
        while i < n
            invariant
                i <= n,
                n == self.list@.len(),
                forall|j: int| 0 <= j < i ==> self.list@[j].spec_id() != v,
            decreases n - i,
        {
            if self.list[i].id.value() == v {
                proof {
                    assert(self.spec_templates()[i as int].spec_id() == v);
                }
                return true;
            }
            i = i + 1;
        }
        false
    }

    /// Instantiate a concrete tag from a template id already proven
    /// valid; the tag carries the template's name.
    pub fn instantiate(&self, id: Id) -> (r: Tag)
        requires
            self.wf(),
            self.contains_id(id@),
        ensures
            r.spec_id() == id@,
            r.spec_name() == self.name_of(id@),
    {
        let n = self.list.len();
        let v = id.value();
        let mut i: usize = 0;
        loop
            invariant
                self.wf(),
                self.contains_id(v),
                v == id@,
                i <= n,
                n == self.list@.len(),
                forall|j: int| 0 <= j < i ==> self.list@[j].spec_id() != v,
            decreases n - i,
        {
            proof {
                if i as int >= n {
                    let k = self.template_index(v);
                    assert(self.spec_templates()[k].spec_id() == v);
                    assert(false);
                }
            }
            if self.list[i].id.value() == v {
                proof {
                    self.lemma_index_unique(i as int, v);
                }
                return Tag { id, name: self.list[i].name.clone() };
            }
            i = i + 1;
        }
    }

    /// The tag standing for completion.
    pub fn complete_tag(&self) -> (r: Tag)
        requires
            self.wf(),
        ensures
            r.spec_id() == COMPLETE_TAG_ID,
            r.spec_name() == self.name_of(COMPLETE_TAG_ID),
    {
        self.instantiate(Id::from_value(COMPLETE_TAG_ID))
    }

    /// Convert the registry into its serializable form: every template in
    /// order, except the implicit completion template.
    pub fn to_serde(&self) -> (r: ser::tags::Templates)
        ensures
            r.0@.map_values(|t: ser::tags::Template| ser_template_model(t)) == ser_models_of(
                self.spec_templates(),
            ),
    {
        let mut out: Vec<ser::tags::Template> = Vec::new();
        let n = self.list.len();
        let mut i: usize = 0;
        while i < n
            invariant
                i <= n,
                n == self.list@.len(),
                out@.map_values(|t: ser::tags::Template| ser_template_model(t)) =~= ser_models_of(
                    self.list@.take(i as int),
                ),
            decreases n - i,
        {
            let t = &self.list[i];
            if !t.completes {
                out.push(
                    ser::tags::Template {
                        id: ser::tags::Id::new(t.id.value()),
                        name: t.name.clone(),
                    },
                );
            }
            proof {
                let taken = self.list@.take(i + 1);
                assert(taken.drop_last() =~= self.list@.take(i as int));
                assert(taken.last() == self.list@[i as int]);
                assert(out@.map_values(|t: ser::tags::Template| ser_template_model(t))
                    =~= ser_models_of(taken));
            }
            i = i + 1;
        }
        proof {
            assert(self.list@.take(n as int) =~= self.list@);
        }
        ser::tags::Templates(out)
    }

    /// Pushing a template with a fresh, non-reserved id preserves
    /// well-formedness and extends membership by exactly that id; names
    /// of templates already present are unaffected.
    proof fn lemma_registry_push(pre: Templates, post: Templates, t: Template)
        requires
            pre.wf(),
            post.spec_templates() == pre.spec_templates().push(t),
            !pre.contains_id(t.spec_id()),
            t.spec_id() != COMPLETE_TAG_ID,
            !t.spec_completes(),
        ensures
            post.wf(),
            forall|w: u64| post.contains_id(w) <==> (pre.contains_id(w) || w == t.spec_id()),
            forall|w: u64| pre.contains_id(w) ==> post.name_of(w) == pre.name_of(w),
            post.name_of(t.spec_id()) == t.spec_name(),
    {
        let pres = pre.spec_templates();
        let posts = post.spec_templates();
        assert(posts[posts.len() - 1] == t);
        assert forall|w: u64| post.contains_id(w) implies (pre.contains_id(w) || w
            == t.spec_id()) by {
            let k = choose|k: int| 0 <= k < posts.len() && posts[k].spec_id() == w;
            if k < pres.len() {
                assert(pres[k].spec_id() == w);
            }
        }
        assert forall|w: u64| pre.contains_id(w) implies post.contains_id(w) by {
            let k = choose|k: int| 0 <= k < pres.len() && pres[k].spec_id() == w;
            assert(posts[k].spec_id() == w);
        }
        assert(post.contains_id(t.spec_id()));
        assert(distinct_ids(posts)) by {
            assert forall|a: int, b: int|
                0 <= a < b < posts.len() implies posts[a].spec_id() != posts[b].spec_id() by {
                if b == posts.len() - 1 {
                    assert(posts[a] == pres[a]);
                    assert(pres[a].spec_id() == pres[a].spec_id());
                    assert(pre.contains_id(pres[a].spec_id()));
                } else {
                    assert(posts[a] == pres[a] && posts[b] == pres[b]);
                }
            }
        }
        assert forall|i: int|
            0 <= i < posts.len() implies (posts[i].spec_completes() <==> posts[i].spec_id()
            == COMPLETE_TAG_ID) by {
            if i < pres.len() {
                assert(posts[i] == pres[i]);
            }
        }
        assert forall|w: u64| pre.contains_id(w) implies post.name_of(w) == pre.name_of(w) by {
            let k = pre.template_index(w);
            assert(0 <= k < pres.len() && pres[k].spec_id() == w);
            assert(posts[k] == pres[k]);
            post.lemma_index_unique(k, w);
        }
        post.lemma_index_unique(posts.len() - 1, t.spec_id());
    }

    /// Build a registry and the validated id-to-instance map from a
    /// serializable template list. A definition claiming the reserved
    /// completion id, or an id already taken, is ignored; the first
    /// definition of an id wins.
    pub fn with_serde(ser_templates: &ser::tags::Templates) -> (r: (Templates, TagMap))
        ensures
            r.0.wf(),
            r.1.consistent_with(r.0),
            forall|v: u64|
                r.0.contains_id(v) <==> (v == COMPLETE_TAG_ID || ser::tags::templates_have_id(
                    ser_templates.0@,
                    v,
                )),
            forall|v: u64|
                v != COMPLETE_TAG_ID && ser::tags::templates_have_id(ser_templates.0@, v)
                    ==> r.0.name_of(v) == ser_first_name(ser_templates.0@, v),
            r.0.name_of(COMPLETE_TAG_ID) == "complete"@,
            ser_models_of(r.0.spec_templates()) == doc_models(ser_templates.0@),
    {
        let mut templates = Templates::new();
        let mut ids: Vec<u64> = Vec::new();
        ids.push(COMPLETE_TAG_ID);
        let n = ser_templates.0.len();
        let mut i: usize = 0;
        proof {
            assert(ser_templates.0@.take(0) =~= Seq::<ser::tags::Template>::empty());
            assert(ids@[0] == COMPLETE_TAG_ID);
            assert forall|w: u64| ids@.contains(w) implies templates.contains_id(w) by {
                let k = choose|k: int| 0 <= k < ids@.len() && ids@[k] == w;
                assert(k == 0);
            }
            assert forall|w: u64| templates.contains_id(w) implies ids@.contains(w) by {
                assert(w == COMPLETE_TAG_ID);
                assert(ids@[0] == w);
            }
        }
        while i < n
            invariant
                i <= n,
                n == ser_templates.0@.len(),
                templates.wf(),
                templates.name_of(COMPLETE_TAG_ID) == "complete"@,
                forall|v: u64| #[trigger]
                    templates.contains_id(v) <==> (v == COMPLETE_TAG_ID
                        || ser::tags::templates_have_id(ser_templates.0@.take(i as int), v)),
                forall|v: u64|
                    v != COMPLETE_TAG_ID && ser::tags::templates_have_id(
                        ser_templates.0@.take(i as int),
                        v,
                    ) ==> templates.name_of(v) == ser_first_name(
                        ser_templates.0@.take(i as int),
                        v,
                    ),
                forall|v: u64| ids@.contains(v) <==> templates.contains_id(v),
                ser_models_of(templates.spec_templates()) == doc_models(
                    ser_templates.0@.take(i as int),
                ),
            decreases n - i,
        {
            let e = &ser_templates.0[i];
            let v = e.id.value;
            let known = if v == COMPLETE_TAG_ID {
                true
            } else {
                templates.is_valid(v)
            };
            let ghost taken = ser_templates.0@.take(i as int);
            let ghost taken1 = ser_templates.0@.take(i + 1);
            proof {
                assert(taken1 =~= taken.push(ser_templates.0@[i as int]));
            }
            let ghost old_templates_view = templates.spec_templates();
            if !known {
                let ghost pre = templates;
                let ghost pre_ids = ids@;
                let fresh = Template { id: Id::from_value(v), name: e.name.clone(), completes: false };
                let ghost t = fresh;
                templates.list.push(fresh);
                ids.push(v);
                proof {
                    assert(templates.spec_templates() =~= pre.spec_templates().push(t));
                    Templates::lemma_registry_push(pre, templates, t);
                    assert(t.spec_name() == ser_templates.0@[i as int].name@);
                    assert forall|w: u64| ids@.contains(w) <==> templates.contains_id(w) by {
                        lemma_seq_contains_push(pre_ids, v, w);
                    }
                }
            }
            proof {
                assert(taken1.drop_last() =~= taken);
                assert(ser_models_of(templates.spec_templates()) == doc_models(taken1)) by {
                    if !known {
                        assert(templates.spec_templates().drop_last() =~= old_templates_view);
                        assert(ser_models_of(templates.spec_templates()) =~= ser_models_of(
                            old_templates_view,
                        ).push(ser_template_model(ser_templates.0@[i as int])));
                    }
                }
                assert forall|w: u64| #[trigger]
                    templates.contains_id(w) <==> (w == COMPLETE_TAG_ID
                        || ser::tags::templates_have_id(taken1, w)) by {
                    lemma_ser_first_name_push(taken, ser_templates.0@[i as int], w);
                }
                assert forall|w: u64|
                    w != COMPLETE_TAG_ID && ser::tags::templates_have_id(
                        taken1,
                        w,
                    ) implies templates.name_of(w) == ser_first_name(taken1, w) by {
                    lemma_ser_first_name_push(taken, ser_templates.0@[i as int], w);
                }
            }
            i = i + 1;
        }
        proof {
            assert(ser_templates.0@.take(n as int) =~= ser_templates.0@);
        }
        (templates, TagMap { ids })
    }
}

/// Membership in a pushed sequence of ids.
proof fn lemma_seq_contains_push(s: Seq<u64>, e: u64, v: u64)
    ensures
        s.push(e).contains(v) <==> (s.contains(v) || v == e),
{
    if s.contains(v) {
        let k = choose|k: int| 0 <= k < s.len() && s[k] == v;
        assert(s.push(e)[k] == v);
    }
    if v == e {
        assert(s.push(e)[s.len() as int] == v);
    }
    if s.push(e).contains(v) {
        let k = choose|k: int| 0 <= k < s.push(e).len() && s.push(e)[k] == v;
        if k < s.len() {
            assert(s[k] == v);
        }
    }
}

/// The validated map from persisted tag ids to tag identifiers, built
/// once at load time; resolution failures surface before any other
/// component is constructed.
#[derive(Debug)]
pub struct TagMap {
    ids: Vec<u64>,
}

impl TagMap {
    /// The ids the map resolves.
    pub closed spec fn spec_ids(self) -> Seq<u64> {
        self.ids@
    }

    /// True if the map resolves `v`.
    pub open spec fn contains(self, v: u64) -> bool {
        self.spec_ids().contains(v)
    }

    /// The map resolves exactly the ids of the registry's templates.
    pub open spec fn consistent_with(self, templates: Templates) -> bool {
        forall|v: u64| #[trigger] self.contains(v) <==> templates.contains_id(v)
    }

    /// Resolve a persisted tag id to a tag identifier.
    pub fn get(&self, v: u64) -> (r: Option<Id>)
        ensures
            match r {
                Some(id) => self.contains(v) && id@ == v,
                None => !self.contains(v),
            },
    {
        let n = self.ids.len();
        let mut i: usize = 0;
        while i < n
            invariant
                i <= n,
                n == self.ids@.len(),
                forall|j: int| 0 <= j < i ==> self.ids@[j] != v,
            decreases n - i,
        {
            if self.ids[i] == v {
                proof {
                    assert(self.spec_ids()[i as int] == v);
                }
                return Some(Id::from_value(v));
            }
            i = i + 1;
        }
        None
    }
}

/// The name of the implicit completion template.
fn complete_name() -> (r: String)
    ensures
        r@ == "complete"@,
{
    String::from_str("complete")
}

} // verus!
