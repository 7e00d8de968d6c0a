use vstd::prelude::*;

use crate::json::{
    entries_get, get_sub_object, json_eq, lemma_json_entry_views, json_entry_views, object_get,
    split_dots, sub_object, JsonValue, JsonView, PathError, PathErrorView,
};
use crate::object_builder::model::{
    computation_source_view, elements_view, field_source_view, keys_unique, lemma_elements_view,
    lemma_objects_map_dom, lemma_source_fields_view, objects_map, source_fields_view,
    ArrayElementSource, ComputationSource, ComputationSourceView, FieldDefinitionSource,
    FieldSourceView, ObjectIdPair, RowSource, RowSourceView,
};

verus! {

/// Why a row could not be built.
#[derive(Debug)]
pub enum BuildError {
    /// The object with this id is not a JSON object.
    NotAnObject(u128),
    /// The object with this id has no field of this name.
    MissingField(u128, String),
    /// A dotted path could not be followed.
    Path(PathError),
    /// A field value computation was asked of a row without relations.
    FieldValueWithoutRelation,
    /// An array field was asked of a row without relations.
    ArrayWithoutRelation,
}

pub enum BuildErrorView {
    NotAnObject(u128),
    MissingField(u128, Seq<char>),
    Path(PathErrorView),
    FieldValueWithoutRelation,
    ArrayWithoutRelation,
}

impl View for BuildError {
    type V = BuildErrorView;

    open spec fn view(&self) -> BuildErrorView {
        match self {
            BuildError::NotAnObject(id) => BuildErrorView::NotAnObject(*id),
            BuildError::MissingField(id, name) => BuildErrorView::MissingField(*id, name@),
            BuildError::Path(e) => BuildErrorView::Path(e@),
            BuildError::FieldValueWithoutRelation => BuildErrorView::FieldValueWithoutRelation,
            BuildError::ArrayWithoutRelation => BuildErrorView::ArrayWithoutRelation,
        }
    }
}

/// A row of a view, ready for a materializer.
#[derive(Debug)]
pub struct RowDefinition {
    pub object_ids: Vec<u128>,
    pub fields: Vec<(String, JsonValue)>,
}

pub struct RowDefinitionView {
    pub object_ids: Set<u128>,
    pub fields: Seq<(Seq<char>, JsonView)>,
}

impl View for RowDefinition {
    type V = RowDefinitionView;

    open spec fn view(&self) -> RowDefinitionView {
        RowDefinitionView { object_ids: self.object_ids@.to_set(), fields: json_entry_views(self.fields@) }
    }
}

/// The entries of a JSON object once `key` is set to `value`; an earlier entry with that key is replaced.
pub open spec fn entries_insert(
    es: Seq<(Seq<char>, JsonView)>,
    key: Seq<char>,
    value: JsonView,
) -> Seq<(Seq<char>, JsonView)>
    decreases es.len(),
{
    if es.len() == 0 {
        seq![(key, value)]
    } else if es[0].0 == key {
        seq![(key, value)] + es.drop_first()
    } else {
        seq![es[0]] + entries_insert(es.drop_first(), key, value)
    }
}

/// The objects that a computation reads are among `dom`.
pub open spec fn computation_refs_in(c: ComputationSourceView, dom: Set<ObjectIdPair>) -> bool
    decreases c,
{
    match c {
        ComputationSourceView::RawValue(_) => true,
        ComputationSourceView::FieldValue(o, _) => dom.contains(o),
        ComputationSourceView::Equals(l, r) => computation_refs_in(*l, dom) && computation_refs_in(
            *r,
            dom,
        ),
    }
}

/// The objects that a field reads are among `dom`.
pub open spec fn field_refs_in(f: FieldSourceView, dom: Set<ObjectIdPair>) -> bool
    decreases f, 2nat,
{
    match f {
        FieldSourceView::Simple(o, _, _) => dom.contains(o),
        FieldSourceView::Computed(c, _) => computation_refs_in(c, dom),
        FieldSourceView::Array(els) => elements_refs_in(els, dom),
    }
}

pub open spec fn elements_refs_in(els: Seq<Seq<(Seq<char>, FieldSourceView)>>, dom: Set<ObjectIdPair>) -> bool
    decreases els, 1nat,
{
    if els.len() == 0 {
        true
    } else {
        elements_refs_in(els.drop_last(), dom) && fields_refs_in(els.last(), dom)
    }
}

pub open spec fn fields_refs_in(fs: Seq<(Seq<char>, FieldSourceView)>, dom: Set<ObjectIdPair>) -> bool
    decreases fs, 0nat,
{
    if fs.len() == 0 {
        true
    } else {
        fields_refs_in(fs.drop_last(), dom) && field_refs_in(fs.last().1, dom)
    }
}

/// The value of a computation: over the objects of a join (`Some`), or over a
/// single object of a view without relations (`None`).
pub open spec fn compute(objects: Option<Map<ObjectIdPair, JsonView>>, c: ComputationSourceView) -> Result<
    JsonView,
    BuildErrorView,
>
    decreases c,
{
    match c {
        ComputationSourceView::RawValue(v) => Ok(v),
        ComputationSourceView::FieldValue(o, path) => match objects {
            Some(m) => match sub_object(m[o], split_dots(path)) {
                Ok(v) => Ok(v),
                Err(e) => Err(BuildErrorView::Path(e)),
            },
            None => Err(BuildErrorView::FieldValueWithoutRelation),
        },
        ComputationSourceView::Equals(l, r) => match compute(objects, *l) {
            Err(e) => Err(e),
            Ok(lv) => match compute(objects, *r) {
                Err(e) => Err(e),
                Ok(rv) => Ok(JsonView::Bool(lv == rv)),
            },
        },
    }
}

/// The named field of an object.
pub open spec fn object_field(id: ObjectIdPair, v: JsonView, name: Seq<char>) -> Result<
    JsonView,
    BuildErrorView,
> {
    match v {
        JsonView::Object(entries) => match entries_get(entries, name) {
            Some(x) => Ok(x),
            None => Err(BuildErrorView::MissingField(id.object_id, name)),
        },
        _ => Err(BuildErrorView::NotAnObject(id.object_id)),
    }
}

/// The value of a field of a joined row.
pub open spec fn join_field_value(objects: Map<ObjectIdPair, JsonView>, f: FieldSourceView) -> Result<
    JsonView,
    BuildErrorView,
>
    decreases f, 2nat,
{
    match f {
        FieldSourceView::Simple(o, name, _) => object_field(o, objects[o], name),
        FieldSourceView::Computed(c, _) => compute(Some(objects), c),
        FieldSourceView::Array(els) => match join_elements(objects, els) {
            Err(e) => Err(e),
            Ok(vs) => Ok(JsonView::Array(vs)),
        },
    }
}

/// The values of the elements of an array field: one object each.
pub open spec fn join_elements(
    objects: Map<ObjectIdPair, JsonView>,
    els: Seq<Seq<(Seq<char>, FieldSourceView)>>,
) -> Result<Seq<JsonView>, BuildErrorView>
    decreases els, 1nat,
{
    if els.len() == 0 {
        Ok(Seq::empty())
    } else {
        match join_elements(objects, els.drop_last()) {
            Err(e) => Err(e),
            Ok(a) => match join_fields(objects, els.last()) {
                Err(e) => Err(e),
                Ok(es) => Ok(a.push(JsonView::Object(es))),
            },
        }
    }
}

/// The values of the fields of a joined row, in order; the first failure wins.
pub open spec fn join_fields(
    objects: Map<ObjectIdPair, JsonView>,
    fs: Seq<(Seq<char>, FieldSourceView)>,
) -> Result<Seq<(Seq<char>, JsonView)>, BuildErrorView>
    decreases fs, 0nat,
{
    if fs.len() == 0 {
        Ok(Seq::empty())
    } else {
        match join_fields(objects, fs.drop_last()) {
            Err(e) => Err(e),
            Ok(a) => match join_field_value(objects, fs.last().1) {
                Err(e) => Err(e),
                Ok(v) => Ok(entries_insert(a, fs.last().0, v)),
            },
        }
    }
}

/// The value of a field of the row of a single object.
pub open spec fn single_field_value(id: ObjectIdPair, v: JsonView, f: FieldSourceView) -> Result<
    JsonView,
    BuildErrorView,
> {
    match f {
        FieldSourceView::Simple(_, name, _) => object_field(id, v, name),
        FieldSourceView::Computed(c, _) => compute(None, c),
        FieldSourceView::Array(_) => Err(BuildErrorView::ArrayWithoutRelation),
    }
}

pub open spec fn single_fields(id: ObjectIdPair, v: JsonView, fs: Seq<(Seq<char>, FieldSourceView)>) -> Result<
    Seq<(Seq<char>, JsonView)>,
    BuildErrorView,
>
    decreases fs.len(),
{
    if fs.len() == 0 {
        Ok(Seq::empty())
    } else {
        match single_fields(id, v, fs.drop_last()) {
            Err(e) => Err(e),
            Ok(a) => match single_field_value(id, v, fs.last().1) {
                Err(e) => Err(e),
                Ok(x) => Ok(entries_insert(a, fs.last().0, x)),
            },
        }
    }
}

/// The row that a row source makes.
pub open spec fn build_row(source: RowSourceView) -> Result<RowDefinitionView, BuildErrorView> {
    match source {
        RowSourceView::Join(objects, _, fields) => match join_fields(objects, fields) {
            Err(e) => Err(e),
            Ok(fs) => Ok(
                RowDefinitionView {
                    object_ids: objects.dom().map(|p: ObjectIdPair| p.object_id),
                    fields: fs,
                },
            ),
        },
        RowSourceView::Single(root, value, fields) => match value {
            JsonView::Object(_) => match single_fields(root, value, fields) {
                Err(e) => Err(e),
                Ok(fs) => Ok(RowDefinitionView { object_ids: set![root.object_id], fields: fs }),
            },
            _ => Err(BuildErrorView::NotAnObject(root.object_id)),
        },
    }
}

/// What a row source must satisfy to be built: the objects of a join are each
/// listed once and include every object its fields read.
pub open spec fn buildable(source: RowSource) -> bool {
    match source {
        RowSource::Join { objects, fields, .. } => keys_unique(objects@) && fields_refs_in(
            source_fields_view(fields@),
            objects_map(objects@).dom(),
        ),
        RowSource::Single { .. } => true,
    }
}

} // verus!

verus! {

pub proof fn lemma_objects_map_at(s: Seq<(ObjectIdPair, JsonValue)>, i: int)
    requires
        keys_unique(s),
        0 <= i < s.len(),
    ensures
        objects_map(s).contains_key(s[i].0),
        objects_map(s)[s[i].0] == s[i].1@,
    decreases s.len(),
{
    if i < s.len() - 1 {
        lemma_objects_map_at(s.drop_last(), i);
        assert(s.drop_last()[i] == s[i]);
    }
}

/// The object stored for `pair`, if any.
pub fn find_object<'a>(objects: &'a Vec<(ObjectIdPair, JsonValue)>, pair: ObjectIdPair) -> (r: Option<&'a JsonValue>)
    requires
        keys_unique(objects@),
    ensures
        match r {
            Some(v) => objects_map(objects@).contains_key(pair) && objects_map(objects@)[pair] == v@,
            None => !objects_map(objects@).contains_key(pair),
        },
{
    let mut i: usize = 0;
    while i < objects.len()
        invariant
            i <= objects.len(),
            keys_unique(objects@),
            forall|k: int| 0 <= k < i ==> objects@[k].0 != pair,
        decreases objects.len() - i,
    {
        if objects[i].0 == pair {
            proof {
                lemma_objects_map_at(objects@, i as int);
            }
            return Some(&objects[i].1);
        }
        i = i + 1;
    }
    proof {
        lemma_objects_map_dom(objects@, pair);
    }
    None
}

pub proof fn lemma_entries_insert_at(es: Seq<(Seq<char>, JsonView)>, key: Seq<char>, value: JsonView, i: int)
    requires
        0 <= i < es.len(),
        es[i].0 == key,
        forall|j: int| 0 <= j < i ==> es[j].0 != key,
    ensures
        entries_insert(es, key, value) == es.update(i, (key, value)),
    decreases es.len(),
{
    if i == 0 {
        assert(entries_insert(es, key, value) =~= es.update(i, (key, value)));
    } else {
        lemma_entries_insert_at(es.drop_first(), key, value, i - 1);
        assert(entries_insert(es, key, value) =~= es.update(i, (key, value)));
    }
}

pub proof fn lemma_entries_insert_absent(es: Seq<(Seq<char>, JsonView)>, key: Seq<char>, value: JsonView)
    requires
        forall|j: int| 0 <= j < es.len() ==> es[j].0 != key,
    ensures
        entries_insert(es, key, value) == es.push((key, value)),
    decreases es.len(),
{
    if es.len() > 0 {
        lemma_entries_insert_absent(es.drop_first(), key, value);
    }
    assert(entries_insert(es, key, value) =~= es.push((key, value)));
}

/// Sets an entry of a JSON object; an earlier entry with that key is replaced.
pub fn insert_entry(entries: &mut Vec<(String, JsonValue)>, key: String, value: JsonValue)
    ensures
        json_entry_views(final(entries)@) == entries_insert(json_entry_views(old(entries)@), key@, value@),
{
    let ghost old_view = json_entry_views(entries@);
    proof {
        lemma_json_entry_views(entries@);
    }
    let mut i: usize = 0;
    while i < entries.len()
        invariant
            i <= entries.len(),
            entries@ == old(entries)@,
            old_view == json_entry_views(entries@),
            old_view.len() == entries.len(),
            forall|j: int| 0 <= j < entries.len() ==> #[trigger] old_view[j] == (entries@[j].0@, entries@[j].1@),
            forall|j: int| 0 <= j < i ==> old_view[j].0 != key@,
        decreases entries.len() - i,
    {
        if entries[i].0 == key {
            proof {
                lemma_entries_insert_at(old_view, key@, value@, i as int);
            }
            let ghost v = value@;
            entries.set(i, (key, value));
            proof {
                lemma_json_entry_views(entries@);
                assert(json_entry_views(entries@) =~= old_view.update(i as int, (key@, v)));
            }
            return ;
        }
        i = i + 1;
    }
    proof {
        lemma_entries_insert_absent(old_view, key@, value@);
    }
    let ghost k = key@;
    let ghost v = value@;
    entries.push((key, value));
    proof {
        lemma_json_entry_views(entries@);
        assert(json_entry_views(entries@) =~= old_view.push((k, v)));
    }
}

/// The named field of an object.
pub fn get_object_field(id: ObjectIdPair, v: &JsonValue, name: &String) -> (r: Result<JsonValue, BuildError>)
    ensures
        match r {
            Ok(x) => object_field(id, v@, name@) == Ok::<JsonView, BuildErrorView>(x@),
            Err(e) => object_field(id, v@, name@) == Err::<JsonView, BuildErrorView>(e@),
        },
{
    match v {
        JsonValue::Object(entries) => match object_get(entries, name) {
            Some(x) => Ok(x.duplicate()),
            None => Err(BuildError::MissingField(id.object_id, name.clone())),
        },
        _ => Err(BuildError::NotAnObject(id.object_id)),
    }
}

/// Computes the values of computed fields.
pub enum ComputationEngine<'a> {
    /// Over the objects of a join.
    Join { objects: &'a Vec<(ObjectIdPair, JsonValue)> },
    /// Over the single object of a view without relations.
    Simple { object_id: ObjectIdPair, value: &'a JsonValue },
}

impl<'a> ComputationEngine<'a> {
    pub open spec fn objects_model(&self) -> Option<Map<ObjectIdPair, JsonView>> {
        match self {
            ComputationEngine::Join { objects } => Some(objects_map(objects@)),
            ComputationEngine::Simple { .. } => None,
        }
    }

    pub open spec fn can_compute(&self, c: ComputationSourceView) -> bool {
        match self {
            ComputationEngine::Join { objects } => keys_unique(objects@) && computation_refs_in(
                c,
                objects_map(objects@).dom(),
            ),
            ComputationEngine::Simple { .. } => true,
        }
    }

    /// The value of a computation.
    pub fn compute(&self, computation: &ComputationSource) -> (r: Result<JsonValue, BuildError>)
        requires
            self.can_compute(computation@),
        ensures
            match r {
                Ok(x) => compute(self.objects_model(), computation@) == Ok::<JsonView, BuildErrorView>(x@),
                Err(e) => compute(self.objects_model(), computation@) == Err::<JsonView, BuildErrorView>(e@),
            },
        decreases computation,
    {
        match computation {
            ComputationSource::RawValue { value } => Ok(value.duplicate()),
            ComputationSource::FieldValue { object, field_path } => match self {
                ComputationEngine::Join { objects } => {
                    let found = find_object(objects, *object);
                    let obj = match found {
                        Some(o) => o,
                        None => {
                            assert(false);
                            return Err(BuildError::FieldValueWithoutRelation);
                        },
                    };
                    match get_sub_object(obj, field_path.as_str()) {
                        Ok(v) => Ok(v),
                        Err(e) => Err(BuildError::Path(e)),
                    }
                },
                ComputationEngine::Simple { .. } => Err(BuildError::FieldValueWithoutRelation),
            },
            ComputationSource::Equals { lhs, rhs } => {
                let l = match self.compute(&**lhs) {
                    Ok(v) => v,
                    Err(e) => return Err(e),
                };
                let r = match self.compute(&**rhs) {
                    Ok(v) => v,
                    Err(e) => return Err(e),
                };
                Ok(JsonValue::Bool(json_eq(&l, &r)))
            },
        }
    }
}

} // verus!

verus! {

pub proof fn lemma_fields_refs_in(fs: Seq<(Seq<char>, FieldSourceView)>, dom: Set<ObjectIdPair>)
    ensures
        fields_refs_in(fs, dom) <==> forall|i: int| 0 <= i < fs.len() ==> field_refs_in(#[trigger] fs[i].1, dom),
    decreases fs.len(),
{
    if fs.len() > 0 {
        lemma_fields_refs_in(fs.drop_last(), dom);
        if forall|i: int| 0 <= i < fs.len() ==> field_refs_in(#[trigger] fs[i].1, dom) {
            assert forall|i: int| 0 <= i < fs.drop_last().len() implies field_refs_in(
                #[trigger] fs.drop_last()[i].1,
                dom,
            ) by {
                assert(fs.drop_last()[i] == fs[i]);
            }
        }
        if fields_refs_in(fs, dom) {
            assert forall|i: int| 0 <= i < fs.len() implies field_refs_in(#[trigger] fs[i].1, dom) by {
                if i < fs.len() - 1 {
                    assert(fs.drop_last()[i] == fs[i]);
                }
            }
        }
    }
}

pub proof fn lemma_elements_refs_in(els: Seq<Seq<(Seq<char>, FieldSourceView)>>, dom: Set<ObjectIdPair>)
    ensures
        elements_refs_in(els, dom) <==> forall|i: int| 0 <= i < els.len() ==> fields_refs_in(#[trigger] els[i], dom),
    decreases els.len(),
{
    if els.len() > 0 {
        lemma_elements_refs_in(els.drop_last(), dom);
        if forall|i: int| 0 <= i < els.len() ==> fields_refs_in(#[trigger] els[i], dom) {
            assert forall|i: int| 0 <= i < els.drop_last().len() implies fields_refs_in(
                #[trigger] els.drop_last()[i],
                dom,
            ) by {
                assert(els.drop_last()[i] == els[i]);
            }
        }
        if elements_refs_in(els, dom) {
            assert forall|i: int| 0 <= i < els.len() implies fields_refs_in(#[trigger] els[i], dom) by {
                if i < els.len() - 1 {
                    assert(els.drop_last()[i] == els[i]);
                }
            }
        }
    }
}

/// Builds the fields of a joined row from its objects.
pub struct FieldBuilder<'a> {
    pub objects: &'a Vec<(ObjectIdPair, JsonValue)>,
}

impl<'a> FieldBuilder<'a> {
    pub open spec fn dom(&self) -> Set<ObjectIdPair> {
        objects_map(self.objects@).dom()
    }

    pub open spec fn model(&self) -> Map<ObjectIdPair, JsonView> {
        objects_map(self.objects@)
    }

    /// The value of one field.
    pub fn value_of(&self, field: &FieldDefinitionSource) -> (r: Result<JsonValue, BuildError>)
        requires
            keys_unique(self.objects@),
            field_refs_in(field@, self.dom()),
        ensures
            match r {
                Ok(x) => join_field_value(self.model(), field@) == Ok::<JsonView, BuildErrorView>(x@),
                Err(e) => join_field_value(self.model(), field@) == Err::<JsonView, BuildErrorView>(e@),
            },
        decreases field, 2nat,
    {
        match field {
            FieldDefinitionSource::Simple { object, field_name, .. } => {
                let found = find_object(self.objects, *object);
                match found {
                    Some(o) => get_object_field(*object, o, field_name),
                    None => {
                        assert(false);
                        Err(BuildError::NotAnObject(object.object_id))
                    },
                }
            },
            FieldDefinitionSource::Computed { computation, .. } => {
                let engine = ComputationEngine::Join { objects: self.objects };
                engine.compute(computation)
            },
            FieldDefinitionSource::Array { elements } => match self.build_elements(elements) {
                Ok(vs) => {
                    proof {
                        crate::json::lemma_json_views(vs@);
                    }
                    Ok(JsonValue::Array(vs))
                },
                Err(e) => Err(e),
            },
        }
    }

    /// The values of the elements of an array field.
    pub fn build_elements(&self, elements: &Vec<ArrayElementSource>) -> (r: Result<Vec<JsonValue>, BuildError>)
        requires
            keys_unique(self.objects@),
            elements_refs_in(elements_view(elements@), self.dom()),
        ensures
            match r {
                Ok(vs) => join_elements(self.model(), elements_view(elements@)) == Ok::<
                    Seq<JsonView>,
                    BuildErrorView,
                >(crate::json::json_views(vs@)),
                Err(e) => join_elements(self.model(), elements_view(elements@)) == Err::<
                    Seq<JsonView>,
                    BuildErrorView,
                >(e@),
            },
            r matches Ok(vs) ==> vs@.len() == elements@.len(),
        decreases elements, 1nat,
    {
        let ghost ev = elements_view(elements@);
        proof {
            lemma_elements_view(elements@);
            lemma_elements_refs_in(ev, self.dom());
        }
        let mut out: Vec<JsonValue> = Vec::new();
        let mut i: usize = 0;
        assert(ev.take(0) =~= Seq::<Seq<(Seq<char>, FieldSourceView)>>::empty());
        assert(crate::json::json_views(out@) =~= Seq::<JsonView>::empty());
        while i < elements.len()
            invariant
                i <= elements.len(),
                ev == elements_view(elements@),
                ev.len() == elements.len(),
                forall|j: int| 0 <= j < elements.len() ==> #[trigger] ev[j] == source_fields_view(elements@[j].fields@),
                forall|j: int| 0 <= j < ev.len() ==> fields_refs_in(#[trigger] ev[j], self.dom()),
                keys_unique(self.objects@),
                join_elements(self.model(), ev.take(i as int)) == Ok::<Seq<JsonView>, BuildErrorView>(
                    crate::json::json_views(out@),
                ),
            decreases elements.len() - i,
        {
            assert(ev.take(i + 1).drop_last() =~= ev.take(i as int));
            assert(ev.take(i + 1).last() == ev[i as int]);
            proof {
                vstd::std_specs::vec::axiom_vec_index_decreases(*elements, i as int);
                assert(decreases_to!(elements@[i as int] => elements@[i as int].fields));
            }
            match self.build_fields(&elements[i].fields) {
                Err(e) => {
                    proof {
                        lemma_join_elements_err_extends(self.model(), ev, i + 1);
                    }
                    return Err(e);
                },
                Ok(entries) => {
                    let ghost prev = out@;
                    let v = JsonValue::Object(entries);
                    out.push(v);
                    proof {
                        crate::json::lemma_json_views(prev);
                        crate::json::lemma_json_views(out@);
                        assert(crate::json::json_views(out@) =~= crate::json::json_views(prev).push(v@));
                    }
                },
            }
            i = i + 1;
        }
        assert(ev.take(i as int) =~= ev);
        proof {
            law_array_has_one_element_per_source(self.model(), ev);
            crate::json::lemma_json_views(out@);
        }
        Ok(out)
    }

    /// The values of a list of fields, as the entries of an object.
    pub fn build_fields(&self, fields: &Vec<(String, FieldDefinitionSource)>) -> (r: Result<
        Vec<(String, JsonValue)>,
        BuildError,
    >)
        requires
            keys_unique(self.objects@),
            fields_refs_in(source_fields_view(fields@), self.dom()),
        ensures
            match r {
                Ok(es) => join_fields(self.model(), source_fields_view(fields@)) == Ok::<
                    Seq<(Seq<char>, JsonView)>,
                    BuildErrorView,
                >(json_entry_views(es@)),
                Err(e) => join_fields(self.model(), source_fields_view(fields@)) == Err::<
                    Seq<(Seq<char>, JsonView)>,
                    BuildErrorView,
                >(e@),
            },
        decreases fields, 0nat,
    {
        let ghost fv = source_fields_view(fields@);
        proof {
            lemma_source_fields_view(fields@);
            lemma_fields_refs_in(fv, self.dom());
        }
        let mut out: Vec<(String, JsonValue)> = Vec::new();
        let mut i: usize = 0;
        assert(fv.take(0) =~= Seq::<(Seq<char>, FieldSourceView)>::empty());
        assert(json_entry_views(out@) =~= Seq::<(Seq<char>, JsonView)>::empty());
        while i < fields.len()
            invariant
                i <= fields.len(),
                fv == source_fields_view(fields@),
                fv.len() == fields.len(),
                forall|j: int| 0 <= j < fields.len() ==> #[trigger] fv[j] == (fields@[j].0@, field_source_view(fields@[j].1)),
                forall|j: int| 0 <= j < fv.len() ==> field_refs_in(#[trigger] fv[j].1, self.dom()),
                keys_unique(self.objects@),
                join_fields(self.model(), fv.take(i as int)) == Ok::<Seq<(Seq<char>, JsonView)>, BuildErrorView>(
                    json_entry_views(out@),
                ),
            decreases fields.len() - i,
        {
            assert(fv.take(i + 1).drop_last() =~= fv.take(i as int));
            assert(fv.take(i + 1).last() == fv[i as int]);
            proof {
                vstd::std_specs::vec::axiom_vec_index_decreases(*fields, i as int);
                assert(decreases_to!(fields@[i as int] => fields@[i as int].1));
            }
            assert(fv[i as int] == (fields@[i as int].0@, field_source_view(fields@[i as int].1)));
            assert(field_refs_in(fv[i as int].1, self.dom()));
            match self.value_of(&fields[i].1) {
                Err(e) => {
                    proof {
                        lemma_join_fields_err_extends(self.model(), fv, i + 1);
                    }
                    return Err(e);
                },
                Ok(v) => {
                    insert_entry(&mut out, fields[i].0.clone(), v);
                },
            }
            i = i + 1;
        }
        assert(fv.take(i as int) =~= fv);
        Ok(out)
    }

    /// Builds one field: its name and its value.
    pub fn build(&self, field: (&String, &FieldDefinitionSource)) -> (r: Result<(String, JsonValue), BuildError>)
        requires
            keys_unique(self.objects@),
            field_refs_in(field.1@, self.dom()),
        ensures
            match r {
                Ok((k, x)) => k@ == field.0@ && join_field_value(self.model(), field.1@) == Ok::<
                    JsonView,
                    BuildErrorView,
                >(x@),
                Err(e) => join_field_value(self.model(), field.1@) == Err::<JsonView, BuildErrorView>(e@),
            },
    {
        let (name, def) = field;
        match self.value_of(def) {
            Ok(v) => Ok((name.clone(), v)),
            Err(e) => Err(e),
        }
    }
}

pub proof fn lemma_join_fields_err_extends(
    objects: Map<ObjectIdPair, JsonView>,
    fs: Seq<(Seq<char>, FieldSourceView)>,
    n: int,
)
    requires
        0 <= n <= fs.len(),
        join_fields(objects, fs.take(n)) is Err,
    ensures
        join_fields(objects, fs) == join_fields(objects, fs.take(n)),
    decreases fs.len() - n,
{
    if fs.len() > n {
        assert(fs.drop_last().take(n) =~= fs.take(n));
        lemma_join_fields_err_extends(objects, fs.drop_last(), n);
    } else {
        assert(fs.take(n) =~= fs);
    }
}

pub proof fn lemma_join_elements_err_extends(
    objects: Map<ObjectIdPair, JsonView>,
    els: Seq<Seq<(Seq<char>, FieldSourceView)>>,
    n: int,
)
    requires
        0 <= n <= els.len(),
        join_elements(objects, els.take(n)) is Err,
    ensures
        join_elements(objects, els) == join_elements(objects, els.take(n)),
    decreases els.len() - n,
{
    if els.len() > n {
        assert(els.drop_last().take(n) =~= els.take(n));
        lemma_join_elements_err_extends(objects, els.drop_last(), n);
    } else {
        assert(els.take(n) =~= els);
    }
}

} // verus!

verus! {

/// Builds the rows of a view from their sources.
pub struct RowBuilder {}

impl RowBuilder {
    pub fn new() -> (r: RowBuilder) {
        RowBuilder {  }
    }

    /// The row that a source makes.
    pub fn build(&self, source: RowSource) -> (r: Result<RowDefinition, BuildError>)
        requires
            buildable(source),
        ensures
            match r {
                Ok(row) => build_row(source@) == Ok::<RowDefinitionView, BuildErrorView>(row@),
                Err(e) => build_row(source@) == Err::<RowDefinitionView, BuildErrorView>(e@),
            },
    {
        match source {
            RowSource::Join { objects, fields, .. } => self.build_join(objects, fields),
            RowSource::Single { root_object, value, fields } => self.build_single(root_object, value, fields),
        }
    }

    fn build_join(&self, objects: Vec<(ObjectIdPair, JsonValue)>, fields: Vec<(String, FieldDefinitionSource)>) -> (r: Result<
        RowDefinition,
        BuildError,
    >)
        requires
            keys_unique(objects@),
            fields_refs_in(source_fields_view(fields@), objects_map(objects@).dom()),
        ensures
            match r {
                Ok(row) => build_row(
                    RowSourceView::Join(objects_map(objects@), ObjectIdPair { schema_id: 0, object_id: 0 }, source_fields_view(fields@)),
                ) == Ok::<RowDefinitionView, BuildErrorView>(row@),
                Err(e) => build_row(
                    RowSourceView::Join(objects_map(objects@), ObjectIdPair { schema_id: 0, object_id: 0 }, source_fields_view(fields@)),
                ) == Err::<RowDefinitionView, BuildErrorView>(e@),
            },
    {
        let field_builder = FieldBuilder { objects: &objects };
        let built = match field_builder.build_fields(&fields) {
            Ok(es) => es,
            Err(e) => return Err(e),
        };
        let mut object_ids: Vec<u128> = Vec::new();
        let mut i: usize = 0;
        while i < objects.len()
            invariant
                i <= objects.len(),
                object_ids@ =~= objects@.take(i as int).map_values(|p: (ObjectIdPair, JsonValue)| p.0.object_id),
            decreases objects.len() - i,
        {
            object_ids.push(objects[i].0.object_id);
            assert(objects@.take(i + 1) =~= objects@.take(i as int).push(objects@[i as int]));
            i = i + 1;
        }
        assert(objects@.take(i as int) =~= objects@);
        proof {
            let dom = objects_map(objects@).dom();
            assert forall|x: u128| object_ids@.contains(x) <==> dom.map(|p: ObjectIdPair| p.object_id).contains(x) by {
                if object_ids@.contains(x) {
                    let k = choose|k: int| 0 <= k < object_ids@.len() && object_ids@[k] == x;
                    lemma_objects_map_dom(objects@, objects@[k].0);
                    assert(dom.contains(objects@[k].0));
                }
                if dom.map(|p: ObjectIdPair| p.object_id).contains(x) {
                    let p = choose|p: ObjectIdPair| dom.contains(p) && p.object_id == x;
                    lemma_objects_map_dom(objects@, p);
                    let k = choose|k: int| 0 <= k < objects@.len() && objects@[k].0 == p;
                    assert(object_ids@[k] == x);
                }
            }
            assert(object_ids@.to_set() =~= dom.map(|p: ObjectIdPair| p.object_id));
        }
        Ok(RowDefinition { object_ids, fields: built })
    }

    fn build_single(&self, pair: ObjectIdPair, object_value: JsonValue, fields: Vec<(String, FieldDefinitionSource)>) -> (r:
        Result<RowDefinition, BuildError>)
        ensures
            match r {
                Ok(row) => build_row(RowSourceView::Single(pair, object_value@, source_fields_view(fields@)))
                    == Ok::<RowDefinitionView, BuildErrorView>(row@),
                Err(e) => build_row(RowSourceView::Single(pair, object_value@, source_fields_view(fields@)))
                    == Err::<RowDefinitionView, BuildErrorView>(e@),
            },
    {
        let entries = match &object_value {
            JsonValue::Object(entries) => entries,
            _ => return Err(BuildError::NotAnObject(pair.object_id)),
        };
        let ghost fv = source_fields_view(fields@);
        let ghost v = object_value@;
        proof {
            lemma_source_fields_view(fields@);
        }
        let mut out: Vec<(String, JsonValue)> = Vec::new();
        let mut i: usize = 0;
        assert(fv.take(0) =~= Seq::<(Seq<char>, FieldSourceView)>::empty());
        assert(json_entry_views(out@) =~= Seq::<(Seq<char>, JsonView)>::empty());
        while i < fields.len()
            invariant
                i <= fields.len(),
                fv == source_fields_view(fields@),
                fv.len() == fields.len(),
                forall|j: int| 0 <= j < fields.len() ==> #[trigger] fv[j] == (fields@[j].0@, field_source_view(fields@[j].1)),
                v == object_value@,
                object_value == JsonValue::Object(*entries),
                single_fields(pair, v, fv.take(i as int)) == Ok::<Seq<(Seq<char>, JsonView)>, BuildErrorView>(
                    json_entry_views(out@),
                ),
            decreases fields.len() - i,
        {
            assert(fv.take(i + 1).drop_last() =~= fv.take(i as int));
            assert(fv.take(i + 1).last() == fv[i as int]);
            let value = match &fields[i].1 {
                FieldDefinitionSource::Simple { field_name, .. } => get_object_field(pair, &object_value, field_name),
                FieldDefinitionSource::Computed { computation, .. } => {
                    let engine = ComputationEngine::Simple { object_id: pair, value: &object_value };
                    engine.compute(computation)
                },
                FieldDefinitionSource::Array { .. } => Err(BuildError::ArrayWithoutRelation),
            };
            match value {
                Err(e) => {
                    proof {
                        lemma_single_fields_err_extends(pair, v, fv, i + 1);
                    }
                    return Err(e);
                },
                Ok(x) => {
                    insert_entry(&mut out, fields[i].0.clone(), x);
                },
            }
            i = i + 1;
        }
        assert(fv.take(i as int) =~= fv);
        let mut object_ids: Vec<u128> = Vec::new();
        object_ids.push(pair.object_id);
        assert(object_ids@.to_set() =~= set![pair.object_id]) by {
            assert(object_ids@[0] == pair.object_id);
        }
        Ok(RowDefinition { object_ids, fields: out })
    }
}

pub proof fn lemma_single_fields_err_extends(
    id: ObjectIdPair,
    v: JsonView,
    fs: Seq<(Seq<char>, FieldSourceView)>,
    n: int,
)
    requires
        0 <= n <= fs.len(),
        single_fields(id, v, fs.take(n)) is Err,
    ensures
        single_fields(id, v, fs) == single_fields(id, v, fs.take(n)),
    decreases fs.len() - n,
{
    if fs.len() > n {
        assert(fs.drop_last().take(n) =~= fs.take(n));
        lemma_single_fields_err_extends(id, v, fs.drop_last(), n);
    } else {
        assert(fs.take(n) =~= fs);
    }
}

/// An array field builds exactly when each of its elements does, and then holds one JSON
/// object per element source, in order: the `k`-th is the object of the `k`-th element's
/// fields. Where some element fails, the array fails with the error of the first that does.
pub proof fn law_array_has_one_element_per_source(
    objects: Map<ObjectIdPair, JsonView>,
    els: Seq<Seq<(Seq<char>, FieldSourceView)>>,
)
    ensures
        join_elements(objects, els) is Ok <==> forall|k: int|
            0 <= k < els.len() ==> #[trigger] join_fields(objects, els[k]) is Ok,
        join_elements(objects, els) matches Ok(vs) ==> vs.len() == els.len() && forall|k: int|
            0 <= k < els.len() ==> vs[k] == JsonView::Object(#[trigger] join_fields(objects, els[k])->Ok_0),
        join_elements(objects, els) matches Err(e) ==> exists|k: int|
            0 <= k < els.len() && #[trigger] join_fields(objects, els[k]) == Err::<
                Seq<(Seq<char>, JsonView)>,
                BuildErrorView,
            >(e) && forall|j: int| 0 <= j < k ==> join_fields(objects, els[j]) is Ok,
    decreases els.len(),
{
    if els.len() > 0 {
        let prev = els.drop_last();
        let n = els.len() - 1;
        law_array_has_one_element_per_source(objects, prev);
        assert forall|k: int| 0 <= k < n implies els[k] == prev[k] by {}
        match join_elements(objects, prev) {
            Err(e) => {
                let k = choose|k: int|
                    0 <= k < prev.len() && #[trigger] join_fields(objects, prev[k]) == Err::<
                        Seq<(Seq<char>, JsonView)>,
                        BuildErrorView,
                    >(e) && forall|j: int| 0 <= j < k ==> join_fields(objects, prev[j]) is Ok;
                assert(els[k] == prev[k]);
                assert forall|j: int| 0 <= j < k implies join_fields(objects, els[j]) is Ok by {
                    assert(els[j] == prev[j]);
                }
            },
            Ok(a) => {
                match join_fields(objects, els[n]) {
                    Err(e) => {
                        assert forall|j: int| 0 <= j < n implies join_fields(objects, els[j]) is Ok by {
                            assert(els[j] == prev[j]);
                        }
                    },
                    Ok(es) => {
                        assert forall|k: int| 0 <= k < els.len() implies #[trigger] join_fields(objects, els[k]) is Ok by {
                            if k < n {
                                assert(els[k] == prev[k]);
                            }
                        }
                        assert forall|k: int| 0 <= k < els.len() implies join_elements(objects, els)->Ok_0[k]
                            == JsonView::Object(#[trigger] join_fields(objects, els[k])->Ok_0) by {
                            if k < n {
                                assert(els[k] == prev[k]);
                            }
                        }
                    },
                }
            },
        }
    }
}

} // verus!
