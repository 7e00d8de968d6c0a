use vstd::prelude::*;

use crate::json::{JsonValue, JsonView};

verus! {

/// An object, named by the schema it belongs to and its own id.
#[derive(Clone, Copy, PartialEq, Eq, Structural, Debug, Hash)]
pub struct ObjectIdPair {
    pub schema_id: u128,
    pub object_id: u128,
}

/// The type a view declares for one of its fields.
#[derive(Clone, Copy, PartialEq, Eq, Structural, Debug)]
pub enum FieldType {
    String,
    Numeric,
    Json,
}

/// Which side of a relation a view reaches for.
#[derive(Clone, Copy, PartialEq, Eq, Structural, Debug)]
pub enum SearchFor {
    Parents,
    Children,
}

/// A computed field of a view.
pub enum Computation {
    /// A constant.
    RawValue { value: JsonValue },
    /// A (dotted) field of the object reached through a relation; relation `0` is the base object.
    FieldValue { schema_id: u8, field_path: String },
    /// Whether two computations give the same value.
    Equals { lhs: Box<Computation>, rhs: Box<Computation> },
}

/// A field of a view.
pub enum FieldDefinition {
    /// A field copied from the base object.
    Simple { field_name: String, field_type: FieldType },
    /// A field computed from objects of the row.
    Computed { computation: Computation, field_type: FieldType },
    /// An array with one element per object reached through relation `base`.
    Array { base: u8, fields: Vec<(String, FieldDefinition)> },
}

/// A relation used by a view, with its nested relations.
pub struct Relation {
    pub global_id: u128,
    /// The view-local id of the relation; never zero, zero names the base object.
    pub local_id: u8,
    pub search_for: SearchFor,
    pub relations: Vec<Relation>,
}

/// A view with everything the object builder needs to know of it.
pub struct FullView {
    pub id: u128,
    pub base_schema_id: u128,
    pub name: String,
    pub materializer_address: String,
    pub materializer_options: JsonValue,
    pub fields: Vec<(String, FieldDefinition)>,
    pub relations: Vec<Relation>,
}

/// The schemas on both ends of a relation.
#[derive(Clone, Copy, PartialEq, Eq, Structural, Debug)]
pub struct SchemaRelation {
    pub parent_schema_id: u128,
    pub child_schema_id: u128,
}

/// One parent object of a relation with its children, as the edge registry returns it.
pub struct TreeObject {
    pub object_id: u128,
    pub relation_id: u128,
    pub relation: SchemaRelation,
    pub children: Vec<u128>,
    pub subtrees: Vec<TreeResponse>,
}

/// The objects of one relation, as the edge registry returns them.
pub struct TreeResponse {
    pub objects: Vec<TreeObject>,
}

/// The parent object of a tree object.
pub open spec fn base_object_of(t: TreeObject) -> ObjectIdPair {
    ObjectIdPair { schema_id: t.relation.parent_schema_id, object_id: t.object_id }
}

pub fn get_base_object(t: &TreeObject) -> (r: ObjectIdPair)
    ensures
        r == base_object_of(*t),
{
    ObjectIdPair { schema_id: t.relation.parent_schema_id, object_id: t.object_id }
}

/// A computation whose objects are resolved.
pub enum ComputationSource {
    RawValue { value: JsonValue },
    FieldValue { object: ObjectIdPair, field_path: String },
    Equals { lhs: Box<ComputationSource>, rhs: Box<ComputationSource> },
}

pub enum ComputationSourceView {
    RawValue(JsonView),
    FieldValue(ObjectIdPair, Seq<char>),
    Equals(Box<ComputationSourceView>, Box<ComputationSourceView>),
}

pub open spec fn computation_source_view(c: ComputationSource) -> ComputationSourceView
    decreases c,
{
    match c {
        ComputationSource::RawValue { value } => ComputationSourceView::RawValue(value@),
        ComputationSource::FieldValue { object, field_path } => ComputationSourceView::FieldValue(
            object,
            field_path@,
        ),
        ComputationSource::Equals { lhs, rhs } => ComputationSourceView::Equals(
            Box::new(computation_source_view(*lhs)),
            Box::new(computation_source_view(*rhs)),
        ),
    }
}

impl View for ComputationSource {
    type V = ComputationSourceView;

    open spec fn view(&self) -> ComputationSourceView {
        computation_source_view(*self)
    }
}

/// A field of a row whose objects are resolved.
pub enum FieldDefinitionSource {
    Simple { object: ObjectIdPair, field_name: String, field_type: FieldType },
    Computed { computation: ComputationSource, field_type: FieldType },
    Array { elements: Vec<ArrayElementSource> },
}

/// One element of an array field.
pub struct ArrayElementSource {
    pub fields: Vec<(String, FieldDefinitionSource)>,
}

pub enum FieldSourceView {
    Simple(ObjectIdPair, Seq<char>, FieldType),
    Computed(ComputationSourceView, FieldType),
    Array(Seq<Seq<(Seq<char>, FieldSourceView)>>),
}

pub open spec fn field_source_view(f: FieldDefinitionSource) -> FieldSourceView
    decreases f, 2nat,
{
    match f {
        FieldDefinitionSource::Simple { object, field_name, field_type } => FieldSourceView::Simple(
            object,
            field_name@,
            field_type,
        ),
        FieldDefinitionSource::Computed { computation, field_type } => FieldSourceView::Computed(
            computation@,
            field_type,
        ),
        FieldDefinitionSource::Array { elements } => FieldSourceView::Array(
            elements_view(elements@),
        ),
    }
}

pub open spec fn elements_view(s: Seq<ArrayElementSource>) -> Seq<Seq<(Seq<char>, FieldSourceView)>>
    decreases s, 1nat,
{
    if s.len() == 0 {
        Seq::empty()
    } else {
        seq![source_fields_view(s[0].fields@)] + elements_view(s.drop_first())
    }
}

pub open spec fn source_fields_view(s: Seq<(String, FieldDefinitionSource)>) -> Seq<
    (Seq<char>, FieldSourceView),
>
    decreases s, 0nat,
{
    if s.len() == 0 {
        Seq::empty()
    } else {
        seq![(s[0].0@, field_source_view(s[0].1))] + source_fields_view(s.drop_first())
    }
}

impl View for FieldDefinitionSource {
    type V = FieldSourceView;

    open spec fn view(&self) -> FieldSourceView {
        field_source_view(*self)
    }
}

pub proof fn lemma_source_fields_view(s: Seq<(String, FieldDefinitionSource)>)
    ensures
        source_fields_view(s).len() == s.len(),
        forall|i: int|
            0 <= i < s.len() ==> #[trigger] source_fields_view(s)[i] == (
                s[i].0@,
                field_source_view(s[i].1),
            ),
    decreases s.len(),
{
    if s.len() > 0 {
        lemma_source_fields_view(s.drop_first());
        assert forall|i: int| 0 <= i < s.len() implies #[trigger] source_fields_view(s)[i] == (
            s[i].0@,
            field_source_view(s[i].1),
        ) by {
            if i > 0 {
                assert(s.drop_first()[i - 1] == s[i]);
            }
        }
    }
}

pub proof fn lemma_elements_view(s: Seq<ArrayElementSource>)
    ensures
        elements_view(s).len() == s.len(),
        forall|i: int|
            0 <= i < s.len() ==> #[trigger] elements_view(s)[i] == source_fields_view(s[i].fields@),
    decreases s.len(),
{
    if s.len() > 0 {
        lemma_elements_view(s.drop_first());
        assert forall|i: int| 0 <= i < s.len() implies #[trigger] elements_view(s)[i]
            == source_fields_view(s[i].fields@) by {
            if i > 0 {
                assert(s.drop_first()[i - 1] == s[i]);
            }
        }
    }
}

} // verus!

verus! {

impl ComputationSource {
    /// A copy of the computation.
    pub fn duplicate(&self) -> (r: ComputationSource)
        ensures
            r@ == self@,
        decreases self,
    {
        match self {
            ComputationSource::RawValue { value } => ComputationSource::RawValue {
                value: value.duplicate(),
            },
            ComputationSource::FieldValue { object, field_path } => ComputationSource::FieldValue {
                object: *object,
                field_path: field_path.clone(),
            },
            ComputationSource::Equals { lhs, rhs } => {
                let l = (**lhs).duplicate();
                let r = (**rhs).duplicate();
                ComputationSource::Equals { lhs: Box::new(l), rhs: Box::new(r) }
            },
        }
    }
}

impl FieldDefinitionSource {
    /// A copy of the field.
    pub fn duplicate(&self) -> (r: FieldDefinitionSource)
        ensures
            r@ == self@,
        decreases self, 2nat,
    {
        match self {
            FieldDefinitionSource::Simple { object, field_name, field_type } => {
                FieldDefinitionSource::Simple {
                    object: *object,
                    field_name: field_name.clone(),
                    field_type: *field_type,
                }
            },
            FieldDefinitionSource::Computed { computation, field_type } => {
                FieldDefinitionSource::Computed {
                    computation: computation.duplicate(),
                    field_type: *field_type,
                }
            },
            FieldDefinitionSource::Array { elements } => {
                let e = duplicate_elements(elements);
                FieldDefinitionSource::Array { elements: e }
            },
        }
    }
}

/// A copy of the elements of an array field.
pub fn duplicate_elements(elements: &Vec<ArrayElementSource>) -> (r: Vec<ArrayElementSource>)
    ensures
        elements_view(r@) == elements_view(elements@),
    decreases elements, 1nat,
{
    let mut out: Vec<ArrayElementSource> = Vec::new();
    let mut i: usize = 0;
    proof {
        lemma_elements_view(elements@);
    }
    while i < elements.len()
        invariant
            i <= elements.len(),
            out.len() == i,
            elements_view(elements@).len() == elements.len(),
            forall|j: int|
                0 <= j < elements.len() ==> #[trigger] elements_view(elements@)[j] == source_fields_view(
                    elements@[j].fields@,
                ),
            forall|j: int|
                0 <= j < i ==> source_fields_view((#[trigger] out@[j]).fields@) == source_fields_view(
                    elements@[j].fields@,
                ),
        decreases elements.len() - i,
    {
        proof {
            vstd::std_specs::vec::axiom_vec_index_decreases(*elements, i as int);
            assert(decreases_to!(elements@[i as int] => elements@[i as int].fields));
        }
        let f = duplicate_source_fields(&elements[i].fields);
        out.push(ArrayElementSource { fields: f });
        i = i + 1;
    }
    proof {
        lemma_elements_view(out@);
        assert(elements_view(out@) =~= elements_view(elements@));
    }
    out
}

/// A copy of a list of fields.
pub fn duplicate_source_fields(fields: &Vec<(String, FieldDefinitionSource)>) -> (r: Vec<
    (String, FieldDefinitionSource),
>)
    ensures
        source_fields_view(r@) == source_fields_view(fields@),
    decreases fields, 0nat,
{
    let mut out: Vec<(String, FieldDefinitionSource)> = Vec::new();
    let mut i: usize = 0;
    proof {
        lemma_source_fields_view(fields@);
    }
    while i < fields.len()
        invariant
            i <= fields.len(),
            out.len() == i,
            source_fields_view(fields@).len() == fields.len(),
            forall|j: int|
                0 <= j < fields.len() ==> #[trigger] source_fields_view(fields@)[j] == (
                    fields@[j].0@,
                    field_source_view(fields@[j].1),
                ),
            forall|j: int|
                0 <= j < i ==> (#[trigger] out@[j]).0@ == fields@[j].0@ && field_source_view(
                    out@[j].1,
                ) == field_source_view(fields@[j].1),
        decreases fields.len() - i,
    {
        proof {
            vstd::std_specs::vec::axiom_vec_index_decreases(*fields, i as int);
            assert(decreases_to!(fields@[i as int] => fields@[i as int].1));
        }
        let (k, v) = &fields[i];
        let c = v.duplicate();
        out.push((k.clone(), c));
        i = i + 1;
    }
    proof {
        lemma_source_fields_view(out@);
        assert(source_fields_view(out@) =~= source_fields_view(fields@));
    }
    out
}

} // verus!

verus! {

/// The objects gathered for a row, by object; a later entry for an object replaces an earlier one.
pub open spec fn objects_map(s: Seq<(ObjectIdPair, JsonValue)>) -> Map<ObjectIdPair, JsonView>
    decreases s.len(),
{
    if s.len() == 0 {
        Map::empty()
    } else {
        objects_map(s.drop_last()).insert(s.last().0, s.last().1@)
    }
}

/// No object occurs twice in the list.
pub open spec fn keys_unique(s: Seq<(ObjectIdPair, JsonValue)>) -> bool {
    forall|i: int, j: int| 0 <= i < j < s.len() ==> s[i].0 != s[j].0
}

/// What a row is built from: the objects of a join, or a single object of a view without relations.
pub enum RowSource {
    Join {
        objects: Vec<(ObjectIdPair, JsonValue)>,
        root_object: ObjectIdPair,
        fields: Vec<(String, FieldDefinitionSource)>,
    },
    Single {
        root_object: ObjectIdPair,
        value: JsonValue,
        fields: Vec<(String, FieldDefinitionSource)>,
    },
}

pub enum RowSourceView {
    Join(Map<ObjectIdPair, JsonView>, ObjectIdPair, Seq<(Seq<char>, FieldSourceView)>),
    Single(ObjectIdPair, JsonView, Seq<(Seq<char>, FieldSourceView)>),
}

impl View for RowSource {
    type V = RowSourceView;

    open spec fn view(&self) -> RowSourceView {
        match self {
            RowSource::Join { objects, root_object, fields } => RowSourceView::Join(
                objects_map(objects@),
                *root_object,
                source_fields_view(fields@),
            ),
            RowSource::Single { root_object, value, fields } => RowSourceView::Single(
                *root_object,
                value@,
                source_fields_view(fields@),
            ),
        }
    }
}

pub proof fn lemma_objects_map_update(s: Seq<(ObjectIdPair, JsonValue)>, i: int, v: JsonValue)
    requires
        0 <= i < s.len(),
        keys_unique(s),
    ensures
        objects_map(s.update(i, (s[i].0, v))) == objects_map(s).insert(s[i].0, v@),
        keys_unique(s.update(i, (s[i].0, v))),
    decreases s.len(),
{
    let t = s.update(i, (s[i].0, v));
    if i == s.len() - 1 {
        assert(t.drop_last() =~= s.drop_last());
        assert(objects_map(t) =~= objects_map(s).insert(s[i].0, v@));
    } else {
        assert(t.drop_last() =~= s.drop_last().update(i, (s[i].0, v)));
        lemma_objects_map_update(s.drop_last(), i, v);
        assert(s.last().0 != s[i].0);
        assert(objects_map(t) =~= objects_map(s).insert(s[i].0, v@));
    }
}

pub proof fn lemma_objects_map_dom(s: Seq<(ObjectIdPair, JsonValue)>, k: ObjectIdPair)
    ensures
        objects_map(s).contains_key(k) <==> exists|i: int| 0 <= i < s.len() && s[i].0 == k,
    decreases s.len(),
{
    if s.len() > 0 {
        lemma_objects_map_dom(s.drop_last(), k);
        if objects_map(s).contains_key(k) && k != s.last().0 {
            assert(objects_map(s.drop_last()).contains_key(k));
            let i = choose|i: int| 0 <= i < s.drop_last().len() && s.drop_last()[i].0 == k;
            assert(s[i].0 == k);
        }
        if exists|i: int| 0 <= i < s.len() && s[i].0 == k {
            let i = choose|i: int| 0 <= i < s.len() && s[i].0 == k;
            if i < s.len() - 1 {
                assert(s.drop_last()[i].0 == k);
            }
        }
    }
}

/// Puts an object into the objects of a row; an earlier entry for the object is replaced.
pub fn insert_object(objects: &mut Vec<(ObjectIdPair, JsonValue)>, pair: ObjectIdPair, value: JsonValue)
    requires
        keys_unique(old(objects)@),
    ensures
        keys_unique(final(objects)@),
        objects_map(final(objects)@) == objects_map(old(objects)@).insert(pair, value@),
{
    let mut i: usize = 0;
    while i < objects.len()
        invariant
            i <= objects.len(),
            objects@ == old(objects)@,
            keys_unique(old(objects)@),
            forall|j: int| 0 <= j < i ==> objects@[j].0 != pair,
        decreases objects.len() - i,
    {
        if objects[i].0 == pair {
            proof {
                lemma_objects_map_update(objects@, i as int, value);
            }
            objects.set(i, (pair, value));
            return ;
        }
        i = i + 1;
    }
    let ghost prev = objects@;
    let ghost vv = value@;
    objects.push((pair, value));
    assert(objects@.drop_last() =~= prev);
    assert(keys_unique(objects@));
}

} // verus!
