use vstd::prelude::*;

use crate::json::{json_entry_views, json_view, lemma_json_entry_views, JsonValue, JsonView};
use crate::versions::{SemVer, SemVerReq, VersionView};

verus! {

/// What kind of storage a schema's objects live in.
#[derive(Clone, Copy, PartialEq, Eq, Structural, Debug)]
pub enum SchemaType {
    DocumentStorage,
    Timeseries,
}

impl SchemaType {
    /// The type with this number on the wire (`0` documents, `1` timeseries).
    pub fn from_number(n: i32) -> (r: Option<SchemaType>)
        ensures
            r == (if n == 0 {
                Some(SchemaType::DocumentStorage)
            } else if n == 1 {
                Some(SchemaType::Timeseries)
            } else {
                None::<SchemaType>
            }),
    {
        if n == 0 {
            Some(SchemaType::DocumentStorage)
        } else if n == 1 {
            Some(SchemaType::Timeseries)
        } else {
            None
        }
    }

    /// The number of the type on the wire.
    pub fn number(&self) -> (r: i32)
        ensures
            r == (match *self {
                SchemaType::DocumentStorage => 0i32,
                SchemaType::Timeseries => 1i32,
            }),
    {
        match self {
            SchemaType::DocumentStorage => 0,
            SchemaType::Timeseries => 1,
        }
    }
}

/// The metadata of a schema.
#[derive(Debug)]
pub struct Schema {
    pub id: u128,
    pub name: String,
    pub insert_destination: String,
    pub query_address: String,
    pub schema_type: SchemaType,
}

pub struct SchemaModel {
    pub id: u128,
    pub name: Seq<char>,
    pub insert_destination: Seq<char>,
    pub query_address: Seq<char>,
    pub schema_type: SchemaType,
}

impl View for Schema {
    type V = SchemaModel;

    open spec fn view(&self) -> SchemaModel {
        SchemaModel {
            id: self.id,
            name: self.name@,
            insert_destination: self.insert_destination@,
            query_address: self.query_address@,
            schema_type: self.schema_type,
        }
    }
}

/// How a view field is filled: from the field of this name.
#[derive(Debug, PartialEq)]
pub enum FieldDefinition {
    FieldName(String),
}

/// The field name of a definition.
pub open spec fn field_definition_view(f: FieldDefinition) -> Seq<char> {
    match f {
        FieldDefinition::FieldName(n) => n@,
    }
}

/// The fields of a view, by name.
pub open spec fn fields_view(fields: Seq<(String, FieldDefinition)>) -> Seq<(Seq<char>, Seq<char>)> {
    fields.map_values(|p: (String, FieldDefinition)| (p.0@, field_definition_view(p.1)))
}

/// A view of a schema.
#[derive(Debug)]
pub struct RegistryView {
    pub id: u128,
    pub name: String,
    pub materializer_address: String,
    pub fields: Vec<(String, FieldDefinition)>,
}

pub struct RegistryViewModel {
    pub id: u128,
    pub name: Seq<char>,
    pub materializer_address: Seq<char>,
    pub fields: Seq<(Seq<char>, Seq<char>)>,
}

impl View for RegistryView {
    type V = RegistryViewModel;

    open spec fn view(&self) -> RegistryViewModel {
        RegistryViewModel {
            id: self.id,
            name: self.name@,
            materializer_address: self.materializer_address@,
            fields: fields_view(self.fields@),
        }
    }
}

/// A version of a schema's definition.
pub struct SchemaDefinition {
    pub version: SemVer,
    pub definition: JsonValue,
}

/// A schema with all its definitions and views.
pub struct FullSchema {
    pub id: u128,
    pub name: String,
    pub schema_type: SchemaType,
    pub insert_destination: String,
    pub query_address: String,
    pub definitions: Vec<SchemaDefinition>,
    pub views: Vec<RegistryView>,
}

pub struct FullSchemaModel {
    pub schema: SchemaModel,
    pub definitions: Seq<(VersionView, JsonView)>,
    pub views: Seq<RegistryViewModel>,
}

pub open spec fn definitions_view(d: Seq<SchemaDefinition>) -> Seq<(VersionView, JsonView)> {
    d.map_values(|x: SchemaDefinition| (x.version@, json_view(x.definition)))
}

pub open spec fn views_view(v: Seq<RegistryView>) -> Seq<RegistryViewModel> {
    v.map_values(|x: RegistryView| x@)
}

impl View for FullSchema {
    type V = FullSchemaModel;

    open spec fn view(&self) -> FullSchemaModel {
        FullSchemaModel {
            schema: SchemaModel {
                id: self.id,
                name: self.name@,
                insert_destination: self.insert_destination@,
                query_address: self.query_address@,
                schema_type: self.schema_type,
            },
            definitions: definitions_view(self.definitions@),
            views: views_view(self.views@),
        }
    }
}

/// Every schema of the registry, as an export writes them.
pub struct DbExport {
    pub schemas: Vec<FullSchema>,
}

/// A schema and a requirement on its version.
pub struct VersionedUuid {
    pub id: u128,
    pub version_req: SemVerReq,
}

/// A change of a schema's metadata: each field that is given replaces the old one.
pub struct SchemaUpdate {
    pub name: Option<String>,
    pub query_address: Option<String>,
    pub insert_destination: Option<String>,
    pub schema_type: Option<SchemaType>,
}

/// A change of a view: each field that is given replaces the old one.
pub struct ViewUpdate {
    pub name: Option<String>,
    pub materializer_address: Option<String>,
    pub fields: Option<Vec<(String, FieldDefinition)>>,
}

/// A new view of a schema.
pub struct NewView {
    pub schema_id: u128,
    pub name: String,
    pub materializer_address: String,
    pub fields: Vec<(String, FieldDefinition)>,
}

/// A stored definition: its version as text, the document, and its schema.
pub struct DefinitionRow {
    pub version: String,
    pub definition: JsonValue,
    pub schema: u128,
}

/// A stored view: its fields as a document, and its schema.
pub struct ViewRow {
    pub id: u128,
    pub name: String,
    pub materializer_address: String,
    pub fields: JsonValue,
    pub schema: u128,
}

/// The key under which a stored field definition holds its field name.
pub open spec fn field_name_key() -> Seq<char> {
    seq!['F', 'i', 'e', 'l', 'd', 'N', 'a', 'm', 'e']
}

/// The field name of a stored field definition: an object whose one entry is
/// `FieldName` with a string.
pub open spec fn stored_field(v: JsonView) -> Option<Seq<char>> {
    match v {
        JsonView::Object(es) => if es.len() == 1 && es[0].0 == field_name_key() {
            match es[0].1 {
                JsonView::Str(s) => Some(s),
                _ => None,
            }
        } else {
            None
        },
        _ => None,
    }
}

/// The fields of a view as stored: an object from field to stored field definition.
pub open spec fn stored_fields(v: JsonView) -> Option<Seq<(Seq<char>, Seq<char>)>> {
    match v {
        JsonView::Object(es) => if forall|i: int| 0 <= i < es.len() ==> #[trigger] stored_field(es[i].1) is Some {
            Some(Seq::new(es.len(), |i: int| (es[i].0, stored_field(es[i].1).unwrap())))
        } else {
            None
        },
        _ => None,
    }
}

/// The stored form of fields.
pub open spec fn fields_document(fields: Seq<(Seq<char>, Seq<char>)>) -> JsonView {
    JsonView::Object(
        Seq::new(
            fields.len(),
            |i: int| (fields[i].0, JsonView::Object(seq![(field_name_key(), JsonView::Str(fields[i].1))])),
        ),
    )
}

/// The key as a string.
fn field_name_key_text() -> (r: String)
    ensures
        r@ == field_name_key(),
{
    let r = "FieldName".to_string();
    proof {
        reveal_strlit("FieldName");
        assert(r@ =~= field_name_key());
    }
    r
}

/// Reads the stored fields of a view; `None` where they are not in the stored form.
pub fn decode_view_fields(v: &JsonValue) -> (r: Option<Vec<(String, FieldDefinition)>>)
    ensures
        match stored_fields(v@) {
            Some(fs) => r matches Some(f) && fields_view(f@) == fs,
            None => r is None,
        },
{
    let key = field_name_key_text();
    match v {
        JsonValue::Object(entries) => {
            proof {
                lemma_json_entry_views(entries@);
            }
            let ghost es = json_entry_views(entries@);
            assert(v@ == JsonView::Object(es));
            let mut out: Vec<(String, FieldDefinition)> = Vec::new();
            let mut i: usize = 0;
            while i < entries.len()
                invariant
                    i <= entries.len(),
                    key@ == field_name_key(),
                    es == json_entry_views(entries@),
                    es.len() == entries.len(),
                    forall|j: int| 0 <= j < entries.len() ==> #[trigger] es[j] == (entries@[j].0@, json_view(entries@[j].1)),
                    out@.len() == i,
                    v@ == JsonView::Object(es),
                    forall|j: int| 0 <= j < i ==> #[trigger] stored_field(es[j].1) is Some,
                    forall|j: int|
                        0 <= j < i ==> (#[trigger] fields_view(out@)[j]) == (
                            es[j].0,
                            stored_field(es[j].1).unwrap(),
                        ),
                decreases entries.len() - i,
            {
                let (name, value) = &entries[i];
                let field = match value {
                    JsonValue::Object(inner) => {
                        proof {
                            lemma_json_entry_views(inner@);
                        }
                        if inner.len() == 1 && inner[0].0 == key {
                            match &inner[0].1 {
                                JsonValue::Str(s) => Some(s.clone()),
                                _ => None,
                            }
                        } else {
                            None
                        }
                    },
                    _ => None,
                };
                match field {
                    Some(f) => {
                        assert(stored_field(es[i as int].1) == Some(f@));
                        let ghost before = out@;
                        let ghost fv = f@;
                        out.push((name.clone(), FieldDefinition::FieldName(f)));
                        assert(fields_view(out@) =~= fields_view(before).push((es[i as int].0, fv)));
                    },
                    None => {
                        assert(stored_field(es[i as int].1) is None);
                        return None;
                    },
                }
                i = i + 1;
            }
            assert(forall|j: int| 0 <= j < es.len() ==> #[trigger] stored_field(es[j].1) is Some);
            assert(fields_view(out@) =~= stored_fields(v@).unwrap());
            Some(out)
        },
        _ => None,
    }
}

/// The stored form of the fields of a view.
pub fn encode_view_fields(fields: &Vec<(String, FieldDefinition)>) -> (r: JsonValue)
    ensures
        r@ == fields_document(fields_view(fields@)),
{
    let mut out: Vec<(String, JsonValue)> = Vec::new();
    let mut i: usize = 0;
    while i < fields.len()
        invariant
            i <= fields.len(),
            out@.len() == i,
            forall|j: int|
                0 <= j < i ==> #[trigger] json_entry_views(out@)[j] == fields_document(
                    fields_view(fields@),
                )->Object_0[j],
        decreases fields.len() - i,
    {
        let (name, def) = &fields[i];
        let FieldDefinition::FieldName(f) = def;
        let mut inner: Vec<(String, JsonValue)> = Vec::new();
        inner.push((field_name_key_text(), JsonValue::Str(f.clone())));
        proof {
            lemma_json_entry_views(inner@);
            assert(json_entry_views(inner@) =~= seq![(field_name_key(), JsonView::Str(f@))]);
            lemma_json_entry_views(out@);
        }
        let ghost before = out@;
        out.push((name.clone(), JsonValue::Object(inner)));
        proof {
            lemma_json_entry_views(out@);
            lemma_json_entry_views(before);
            let ghost d = fields_document(fields_view(fields@))->Object_0;
            assert(fields_view(fields@)[i as int] == (name@, f@));
            assert(json_view(JsonValue::Object(inner)) == JsonView::Object(json_entry_views(inner@)));
            assert(json_entry_views(out@)[i as int] == (name@, JsonView::Object(
                seq![(field_name_key(), JsonView::Str(f@))],
            )));
            assert(d[i as int] == (name@, JsonView::Object(seq![(field_name_key(), JsonView::Str(f@))])));
            assert forall|j: int| 0 <= j < i + 1 implies #[trigger] json_entry_views(out@)[j]
                == d[j] by {
                if j < i {
                    assert(out@[j] == before[j]);
                    assert(json_entry_views(before)[j] == d[j]);
                }
            }
        }
        i = i + 1;
    }
    proof {
        lemma_json_entry_views(out@);
        assert(json_entry_views(out@) =~= fields_document(fields_view(fields@))->Object_0);
    }
    JsonValue::Object(out)
}

/// Reading the stored form of fields gives the fields back.
pub proof fn law_view_fields_round_trip(fields: Seq<(Seq<char>, Seq<char>)>)
    ensures
        stored_fields(fields_document(fields)) == Some(fields),
{
    let d = fields_document(fields);
    let es = d->Object_0;
    assert forall|i: int| 0 <= i < es.len() implies #[trigger] stored_field(es[i].1) is Some by {
        assert(es[i].1 == JsonView::Object(seq![(field_name_key(), JsonView::Str(fields[i].1))]));
    }
    assert(stored_fields(d).unwrap() =~= fields);
}

} // verus!
