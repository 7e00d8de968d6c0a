use vstd::prelude::*;

use crate::json::{json_view, JsonValue, JsonView};
use crate::keyed::{find_key, has_key, keys_distinct, lemma_first_key, lemma_push_new_key, lemma_update_value, value_at};
use crate::versions::version_text;
use crate::schema_registry::types::{
    decode_view_fields, definitions_view, encode_view_fields, fields_document, stored_fields,
    views_view, DbExport, SchemaType, DefinitionRow, FullSchema,
    FullSchemaModel, RegistryView, RegistryViewModel, Schema, SchemaDefinition, SchemaModel,
    SchemaUpdate, VersionedUuid, ViewRow, ViewUpdate,
};
use crate::versions::{
    greatest_version, is_greatest, is_version, less_than, parsed_version, requirement_matches, version_less,
    version_views, SemVer, VersionView,
};

verus! {

/// Why the schema registry refused a request or could not read what it stored.
#[derive(Debug)]
pub enum RegistryError {
    /// A stored version (this text) does not read as a version.
    InvalidVersion(String),
    /// The stored fields of the view with this id are not in their form.
    MalformedViewFields(u128),
    /// No version of the schema meets the requirement (given as text).
    NoVersionMatchesRequirement { schema_id: u128, version_req: String },
    /// A new version must come after every stored one; this is the greatest stored one.
    NewVersionMustBeGreatest { schema_id: u128, max_version: SemVer },
    /// The insert destination does not exist.
    NoTopic(String),
}

/// The versions read from texts, or the first text that does not read.
pub open spec fn parsed_versions(texts: Seq<Seq<char>>) -> Result<Seq<VersionView>, Seq<char>>
    decreases texts.len(),
{
    if texts.len() == 0 {
        Ok(Seq::empty())
    } else {
        match parsed_version(texts[0]) {
            None => Err(texts[0]),
            Some(v) => match parsed_versions(texts.drop_first()) {
                Ok(vs) => Ok(seq![v] + vs),
                Err(t) => Err(t),
            },
        }
    }
}

/// The result of reading the rest after the versions already read.
pub open spec fn after(read: Seq<VersionView>, rest: Result<Seq<VersionView>, Seq<char>>) -> Result<
    Seq<VersionView>,
    Seq<char>,
> {
    match rest {
        Ok(vs) => Ok(read + vs),
        Err(t) => Err(t),
    }
}

/// Reads the stored versions of a schema; the first that does not read is the error.
pub fn parse_versions(texts: &Vec<String>) -> (r: Result<Vec<SemVer>, RegistryError>)
    ensures
        match parsed_versions(texts@.map_values(|t: String| t@)) {
            Ok(vs) => r matches Ok(out) && version_views(out@) == vs,
            Err(t) => r matches Err(RegistryError::InvalidVersion(x)) && x@ == t,
        },
{
    let ghost all = texts@.map_values(|t: String| t@);
    let mut out: Vec<SemVer> = Vec::new();
    let mut i: usize = 0;
    assert(all.skip(0) =~= all);
    assert(version_views(out@) =~= Seq::<VersionView>::empty());
    while i < texts.len()
        invariant
            i <= texts.len(),
            all == texts@.map_values(|t: String| t@),
            parsed_versions(all) == after(version_views(out@), parsed_versions(all.skip(i as int))),
        decreases texts.len() - i,
    {
        let ghost rest = all.skip(i as int);
        assert(rest[0] == texts@[i as int]@);
        assert(rest.drop_first() =~= all.skip(i + 1));
        match SemVer::parse(texts[i].as_str()) {
            None => {
                return Err(RegistryError::InvalidVersion(texts[i].clone()));
            },
            Some(v) => {
                let ghost before = version_views(out@);
                let ghost vv = v@;
                out.push(v);
                proof {
                    assert(version_views(out@) =~= before.push(vv));
                    match parsed_versions(all.skip(i + 1)) {
                        Ok(vs) => {
                            assert(before + (seq![vv] + vs) =~= before.push(vv) + vs);
                        },
                        Err(_) => {},
                    }
                }
            },
        }
        i = i + 1;
    }
    assert(all.skip(i as int) =~= Seq::<Seq<char>>::empty());
    assert(version_views(out@) + Seq::<VersionView>::empty() =~= version_views(out@));
    Ok(out)
}

/// The latest version of a schema that meets the requirement: a version of the list that
/// meets it and after which no other that meets it comes. The error where none meets it.
pub fn latest_valid_version(versions: &Vec<SemVer>, id: &VersionedUuid) -> (r: Result<
    SemVer,
    RegistryError,
>)
    ensures
        match r {
            Ok(v) => {
                &&& exists|i: int|
                    0 <= i < versions@.len() && #[trigger] versions@[i]@ == v@
                        && requirement_matches(id.version_req@, v@)
                &&& forall|j: int|
                    0 <= j < versions@.len() && requirement_matches(
                        id.version_req@,
                        #[trigger] versions@[j]@,
                    ) ==> versions@[j]@ == v@ || version_less(versions@[j]@, v@)
            },
            Err(RegistryError::NoVersionMatchesRequirement { schema_id, version_req }) => {
                &&& schema_id == id.id
                &&& version_req@ == id.version_req@
                &&& forall|j: int|
                    0 <= j < versions@.len() ==> !requirement_matches(
                        id.version_req@,
                        #[trigger] versions@[j]@,
                    )
            },
            Err(_) => false,
        },
{
    let mut matching: Vec<SemVer> = Vec::new();
    let ghost mut from: Seq<int> = Seq::empty();
    let mut i: usize = 0;
    while i < versions.len()
        invariant
            i <= versions.len(),
            from.len() == matching@.len(),
            forall|k: int|
                0 <= k < from.len() ==> 0 <= #[trigger] from[k] < i && versions@[from[k]]@
                    == matching@[k]@,
            forall|k: int| 0 <= k < matching@.len() ==> requirement_matches(id.version_req@, #[trigger] matching@[k]@),
            forall|j: int|
                0 <= j < i && requirement_matches(id.version_req@, #[trigger] versions@[j]@) ==> exists|k: int|
                    0 <= k < matching@.len() && matching@[k]@ == versions@[j]@,
        decreases versions.len() - i,
    {
        if id.version_req.matches(&versions[i]) {
            let ghost before = matching@;
            let ghost old_from = from;
            matching.push(versions[i].duplicate());
            proof {
                from = from.push(i as int);
                assert forall|j: int|
                    0 <= j < i + 1 && requirement_matches(id.version_req@, #[trigger] versions@[j]@) implies exists|k: int|
                    0 <= k < matching@.len() && matching@[k]@ == versions@[j]@ by {
                    if j == i {
                        assert(matching@[matching@.len() - 1]@ == versions@[j]@);
                    } else {
                        let k = choose|k: int| 0 <= k < before.len() && before[k]@ == versions@[j]@;
                        assert(matching@[k] == before[k]);
                    }
                }
            }
        }
        i = i + 1;
    }
    match greatest_version(&matching) {
        None => {
            proof {
                assert forall|j: int| 0 <= j < versions@.len() implies !requirement_matches(
                    id.version_req@,
                    #[trigger] versions@[j]@,
                ) by {
                    if requirement_matches(id.version_req@, versions@[j]@) {
                        let k = choose|k: int| 0 <= k < matching@.len() && matching@[k]@ == versions@[j]@;
                    }
                }
            }
            Err(
                RegistryError::NoVersionMatchesRequirement {
                    schema_id: id.id,
                    version_req: id.version_req.text().to_string(),
                },
            )
        },
        Some(b) => {
            let v = matching[b].duplicate();
            proof {
                assert(is_greatest(version_views(matching@), b as int));
                let w = from[b as int];
                assert(versions@[w]@ == v@);
                assert(requirement_matches(id.version_req@, matching@[b as int]@));
                assert forall|j: int|
                    0 <= j < versions@.len() && requirement_matches(
                        id.version_req@,
                        #[trigger] versions@[j]@,
                    ) implies versions@[j]@ == v@ || version_less(versions@[j]@, v@) by {
                    let k = choose|k: int| 0 <= k < matching@.len() && matching@[k]@ == versions@[j]@;
                    assert(version_views(matching@)[k] == matching@[k]@);
                    assert(version_views(matching@)[b as int] == matching@[b as int]@);
                }
            }
            Ok(v)
        },
    }
}

/// Whether a new version may be added: it must come after every stored version; the error
/// names a greatest stored version.
pub fn check_new_version(schema_id: u128, versions: &Vec<SemVer>, new_version: &SemVer) -> (r:
    Result<(), RegistryError>)
    ensures
        r is Ok <==> forall|j: int| 0 <= j < versions@.len() ==> version_less(#[trigger] versions@[j]@, new_version@),
        match r {
            Ok(_) => true,
            Err(RegistryError::NewVersionMustBeGreatest { schema_id: s, max_version }) => {
                &&& s == schema_id
                &&& exists|i: int| 0 <= i < versions@.len() && is_greatest(version_views(versions@), i) && #[trigger] versions@[i]@ == max_version@
                &&& !version_less(max_version@, new_version@)
            },
            Err(_) => false,
        },
{
    match greatest_version(versions) {
        None => Ok(()),
        Some(b) => {
            let before = less_than(&versions[b], new_version);
            if before {
                proof {
                    // every stored version is the greatest or below it, so below the new one
                    let g = versions@[b as int]@;
                    assert forall|j: int| 0 <= j < versions@.len() implies version_less(
                        #[trigger] versions@[j]@,
                        new_version@,
                    ) by {
                        if versions@[j]@ != g {
                            assert(version_views(versions@)[j] == versions@[j]@);
                            assert(version_views(versions@)[b as int] == g);
                            assert(version_less(versions@[j]@, g));
                            assert(is_version(versions@[j]@));
                        }
                    }
                }
                Ok(())
            } else {
                proof {
                    assert(version_views(versions@)[b as int] == versions@[b as int]@);
                    assert(!version_less(versions@[b as int]@, new_version@));
                }
                Err(
                    RegistryError::NewVersionMustBeGreatest {
                        schema_id,
                        max_version: versions[b].duplicate(),
                    },
                )
            }
        },
    }
}


/// The stored definitions: version text and document.
pub open spec fn definition_rows(rows: Seq<DefinitionRow>) -> Seq<(Seq<char>, JsonView)> {
    rows.map_values(|r: DefinitionRow| (r.version@, json_view(r.definition)))
}

/// The definitions read from stored ones, or the first version text that does not read.
pub open spec fn parsed_definitions(rows: Seq<(Seq<char>, JsonView)>) -> Result<
    Seq<(VersionView, JsonView)>,
    Seq<char>,
>
    decreases rows.len(),
{
    if rows.len() == 0 {
        Ok(Seq::empty())
    } else {
        match parsed_version(rows[0].0) {
            None => Err(rows[0].0),
            Some(v) => match parsed_definitions(rows.drop_first()) {
                Ok(ds) => Ok(seq![(v, rows[0].1)] + ds),
                Err(t) => Err(t),
            },
        }
    }
}

/// Reads stored definitions: each version must read; the first that does not is the error.
pub fn read_definitions(rows: &Vec<DefinitionRow>) -> (r: Result<Vec<SchemaDefinition>, RegistryError>)
    ensures
        match parsed_definitions(definition_rows(rows@)) {
            Ok(ds) => r matches Ok(out) && definitions_view(out@) == ds,
            Err(t) => r matches Err(RegistryError::InvalidVersion(x)) && x@ == t,
        },
{
    let ghost all = definition_rows(rows@);
    let mut out: Vec<SchemaDefinition> = Vec::new();
    let mut i: usize = 0;
    assert(all.skip(0) =~= all);
    assert(definitions_view(out@) =~= Seq::<(VersionView, JsonView)>::empty());
    while i < rows.len()
        invariant
            i <= rows.len(),
            all == definition_rows(rows@),
            parsed_definitions(all) == match parsed_definitions(all.skip(i as int)) {
                Ok(ds) => Ok(definitions_view(out@) + ds),
                Err(t) => Err(t),
            },
        decreases rows.len() - i,
    {
        let ghost rest = all.skip(i as int);
        assert(rest[0] == (rows@[i as int].version@, json_view(rows@[i as int].definition)));
        assert(rest.drop_first() =~= all.skip(i + 1));
        match SemVer::parse(rows[i].version.as_str()) {
            None => {
                return Err(RegistryError::InvalidVersion(rows[i].version.clone()));
            },
            Some(v) => {
                let ghost before = definitions_view(out@);
                let ghost item = (v@, json_view(rows@[i as int].definition));
                let definition = rows[i].definition.duplicate();
                out.push(SchemaDefinition { version: v, definition });
                proof {
                    assert(definitions_view(out@) =~= before.push(item));
                    match parsed_definitions(all.skip(i + 1)) {
                        Ok(ds) => {
                            assert(before + (seq![item] + ds) =~= before.push(item) + ds);
                        },
                        Err(_) => {},
                    }
                }
            },
        }
        i = i + 1;
    }
    assert(all.skip(i as int) =~= Seq::<(Seq<char>, JsonView)>::empty());
    assert(definitions_view(out@) + Seq::<(VersionView, JsonView)>::empty() =~= definitions_view(out@));
    Ok(out)
}

/// The views read from stored ones, or the id of the first whose fields do not read.
pub open spec fn decoded_views(rows: Seq<ViewRow>) -> Result<Seq<RegistryViewModel>, u128>
    decreases rows.len(),
{
    if rows.len() == 0 {
        Ok(Seq::empty())
    } else {
        match stored_fields(json_view(rows[0].fields)) {
            None => Err(rows[0].id),
            Some(fields) => match decoded_views(rows.drop_first()) {
                Ok(vs) => Ok(
                    seq![
                        RegistryViewModel {
                            id: rows[0].id,
                            name: rows[0].name@,
                            materializer_address: rows[0].materializer_address@,
                            fields,
                        },
                    ] + vs,
                ),
                Err(id) => Err(id),
            },
        }
    }
}

/// A view read from its stored row.
pub fn view_from_row(row: &ViewRow) -> (r: Result<RegistryView, RegistryError>)
    ensures
        match stored_fields(json_view(row.fields)) {
            Some(fields) => r matches Ok(v) && v@ == (RegistryViewModel {
                id: row.id,
                name: row.name@,
                materializer_address: row.materializer_address@,
                fields,
            }),
            None => r matches Err(RegistryError::MalformedViewFields(id)) && id == row.id,
        },
{
    match decode_view_fields(&row.fields) {
        Some(fields) => Ok(
            RegistryView {
                id: row.id,
                name: row.name.clone(),
                materializer_address: row.materializer_address.clone(),
                fields,
            },
        ),
        None => Err(RegistryError::MalformedViewFields(row.id)),
    }
}

/// Reads stored views: the fields of each must read; the first that do not are the error.
pub fn read_views(rows: &Vec<ViewRow>) -> (r: Result<Vec<RegistryView>, RegistryError>)
    ensures
        match decoded_views(rows@) {
            Ok(vs) => r matches Ok(out) && views_view(out@) == vs,
            Err(id) => r matches Err(RegistryError::MalformedViewFields(x)) && x == id,
        },
{
    let mut out: Vec<RegistryView> = Vec::new();
    let mut i: usize = 0;
    assert(rows@.skip(0) =~= rows@);
    assert(views_view(out@) =~= Seq::<RegistryViewModel>::empty());
    while i < rows.len()
        invariant
            i <= rows.len(),
            decoded_views(rows@) == match decoded_views(rows@.skip(i as int)) {
                Ok(vs) => Ok(views_view(out@) + vs),
                Err(id) => Err(id),
            },
        decreases rows.len() - i,
    {
        let ghost rest = rows@.skip(i as int);
        assert(rest[0] == rows@[i as int]);
        assert(rest.drop_first() =~= rows@.skip(i + 1));
        let v = view_from_row(&rows[i]);
        match v {
            Err(e) => {
                return Err(e);
            },
            Ok(v) => {
                let ghost before = views_view(out@);
                let ghost item = v@;
                out.push(v);
                proof {
                    assert(views_view(out@) =~= before.push(item));
                    match decoded_views(rows@.skip(i + 1)) {
                        Ok(vs) => {
                            assert(before + (seq![item] + vs) =~= before.push(item) + vs);
                        },
                        Err(_) => {},
                    }
                }
            },
        }
        i = i + 1;
    }
    assert(rows@.skip(i as int) =~= Seq::<ViewRow>::empty());
    assert(views_view(out@) + Seq::<RegistryViewModel>::empty() =~= views_view(out@));
    Ok(out)
}

/// A schema with its definitions and views, read from what is stored of it.
pub fn full_schema(schema: &Schema, definitions: &Vec<DefinitionRow>, views: Vec<RegistryView>) -> (r:
    Result<FullSchema, RegistryError>)
    ensures
        match parsed_definitions(definition_rows(definitions@)) {
            Ok(ds) => r matches Ok(f) && f@ == (FullSchemaModel {
                schema: schema@,
                definitions: ds,
                views: views_view(views@),
            }),
            Err(t) => r matches Err(RegistryError::InvalidVersion(x)) && x@ == t,
        },
{
    let definitions = match read_definitions(definitions) {
        Ok(d) => d,
        Err(e) => {
            return Err(e);
        },
    };
    Ok(
        FullSchema {
            id: schema.id,
            name: schema.name.clone(),
            schema_type: schema.schema_type,
            insert_destination: schema.insert_destination.clone(),
            query_address: schema.query_address.clone(),
            definitions,
            views,
        },
    )
}

/// The definition rows of a schema.
pub open spec fn definition_of(id: u128) -> spec_fn(DefinitionRow) -> bool {
    |r: DefinitionRow| r.schema == id
}

/// The definition rows of other schemas.
pub open spec fn definition_not_of(id: u128) -> spec_fn(DefinitionRow) -> bool {
    |r: DefinitionRow| r.schema != id
}

/// The view rows of a schema.
pub open spec fn view_of(id: u128) -> spec_fn(ViewRow) -> bool {
    |r: ViewRow| r.schema == id
}

/// The view rows of other schemas.
pub open spec fn view_not_of(id: u128) -> spec_fn(ViewRow) -> bool {
    |r: ViewRow| r.schema != id
}

/// Why reading every schema failed.
pub enum FullSchemasFailure {
    /// A version text did not read.
    Version(Seq<char>),
    /// The fields of the view with this id did not read.
    Fields(u128),
}

/// Every schema with its definitions and views, in the order of the schemas: each takes the
/// stored definitions and views of its id out of what is left, reads the definitions, then
/// the views; the first failure ends it.
pub open spec fn full_schema_models(
    schemas: Seq<Schema>,
    definitions: Seq<DefinitionRow>,
    views: Seq<ViewRow>,
) -> Result<Seq<FullSchemaModel>, FullSchemasFailure>
    decreases schemas.len(),
{
    if schemas.len() == 0 {
        Ok(Seq::empty())
    } else {
        let s = schemas[0];
        match parsed_definitions(definition_rows(definitions.filter(definition_of(s.id)))) {
            Err(t) => Err(FullSchemasFailure::Version(t)),
            Ok(ds) => match decoded_views(views.filter(view_of(s.id))) {
                Err(id) => Err(FullSchemasFailure::Fields(id)),
                Ok(vs) => match full_schema_models(
                    schemas.drop_first(),
                    definitions.filter(definition_not_of(s.id)),
                    views.filter(view_not_of(s.id)),
                ) {
                    Err(e) => Err(e),
                    Ok(rest) => Ok(
                        seq![FullSchemaModel { schema: s@, definitions: ds, views: vs }] + rest,
                    ),
                },
            },
        }
    }
}

/// Splits definition rows into those of a schema and the others, keeping their order.
fn split_definitions(rows: Vec<DefinitionRow>, id: u128) -> (r: (Vec<DefinitionRow>, Vec<DefinitionRow>))
    ensures
        r.0@ == rows@.filter(definition_of(id)),
        r.1@ == rows@.filter(definition_not_of(id)),
{
    let ghost all = rows@;
    let total = rows.len();
    let mut rows = rows;
    let mut mine: Vec<DefinitionRow> = Vec::new();
    let mut others: Vec<DefinitionRow> = Vec::new();
    let mut n: usize = 0;
    assert(all.skip(0) =~= all);
    assert(all.take(0) =~= Seq::<DefinitionRow>::empty());
    proof {
        reveal(Seq::filter);
    }
    while rows.len() > 0
        invariant
            n + rows@.len() == all.len(),
            all.len() == total,
            rows@ == all.skip(n as int),
            mine@ == all.take(n as int).filter(definition_of(id)),
            others@ == all.take(n as int).filter(definition_not_of(id)),
        decreases rows.len(),
    {
        assert(all.skip(n as int).remove(0) =~= all.skip(n + 1));
        assert(all.skip(n as int)[0] == all[n as int]);
        assert(all.take(n + 1) =~= all.take(n as int).push(all[n as int]));
        let row = rows.remove(0);
        proof {
            all.take(n as int).lemma_filter_push(row, definition_of(id));
            all.take(n as int).lemma_filter_push(row, definition_not_of(id));
        }
        if row.schema == id {
            mine.push(row);
        } else {
            others.push(row);
        }
        n = n + 1;
    }
    assert(all.take(n as int) =~= all);
    (mine, others)
}

/// Splits view rows into those of a schema and the others, keeping their order.
fn split_views(rows: Vec<ViewRow>, id: u128) -> (r: (Vec<ViewRow>, Vec<ViewRow>))
    ensures
        r.0@ == rows@.filter(view_of(id)),
        r.1@ == rows@.filter(view_not_of(id)),
{
    let ghost all = rows@;
    let total = rows.len();
    let mut rows = rows;
    let mut mine: Vec<ViewRow> = Vec::new();
    let mut others: Vec<ViewRow> = Vec::new();
    let mut n: usize = 0;
    assert(all.skip(0) =~= all);
    assert(all.take(0) =~= Seq::<ViewRow>::empty());
    proof {
        reveal(Seq::filter);
    }
    while rows.len() > 0
        invariant
            n + rows@.len() == all.len(),
            all.len() == total,
            rows@ == all.skip(n as int),
            mine@ == all.take(n as int).filter(view_of(id)),
            others@ == all.take(n as int).filter(view_not_of(id)),
        decreases rows.len(),
    {
        assert(all.skip(n as int).remove(0) =~= all.skip(n + 1));
        assert(all.skip(n as int)[0] == all[n as int]);
        assert(all.take(n + 1) =~= all.take(n as int).push(all[n as int]));
        let row = rows.remove(0);
        proof {
            all.take(n as int).lemma_filter_push(row, view_of(id));
            all.take(n as int).lemma_filter_push(row, view_not_of(id));
        }
        if row.schema == id {
            mine.push(row);
        } else {
            others.push(row);
        }
        n = n + 1;
    }
    assert(all.take(n as int) =~= all);
    (mine, others)
}

/// Every schema with its definitions and views (see `full_schema_models`).
pub fn full_schemas(schemas: &Vec<Schema>, definitions: Vec<DefinitionRow>, views: Vec<ViewRow>) -> (r:
    Result<Vec<FullSchema>, RegistryError>)
    ensures
        match full_schema_models(schemas@, definitions@, views@) {
            Ok(fs) => r matches Ok(out) && out@.map_values(|f: FullSchema| f@) == fs,
            Err(FullSchemasFailure::Version(t)) => r matches Err(RegistryError::InvalidVersion(x))
                && x@ == t,
            Err(FullSchemasFailure::Fields(id)) => r matches Err(
                RegistryError::MalformedViewFields(x),
            ) && x == id,
        },
{
    let ghost whole = full_schema_models(schemas@, definitions@, views@);
    let mut out: Vec<FullSchema> = Vec::new();
    let mut remaining_definitions = definitions;
    let mut remaining_views = views;
    let mut i: usize = 0;
    assert(schemas@.skip(0) =~= schemas@);
    assert(out@.map_values(|f: FullSchema| f@) =~= Seq::<FullSchemaModel>::empty());
    while i < schemas.len()
        invariant
            i <= schemas.len(),
            whole == full_schema_models(schemas@, definitions@, views@),
            whole == match full_schema_models(schemas@.skip(i as int), remaining_definitions@, remaining_views@) {
                Ok(rest) => Ok(out@.map_values(|f: FullSchema| f@) + rest),
                Err(e) => Err(e),
            },
        decreases schemas.len() - i,
    {
        let ghost rest = schemas@.skip(i as int);
        assert(rest[0] == schemas@[i as int]);
        assert(rest.drop_first() =~= schemas@.skip(i + 1));
        let id = schemas[i].id;
        let ghost defs_now = remaining_definitions@;
        let ghost views_now = remaining_views@;
        let (mine, other_definitions) = split_definitions(remaining_definitions, id);
        let (my_views, other_views) = split_views(remaining_views, id);
        proof {
            assert(mine@ == defs_now.filter(definition_of(rest[0].id)));
            assert(my_views@ == views_now.filter(view_of(rest[0].id)));
            assert(other_definitions@ == defs_now.filter(definition_not_of(rest[0].id)));
            assert(other_views@ == views_now.filter(view_not_of(rest[0].id)));
        }
        let read = match read_views(&my_views) {
            Ok(vs) => vs,
            Err(e) => {
                // the definitions are read first
                match read_definitions(&mine) {
                    Err(e2) => {
                        proof {
                            let t = parsed_definitions(definition_rows(mine@))->Err_0;
                            assert(full_schema_models(rest, defs_now, views_now)
                                == Err::<Seq<FullSchemaModel>, FullSchemasFailure>(FullSchemasFailure::Version(t)));
                        }
                        return Err(e2);
                    },
                    Ok(_) => {
                        proof {
                            let id2 = decoded_views(my_views@)->Err_0;
                            assert(parsed_definitions(definition_rows(mine@)) is Ok);
                            assert(full_schema_models(rest, defs_now, views_now)
                                == Err::<Seq<FullSchemaModel>, FullSchemasFailure>(FullSchemasFailure::Fields(id2)));
                        }
                        return Err(e);
                    },
                }
            },
        };
        let f = match full_schema(&schemas[i], &mine, read) {
            Ok(f) => f,
            Err(e) => {
                return Err(e);
            },
        };
        let ghost before = out@.map_values(|x: FullSchema| x@);
        let ghost item = f@;
        out.push(f);
        proof {
            assert(out@.map_values(|x: FullSchema| x@) =~= before.push(item));
            match full_schema_models(schemas@.skip(i + 1), other_definitions@, other_views@) {
                Ok(more) => {
                    assert(before + (seq![item] + more) =~= before.push(item) + more);
                },
                Err(_) => {},
            }
        }
        remaining_definitions = other_definitions;
        remaining_views = other_views;
        i = i + 1;
    }
    assert(schemas@.skip(i as int) =~= Seq::<Schema>::empty());
    assert(out@.map_values(|f: FullSchema| f@) + Seq::<FullSchemaModel>::empty() =~= out@.map_values(
        |f: FullSchema| f@,
    ));
    Ok(out)
}

impl SchemaUpdate {
    /// The metadata after the update: each given field replaces the old one.
    pub fn apply(self, old: Schema) -> (r: Schema)
        ensures
            r@ == (SchemaModel {
                id: old.id,
                name: match self.name {
                    Some(n) => n@,
                    None => old.name@,
                },
                insert_destination: match self.insert_destination {
                    Some(d) => d@,
                    None => old.insert_destination@,
                },
                query_address: match self.query_address {
                    Some(q) => q@,
                    None => old.query_address@,
                },
                schema_type: match self.schema_type {
                    Some(t) => t,
                    None => old.schema_type,
                },
            }),
    {
        Schema {
            id: old.id,
            name: match self.name {
                Some(n) => n,
                None => old.name,
            },
            insert_destination: match self.insert_destination {
                Some(d) => d,
                None => old.insert_destination,
            },
            query_address: match self.query_address {
                Some(q) => q,
                None => old.query_address,
            },
            schema_type: match self.schema_type {
                Some(t) => t,
                None => old.schema_type,
            },
        }
    }
}

impl ViewUpdate {
    /// The view after the update: each given field replaces the old one.
    pub fn apply(self, old: RegistryView) -> (r: RegistryView)
        ensures
            r@ == (RegistryViewModel {
                id: old.id,
                name: match self.name {
                    Some(n) => n@,
                    None => old.name@,
                },
                materializer_address: match self.materializer_address {
                    Some(m) => m@,
                    None => old.materializer_address@,
                },
                fields: match self.fields {
                    Some(f) => crate::schema_registry::types::fields_view(f@),
                    None => crate::schema_registry::types::fields_view(old.fields@),
                },
            }),
    {
        RegistryView {
            id: old.id,
            name: match self.name {
                Some(n) => n,
                None => old.name,
            },
            materializer_address: match self.materializer_address {
                Some(m) => m,
                None => old.materializer_address,
            },
            fields: match self.fields {
                Some(f) => f,
                None => old.fields,
            },
        }
    }
}

/// The last view of the list with this id is at `j`.
pub open spec fn is_last_with_id(views: Seq<RegistryView>, id: u128, j: int) -> bool {
    0 <= j < views.len() && views[j].id == id && forall|k: int| j < k < views.len() ==> views[k].id != id
}

/// The views of a schema by id; of views sharing an id, the last stays.
pub fn views_by_id(views: Vec<RegistryView>) -> (r: Vec<(u128, RegistryView)>)
    ensures
        keys_distinct(r@),
        forall|id: u128| #[trigger] has_key(r@, id) <==> exists|j: int| 0 <= j < views@.len() && views@[j].id == id,
        forall|id: u128, j: int| #[trigger] is_last_with_id(views@, id, j) ==> value_at(r@, id)@ == views@[j]@,
{
    let ghost all = views@;
    let total = views.len();
    let mut views = views;
    let mut out: Vec<(u128, RegistryView)> = Vec::new();
    let mut n: usize = 0;
    assert(all.skip(0) =~= all);
    while views.len() > 0
        invariant
            n + views@.len() == all.len(),
            all.len() == total,
            views@ == all.skip(n as int),
            keys_distinct(out@),
            forall|id: u128| #[trigger] has_key(out@, id) <==> exists|j: int| 0 <= j < n && all[j].id == id,
            forall|id: u128, j: int|
                0 <= j < n && all[j].id == id && (forall|k: int| j < k < n ==> all[k].id != id)
                    ==> #[trigger] value_at(out@, id)@ == #[trigger] all[j]@,
        decreases views.len(),
    {
        assert(all.skip(n as int).remove(0) =~= all.skip(n + 1));
        assert(all.skip(n as int)[0] == all[n as int]);
        let view = views.remove(0);
        let id = view.id;
        let ghost before = out@;
        let ghost vv = view@;
        match find_key(&out, id) {
            Some(i) => {
                proof {
                    lemma_update_value(before, i as int, view);
                }
                out.set(i, (id, view));
                proof {
                    assert(out@ == before.update(i as int, (before[i as int].0, view)));
                }
            },
            None => {
                proof {
                    lemma_push_new_key(before, id, view);
                }
                out.push((id, view));
            },
        }
        proof {
            assert forall|x: u128| #[trigger] has_key(out@, x) <==> exists|j: int|
                0 <= j < n + 1 && all[j].id == x by {
                if x == id {
                    assert(all[n as int].id == x);
                } else {
                    if has_key(before, x) {
                        let j = choose|j: int| 0 <= j < n && all[j].id == x;
                    }
                    if exists|j: int| 0 <= j < n + 1 && all[j].id == x {
                        let j = choose|j: int| 0 <= j < n + 1 && all[j].id == x;
                        assert(j < n);
                    }
                }
            }
            assert forall|x: u128, j: int|
                0 <= j < n + 1 && all[j].id == x && (forall|k: int| j < k < n + 1 ==> all[k].id != x)
                    implies #[trigger] value_at(out@, x)@ == #[trigger] all[j]@ by {
                if x == id {
                    if j < n {
                        assert(all[n as int].id == x);
                    }
                } else {
                    assert(j < n);
                    assert(has_key(before, x));
                    assert(value_at(before, x)@ == all[j]@);
                }
            }
        }
        n = n + 1;
    }
    proof {
        assert(all.skip(n as int).len() == 0);
        assert forall|x: u128, j: int| #[trigger] is_last_with_id(all, x, j) implies value_at(out@, x)@ == all[j]@ by {
            assert(all[j] == all[j]);
        }
    }
    out
}

/// A step of importing an export into an empty registry.
#[derive(Debug)]
pub enum ImportStep {
    Schema {
        id: u128,
        name: String,
        schema_type: SchemaType,
        insert_destination: String,
        query_address: String,
    },
    Definition { version: String, definition: JsonValue, schema: u128 },
    View {
        id: u128,
        schema: u128,
        name: String,
        materializer_address: String,
        fields: JsonValue,
    },
}

/// The model of an import step.
pub enum ImportStepModel {
    Schema(SchemaModel),
    Definition(Seq<char>, JsonView, u128),
    View(u128, u128, Seq<char>, Seq<char>, JsonView),
}

pub open spec fn import_step_model(s: ImportStep) -> ImportStepModel {
    match s {
        ImportStep::Schema { id, name, schema_type, insert_destination, query_address } =>
            ImportStepModel::Schema(
            SchemaModel {
                id,
                name: name@,
                insert_destination: insert_destination@,
                query_address: query_address@,
                schema_type,
            },
        ),
        ImportStep::Definition { version, definition, schema } => ImportStepModel::Definition(
            version@,
            json_view(definition),
            schema,
        ),
        ImportStep::View { id, schema, name, materializer_address, fields } => ImportStepModel::View(
            id,
            schema,
            name@,
            materializer_address@,
            json_view(fields),
        ),
    }
}

/// The steps of importing one schema: the schema, then its definitions with their version
/// text, then its views with their stored fields.
pub open spec fn schema_import_steps(f: FullSchemaModel) -> Seq<ImportStepModel> {
    seq![ImportStepModel::Schema(f.schema)] + Seq::new(
        f.definitions.len(),
        |i: int|
            ImportStepModel::Definition(
                version_text(f.definitions[i].0),
                f.definitions[i].1,
                f.schema.id,
            ),
    ) + Seq::new(
        f.views.len(),
        |i: int|
            ImportStepModel::View(
                f.views[i].id,
                f.schema.id,
                f.views[i].name,
                f.views[i].materializer_address,
                fields_document(f.views[i].fields),
            ),
    )
}

/// The steps of importing schemas, one after the other.
pub open spec fn import_models(fs: Seq<FullSchemaModel>) -> Seq<ImportStepModel>
    decreases fs.len(),
{
    if fs.len() == 0 {
        Seq::empty()
    } else {
        import_models(fs.drop_last()) + schema_import_steps(fs.last())
    }
}

/// What importing an export does: nothing where the registry already holds schemas;
/// otherwise every schema, definition and view of the export, schema by schema.
pub fn import_steps(registry_empty: bool, imported: &DbExport) -> (r: Vec<ImportStep>)
    ensures
        r@.map_values(|s: ImportStep| import_step_model(s)) == if registry_empty {
            import_models(imported.schemas@.map_values(|f: FullSchema| f@))
        } else {
            Seq::empty()
        },
        registry_empty ==> step_schemas(r@.map_values(|s: ImportStep| import_step_model(s)))
            == imported.schemas@.map_values(|f: FullSchema| f@.schema),
        registry_empty ==> step_definitions(r@.map_values(|s: ImportStep| import_step_model(s)))
            == export_definitions(imported.schemas@.map_values(|f: FullSchema| f@)),
        registry_empty ==> step_views(r@.map_values(|s: ImportStep| import_step_model(s)))
            == export_views(imported.schemas@.map_values(|f: FullSchema| f@)),
{
    proof {
        let fs = imported.schemas@.map_values(|f: FullSchema| f@);
        law_import_stores_the_whole_export(fs);
        assert(fs.map_values(|g: FullSchemaModel| g.schema) =~= imported.schemas@.map_values(
            |f: FullSchema| f@.schema,
        ));
    }
    let mut out: Vec<ImportStep> = Vec::new();
    if !registry_empty {
        assert(out@.map_values(|s: ImportStep| import_step_model(s)) =~= Seq::<ImportStepModel>::empty());
        return out;
    }
    let ghost fs = imported.schemas@.map_values(|f: FullSchema| f@);
    let mut i: usize = 0;
    assert(fs.take(0) =~= Seq::<FullSchemaModel>::empty());
    assert(out@.map_values(|s: ImportStep| import_step_model(s)) =~= Seq::<ImportStepModel>::empty());
    while i < imported.schemas.len()
        invariant
            i <= imported.schemas.len(),
            fs == imported.schemas@.map_values(|f: FullSchema| f@),
            out@.map_values(|s: ImportStep| import_step_model(s)) == import_models(fs.take(i as int)),
        decreases imported.schemas.len() - i,
    {
        let f = &imported.schemas[i];
        let ghost start = out@.map_values(|s: ImportStep| import_step_model(s));
        out.push(
            ImportStep::Schema {
                id: f.id,
                name: f.name.clone(),
                schema_type: f.schema_type,
                insert_destination: f.insert_destination.clone(),
                query_address: f.query_address.clone(),
            },
        );
        let ghost fv = f@;
        let ghost head = start.push(ImportStepModel::Schema(fv.schema));
        assert(out@.map_values(|s: ImportStep| import_step_model(s)) =~= head);
        let mut k: usize = 0;
        while k < f.definitions.len()
            invariant
                k <= f.definitions.len(),
                fv == f@,
                out@.map_values(|s: ImportStep| import_step_model(s)) == head + Seq::new(
                    k as nat,
                    |j: int|
                        ImportStepModel::Definition(
                            version_text(fv.definitions[j].0),
                            fv.definitions[j].1,
                            fv.schema.id,
                        ),
                ),
            decreases f.definitions.len() - k,
        {
            let d = &f.definitions[k];
            let ghost prev = out@.map_values(|s: ImportStep| import_step_model(s));
            out.push(
                ImportStep::Definition {
                    version: d.version.to_text(),
                    definition: d.definition.duplicate(),
                    schema: f.id,
                },
            );
            proof {
                assert(fv.definitions[k as int] == (d.version@, json_view(d.definition)));
                assert(out@.map_values(|s: ImportStep| import_step_model(s)) =~= prev.push(
                    ImportStepModel::Definition(version_text(d.version@), json_view(d.definition), f.id),
                ));
                assert(head + Seq::new(
                    (k + 1) as nat,
                    |j: int|
                        ImportStepModel::Definition(
                            version_text(fv.definitions[j].0),
                            fv.definitions[j].1,
                            fv.schema.id,
                        ),
                ) =~= prev.push(
                    ImportStepModel::Definition(version_text(d.version@), json_view(d.definition), f.id),
                ));
            }
            k = k + 1;
        }
        let ghost middle = head + Seq::new(
            fv.definitions.len(),
            |j: int|
                ImportStepModel::Definition(
                    version_text(fv.definitions[j].0),
                    fv.definitions[j].1,
                    fv.schema.id,
                ),
        );
        assert(out@.map_values(|s: ImportStep| import_step_model(s)) =~= middle);
        let mut k: usize = 0;
        while k < f.views.len()
            invariant
                k <= f.views.len(),
                fv == f@,
                out@.map_values(|s: ImportStep| import_step_model(s)) == middle + Seq::new(
                    k as nat,
                    |j: int|
                        ImportStepModel::View(
                            fv.views[j].id,
                            fv.schema.id,
                            fv.views[j].name,
                            fv.views[j].materializer_address,
                            fields_document(fv.views[j].fields),
                        ),
                ),
            decreases f.views.len() - k,
        {
            let v = &f.views[k];
            let ghost prev = out@.map_values(|s: ImportStep| import_step_model(s));
            let fields = encode_view_fields(&v.fields);
            out.push(
                ImportStep::View {
                    id: v.id,
                    schema: f.id,
                    name: v.name.clone(),
                    materializer_address: v.materializer_address.clone(),
                    fields,
                },
            );
            proof {
                assert(fv.views[k as int] == v@);
                let item = ImportStepModel::View(
                    v.id,
                    f.id,
                    v.name@,
                    v.materializer_address@,
                    fields_document(v@.fields),
                );
                assert(out@.map_values(|s: ImportStep| import_step_model(s)) =~= prev.push(item));
                assert(middle + Seq::new(
                    (k + 1) as nat,
                    |j: int|
                        ImportStepModel::View(
                            fv.views[j].id,
                            fv.schema.id,
                            fv.views[j].name,
                            fv.views[j].materializer_address,
                            fields_document(fv.views[j].fields),
                        ),
                ) =~= prev.push(item));
            }
            k = k + 1;
        }
        proof {
            assert(fs.take(i + 1).drop_last() =~= fs.take(i as int));
            assert(fs.take(i + 1).last() == fv);
            assert(out@.map_values(|s: ImportStep| import_step_model(s)) =~= start + schema_import_steps(
                fv,
            ));
        }
        i = i + 1;
    }
    assert(fs.take(i as int) =~= fs);
    out
}
/// A new schema: its metadata and first definition.
#[derive(Debug)]
pub struct NewSchema {
    pub name: String,
    pub definition: JsonValue,
    pub query_address: String,
    pub insert_destination: String,
    pub schema_type: SchemaType,
}

/// The version of a new schema's first definition.
pub open spec fn first_version_text() -> Seq<char> {
    seq!['1', '.', '0', '.', '0']
}

/// What adding a schema under a new id stores: the schema, then its definition as version
/// `1.0.0`.
pub fn add_schema_steps(new_id: u128, schema: &NewSchema) -> (r: Vec<ImportStep>)
    ensures
        r@.map_values(|s: ImportStep| import_step_model(s)) == seq![
            ImportStepModel::Schema(
                SchemaModel {
                    id: new_id,
                    name: schema.name@,
                    insert_destination: schema.insert_destination@,
                    query_address: schema.query_address@,
                    schema_type: schema.schema_type,
                },
            ),
            ImportStepModel::Definition(first_version_text(), json_view(schema.definition), new_id),
        ],
{
    let mut out: Vec<ImportStep> = Vec::new();
    out.push(
        ImportStep::Schema {
            id: new_id,
            name: schema.name.clone(),
            schema_type: schema.schema_type,
            insert_destination: schema.insert_destination.clone(),
            query_address: schema.query_address.clone(),
        },
    );
    let version = "1.0.0".to_string();
    proof {
        reveal_strlit("1.0.0");
        assert(version@ =~= first_version_text());
    }
    out.push(
        ImportStep::Definition { version, definition: schema.definition.duplicate(), schema: new_id },
    );
    assert(out@.map_values(|s: ImportStep| import_step_model(s)) =~= seq![
        ImportStepModel::Schema(
            SchemaModel {
                id: new_id,
                name: schema.name@,
                insert_destination: schema.insert_destination@,
                query_address: schema.query_address@,
                schema_type: schema.schema_type,
            },
        ),
        ImportStepModel::Definition(first_version_text(), json_view(schema.definition), new_id),
    ]);
    out
}

/// What adding a view under a new id stores: the view with its fields in their stored form.
pub fn add_view_step(new_id: u128, view: &crate::schema_registry::types::NewView) -> (r: ImportStep)
    ensures
        import_step_model(r) == ImportStepModel::View(
            new_id,
            view.schema_id,
            view.name@,
            view.materializer_address@,
            fields_document(crate::schema_registry::types::fields_view(view.fields@)),
        ),
{
    ImportStep::View {
        id: new_id,
        schema: view.schema_id,
        name: view.name.clone(),
        materializer_address: view.materializer_address.clone(),
        fields: encode_view_fields(&view.fields),
    }
}

/// The schemas that a sequence of steps stores, in order.
pub open spec fn step_schemas(steps: Seq<ImportStepModel>) -> Seq<SchemaModel>
    decreases steps.len(),
{
    if steps.len() == 0 {
        Seq::empty()
    } else {
        let p = step_schemas(steps.drop_last());
        match steps.last() {
            ImportStepModel::Schema(s) => p.push(s),
            _ => p,
        }
    }
}

/// The definitions that a sequence of steps stores (version text, document, schema), in order.
pub open spec fn step_definitions(steps: Seq<ImportStepModel>) -> Seq<(Seq<char>, JsonView, u128)>
    decreases steps.len(),
{
    if steps.len() == 0 {
        Seq::empty()
    } else {
        let p = step_definitions(steps.drop_last());
        match steps.last() {
            ImportStepModel::Definition(v, d, s) => p.push((v, d, s)),
            _ => p,
        }
    }
}

/// The views that a sequence of steps stores (id, schema, name, address, stored fields), in
/// order.
pub open spec fn step_views(steps: Seq<ImportStepModel>) -> Seq<(u128, u128, Seq<char>, Seq<char>, JsonView)>
    decreases steps.len(),
{
    if steps.len() == 0 {
        Seq::empty()
    } else {
        let p = step_views(steps.drop_last());
        match steps.last() {
            ImportStepModel::View(id, s, n, a, fs) => p.push((id, s, n, a, fs)),
            _ => p,
        }
    }
}

/// Every definition of an export, schema after schema, each with its version's text and its
/// schema's id.
pub open spec fn export_definitions(fs: Seq<FullSchemaModel>) -> Seq<(Seq<char>, JsonView, u128)>
    decreases fs.len(),
{
    if fs.len() == 0 {
        Seq::empty()
    } else {
        let f = fs.last();
        export_definitions(fs.drop_last()) + f.definitions.map_values(
            |d: (VersionView, JsonView)| (version_text(d.0), d.1, f.schema.id),
        )
    }
}

/// Every view of an export, schema after schema, each with its schema's id and its fields in
/// their stored form.
pub open spec fn export_views(fs: Seq<FullSchemaModel>) -> Seq<(u128, u128, Seq<char>, Seq<char>, JsonView)>
    decreases fs.len(),
{
    if fs.len() == 0 {
        Seq::empty()
    } else {
        let f = fs.last();
        export_views(fs.drop_last()) + f.views.map_values(
            |v: RegistryViewModel| (v.id, f.schema.id, v.name, v.materializer_address, fields_document(v.fields)),
        )
    }
}

proof fn lemma_steps_concat(a: Seq<ImportStepModel>, b: Seq<ImportStepModel>)
    ensures
        step_schemas(a + b) == step_schemas(a) + step_schemas(b),
        step_definitions(a + b) == step_definitions(a) + step_definitions(b),
        step_views(a + b) == step_views(a) + step_views(b),
    decreases b.len(),
{
    if b.len() == 0 {
        assert(a + b =~= a);
        assert(step_schemas(a) + step_schemas(b) =~= step_schemas(a));
        assert(step_definitions(a) + step_definitions(b) =~= step_definitions(a));
        assert(step_views(a) + step_views(b) =~= step_views(a));
    } else {
        lemma_steps_concat(a, b.drop_last());
        assert((a + b).drop_last() =~= a + b.drop_last());
        assert((a + b).last() == b.last());
        match b.last() {
            ImportStepModel::Schema(x) => {
                assert(step_schemas(a) + step_schemas(b) =~= (step_schemas(a) + step_schemas(b.drop_last())).push(x));
            },
            ImportStepModel::Definition(v, d, sid) => {
                assert(step_definitions(a) + step_definitions(b) =~= (step_definitions(a) + step_definitions(
                    b.drop_last(),
                )).push((v, d, sid)));
            },
            ImportStepModel::View(id, sid, n, ad, fs) => {
                assert(step_views(a) + step_views(b) =~= (step_views(a) + step_views(b.drop_last())).push(
                    (id, sid, n, ad, fs),
                ));
            },
        }
    }
}

proof fn lemma_definition_steps(f: FullSchemaModel, n: nat)
    requires
        n <= f.definitions.len(),
    ensures
        ({
            let d = Seq::new(
                n,
                |i: int|
                    ImportStepModel::Definition(
                        version_text(f.definitions[i].0),
                        f.definitions[i].1,
                        f.schema.id,
                    ),
            );
            &&& step_schemas(d) == Seq::<SchemaModel>::empty()
            &&& step_views(d) == Seq::<(u128, u128, Seq<char>, Seq<char>, JsonView)>::empty()
            &&& step_definitions(d) == f.definitions.take(n as int).map_values(
                |x: (VersionView, JsonView)| (version_text(x.0), x.1, f.schema.id),
            )
        }),
    decreases n,
{
    let d = Seq::new(
        n,
        |i: int| ImportStepModel::Definition(version_text(f.definitions[i].0), f.definitions[i].1, f.schema.id),
    );
    if n == 0 {
        assert(f.definitions.take(0).map_values(
            |x: (VersionView, JsonView)| (version_text(x.0), x.1, f.schema.id),
        ) =~= Seq::<(Seq<char>, JsonView, u128)>::empty());
    } else {
        lemma_definition_steps(f, (n - 1) as nat);
        assert(d.drop_last() =~= Seq::new(
            (n - 1) as nat,
            |i: int| ImportStepModel::Definition(version_text(f.definitions[i].0), f.definitions[i].1, f.schema.id),
        ));
        assert(f.definitions.take(n as int).map_values(
            |x: (VersionView, JsonView)| (version_text(x.0), x.1, f.schema.id),
        ) =~= f.definitions.take(n - 1).map_values(
            |x: (VersionView, JsonView)| (version_text(x.0), x.1, f.schema.id),
        ).push((version_text(f.definitions[n - 1].0), f.definitions[n - 1].1, f.schema.id)));
    }
}

proof fn lemma_view_steps(f: FullSchemaModel, n: nat)
    requires
        n <= f.views.len(),
    ensures
        ({
            let v = Seq::new(
                n,
                |i: int|
                    ImportStepModel::View(
                        f.views[i].id,
                        f.schema.id,
                        f.views[i].name,
                        f.views[i].materializer_address,
                        fields_document(f.views[i].fields),
                    ),
            );
            &&& step_schemas(v) == Seq::<SchemaModel>::empty()
            &&& step_definitions(v) == Seq::<(Seq<char>, JsonView, u128)>::empty()
            &&& step_views(v) == f.views.take(n as int).map_values(
                |x: RegistryViewModel| (x.id, f.schema.id, x.name, x.materializer_address, fields_document(x.fields)),
            )
        }),
    decreases n,
{
    let v = Seq::new(
        n,
        |i: int|
            ImportStepModel::View(
                f.views[i].id,
                f.schema.id,
                f.views[i].name,
                f.views[i].materializer_address,
                fields_document(f.views[i].fields),
            ),
    );
    if n == 0 {
        assert(f.views.take(0).map_values(
            |x: RegistryViewModel| (x.id, f.schema.id, x.name, x.materializer_address, fields_document(x.fields)),
        ) =~= Seq::<(u128, u128, Seq<char>, Seq<char>, JsonView)>::empty());
    } else {
        lemma_view_steps(f, (n - 1) as nat);
        assert(v.drop_last() =~= Seq::new(
            (n - 1) as nat,
            |i: int|
                ImportStepModel::View(
                    f.views[i].id,
                    f.schema.id,
                    f.views[i].name,
                    f.views[i].materializer_address,
                    fields_document(f.views[i].fields),
                ),
        ));
        assert(f.views.take(n as int).map_values(
            |x: RegistryViewModel| (x.id, f.schema.id, x.name, x.materializer_address, fields_document(x.fields)),
        ) =~= f.views.take(n - 1).map_values(
            |x: RegistryViewModel| (x.id, f.schema.id, x.name, x.materializer_address, fields_document(x.fields)),
        ).push(
            (
                f.views[n - 1].id,
                f.schema.id,
                f.views[n - 1].name,
                f.views[n - 1].materializer_address,
                fields_document(f.views[n - 1].fields),
            ),
        ));
    }
}

proof fn lemma_step_counts(steps: Seq<ImportStepModel>)
    ensures
        steps.len() == step_schemas(steps).len() + step_definitions(steps).len() + step_views(steps).len(),
    decreases steps.len(),
{
    if steps.len() > 0 {
        lemma_step_counts(steps.drop_last());
    }
}

/// Importing an export stores exactly the export: its schemas, in order, once each; every
/// definition of every schema, schema after schema, with its version's text and its schema's
/// id; every view likewise, with its fields in their stored form; and nothing else.
pub proof fn law_import_stores_the_whole_export(fs: Seq<FullSchemaModel>)
    ensures
        step_schemas(import_models(fs)) == fs.map_values(|f: FullSchemaModel| f.schema),
        step_definitions(import_models(fs)) == export_definitions(fs),
        step_views(import_models(fs)) == export_views(fs),
        import_models(fs).len() == fs.len() + export_definitions(fs).len() + export_views(fs).len(),
    decreases fs.len(),
{
    if fs.len() > 0 {
        let f = fs.last();
        law_import_stores_the_whole_export(fs.drop_last());
        let head = seq![ImportStepModel::Schema(f.schema)];
        let d = Seq::new(
            f.definitions.len(),
            |i: int| ImportStepModel::Definition(version_text(f.definitions[i].0), f.definitions[i].1, f.schema.id),
        );
        let v = Seq::new(
            f.views.len(),
            |i: int|
                ImportStepModel::View(
                    f.views[i].id,
                    f.schema.id,
                    f.views[i].name,
                    f.views[i].materializer_address,
                    fields_document(f.views[i].fields),
                ),
        );
        assert(schema_import_steps(f) == head + d + v);
        lemma_definition_steps(f, f.definitions.len());
        lemma_view_steps(f, f.views.len());
        assert(f.definitions.take(f.definitions.len() as int) =~= f.definitions);
        assert(f.views.take(f.views.len() as int) =~= f.views);
        assert(step_schemas(head) =~= seq![f.schema]) by {
            assert(head.drop_last() =~= Seq::<ImportStepModel>::empty());
            assert(head.last() == ImportStepModel::Schema(f.schema));
            assert(step_schemas(head.drop_last()) == Seq::<SchemaModel>::empty());
            assert(step_definitions(head.drop_last()) == Seq::<(Seq<char>, JsonView, u128)>::empty());
            assert(step_views(head.drop_last()) == Seq::<(u128, u128, Seq<char>, Seq<char>, JsonView)>::empty());
        }
        assert(step_definitions(head) =~= Seq::<(Seq<char>, JsonView, u128)>::empty()) by {
            assert(head.drop_last() =~= Seq::<ImportStepModel>::empty());
            assert(head.last() == ImportStepModel::Schema(f.schema));
            assert(step_schemas(head.drop_last()) == Seq::<SchemaModel>::empty());
            assert(step_definitions(head.drop_last()) == Seq::<(Seq<char>, JsonView, u128)>::empty());
            assert(step_views(head.drop_last()) == Seq::<(u128, u128, Seq<char>, Seq<char>, JsonView)>::empty());
        }
        assert(step_views(head) =~= Seq::<(u128, u128, Seq<char>, Seq<char>, JsonView)>::empty()) by {
            assert(head.drop_last() =~= Seq::<ImportStepModel>::empty());
            assert(head.last() == ImportStepModel::Schema(f.schema));
            assert(step_schemas(head.drop_last()) == Seq::<SchemaModel>::empty());
            assert(step_definitions(head.drop_last()) == Seq::<(Seq<char>, JsonView, u128)>::empty());
            assert(step_views(head.drop_last()) == Seq::<(u128, u128, Seq<char>, Seq<char>, JsonView)>::empty());
        }
        lemma_steps_concat(head, d);
        lemma_steps_concat(head + d, v);
        lemma_steps_concat(import_models(fs.drop_last()), schema_import_steps(f));
        assert(fs.map_values(|g: FullSchemaModel| g.schema) =~= fs.drop_last().map_values(
            |g: FullSchemaModel| g.schema,
        ).push(f.schema));
        lemma_step_counts(import_models(fs));
    }
}

} // verus!
