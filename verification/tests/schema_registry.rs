use cdl_core::json::JsonValue;
use cdl_core::schema_registry::cache::{CacheError, SchemaCache, SchemaMessage, SchemaMetadata, UpdateStep};
use cdl_core::schema_registry::config::{
    destination_to_check, destination_verdict, export_path, metadata_source, parse_optional_version_req,
    parse_uuid, parse_version, versioned_id, AmqpConfig, CommunicationMethodConfig, KafkaConfig, MetadataSource,
    RequestError,
};
use cdl_core::schema_registry::db::{
    add_schema_steps, add_view_step, check_new_version, full_schema, full_schemas, import_steps,
    latest_valid_version, parse_versions, read_definitions, read_views, view_from_row, views_by_id, ImportStep,
    NewSchema, RegistryError,
};
use cdl_core::schema_registry::types::{
    decode_view_fields, encode_view_fields, DbExport, DefinitionRow, FieldDefinition, FullSchema, NewView,
    RegistryView, Schema, SchemaDefinition, SchemaType, SchemaUpdate, VersionedUuid, ViewRow, ViewUpdate,
};
use cdl_core::versions::{greatest_version, SemVer, SemVerReq};

const ID_B: &str = "00000000-0000-0000-0000-00000000002a";

fn v(text: &str) -> SemVer {
    SemVer::parse(text).unwrap()
}

fn texts(vs: &[SemVer]) -> Vec<String> {
    vs.iter().map(|x| x.to_text()).collect()
}

#[test]
fn versions_read_and_print() {
    let x = v("1.2.3-alpha.1+build5");
    assert_eq!((x.major(), x.minor(), x.patch()), (1, 2, 3));
    assert_eq!(x.to_text(), "1.2.3-alpha.1+build5");
    assert_eq!(v("10.0.7").to_text(), "10.0.7");
    assert!(SemVer::parse("1.2").is_none());
    assert!(v("1.2.3").less(&v("1.10.0")));
    assert!(!v("1.10.0").less(&v("1.2.3")));
    assert!(v("1.0.0-alpha").less(&v("1.0.0")));
    assert!(!v("2.0.0").less(&v("2.0.0")));
    assert_eq!(v("3.1.4").duplicate().to_text(), "3.1.4");
}

#[test]
fn requirements_match_versions() {
    let req = SemVerReq::parse("^1.2").unwrap();
    assert!(req.matches(&v("1.3.0")));
    assert!(!req.matches(&v("2.0.0")));
    assert!(SemVerReq::any().matches(&v("0.0.1")));
    assert_eq!(SemVerReq::any().text(), "*");
    assert_eq!(req.duplicate().text(), "^1.2");
    assert!(SemVerReq::parse("not a req").is_none());
}

#[test]
fn greatest_version_is_the_last_of_equal_maxima() {
    assert_eq!(greatest_version(&vec![]), None);
    let vs = vec![v("1.0.0"), v("2.0.0"), v("1.5.0"), v("2.0.0")];
    assert_eq!(greatest_version(&vs), Some(3));
    assert_eq!(greatest_version(&vec![v("0.1.0")]), Some(0));
}

#[test]
fn stored_versions_are_read_or_refused() {
    let ok = parse_versions(&vec!["1.0.0".to_string(), "1.1.0".to_string()]).unwrap();
    assert_eq!(texts(&ok), vec!["1.0.0", "1.1.0"]);
    let err = parse_versions(&vec!["1.0.0".to_string(), "x".to_string(), "y".to_string()]);
    assert!(matches!(err, Err(RegistryError::InvalidVersion(ref t)) if t == "x"));
}

#[test]
fn latest_valid_version_picks_the_greatest_match() {
    let vs = vec![v("1.0.0"), v("1.4.0"), v("2.0.0"), v("1.2.0")];
    let id = VersionedUuid { id: 7, version_req: SemVerReq::parse("^1").unwrap() };
    assert_eq!(latest_valid_version(&vs, &id).unwrap().to_text(), "1.4.0");
    let any = VersionedUuid { id: 7, version_req: SemVerReq::any() };
    assert_eq!(latest_valid_version(&vs, &any).unwrap().to_text(), "2.0.0");
    let none = VersionedUuid { id: 7, version_req: SemVerReq::parse("^3").unwrap() };
    match latest_valid_version(&vs, &none) {
        Err(RegistryError::NoVersionMatchesRequirement { schema_id, version_req }) => {
            assert_eq!(schema_id, 7);
            assert_eq!(version_req, "^3");
        },
        other => panic!("unexpected {:?}", other),
    }
}

#[test]
fn new_version_must_come_after_every_stored_one() {
    let vs = vec![v("1.0.0"), v("1.3.0"), v("1.1.0")];
    assert!(check_new_version(9, &vs, &v("1.4.0")).is_ok());
    assert!(check_new_version(9, &vec![], &v("0.0.1")).is_ok());
    match check_new_version(9, &vs, &v("1.3.0")) {
        Err(RegistryError::NewVersionMustBeGreatest { schema_id, max_version }) => {
            assert_eq!(schema_id, 9);
            assert_eq!(max_version.to_text(), "1.3.0");
        },
        other => panic!("unexpected {:?}", other),
    }
}

fn field_doc(pairs: &[(&str, &str)]) -> JsonValue {
    JsonValue::Object(
        pairs
            .iter()
            .map(|(k, f)| {
                (k.to_string(), JsonValue::Object(vec![("FieldName".to_string(), JsonValue::Str(f.to_string()))]))
            })
            .collect(),
    )
}

#[test]
fn view_fields_round_trip() {
    let fields = vec![
        ("a".to_string(), FieldDefinition::FieldName("x".to_string())),
        ("b".to_string(), FieldDefinition::FieldName("y".to_string())),
    ];
    let doc = encode_view_fields(&fields);
    match &doc {
        JsonValue::Object(es) => {
            assert_eq!(es.len(), 2);
            assert_eq!(es[0].0, "a");
        },
        _ => panic!("expected an object"),
    }
    assert_eq!(decode_view_fields(&doc), Some(fields));
    assert_eq!(decode_view_fields(&field_doc(&[("k", "f")])), Some(vec![("k".to_string(), FieldDefinition::FieldName("f".to_string()))]));
    assert_eq!(decode_view_fields(&JsonValue::Null), None);
    let bad = JsonValue::Object(vec![("k".to_string(), JsonValue::Str("f".to_string()))]);
    assert_eq!(decode_view_fields(&bad), None);
}

fn schema(id: u128) -> Schema {
    Schema {
        id,
        name: format!("s{}", id),
        insert_destination: "dest".to_string(),
        query_address: "qa".to_string(),
        schema_type: SchemaType::DocumentStorage,
    }
}

fn def_row(version: &str, schema: u128) -> DefinitionRow {
    DefinitionRow { version: version.to_string(), definition: JsonValue::Bool(true), schema }
}

fn view_row(id: u128, schema: u128, fields: JsonValue) -> ViewRow {
    ViewRow { id, name: format!("v{}", id), materializer_address: "m".to_string(), fields, schema }
}

#[test]
fn stored_rows_become_full_schemas() {
    let defs = read_definitions(&vec![def_row("1.0.0", 1)]).unwrap();
    assert_eq!(defs[0].version.to_text(), "1.0.0");
    assert!(matches!(read_definitions(&vec![def_row("bad", 1)]), Err(RegistryError::InvalidVersion(_))));

    let view = view_from_row(&view_row(5, 1, field_doc(&[("a", "b")]))).unwrap();
    assert_eq!(view.id, 5);
    assert_eq!(view.fields, vec![("a".to_string(), FieldDefinition::FieldName("b".to_string()))]);
    assert!(matches!(view_from_row(&view_row(6, 1, JsonValue::Null)), Err(RegistryError::MalformedViewFields(6))));
    assert!(matches!(read_views(&vec![view_row(6, 1, JsonValue::Null)]), Err(RegistryError::MalformedViewFields(6))));

    let f = full_schema(&schema(1), &vec![def_row("1.0.0", 1), def_row("2.0.0", 1)], vec![view]).unwrap();
    assert_eq!(f.id, 1);
    assert_eq!(f.definitions.len(), 2);
    assert_eq!(f.definitions[1].version.to_text(), "2.0.0");
    assert_eq!(f.views.len(), 1);

    let all = full_schemas(
        &vec![schema(1), schema(2)],
        vec![def_row("1.0.0", 2), def_row("1.0.0", 1), def_row("1.1.0", 2)],
        vec![view_row(9, 2, field_doc(&[]))],
    )
    .unwrap();
    assert_eq!(all.len(), 2);
    assert_eq!(all[0].definitions.len(), 1);
    assert_eq!(all[0].views.len(), 0);
    assert_eq!(all[1].definitions.len(), 2);
    assert_eq!(all[1].views[0].id, 9);

    let broken = full_schemas(&vec![schema(1)], vec![def_row("x.y", 1)], vec![]);
    assert!(matches!(broken, Err(RegistryError::InvalidVersion(ref t)) if t == "x.y"));
    let broken_view = full_schemas(&vec![schema(1)], vec![], vec![view_row(3, 1, JsonValue::Null)]);
    assert!(matches!(broken_view, Err(RegistryError::MalformedViewFields(3))));
}

#[test]
fn updates_replace_given_fields() {
    let s = SchemaUpdate { name: Some("new".to_string()), query_address: None, insert_destination: None, schema_type: Some(SchemaType::Timeseries) }
        .apply(schema(1));
    assert_eq!(s.name, "new");
    assert_eq!(s.query_address, "qa");
    assert_eq!(s.schema_type, SchemaType::Timeseries);

    let view = RegistryView { id: 4, name: "n".to_string(), materializer_address: "m".to_string(), fields: vec![] };
    let u = ViewUpdate { name: None, materializer_address: Some("m2".to_string()), fields: None }.apply(view);
    assert_eq!((u.id, u.name.as_str(), u.materializer_address.as_str()), (4, "n", "m2"));
}

#[test]
fn views_by_id_keeps_the_last_of_an_id() {
    let mk = |id: u128, name: &str| RegistryView { id, name: name.to_string(), materializer_address: "".to_string(), fields: vec![] };
    let mut by_id = views_by_id(vec![mk(1, "a"), mk(2, "b"), mk(1, "c")]);
    by_id.sort_by_key(|p| p.0);
    assert_eq!(by_id.len(), 2);
    assert_eq!(by_id[0].1.name, "c");
    assert_eq!(by_id[1].1.name, "b");
}

#[test]
fn import_only_into_an_empty_registry() {
    let export = DbExport {
        schemas: vec![FullSchema {
            id: 1,
            name: "s".to_string(),
            schema_type: SchemaType::DocumentStorage,
            insert_destination: "d".to_string(),
            query_address: "q".to_string(),
            definitions: vec![SchemaDefinition { version: v("1.0.0"), definition: JsonValue::Null }],
            views: vec![RegistryView {
                id: 2,
                name: "v".to_string(),
                materializer_address: "m".to_string(),
                fields: vec![("a".to_string(), FieldDefinition::FieldName("b".to_string()))],
            }],
        }],
    };
    assert!(import_steps(false, &export).is_empty());
    let steps = import_steps(true, &export);
    assert_eq!(steps.len(), 3);
    assert!(matches!(steps[0], ImportStep::Schema { id: 1, .. }));
    assert!(matches!(steps[1], ImportStep::Definition { ref version, schema: 1, .. } if version == "1.0.0"));
    match &steps[2] {
        ImportStep::View { id, schema, fields, .. } => {
            assert_eq!((*id, *schema), (2, 1));
            assert_eq!(decode_view_fields(fields), Some(vec![("a".to_string(), FieldDefinition::FieldName("b".to_string()))]));
        },
        other => panic!("unexpected {:?}", other),
    }
}

#[test]
fn new_schema_gets_version_one() {
    let new = NewSchema {
        name: "n".to_string(),
        definition: JsonValue::Null,
        query_address: "q".to_string(),
        insert_destination: "d".to_string(),
        schema_type: SchemaType::Timeseries,
    };
    let steps = add_schema_steps(11, &new);
    assert_eq!(steps.len(), 2);
    assert!(matches!(steps[0], ImportStep::Schema { id: 11, schema_type: SchemaType::Timeseries, .. }));
    assert!(matches!(steps[1], ImportStep::Definition { ref version, schema: 11, .. } if version == "1.0.0"));
    let view = NewView { schema_id: 11, name: "v".to_string(), materializer_address: "m".to_string(), fields: vec![] };
    assert!(matches!(add_view_step(12, &view), ImportStep::View { id: 12, schema: 11, .. }));
}

#[test]
fn export_paths() {
    assert_eq!(export_path("/tmp".to_string(), 1234), "/tmp/export_1234.json");
    assert_eq!(export_path("/tmp/".to_string(), 0), "/tmp/export_0.json");
    assert_eq!(export_path("".to_string(), 99), "export_99.json");
}

#[test]
fn request_parts_are_read_or_refused() {
    assert_eq!(parse_uuid(ID_B), Ok(42));
    assert_eq!(parse_uuid("42"), Err(RequestError::InvalidId("42".to_string())));
    assert_eq!(parse_version("1.2.3").unwrap().to_text(), "1.2.3");
    assert!(matches!(parse_version("1"), Err(RequestError::InvalidVersion(ref t)) if t == "1"));
    assert!(matches!(parse_optional_version_req(&None), Ok(None)));
    assert!(matches!(parse_optional_version_req(&Some("=1.0.0".to_string())), Ok(Some(_))));
    assert!(matches!(
        parse_optional_version_req(&Some("??".to_string())),
        Err(RequestError::InvalidVersionReq(ref t)) if t == "??"
    ));
    let vid = versioned_id(ID_B, &None).unwrap();
    assert_eq!(vid.id, 42);
    assert_eq!(vid.version_req.text(), "*");
    assert!(matches!(versioned_id("x", &Some("??".to_string())), Err(RequestError::InvalidId(_))));
}

#[test]
fn destinations() {
    assert!(destination_to_check(&"topic".to_string()));
    assert!(!destination_to_check(&"".to_string()));
    assert!(destination_verdict(&"t".to_string(), true).is_ok());
    assert!(matches!(destination_verdict(&"t".to_string(), false), Err(RegistryError::NoTopic(ref d)) if d == "t"));
    assert_eq!(
        metadata_source(&CommunicationMethodConfig::Kafka(KafkaConfig { brokers: "b".to_string(), group_id: "g".to_string() })),
        MetadataSource::Kafka("b".to_string())
    );
    assert_eq!(
        metadata_source(&CommunicationMethodConfig::Amqp(AmqpConfig {
            connection_string: "c".to_string(),
            consumer_tag: "t".to_string()
        })),
        MetadataSource::Amqp("c".to_string())
    );
    assert_eq!(metadata_source(&CommunicationMethodConfig::Grpc), MetadataSource::Grpc("command_service".to_string()));
}

fn message(id: &str, name: &str, schema_type: i32) -> SchemaMessage {
    SchemaMessage {
        id: id.to_string(),
        name: name.to_string(),
        query_address: "q".to_string(),
        insert_destination: "d".to_string(),
        schema_type,
    }
}

#[test]
fn schema_messages_are_read() {
    let s = SchemaCache::parse_schema(message(ID_B, "n", 1)).unwrap();
    assert_eq!((s.id, s.schema_type), (42, SchemaType::Timeseries));
    assert_eq!(SchemaCache::parse_schema(message("x", "n", 1)).unwrap_err(), CacheError::MalformedSchema);
    assert_eq!(SchemaCache::parse_schema(message(ID_B, "n", 7)).unwrap_err(), CacheError::InvalidSchemaType(7));
    let meta = SchemaMetadata { name: "n".to_string(), query_address: "q".to_string(), insert_destination: "d".to_string(), schema_type: 0 };
    assert_eq!(SchemaCache::schema_from_metadata(3, meta).unwrap().schema_type, SchemaType::DocumentStorage);
    assert_eq!(SchemaType::from_number(2), None);
    assert_eq!(SchemaType::Timeseries.number(), 1);
}

#[test]
fn cache_fetches_once_and_evicts_the_least_recently_used() {
    let mut cache = SchemaCache::new("http://registry".to_string(), 2);
    assert_eq!(cache.schema_registry_addr(), "http://registry");
    assert!(cache.needs_fetch(1));
    assert_eq!(cache.finish_get(1, Some(schema(1))).unwrap().id, 1);
    assert!(!cache.needs_fetch(1));
    assert_eq!(cache.finish_get(1, None).unwrap().name, "s1");
    assert!(cache.needs_fetch(2));
    cache.finish_get(2, Some(schema(2))).unwrap();
    // 1 is now the least recently used.
    assert!(cache.needs_fetch(3));
    cache.finish_get(3, Some(schema(3))).unwrap();
    assert!(cache.needs_fetch(1));
    assert_eq!(cache.finish_get(1, None).unwrap_err(), CacheError::MissingSchema);
    assert!(!cache.needs_fetch(3));
}

#[test]
fn updates_replace_cached_schemas_only() {
    let mut cache = SchemaCache::new("r".to_string(), 4);
    cache.needs_fetch(42);
    cache.finish_get(42, Some(schema(42))).unwrap();
    assert_eq!(cache.on_schema_update(Ok(Some(message(ID_B, "renamed", 0)))), UpdateStep::Continue);
    assert_eq!(cache.finish_get(42, None).unwrap().name, "renamed");
    let other = "00000000-0000-0000-0000-000000000063";
    assert_eq!(cache.on_schema_update(Ok(Some(message(other, "x", 0)))), UpdateStep::Continue);
    assert!(cache.needs_fetch(99));
    assert_eq!(cache.on_schema_update(Ok(None)), UpdateStep::Stop(None));
    assert_eq!(
        cache.on_schema_update(Err(CacheError::UpdateReceive("gone".to_string()))),
        UpdateStep::Stop(Some(CacheError::UpdateReceive("gone".to_string())))
    );
    assert_eq!(cache.on_schema_update(Ok(Some(message("bad", "x", 0)))), UpdateStep::Stop(Some(CacheError::MalformedSchema)));
    assert_eq!(cache.on_schema_update(Ok(Some(message(ID_B, "x", 5)))), UpdateStep::Stop(Some(CacheError::InvalidSchemaType(5))));
}

#[test]
fn zero_capacity_cache_holds_nothing() {
    let mut cache = SchemaCache::new("r".to_string(), 0);
    assert!(cache.needs_fetch(1));
    assert_eq!(cache.finish_get(1, Some(schema(1))).unwrap_err(), CacheError::MissingSchema);
}
