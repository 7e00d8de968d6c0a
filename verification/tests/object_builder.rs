use cdl_core::json::JsonValue;
use cdl_core::object_builder::buffer_stream::{InputStep, ObjectBufferedStream};
use cdl_core::object_builder::model::{
    Computation, FieldDefinition, FieldDefinitionSource, FieldType, FullView, ObjectIdPair, Relation,
    RowSource, SchemaRelation, SearchFor, TreeObject, TreeResponse,
};
use cdl_core::object_builder::relations::{
    find_relation_in_exec, get_array_objects_for_relation, get_object_id_for_relation, get_objects_ids_for_relation,
    RelationError,
};
use cdl_core::object_builder::row_builder::RowBuilder;

fn obj(schema_id: u128, object_id: u128) -> ObjectIdPair {
    ObjectIdPair { schema_id, object_id }
}

fn num(n: &str) -> JsonValue {
    JsonValue::Number(n.to_string())
}

fn view_no_relations(object: ObjectIdPair) -> FullView {
    FullView {
        id: 0x77,
        base_schema_id: object.schema_id,
        name: "".to_string(),
        materializer_address: "".to_string(),
        materializer_options: JsonValue::Object(vec![]),
        fields: vec![(
            "foo".to_string(),
            FieldDefinition::Simple { field_name: "foo".to_string(), field_type: FieldType::String },
        )],
        relations: vec![],
    }
}

#[test]
fn when_there_are_no_edges() {
    let edges: Vec<TreeResponse> = vec![];
    let pair = obj(10, 20);
    let view = view_no_relations(pair);

    let mut stream = ObjectBufferedStream::try_new(view, &edges).unwrap();

    assert!(stream.pop_ready().is_none());

    let step = stream.on_object(pair, JsonValue::Object(vec![]));
    assert_eq!(step, InputStep::Ready);

    match stream.pop_ready().unwrap() {
        RowSource::Single { root_object, value, fields } => {
            assert_eq!(root_object, pair);
            assert!(matches!(value, JsonValue::Object(ref es) if es.is_empty()));
            assert_eq!(fields.len(), 1);
            assert_eq!(fields[0].0, "foo");
            match &fields[0].1 {
                FieldDefinitionSource::Simple { object, field_name, field_type } => {
                    assert_eq!(*object, pair);
                    assert_eq!(field_name, "foo");
                    assert_eq!(*field_type, FieldType::String);
                },
                _ => panic!("expected a simple field"),
            }
        },
        RowSource::Join { .. } => panic!("expected a single row"),
    }
    assert!(stream.pop_ready().is_none());
}

fn view_with_children(base_schema: u128, relation: u128) -> FullView {
    FullView {
        id: 0x99,
        base_schema_id: base_schema,
        name: "v".to_string(),
        materializer_address: "m".to_string(),
        materializer_options: JsonValue::Null,
        fields: vec![(
            "x".to_string(),
            FieldDefinition::Computed {
                computation: Computation::FieldValue { schema_id: 1, field_path: "x".to_string() },
                field_type: FieldType::Numeric,
            },
        )],
        relations: vec![Relation { global_id: relation, local_id: 1, search_for: SearchFor::Children, relations: vec![] }],
    }
}

fn edge(parent: ObjectIdPair, child_schema: u128, relation: u128, children: Vec<u128>) -> TreeResponse {
    TreeResponse {
        objects: vec![TreeObject {
            object_id: parent.object_id,
            relation_id: relation,
            relation: SchemaRelation { parent_schema_id: parent.schema_id, child_schema_id: child_schema },
            children,
            subtrees: vec![],
        }],
    }
}

#[test]
fn join_waits_for_every_object_of_the_row() {
    let root = obj(1, 100);
    let child = obj(2, 200);
    let edges = vec![edge(root, 2, 5, vec![200])];
    let mut stream = ObjectBufferedStream::try_new(view_with_children(1, 5), &edges).unwrap();

    assert_eq!(stream.on_object(child, JsonValue::Object(vec![("x".to_string(), num("7"))])), InputStep::Pending);
    assert!(stream.pop_ready().is_none());
    assert_eq!(stream.on_object(root, JsonValue::Object(vec![])), InputStep::Ready);

    let source = stream.pop_ready().unwrap();
    assert!(matches!(source, RowSource::Join { .. }));
    let row = RowBuilder::new().build(source).unwrap();
    let mut ids = row.object_ids.clone();
    ids.sort();
    assert_eq!(ids, vec![100, 200]);
    assert_eq!(row.fields.len(), 1);
    assert_eq!(row.fields[0].0, "x");
    assert!(matches!(row.fields[0].1, JsonValue::Number(ref n) if n == "7"));
}

#[test]
fn join_without_edges_for_the_relation_is_refused() {
    let edges = vec![edge(obj(1, 100), 2, 6, vec![200])];
    let r = ObjectBufferedStream::try_new(view_with_children(1, 5), &edges);
    assert!(matches!(r, Err(RelationError::RelationNotInEdges(1))));
}

#[test]
fn single_row_is_built_from_the_object_fields() {
    let pair = obj(3, 4);
    let edges: Vec<TreeResponse> = vec![];
    let mut stream = ObjectBufferedStream::try_new(view_no_relations(pair), &edges).unwrap();
    let value = JsonValue::Object(vec![("foo".to_string(), JsonValue::Str("bar".to_string()))]);
    assert_eq!(stream.on_object(pair, value), InputStep::Ready);
    let row = RowBuilder::new().build(stream.pop_ready().unwrap()).unwrap();
    assert_eq!(row.object_ids, vec![4]);
    assert_eq!(row.fields.len(), 1);
    assert_eq!(row.fields[0].0, "foo");
    assert!(matches!(row.fields[0].1, JsonValue::Str(ref s) if s == "bar"));
}

#[test]
fn single_row_missing_field_is_an_error() {
    let pair = obj(3, 4);
    let edges: Vec<TreeResponse> = vec![];
    let mut stream = ObjectBufferedStream::try_new(view_no_relations(pair), &edges).unwrap();
    assert_eq!(stream.on_object(pair, JsonValue::Object(vec![])), InputStep::Ready);
    let r = RowBuilder::new().build(stream.pop_ready().unwrap());
    assert!(r.is_err());
}

fn tree_object(parent: ObjectIdPair, child_schema: u128, relation: u128, children: Vec<u128>) -> TreeObject {
    TreeObject {
        object_id: parent.object_id,
        relation_id: relation,
        relation: SchemaRelation { parent_schema_id: parent.schema_id, child_schema_id: child_schema },
        children,
        subtrees: vec![],
    }
}

fn view_with(relations: Vec<Relation>) -> FullView {
    FullView { relations, ..view_no_relations(obj(1, 1)) }
}

#[test]
fn relations_reach_their_objects() {
    let view = view_with(vec![
        Relation {
            global_id: 5,
            local_id: 1,
            search_for: SearchFor::Children,
            relations: vec![Relation { global_id: 6, local_id: 2, search_for: SearchFor::Parents, relations: vec![] }],
        },
    ]);
    assert_eq!(find_relation_in_exec(&view.relations, 2).map(|r| r.global_id), Some(6));
    assert!(find_relation_in_exec(&view.relations, 3).is_none());

    let tree = tree_object(obj(1, 100), 2, 5, vec![200, 201]);
    let ids = get_objects_ids_for_relation(&view, 1, Some(&tree)).unwrap().unwrap();
    assert_eq!(ids, vec![obj(2, 200), obj(2, 201)]);
    assert!(get_objects_ids_for_relation(&view, 0, Some(&tree)).unwrap().is_none());
    assert_eq!(get_objects_ids_for_relation(&view, 9, Some(&tree)), Err(RelationError::RelationNotFound(9)));
    assert_eq!(get_objects_ids_for_relation(&view, 1, None), Err(RelationError::NoEdges));

    assert_eq!(get_object_id_for_relation(0, obj(1, 100), &view, &tree), Ok(obj(1, 100)));
    assert_eq!(get_object_id_for_relation(1, obj(1, 100), &view, &tree), Err(RelationError::SingleObjectFromChildren));
    assert_eq!(get_object_id_for_relation(2, obj(1, 100), &view, &tree), Err(RelationError::RelationNotInEdges(2)));
    let parent_tree = tree_object(obj(7, 700), 1, 6, vec![100]);
    assert_eq!(get_object_id_for_relation(2, obj(1, 100), &view, &parent_tree), Ok(obj(7, 700)));

    assert_eq!(get_array_objects_for_relation(0, &view, &tree), Err(RelationError::ArrayNeedsRelation));
    assert_eq!(get_array_objects_for_relation(1, &view, &tree), Ok(vec![obj(2, 200), obj(2, 201)]));
}

#[test]
fn a_handed_out_row_is_not_handed_out_again() {
    let root = obj(1, 100);
    let child = obj(2, 200);
    let edges = vec![edge(root, 2, 5, vec![200])];
    let mut stream = ObjectBufferedStream::try_new(view_with_children(1, 5), &edges).unwrap();
    assert_eq!(stream.on_object(root, JsonValue::Object(vec![])), InputStep::Pending);
    assert_eq!(stream.on_object(child, JsonValue::Object(vec![("x".to_string(), num("1"))])), InputStep::Ready);
    assert!(stream.pop_ready().is_some());
    assert_eq!(stream.on_object(child, JsonValue::Object(vec![("x".to_string(), num("2"))])), InputStep::Pending);
    assert!(stream.pop_ready().is_none());
}

#[test]
fn equals_pairs_every_left_with_every_right() {
    let root = obj(1, 100);
    let view = FullView {
        fields: vec![(
            "same".to_string(),
            FieldDefinition::Computed {
                computation: Computation::Equals {
                    lhs: Box::new(Computation::FieldValue { schema_id: 1, field_path: "x".to_string() }),
                    rhs: Box::new(Computation::FieldValue { schema_id: 1, field_path: "x".to_string() }),
                },
                field_type: FieldType::Json,
            },
        )],
        ..view_with_children(1, 5)
    };
    let edges = vec![edge(root, 2, 5, vec![200, 201])];
    let mut stream = ObjectBufferedStream::try_new(view, &edges).unwrap();
    assert_eq!(stream.on_object(root, JsonValue::Object(vec![])), InputStep::Pending);
    assert_eq!(stream.on_object(obj(2, 200), JsonValue::Object(vec![("x".to_string(), num("1"))])), InputStep::Ready);
    let mut first = vec![];
    while let Some(s) = stream.pop_ready() {
        first.push(RowBuilder::new().build(s).unwrap());
    }
    assert_eq!(first.len(), 1);
    assert!(matches!(first[0].fields[0].1, JsonValue::Bool(true)));
    assert_eq!(stream.on_object(obj(2, 201), JsonValue::Object(vec![("x".to_string(), num("2"))])), InputStep::Ready);
    let mut rest = vec![];
    while let Some(s) = stream.pop_ready() {
        rest.push(RowBuilder::new().build(s).unwrap());
    }
    assert_eq!(rest.len(), 3);
    let trues = rest.iter().filter(|r| matches!(r.fields[0].1, JsonValue::Bool(true))).count();
    assert_eq!(trues, 1);
}
