use cdl_core::partial_update::changes::{
    change_from_relation, change_of_edge, change_source, group_changes, notification_changes, request_record,
    ChangePlan, ChangeSource, RelationSchemas, Request, RequestSet,
};
use cdl_core::partial_update::notifications::{
    CommandServiceNotification, EdgeRegistryNotification, IdleAction, NotificationBatch, PartialNotification,
};
use cdl_core::partial_update::tree::{
    process_tree_response, relation_to_tree_query, try_process_tree_response, view_to_tree_query, FullView,
    MalformedId, Relation, Schema, TreeObject, TreeResponse,
};

const ID_A: &str = "6ba7b810-9dad-11d1-80b4-00c04fd430c8";
const ID_B: &str = "00000000-0000-0000-0000-00000000002a";

fn cs(schema_id: u128, object_id: u128) -> PartialNotification {
    PartialNotification::CommandServiceNotification(CommandServiceNotification { object_id, schema_id })
}

#[test]
fn grouping_keeps_consecutive_changes_together() {
    let changes = vec![(1u128, 10u128), (1, 11), (2, 20), (1, 12)];
    let groups = group_changes(&changes);
    assert_eq!(groups, vec![(1, vec![10, 11]), (2, vec![20]), (1, vec![12])]);
    let flat: Vec<(u128, u128)> = groups.iter().flat_map(|(s, os)| os.iter().map(move |o| (*s, *o))).collect();
    assert_eq!(flat, changes);
}

#[test]
fn grouping_nothing_gives_nothing() {
    assert!(group_changes(&vec![]).is_empty());
}

#[test]
fn change_source_of_each_notification() {
    assert_eq!(change_source(&cs(3, 4)), ChangeSource::Known(3, 4));
    let edge = PartialNotification::EdgeRegistryNotification(EdgeRegistryNotification {
        relation_id: 0x6ba7b810_9dad_11d1_80b4_00c04fd430c8,
        parent_object_id: 9,
    });
    assert_eq!(
        change_source(&edge),
        ChangeSource::ThroughRelation { relation_id: ID_A.to_string(), parent_object_id: 9 }
    );
}

#[test]
fn change_from_relation_reads_the_schema_id() {
    assert_eq!(change_from_relation(ID_B, 5), Ok((42, 5)));
    assert_eq!(change_from_relation("nope", 5), Err(MalformedId { text: "nope".to_string() }));
}

#[test]
fn batch_keeps_each_change_once_and_the_last_offset() {
    let mut batch = NotificationBatch::new();
    assert!(!batch.has_changes());
    assert_eq!(batch.on_idle(false), IdleAction::Sleep);
    assert_eq!(batch.new_notification(cs(1, 1), 0, 5), (0, 5));
    assert_eq!(batch.new_notification(cs(1, 1), 0, 6), (0, 6));
    assert_eq!(batch.new_notification(cs(1, 2), 3, 1), (3, 1));
    assert!(batch.has_changes());
    assert_eq!(batch.on_idle(false), IdleAction::FlushThenSleep);
    assert_eq!(batch.on_idle(true), IdleAction::FlushThenStop);

    let mut changes = batch.drain_changes();
    changes.sort_by_key(|n| match n {
        PartialNotification::CommandServiceNotification(c) => c.object_id,
        PartialNotification::EdgeRegistryNotification(e) => e.parent_object_id,
    });
    assert_eq!(changes, vec![cs(1, 1), cs(1, 2)]);
    assert!(!batch.has_changes());

    let mut offsets = batch.commit_offsets();
    offsets.sort();
    assert_eq!(offsets, vec![(0, 7), (3, 2)]);
    assert!(batch.commit_offsets().is_empty());
    assert_eq!(batch.on_idle(true), IdleAction::FlushThenStop);
}

fn rel(id: &str, relations: Vec<Relation>) -> Relation {
    Relation { global_id: id.to_string(), relations }
}

#[test]
fn queries_follow_the_relations_of_the_view() {
    let view = FullView { id: ID_A.to_string(), relations: vec![rel("r1", vec![rel("r2", vec![])]), rel("r3", vec![])] };
    let queries = view_to_tree_query(&view, vec!["o1".to_string()]);
    assert_eq!(queries.len(), 2);
    assert_eq!(queries[0].relation_id, "r1");
    assert_eq!(queries[0].filter_ids, vec!["o1".to_string()]);
    assert_eq!(queries[0].relations.len(), 1);
    assert_eq!(queries[0].relations[0].relation_id, "r2");
    assert!(queries[0].relations[0].filter_ids.is_empty());
    assert_eq!(queries[1].relation_id, "r3");

    let nested = relation_to_tree_query(&rel("x", vec![rel("y", vec![])]));
    assert_eq!(nested.relation_id, "x");
    assert!(nested.filter_ids.is_empty());
    assert_eq!(nested.relations[0].relation_id, "y");
}

fn tree(object_id: &str, children: Vec<&str>, subtrees: Vec<TreeResponse>) -> TreeResponse {
    TreeResponse {
        objects: vec![TreeObject {
            object_id: object_id.to_string(),
            children: children.into_iter().map(|c| c.to_string()).collect(),
            subtrees,
        }],
    }
}

#[test]
fn tree_ids_are_gathered_once_each() {
    let mut schema = Schema::new();
    let t = tree(ID_B, vec![ID_A, ID_B], vec![tree(ID_A, vec![], vec![])]);
    assert_eq!(process_tree_response(t, &mut schema), Ok(()));
    let mut ids = schema.object_ids.clone();
    ids.sort();
    assert_eq!(ids, vec![42, 0x6ba7b810_9dad_11d1_80b4_00c04fd430c8]);
    schema.insert(42);
    assert_eq!(schema.object_ids.len(), 2);
}

#[test]
fn unreadable_child_stops_the_walk() {
    let mut schema = Schema::new();
    let t = tree(ID_B, vec!["bad"], vec![]);
    assert_eq!(process_tree_response(t, &mut schema), Err(MalformedId { text: "bad".to_string() }));
    assert_eq!(schema.object_ids, vec![42]);
}

#[test]
fn unreadable_object_id_leaves_the_schema_alone() {
    let mut schema = Schema::new();
    schema.insert(7);
    assert_eq!(try_process_tree_response(tree("bad", vec![], vec![]), &mut schema), None);
    assert_eq!(schema.object_ids, vec![7]);
    assert_eq!(try_process_tree_response(tree(ID_B, vec![], vec![]), &mut schema), Some(Ok(())));
    assert_eq!(schema.object_ids, vec![7, 42]);
}

#[test]
fn plan_gathers_changed_objects_per_view() {
    let mut plan = ChangePlan::new();
    assert!(plan.views_of_schema(1).is_none());
    let views = vec![
        FullView { id: ID_B.to_string(), relations: vec![rel("r1", vec![])] },
        FullView { id: ID_B.to_string(), relations: vec![] },
    ];
    assert_eq!(plan.add_schema_views(1, views), Ok(()));
    assert_eq!(plan.views_of_schema(1), Some(vec![42, 42]));
    plan.add_group(1, &vec![5, 6, 5]);
    let entries = plan.entries();
    assert_eq!(entries.len(), 1);
    assert_eq!(entries[0].0, 42);
    assert_eq!(entries[0].1, 1);
    let mut objs = entries[0].2.clone();
    objs.sort();
    assert_eq!(objs, vec![5, 6]);

    let queries = plan.queries_for(42, &vec![42]);
    assert_eq!(queries.len(), 1);
    assert_eq!(queries[0].relation_id, "r1");
    assert_eq!(queries[0].filter_ids, vec![ID_B.to_string()]);
}

#[test]
fn plan_refuses_views_with_unreadable_ids() {
    let mut plan = ChangePlan::new();
    let views = vec![FullView { id: "x".to_string(), relations: vec![] }];
    assert_eq!(plan.add_schema_views(1, views), Err(MalformedId { text: "x".to_string() }));
    assert!(plan.views_of_schema(1).is_none());
}

#[test]
fn requests_gather_the_tree_ids() {
    let mut set = RequestSet::new();
    assert!(set.requests().is_empty());
    assert_eq!(set.add_response(9, 1, tree(ID_B, vec![ID_B], vec![])), Some(Ok(())));
    assert_eq!(set.add_response(9, 2, tree("bad", vec![], vec![])), None);
    let requests = set.requests();
    assert_eq!(requests.len(), 1);
    assert_eq!(requests[0].view_id, 9);
    let mut schemas = requests[0].schemas.clone();
    schemas.sort();
    assert_eq!(schemas, vec![(1, vec![42]), (2, vec![])]);
}

fn relation(parent: &str, child: &str) -> RelationSchemas {
    RelationSchemas { parent_schema_id: parent.to_string(), child_schema_id: child.to_string() }
}

#[test]
fn an_edge_changes_its_parent_schema() {
    assert_eq!(change_of_edge(&relation(ID_B, ID_A), 2), Ok((42, 2)));
    assert_eq!(change_of_edge(&relation("bad", ID_A), 2), Err(MalformedId { text: "bad".to_string() }));
    let edge = PartialNotification::EdgeRegistryNotification(EdgeRegistryNotification { relation_id: 1, parent_object_id: 2 });
    let ns = vec![cs(7, 8), edge];
    assert_eq!(notification_changes(&ns, &vec![None, Some(relation(ID_B, ID_A))]), Ok(vec![(7, 8), (42, 2)]));
    assert_eq!(
        notification_changes(&ns, &vec![None, Some(relation("x", ID_B))]),
        Err(MalformedId { text: "x".to_string() })
    );
}

#[test]
fn records_are_keyed_by_their_view() {
    let request = Request { view_id: 42, schemas: vec![(3, vec![2, 7])] };
    let rec = request_record(&request, "egest");
    assert_eq!(rec.topic, "egest");
    assert_eq!(rec.key, ID_B);
    assert_eq!(rec.request.view_id, 42);
    assert_eq!(rec.request.schemas, vec![(3, vec![2, 7])]);

    let mut set = RequestSet::new();
    assert_eq!(set.add_response(42, 3, tree(ID_B, vec![], vec![])), Some(Ok(())));
    assert_eq!(set.add_response(0x6ba7b810_9dad_11d1_80b4_00c04fd430c8, 3, tree(ID_B, vec![], vec![])), Some(Ok(())));
    let mut records = set.records("egest");
    records.sort_by(|a, b| a.key.cmp(&b.key));
    assert_eq!(records.len(), 2);
    assert_eq!(records[0].key, ID_B);
    assert_eq!(records[1].key, ID_A);
    assert!(records.iter().all(|r| r.topic == "egest" && r.request.schemas == vec![(3, vec![42])]));
}
