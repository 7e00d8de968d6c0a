use cdl_core::api::{
    definition_for, join_ids, ApiError, Definition, FullSchema, RpcFullSchema, RpcView, SchemaType,
    SchemaView,
};
use cdl_core::command_service::args::{Args, IngestionMethod, InputArgs, InputConfig, MissingConfigError};
use cdl_core::command_service::communication::{failure_report, FailureReport, MessageRouter, OutputPlugin, Resolution};
use cdl_core::command_service::output::{druid_record, druid_resolution};
use cdl_core::command_service::report::{FullReportServiceConfig, GenericMessage, ReportService};
use cdl_core::command_service::settings::{
    output_choice, OutputChoice, OutputSetupError, RepositoryKind, AmqpSettings, CommunicationMethod as CsMethod, ConsumerSpec, KafkaSettings, ListenerSettings, Settings as CsSettings,
    SettingsError,
};
use cdl_core::data_router::{
    batch_result, insert_message, new_consumer, route_delivery, new_producer, payload_kind, CommunicationMethod as DrMethod, Config,
    ConsumerConfig, DataRouterInsertMessage, MissingSetting, PayloadKind, PublisherConfig as DrPublisher, RouteError,
    SchemaMetadataFetcher,
};
use cdl_core::edge_registry::{ConsumerConfig as EdgeConsumer, ConsumerMethod};
use cdl_core::json::JsonValue;
use cdl_core::messaging::{publisher_for, CommonConsumerConfig, CommunicationMethod, PublisherConfig};
use cdl_core::object_builder::builder::{
    build_materialized_chunks, create_object_filters, filter_texts, object_query, resolve_tree_requests,
    ObjectBuilderImpl, ObjectQuery, ObjectQueryError,
};
use cdl_core::object_builder::model::{FullView, Relation, SearchFor};
use cdl_core::object_builder::row_builder::RowDefinition;
use cdl_core::object_builder::service::{build_row_def, RowError};
use cdl_core::object_builder::settings::{
    Args as ObArgs, ArgsCommunicationMethod, ConsumerKafkaSettings, ParallelConsumerConfig, ServicesSettings,
    Settings as ObSettings,
};
use cdl_core::partial_update::tree::Schema;
use cdl_core::schema_registry::types::{FieldDefinition, SchemaType as RegistrySchemaType};
use cdl_core::suppliers::{SchemaMetadataSupplier, ViewSupplier};
use cdl_core::versions::SemVerReq;

const ID_A: &str = "6ba7b810-9dad-11d1-80b4-00c04fd430c8";
const ID_B: &str = "00000000-0000-0000-0000-00000000002a";

fn input_args() -> InputArgs {
    InputArgs {
        consumer_tag: Some("tag".to_string()),
        connection_string: Some("conn".to_string()),
        queue_name: Some("a,b".to_string()),
        unordered_queue_name: None,
        task_limit: 32,
        grpc_port: None,
    }
}

#[test]
fn message_queue_input_config() {
    let args = Args { ingestion_method: IngestionMethod::MessageQueue, input_args: input_args() };
    match args.input_config().unwrap() {
        InputConfig::MessageQueue(c) => {
            assert_eq!(c.consumer_tag, "tag");
            assert_eq!(c.connection_string, "conn");
            assert_eq!(c.queue_names, vec!["a".to_string(), "b".to_string()]);
            assert_eq!(c.unordered_queue_names, vec!["".to_string()]);
            assert_eq!(c.task_limit, 32);
        },
        other => panic!("unexpected {:?}", other),
    }
}

#[test]
fn missing_input_settings_are_named() {
    let mut a = input_args();
    a.consumer_tag = None;
    let args = Args { ingestion_method: IngestionMethod::MessageQueue, input_args: a };
    assert_eq!(args.input_config().unwrap_err(), MissingConfigError("Consumer tag".to_string()));
    let mut a = input_args();
    a.connection_string = None;
    let args = Args { ingestion_method: IngestionMethod::MessageQueue, input_args: a };
    assert_eq!(args.input_config().unwrap_err(), MissingConfigError("Connection string".to_string()));
    let args = Args { ingestion_method: IngestionMethod::GRpc, input_args: input_args() };
    assert_eq!(args.input_config().unwrap_err(), MissingConfigError("GRPC port".to_string()));
    let mut a = input_args();
    a.grpc_port = Some(50051);
    let args = Args { ingestion_method: IngestionMethod::GRpc, input_args: a };
    assert!(matches!(args.input_config(), Ok(InputConfig::GRpc(g)) if g.grpc_port == 50051));
}

fn listener(ordered: &[&str], unordered: &[&str]) -> ListenerSettings {
    ListenerSettings {
        ordered_sources: ordered.iter().map(|s| s.to_string()).collect(),
        unordered_sources: unordered.iter().map(|s| s.to_string()).collect(),
    }
}

#[test]
fn command_service_consumers() {
    let kafka = KafkaSettings { brokers: "b".to_string(), group_id: "g".to_string() };
    let settings = CsSettings {
        communication_method: CsMethod::Kafka,
        kafka: Some(kafka.clone()),
        amqp: None,
        grpc: false,
        listener: listener(&["o"], &["u"]),
    };
    assert_eq!(
        settings.consumers().unwrap(),
        vec![
            ConsumerSpec::Kafka { brokers: "b".to_string(), group_id: "g".to_string(), topic: "o".to_string() },
            ConsumerSpec::Kafka { brokers: "b".to_string(), group_id: "g".to_string(), topic: "u".to_string() },
        ]
    );
    let empty = CsSettings { listener: listener(&[], &[]), ..settings };
    assert!(empty.listener.is_empty());
    assert_eq!(empty.consumers().unwrap_err(), SettingsError::MissingListenerQueues);
    let amqp = CsSettings {
        communication_method: CsMethod::Amqp,
        kafka: None,
        amqp: Some(AmqpSettings { exchange_url: "x".to_string(), tag: "t".to_string() }),
        grpc: false,
        listener: listener(&["q"], &[]),
    };
    assert_eq!(
        amqp.consumers().unwrap(),
        vec![ConsumerSpec::Amqp { connection_string: "x".to_string(), consumer_tag: "t".to_string(), queue_name: "q".to_string() }]
    );
    let grpc = CsSettings { communication_method: CsMethod::GRpc, kafka: None, amqp: None, grpc: true, listener: listener(&[], &[]) };
    assert_eq!(grpc.consumers().unwrap(), vec![ConsumerSpec::Grpc]);
    let unsupported = CsSettings { communication_method: CsMethod::Kafka, kafka: None, amqp: None, grpc: true, listener: listener(&["o"], &[]) };
    assert_eq!(unsupported.consumers().unwrap_err(), SettingsError::UnsupportedConsumerSpecification);
    assert_eq!(kafka.parallel_consumers(&vec![]), vec![]);
}

#[test]
fn failures_are_reported_with_their_cause() {
    assert_eq!(
        failure_report(&Resolution::UserFailure { description: "bad".to_string(), object_id: 3, context: "ctx".to_string() }),
        Some(FailureReport { description: "bad; caused by `ctx`".to_string(), object_id: 3 })
    );
    assert_eq!(
        failure_report(&Resolution::StorageLayerFailure { description: "db".to_string(), object_id: 4 }),
        Some(FailureReport { description: "db".to_string(), object_id: 4 })
    );
    assert_eq!(
        failure_report(&Resolution::CommandServiceFailure { object_id: 5 }),
        Some(FailureReport { description: "Internal server error".to_string(), object_id: 5 })
    );
    assert_eq!(failure_report(&Resolution::Success), None);
}

struct Plugin;

impl OutputPlugin for Plugin {
    fn name(&self) -> &'static str {
        "plugin"
    }
}

#[test]
fn reports_carry_the_message() {
    let msg = GenericMessage { object_id: 1, schema_id: 2, timestamp: 3, payload: vec![1, 2] };
    assert_eq!(ReportService::Disabled.instantiate(&msg), None);
    let service = ReportService::Full(FullReportServiceConfig { topic: "t".to_string(), output_plugin: "p".to_string() });
    let instance = service.instantiate(&msg).unwrap();
    assert_eq!(instance.msg, msg);
    let report = instance.report("boom");
    assert_eq!(report.application, "Command Service");
    assert_eq!(report.output_plugin, "p");
    assert_eq!(report.description, "boom");
    assert_eq!(report.payload, vec![1, 2]);
    assert_eq!(instance.key(), "command_service.status");

    let router = MessageRouter::new(service.clone(), Plugin);
    assert_eq!(router.report_service(), &service);
    assert_eq!(router.output_plugin().name(), "plugin");
}

#[test]
fn druid_records_are_keyed_by_object() {
    let msg = GenericMessage { object_id: 42, schema_id: 2, timestamp: 9, payload: vec![7] };
    let record = druid_record(msg, "topic");
    assert_eq!(record.key, ID_B);
    assert_eq!(record.topic, "topic");
    assert_eq!((record.payload, record.timestamp), (vec![7], 9));
    assert_eq!(druid_resolution(1, Ok(())), Resolution::Success);
    assert_eq!(
        druid_resolution(1, Err("down".to_string())),
        Resolution::StorageLayerFailure { description: "down".to_string(), object_id: 1 }
    );
}

fn dr_config(method: DrMethod) -> Config {
    Config {
        communication_method: method,
        kafka_brokers: Some("b".to_string()),
        kafka_group_id: Some("g".to_string()),
        amqp_connection_string: Some("c".to_string()),
        amqp_consumer_tag: Some("t".to_string()),
        input_source: Some("src".to_string()),
        schema_registry_addr: "r".to_string(),
        cache_capacity: 10,
        task_limit: 4,
        grpc_port: None,
    }
}

#[test]
fn data_router_consumers_and_producers() {
    assert_eq!(
        new_consumer(&dr_config(DrMethod::Kafka)),
        Ok(ConsumerConfig::Kafka { brokers: "b".to_string(), group_id: "g".to_string(), task_limit: 4, topic: "src".to_string() })
    );
    assert_eq!(
        new_consumer(&dr_config(DrMethod::Amqp)),
        Ok(ConsumerConfig::Amqp { connection_string: "c".to_string(), task_limit: 4, consumer_tag: "t".to_string(), queue_name: "src".to_string() })
    );
    assert_eq!(new_consumer(&dr_config(DrMethod::Grpc)), Err(MissingSetting::GrpcPort));
    let with_port = Config { grpc_port: Some(7), ..dr_config(DrMethod::Grpc) };
    assert_eq!(new_consumer(&with_port), Ok(ConsumerConfig::Grpc { port: 7 }));
    let no_topic = Config { input_source: None, kafka_brokers: None, ..dr_config(DrMethod::Kafka) };
    assert_eq!(new_consumer(&no_topic), Err(MissingSetting::KafkaTopic));
    let no_brokers = Config { kafka_brokers: None, ..dr_config(DrMethod::Kafka) };
    assert_eq!(new_consumer(&no_brokers), Err(MissingSetting::KafkaBrokers));
    assert_eq!(new_producer(&no_brokers), Err(MissingSetting::KafkaBrokers));
    let no_group = Config { kafka_group_id: None, ..dr_config(DrMethod::Kafka) };
    assert_eq!(new_consumer(&no_group), Err(MissingSetting::KafkaGroup));
    let no_queue = Config { input_source: None, ..dr_config(DrMethod::Amqp) };
    assert_eq!(new_consumer(&no_queue), Err(MissingSetting::AmqpQueueName));
    let no_conn = Config { amqp_connection_string: None, ..dr_config(DrMethod::Amqp) };
    assert_eq!(new_consumer(&no_conn), Err(MissingSetting::AmqpConnectionString));
    assert_eq!(new_producer(&no_conn), Err(MissingSetting::AmqpConnectionString));
    let no_tag = Config { amqp_consumer_tag: None, ..dr_config(DrMethod::Amqp) };
    assert_eq!(new_consumer(&no_tag), Err(MissingSetting::AmqpConsumerTag));

    assert_eq!(new_producer(&dr_config(DrMethod::Kafka)), Ok(DrPublisher::Kafka { brokers: "b".to_string() }));
    assert_eq!(new_producer(&dr_config(DrMethod::Amqp)), Ok(DrPublisher::Amqp { connection_string: "c".to_string() }));
    assert_eq!(new_producer(&dr_config(DrMethod::Grpc)), Ok(DrPublisher::Grpc));
}

#[test]
fn data_router_messages() {
    assert_eq!(payload_kind(&JsonValue::Array(vec![])), PayloadKind::Batch);
    assert_eq!(payload_kind(&JsonValue::Object(vec![])), PayloadKind::Single);
    let event = DataRouterInsertMessage { object_id: 1, schema_id: 2, data: "{}".to_string() };
    let m = insert_message(&event, 77);
    assert_eq!((m.object_id, m.schema_id, m.timestamp, m.data.as_str()), (1, 2, 77, "{}"));
    assert_eq!(batch_result(&vec![]), Ok(()));
    assert_eq!(
        batch_result(&vec![Err(RouteError("a".to_string())), Ok(()), Err(RouteError("b".to_string())), Ok(())]),
        Err(RouteError("b".to_string()))
    );
    assert_eq!(SchemaMetadataFetcher::boxed("url".to_string()).schema_registry_url(), "url");
}

#[test]
fn publishers_follow_the_method() {
    let kafka = Some("k".to_string());
    let amqp = Some("a".to_string());
    assert_eq!(publisher_for(CommunicationMethod::Kafka, &kafka, &None), PublisherConfig::Kafka { brokers: "k".to_string() });
    assert_eq!(publisher_for(CommunicationMethod::Amqp, &None, &amqp), PublisherConfig::Amqp { exchange_url: "a".to_string() });
    assert_eq!(publisher_for(CommunicationMethod::GRpc, &None, &None), PublisherConfig::Grpc);
}

#[test]
fn edge_registry_methods_in_any_case() {
    assert_eq!(ConsumerMethod::parse("KAFKA"), Ok(ConsumerMethod::Kafka));
    assert_eq!(ConsumerMethod::parse("kafka"), Ok(ConsumerMethod::Kafka));
    assert_eq!(ConsumerMethod::parse("AmQp"), Ok(ConsumerMethod::Amqp));
    assert_eq!(ConsumerMethod::parse("grpc"), Err("Invalid consumer method".to_string()));
    assert_eq!(ConsumerMethod::from_lowercase("amqp"), Ok(ConsumerMethod::Amqp));
    assert_eq!(ConsumerMethod::from_lowercase("KAFKA"), Err("Invalid consumer method".to_string()));
    let c = EdgeConsumer { method: ConsumerMethod::Amqp, mq_host: "h".to_string(), mq_tag: "t".to_string(), mq_source: "s".to_string() };
    assert_eq!(
        c.common(),
        CommonConsumerConfig::Amqp { connection_string: "h".to_string(), consumer_tag: "t".to_string(), queue_name: "s".to_string() }
    );
    let k = EdgeConsumer { method: ConsumerMethod::Kafka, ..c };
    assert_eq!(k.common(), CommonConsumerConfig::Kafka { brokers: "h".to_string(), group_id: "t".to_string(), topic: "s".to_string() });
}

fn rpc_schema(id: &str, schema_type: i32, views: Vec<RpcView>) -> RpcFullSchema {
    RpcFullSchema {
        id: id.to_string(),
        name: "n".to_string(),
        insert_destination: "d".to_string(),
        query_address: "q".to_string(),
        schema_type,
        definitions: vec![("1.0.0".to_string(), JsonValue::Null), ("1.2.0".to_string(), JsonValue::Bool(true))],
        views,
    }
}

fn rpc_view(id: &str) -> RpcView {
    RpcView { id: id.to_string(), name: "v".to_string(), materializer_address: "m".to_string(), fields: vec![("a".to_string(), "b".to_string())] }
}

#[test]
fn api_schemas_from_the_registry() {
    let f = FullSchema::from_rpc(rpc_schema(ID_B, 1, vec![rpc_view(ID_A)])).unwrap();
    assert_eq!(f.id, 42);
    assert_eq!(f.schema_type, SchemaType::Timeseries);
    assert_eq!(f.definitions.len(), 2);
    assert_eq!(f.views[0].id, 0x6ba7b810_9dad_11d1_80b4_00c04fd430c8);
    assert_eq!(FullSchema::from_rpc(rpc_schema(ID_B, 9, vec![])).unwrap_err(), ApiError::InvalidSchemaType(9));
    assert_eq!(FullSchema::from_rpc(rpc_schema("x", 0, vec![])).unwrap_err(), ApiError::InvalidId("x".to_string()));
    assert_eq!(
        FullSchema::from_rpc(rpc_schema(ID_B, 0, vec![rpc_view(ID_A), rpc_view("y"), rpc_view("z")])).unwrap_err(),
        ApiError::InvalidId("y".to_string())
    );
    let view = SchemaView::from_rpc(&rpc_view(ID_B)).unwrap();
    assert_eq!(view.fields, vec![("a".to_string(), "b".to_string())]);
    assert_eq!(SchemaType::from_number(0), Some(SchemaType::DocumentStorage));
    assert_eq!(SchemaType::DocumentStorage.number(), 0);
}

#[test]
fn api_definition_with_the_greatest_version() {
    let f = FullSchema::from_rpc(rpc_schema(ID_B, 0, vec![])).unwrap();
    assert_eq!(f.get_definition(&SemVerReq::any()).unwrap().version, "1.2.0");
    assert_eq!(f.get_definition(&SemVerReq::parse("<1.1").unwrap()).unwrap().version, "1.0.0");
    assert!(f.get_definition(&SemVerReq::parse(">2").unwrap()).is_none());
    assert_eq!(definition_for(&f, "^1").unwrap().version, "1.2.0");
    assert_eq!(definition_for(&f, ">=5").unwrap_err(), ApiError::NoDefinitionMatches);
    assert_eq!(definition_for(&f, "!!").unwrap_err(), ApiError::InvalidVersionReq("!!".to_string()));
    let odd = FullSchema {
        definitions: vec![
            Definition { definition: JsonValue::Null, version: "1.10.0".to_string() },
            Definition { definition: JsonValue::Null, version: "1.9.0".to_string() },
        ],
        ..f
    };
    assert_eq!(odd.get_definition(&SemVerReq::any()).unwrap().version, "1.10.0");
    assert_eq!(odd.get_definition(&SemVerReq::parse("^1").unwrap()).unwrap().version, "1.10.0");
    assert_eq!(odd.get_definition(&SemVerReq::parse("<1.10").unwrap()).unwrap().version, "1.9.0");
}

#[test]
fn api_definition_follows_semantic_versioning() {
    let f = FullSchema::from_rpc(rpc_schema(ID_B, 0, vec![])).unwrap();
    let f = FullSchema {
        definitions: vec![
            Definition { definition: JsonValue::Null, version: "2.1.1".to_string() },
            Definition { definition: JsonValue::Null, version: "2.1.0".to_string() },
        ],
        ..f
    };
    assert_eq!(definition_for(&f, "2.1.0").unwrap().version, "2.1.1");
    assert_eq!(definition_for(&f, "=2.1.0").unwrap().version, "2.1.0");
    assert_eq!(definition_for(&f, "3.0.0").unwrap_err(), ApiError::NoDefinitionMatches);
}

#[test]
fn ids_are_joined_by_commas() {
    assert_eq!(join_ids(&vec![]), "");
    assert_eq!(join_ids(&vec![42]), ID_B);
    assert_eq!(join_ids(&vec![42, 0x6ba7b810_9dad_11d1_80b4_00c04fd430c8]), format!("{},{}", ID_B, ID_A));
}

fn ob_view(relations: Vec<Relation>) -> FullView {
    FullView {
        id: 1,
        base_schema_id: 2,
        name: "v".to_string(),
        materializer_address: "m".to_string(),
        materializer_options: JsonValue::Bool(true),
        fields: vec![],
        relations,
    }
}

#[test]
fn tree_requests_restrict_every_relation_to_the_objects() {
    assert_eq!(filter_texts(&vec![42]), vec![ID_B.to_string()]);
    let view = ob_view(vec![Relation {
        global_id: 42,
        local_id: 1,
        search_for: SearchFor::Children,
        relations: vec![Relation { global_id: 0x6ba7b810_9dad_11d1_80b4_00c04fd430c8, local_id: 2, search_for: SearchFor::Parents, relations: vec![] }],
    }]);
    let requests = resolve_tree_requests(&view, &vec![42]);
    assert_eq!(requests.len(), 1);
    assert_eq!(requests[0].relation_id, ID_B);
    assert_eq!(requests[0].filter_ids, vec![ID_B.to_string()]);
    assert_eq!(requests[0].relations[0].relation_id, ID_A);
    assert_eq!(requests[0].relations[0].filter_ids, vec![ID_B.to_string()]);

    let filters = create_object_filters(&vec![(1, Schema { object_ids: vec![3, 4] }), (2, Schema { object_ids: vec![5] })]);
    assert_eq!(filters, vec![3, 4, 5]);
}

fn row(id: u128) -> RowDefinition {
    RowDefinition { object_ids: vec![id], fields: vec![] }
}

#[test]
fn rows_are_chunked_by_capacity() {
    let view = ob_view(vec![]);
    let chunks = build_materialized_chunks(&view, vec![row(1), row(2), row(3), row(4), row(5)], 2);
    let sizes: Vec<usize> = chunks.iter().map(|c| c.rows.len()).collect();
    assert_eq!(sizes, vec![2, 2, 1]);
    let ids: Vec<u128> = chunks.iter().flat_map(|c| c.rows.iter().map(|r| r.object_ids[0])).collect();
    assert_eq!(ids, vec![1, 2, 3, 4, 5]);
    assert!(chunks.iter().all(|c| c.view_id == 1 && matches!(c.options, JsonValue::Bool(true))));
    assert!(build_materialized_chunks(&view, vec![], 3).is_empty());
}

#[test]
fn object_queries_by_schema_type() {
    assert_eq!(object_query(RegistrySchemaType::DocumentStorage, &vec![]), Ok(ObjectQuery::BySchema));
    assert_eq!(object_query(RegistrySchemaType::DocumentStorage, &vec![42]), Ok(ObjectQuery::Multiple(vec![ID_B.to_string()])));
    assert_eq!(object_query(RegistrySchemaType::Timeseries, &vec![]), Err(ObjectQueryError::TimeseriesNotSupported));
    let builder = ObjectBuilderImpl::new("sr".to_string(), "er".to_string(), 1000);
    assert_eq!(builder.chunk_capacity(), 1000);
    assert_eq!(builder.schema_registry_url(), "sr");
    assert_eq!(builder.edge_registry_url(), "er");
}

#[test]
fn rows_from_object_fields() {
    let object = JsonValue::Object(vec![("x".to_string(), JsonValue::Bool(false)), ("y".to_string(), JsonValue::Null)]);
    let defs = vec![("out".to_string(), FieldDefinition::FieldName("x".to_string()))];
    let row = build_row_def(5, &object, &defs).unwrap();
    assert_eq!(row.object_id, 5);
    assert_eq!(row.fields.len(), 1);
    assert_eq!(row.fields[0].0, "out");
    assert!(matches!(row.fields[0].1, JsonValue::Bool(false)));
    let missing = vec![("out".to_string(), FieldDefinition::FieldName("z".to_string()))];
    assert_eq!(build_row_def(5, &object, &missing).unwrap_err(), RowError::MissingField(5, "z".to_string()));
    assert_eq!(build_row_def(6, &JsonValue::Null, &defs).unwrap_err(), RowError::NotAnObject(6));
}

#[test]
fn object_builder_settings() {
    let settings = ObSettings {
        communication_method: cdl_core::object_builder::settings::CommunicationMethod::Kafka,
        input_port: 1,
        kafka: Some(ConsumerKafkaSettings { brokers: "b".to_string(), group_id: "g".to_string(), ingest_topic: "t".to_string() }),
        amqp: None,
        services: ServicesSettings { schema_registry_url: "s".to_string() },
    };
    assert_eq!(settings.consumer(), CommonConsumerConfig::Kafka { brokers: "b".to_string(), group_id: "g".to_string(), topic: "t".to_string() });
    let args = ObArgs {
        communication_method: ArgsCommunicationMethod::GRpc,
        kafka_brokers: None,
        kafka_group_id: None,
        amqp_connection_string: None,
        amqp_consumer_tag: None,
        grpc_port: Some(9),
        schema_registry_addr: "s".to_string(),
        metrics_port: 1,
    };
    assert_eq!(args.communication_config(), Ok(ParallelConsumerConfig::Grpc { port: 9 }));
    let no_port = ObArgs { grpc_port: None, ..args };
    assert_eq!(no_port.communication_config().unwrap_err().0, "Grpc port");
}

#[test]
fn suppliers_keep_the_registry_address() {
    assert_eq!(ViewSupplier::boxed("a".to_string()).schema_registry_url(), "a");
    assert_eq!(SchemaMetadataSupplier::boxed("b".to_string()).schema_registry_url(), "b");
}

#[test]
fn objects_go_to_their_schema_destination() {
    let event = DataRouterInsertMessage { object_id: 1, schema_id: 2, data: "{\"a\":1}".to_string() };
    let d = route_delivery(&event, "key", Ok("topic".to_string()), 5).unwrap();
    assert_eq!(d.destination, "topic");
    assert_eq!(d.key, "key");
    assert_eq!(d.message, insert_message(&event, 5));
    assert_eq!(route_delivery(&event, "key", Err("no schema".to_string()), 5), Err(RouteError("no schema".to_string())));
}

#[test]
fn output_follows_the_repository_kind() {
    assert_eq!(output_choice(RepositoryKind::Postgres, true, false, false, false), Ok(OutputChoice::Postgres));
    assert_eq!(output_choice(RepositoryKind::VictoriaMetrics, false, true, true, true), Ok(OutputChoice::VictoriaMetrics));
    assert_eq!(output_choice(RepositoryKind::Druid, false, false, true, true), Ok(OutputChoice::Druid));
    assert_eq!(output_choice(RepositoryKind::Druid, true, true, true, false), Err(OutputSetupError::DruidNeedsKafka));
}
