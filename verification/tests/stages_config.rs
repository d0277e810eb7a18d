use dozer_runtime::config::{
    ConfigCell, ConfigValue, DataFusionConfig, EthConfig, EthFilter, KafkaConfig, LocalDetails,
    LocalStorage, S3Details, S3Storage, SnowflakeConfig,
};
use dozer_runtime::node::{ChannelForwarder, ExecutionContext, Processor, Sink};
use dozer_runtime::sample::{SampleProcessor, SampleSink};
use dozer_runtime::storage::Environment;
use dozer_runtime::types::{
    BufferingForwarder, IngestionMessage, IngestorError, IngestorForwarder, Operation,
};

fn text(cell: &ConfigCell) -> &str {
    match cell {
        ConfigCell::Value(ConfigValue::Text(s)) => s,
        _ => panic!("expected a text cell"),
    }
}

#[test]
fn sink_samples_every_thousandth_event() {
    let mut sink = SampleSink::new(0, None);
    let mut ctx = ExecutionContext { env: Environment::new() };
    for id in 0..3000u64 {
        let op = Operation { id, payload: vec![] };
        sink.process(None, op, &mut ctx).unwrap();
    }
    assert_eq!(sink.samples, vec![0, 1000, 2000]);
}

#[test]
fn processor_broadcasts_every_input() {
    let mut proc = SampleProcessor::new(1, None, Some(vec![10, 20]));
    let mut ctx = ExecutionContext { env: Environment::new() };
    let mut fw = ChannelForwarder::new();
    fw.add_edge(10, 16);
    fw.add_edge(20, 16);
    for id in 0..3u64 {
        let op = Operation { id, payload: vec![7] };
        proc.process(None, op, &mut ctx, &mut fw).unwrap();
    }
    assert_eq!(fw.channels[0].len(), 3);
    assert_eq!(fw.channels[1].len(), 3);
    for k in 0..2 {
        for id in 0..3u64 {
            let expected = IngestionMessage::OperationEvent(Operation { id, payload: vec![7] });
            assert_eq!(fw.channels[k].recv(), Some(expected));
        }
    }
}

#[test]
fn closed_edge_is_a_fatal_channel_error_naming_the_port() {
    let mut proc = SampleProcessor::new(2, None, Some(vec![10, 20]));
    let mut ctx = ExecutionContext { env: Environment::new() };
    let mut fw = ChannelForwarder::new();
    fw.add_edge(10, 16);
    fw.add_edge(20, 16);
    fw.channels[1].close();
    let op = Operation { id: 0, payload: vec![] };
    let err = proc.process(None, op, &mut ctx, &mut fw).unwrap_err();
    assert_eq!(err, "failed to send message on channel port 20");
    // nothing was delivered anywhere
    assert_eq!(fw.channels[0].len(), 0);
    assert_eq!(fw.channels[1].len(), 0);
}

#[test]
fn stage_port_declarations_are_immutable_copies() {
    let sink = SampleSink::new(3, Some(vec![1, 2]));
    assert_eq!(sink.get_input_ports(), Some(vec![1, 2]));
    let proc = SampleProcessor::new(4, None, Some(vec![8]));
    assert_eq!(proc.get_input_ports(), None);
    assert_eq!(proc.get_output_ports(), Some(vec![8]));
}

#[test]
fn buffering_forwarder_keeps_arrival_order() {
    let mut fw = BufferingForwarder::new();
    fw.forward(((1, 1), Operation { id: 1, payload: vec![] })).unwrap();
    fw.forward(((1, 2), Operation { id: 2, payload: vec![] })).unwrap();
    assert_eq!(fw.buffer.len(), 2);
    assert_eq!(fw.buffer[0].0, (1, 1));
    assert_eq!(fw.buffer[1].0, (1, 2));
    let err = IngestorError::ChannelError("Failed to send message on channel".to_string());
    assert_eq!(err.message(), "Failed to send message on channel");
}

#[test]
fn message_duplicate_is_equal() {
    let m = IngestionMessage::OperationEvent(Operation { id: 9, payload: vec![1, 2, 3] });
    assert_eq!(m.duplicate(), m);
}

#[test]
fn kafka_table_uses_placeholder_without_registry() {
    let with = KafkaConfig {
        broker: "broker:9092".to_string(),
        schema_registry_url: Some("http://registry".to_string()),
    };
    let t = with.convert_to_table();
    assert_eq!(t.rows.len(), 2);
    assert_eq!(t.rows[0].label, "broker");
    assert_eq!(text(&t.rows[0].cell), "broker:9092");
    assert_eq!(t.rows[1].label, "schema registry url");
    assert_eq!(text(&t.rows[1].cell), "http://registry");

    let without = KafkaConfig { broker: "b".to_string(), schema_registry_url: None };
    let t = without.convert_to_table();
    assert_eq!(text(&t.rows[1].cell), "--------");
}

#[test]
fn snowflake_table_masks_the_password() {
    let cfg = SnowflakeConfig {
        server: "s".to_string(),
        port: "443".to_string(),
        user: "u".to_string(),
        password: "pw".to_string(),
        database: "d".to_string(),
        schema: "sc".to_string(),
        warehouse: "w".to_string(),
        driver: None,
    };
    let t = cfg.convert_to_table();
    assert_eq!(t.rows.len(), 8);
    assert_eq!(t.rows[3].label, "password");
    assert_eq!(text(&t.rows[3].cell), "************");
    assert_eq!(t.rows[7].label, "driver");
    assert_eq!(text(&t.rows[7].cell), "default");
}

#[test]
fn eth_table_spells_out_the_filter() {
    let cfg = EthConfig {
        filter: Some(EthFilter {
            from_block: Some(42),
            to_block: None,
            addresses: vec!["0xabc".to_string()],
            topics: vec![],
        }),
        wss_url: "wss://node".to_string(),
        contracts: vec![],
    };
    let t = cfg.convert_to_table();
    assert_eq!(t.rows.len(), 2);
    assert_eq!(t.rows[0].label, "wss_url");
    assert_eq!(text(&t.rows[0].cell), "wss://node");
    assert_eq!(t.rows[1].label, "filter");
    match &t.rows[1].cell {
        ConfigCell::Section(entries) => {
            assert_eq!(entries.len(), 4);
            assert_eq!(entries[0].label, "from_block");
            assert_eq!(entries[0].value, ConfigValue::Text("42".to_string()));
            assert_eq!(entries[1].label, "to_block");
            assert_eq!(entries[1].value, ConfigValue::Text("-------".to_string()));
            assert_eq!(entries[2].label, "addresses");
            assert_eq!(entries[2].value, ConfigValue::Items(vec!["0xabc".to_string()]));
            assert_eq!(entries[3].label, "topics");
            assert_eq!(entries[3].value, ConfigValue::Items(vec![]));
        },
        _ => panic!("expected a filter section"),
    }

    let bare = EthConfig { filter: None, wss_url: "wss://x".to_string(), contracts: vec![] };
    assert_eq!(bare.convert_to_table().rows.len(), 1);
}

#[test]
fn storage_tables_follow_their_details() {
    let df = DataFusionConfig {
        access_key_id: "ak".to_string(),
        secret_access_key: "sk".to_string(),
        region: "r".to_string(),
        bucket_name: "b".to_string(),
    };
    let t = df.convert_to_table();
    assert_eq!(t.rows.len(), 4);
    assert_eq!(text(&t.rows[0].cell), "ak");

    let s3 = S3Storage { details: None, tables: vec![] };
    assert_eq!(s3.convert_to_table().rows.len(), 0);
    let s3 = S3Storage {
        details: Some(S3Details {
            access_key_id: "a".to_string(),
            secret_access_key: "s".to_string(),
            region: "r".to_string(),
            bucket_name: "b".to_string(),
        }),
        tables: vec![],
    };
    assert_eq!(s3.convert_to_table().rows.len(), 4);

    let local = LocalStorage { details: None, tables: vec![] };
    assert_eq!(local.convert_to_table().rows.len(), 0);
    let local = LocalStorage {
        details: Some(LocalDetails { path: "/data".to_string() }),
        tables: vec![],
    };
    let t = local.convert_to_table();
    assert_eq!(t.rows.len(), 1);
    assert_eq!(t.rows[0].label, "path");
    assert_eq!(text(&t.rows[0].cell), "/data");
}
