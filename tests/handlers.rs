use kafka_wire::api_versions;
use kafka_wire::describe;
use kafka_wire::error::Error;
use kafka_wire::fetch::{process_request as fetch_process, LogSegment};
use kafka_wire::fetch_request::{FetchPartition, FetchTopic, Request as FetchRequest, TopicRef};
use kafka_wire::fetch_response::write_response as write_fetch_response;
use kafka_wire::header::RequestHeader;
use kafka_wire::message::{encode_response_frame, process_request, read_request, KafkaRequest, KafkaResponse};
use kafka_wire::metadata::load_catalog;
use kafka_wire::model::{Catalog, Partition, Topic};
use kafka_wire::record::{write_record_batch, Record, RecordBatch, ValueRecord};
use kafka_wire::types::Uuid;

fn api_versions_request_frame(version: i16, correlation_id: i32) -> Vec<u8> {
    let mut body = Vec::new();
    body.extend_from_slice(&18i16.to_be_bytes());
    body.extend_from_slice(&version.to_be_bytes());
    body.extend_from_slice(&correlation_id.to_be_bytes());
    body.extend_from_slice(&9i16.to_be_bytes());
    body.extend_from_slice(b"kafka-cli");
    if (3..=4).contains(&version) {
        body.push(0);
        body.push(10);
        body.extend_from_slice(b"kafka-cli");
        body.push(4);
        body.extend_from_slice(b"0.1");
        body.push(0);
    }
    let mut frame = (body.len() as i32).to_be_bytes().to_vec();
    frame.extend_from_slice(&body);
    frame
}

#[test]
fn api_versions_v4_happy_path() {
    let frame = api_versions_request_frame(4, 0x6fdf_aef4);
    let mut pos = 0;
    let (header, request) = read_request(&frame, &mut pos).unwrap();
    assert_eq!(pos, frame.len());
    let response = process_request(&request, &Ok(Catalog::new()), &[]).unwrap();
    let bytes = encode_response_frame(&header, &response).unwrap();
    let expected: Vec<u8> = vec![
        0, 0, 0, 0x21, 0x6f, 0xdf, 0xae, 0xf4, 0, 0, 4, 0, 1, 0, 4, 0, 17, 0, 0, 18, 0, 0, 0, 4, 0,
        0, 75, 0, 0, 0, 0, 0, 0, 0, 0, 0, 0,
    ];
    assert_eq!(bytes, expected);
}

#[test]
fn api_versions_unsupported_version_gives_v0_error() {
    let r = api_versions::process_request(&api_versions::Request {
        version: 99,
        client_software_name: None,
        client_software_version: None,
    });
    assert_eq!(r.error_code(), 35);
    assert_eq!(r.version, 0);
    assert!(r.api_keys().is_empty());
    assert_eq!(r.throttle_time_ms(), 0);
    let frame = api_versions_request_frame(99, 7);
    let mut pos = 0;
    let (header, request) = read_request(&frame, &mut pos).unwrap();
    let response = process_request(&request, &Ok(Catalog::new()), &[]).unwrap();
    let bytes = encode_response_frame(&header, &response).unwrap();
    assert_eq!(bytes, vec![0, 0, 0, 10, 0, 0, 0, 7, 0, 35, 0, 0, 0, 0]);
}

#[test]
fn unknown_api_key_closes_the_connection() {
    let mut body = Vec::new();
    body.extend_from_slice(&99i16.to_be_bytes());
    body.extend_from_slice(&0i16.to_be_bytes());
    body.extend_from_slice(&1i32.to_be_bytes());
    body.extend_from_slice(&(-1i16).to_be_bytes());
    let mut frame = (body.len() as i32).to_be_bytes().to_vec();
    frame.extend_from_slice(&body);
    let mut pos = 0;
    match read_request(&frame, &mut pos) {
        Err(e) => {
            assert!(matches!(e, Error::UnknownRequest(99)));
            assert!(e.closes_connection());
        }
        Ok(_) => panic!("an unknown key must be refused"),
    }
    assert!(!Error::BufferUnderflow.closes_connection());
}

#[test]
fn partial_frame_asks_for_more() {
    let frame = api_versions_request_frame(4, 1);
    let mut pos = 0;
    assert!(matches!(read_request(&frame[..frame.len() - 1], &mut pos), Err(Error::BufferUnderflow)));
    assert_eq!(pos, 0);
}

fn catalog_with_foo(id: Uuid) -> Catalog {
    let mut c = Catalog::new();
    let mut t = Topic::new(id, "foo".to_string());
    t.add_partition(Partition::new(0, 1, 0, vec![1], vec![1], None, None));
    t.add_partition(Partition::new(1, 1, 0, vec![1], vec![1], None, None));
    c.insert(t);
    c
}

#[test]
fn describe_unknown_topic() {
    let req = describe::Request::v0(vec![describe::TopicRequest::v0(b"nope".to_vec())], 100, None);
    let r = describe::process_request(&req, &Catalog::new());
    assert_eq!(r.topics().len(), 1);
    let t = &r.topics()[0];
    assert_eq!(t.error_code(), 3);
    assert_eq!(t.name(), Some(&b"nope"[..]));
    assert_eq!(t.topic_id(), Uuid::nil());
    assert!(t.partitions().is_empty());
    assert_eq!(t.topic_authorized_operations(), 0x0df8);
}

#[test]
fn describe_known_topic_with_two_partitions() {
    let id = Uuid::from_u128(0x1234);
    let req = describe::Request::v0(vec![describe::TopicRequest::v0(b"foo".to_vec())], 100, None);
    let r = describe::process_request(&req, &catalog_with_foo(id));
    let t = &r.topics()[0];
    assert_eq!(t.error_code(), 0);
    assert_eq!(t.name(), Some(&b"foo"[..]));
    assert_eq!(t.topic_id(), id);
    assert_eq!(t.partitions().len(), 2);
    assert_eq!(t.partitions()[0].partition_index(), 0);
    assert_eq!(t.partitions()[1].partition_index(), 1);
    let mut out = Vec::new();
    describe::write_response(&mut out, &r).unwrap();
    assert_eq!(&out[..5], &[0, 0, 0, 0, 2]);
}

#[test]
fn metadata_failure_fails_describe_but_not_api_versions() {
    let failed: Result<Catalog, Error> = Err(Error::IOError("missing".to_string()));
    let req = KafkaRequest::DescribeTopicPartitions(describe::Request::v0(vec![], 0, None));
    assert!(matches!(process_request(&req, &failed, &[]), Err(Error::IOError(s)) if s == "missing"));
    let req = KafkaRequest::ApiVersions(api_versions::Request::v0());
    assert!(matches!(process_request(&req, &failed, &[]), Ok(KafkaResponse::ApiVersions(_))));
}

fn metadata_value(kind: u8, data: Vec<u8>) -> Vec<u8> {
    let mut v = vec![1, kind, 0];
    v.extend_from_slice(&data);
    v
}

#[test]
fn catalog_from_metadata_log() {
    let id: u128 = 0xabcd;
    let mut topic = vec![4];
    topic.extend_from_slice(b"foo");
    topic.extend_from_slice(&id.to_be_bytes());
    topic.push(0);
    let mut part = Vec::new();
    part.extend_from_slice(&7i32.to_be_bytes());
    part.extend_from_slice(&id.to_be_bytes());
    part.extend_from_slice(&[2, 0, 0, 0, 1]);
    part.extend_from_slice(&[2, 0, 0, 0, 1]);
    part.push(1);
    part.push(1);
    part.extend_from_slice(&1i32.to_be_bytes());
    part.extend_from_slice(&3i32.to_be_bytes());
    part.extend_from_slice(&0i32.to_be_bytes());
    part.push(0);
    let records = vec![
        Record::Value(ValueRecord::new(0, 0, 0, None, metadata_value(2, topic), vec![])),
        Record::Value(ValueRecord::new(0, 0, 1, None, metadata_value(3, part), vec![])),
    ];
    let batch = RecordBatch {
        base_offset: 0,
        partition_leader_epoch: 0,
        magic_byte: 2,
        attributes: 0,
        last_offset_delta: 1,
        base_timestamp: 0,
        max_timestamp: 0,
        producer_id: -1,
        producer_epoch: -1,
        base_sequence: -1,
        records,
    };
    let mut log = Vec::new();
    write_record_batch(&mut log, &batch);
    log.extend_from_slice(&[0, 0, 0]);
    let c = load_catalog(&log).unwrap();
    assert_eq!(c.len(), 1);
    let t = c.topic(0);
    assert_eq!(t.name(), "foo");
    assert_eq!(t.id(), Uuid::from_u128(id));
    assert_eq!(t.partitions().len(), 1);
    assert_eq!(t.partitions()[0].id(), 7);
    assert_eq!(t.partitions()[0].leader(), 1);
    assert_eq!(t.partitions()[0].leader_epoch(), 3);
    assert_eq!(t.partitions()[0].replicas(), &[1]);
}

fn fetch_request_for(topic: TopicRef, version: i16) -> FetchRequest {
    FetchRequest {
        version,
        replica_id: -1,
        max_wait_ms: 500,
        min_bytes: 1,
        max_bytes: 1000,
        isolation_level: 0,
        session_id: 0,
        session_epoch: -1,
        topics: vec![FetchTopic {
            version,
            topic,
            partitions: vec![FetchPartition {
                version,
                partition: 0,
                current_leader_epoch: -1,
                fetch_offset: 0,
                last_fetched_epoch: -1,
                log_start_offset: -1,
                partition_max_bytes: 1000,
                replica_directory_id: Uuid::nil(),
            }],
        }],
        forgotten_topics_data: Some(vec![]),
        rack_id: Some(vec![]),
        cluster_id: None,
        replica_state: None,
    }
}

#[test]
fn fetch_known_topic_returns_segment_bytes() {
    let id = Uuid::from_u128(0x77);
    let catalog = catalog_with_foo(id);
    let segs = vec![LogSegment { topic_id: id, partition_id: 1, records: vec![9, 9, 9] }];
    let r = fetch_process(&fetch_request_for(TopicRef::Id(id), 16), &catalog, &segs);
    assert_eq!(r.throttle_time_ms(), 0);
    assert_eq!(r.error_code(), 0);
    assert_eq!(r.session_id(), 0);
    let parts = r.responses()[0].partitions();
    assert_eq!(parts.len(), 2);
    assert_eq!(parts[0].partition_index(), 0);
    assert!(parts[0].records().is_none());
    assert_eq!(parts[1].records(), Some(&vec![9, 9, 9]));
    assert_eq!(parts[1].high_watermark(), 0);
    let mut out = Vec::new();
    write_fetch_response(&mut out, &r).unwrap();
}

#[test]
fn fetch_unknown_topic_gives_error_100() {
    let r = fetch_process(&fetch_request_for(TopicRef::Id(Uuid::from_u128(5)), 16), &Catalog::new(), &[]);
    let parts = r.responses()[0].partitions();
    assert_eq!(parts.len(), 1);
    assert_eq!(parts[0].error_code(), 100);
    let r = fetch_process(&fetch_request_for(TopicRef::Name(b"foo".to_vec()), 12), &catalog_with_foo(Uuid::nil()), &[]);
    assert_eq!(r.responses()[0].partitions().len(), 2);
}

#[test]
fn request_header_v2_round_trip() {
    let h = RequestHeader::v2(18, 4, 42, Some(b"cli".to_vec()));
    let mut out = Vec::new();
    kafka_wire::header::write_request_header(&mut out, &h);
    let mut pos = 0;
    let back = kafka_wire::header::read_request_header(&out, &mut pos).unwrap();
    assert_eq!(pos, out.len());
    assert_eq!(back.correlation_id(), 42);
    assert_eq!(back.client_id(), Some(&b"cli"[..]));
}

#[test]
fn null_client_software_name_is_refused_with_its_field() {
    let data = [0x00u8, 0x01, 0x00];
    let mut pos = 0;
    match api_versions::read_request(&data, &mut pos, 3) {
        Err(Error::IllegalArgument(reason)) => {
            assert_eq!(reason, "non-nullable field clientSoftwareName was serialized as null")
        }
        _ => panic!("a null name must be refused"),
    }
}

#[test]
fn api_versions_response_reads_back() {
    for v in 0..=4i16 {
        let mut keys = Vec::new();
        keys.push(api_versions::ApiKey { version: v, api_key: 18, min_version: 0, max_version: 4 });
        let mut r = api_versions::Response::new(v, 0, keys, 7);
        if v >= 3 {
            r.finalized_features_epoch = Some(42);
            r.zk_migration_ready = Some(true);
            r.supported_features = Some(vec![api_versions::SupportedFeature::v3(b"f".to_vec(), 1, 2)]);
        }
        let mut out = Vec::new();
        api_versions::write_response(&mut out, &r);
        out.push(0xee);
        let mut pos = 0;
        let back = api_versions::read_response(&out, &mut pos, v).unwrap();
        assert_eq!(pos, out.len() - 1);
        assert!(back.api_keys() == r.api_keys());
        assert_eq!(back.throttle_time_ms(), if v >= 1 { 7 } else { 0 });
        if v >= 3 {
            assert_eq!(back.finalized_features_epoch(), Some(42));
            assert_eq!(back.zk_migration_ready(), Some(true));
            assert_eq!(back.supported_features().unwrap()[0].name(), b"f");
            assert_eq!(back.supported_features().unwrap()[0].max_version(), 2);
        }
    }
}

#[test]
fn fetch_response_with_node_endpoints_reads_back() {
    let id = Uuid::from_u128(0x77);
    let segs = vec![LogSegment { topic_id: id, partition_id: 0, records: vec![1, 2] }];
    let mut r = fetch_process(&fetch_request_for(TopicRef::Id(id), 16), &catalog_with_foo(id), &segs);
    r.node_endpoints = Some(vec![kafka_wire::fetch_response::NodeEndpoint {
        node_id: 1,
        host: b"localhost".to_vec(),
        port: 9092,
        rack: None,
    }]);
    let mut out = Vec::new();
    write_fetch_response(&mut out, &r).unwrap();
    let mut pos = 0;
    let back = kafka_wire::fetch_response::read_response(&out, &mut pos, 16).unwrap();
    assert_eq!(pos, out.len());
    let ns = back.node_endpoints().unwrap();
    assert_eq!(ns[0].host(), b"localhost");
    assert_eq!(ns[0].port(), 9092);
    assert_eq!(back.responses()[0].partitions()[0].records(), Some(&vec![1, 2]));
}
