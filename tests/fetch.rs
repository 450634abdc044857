use kafka_wire::fetch_request;
use kafka_wire::fetch_response;
use kafka_wire::header::{read_request_header, read_response_header, FETCH_KEY};
use kafka_wire::record::{read_record_batch, Record};
use kafka_wire::wire::read_i32;

const REQUEST: [u8; 100] = [
    0x00, 0x00, 0x00, 0x60, 0x00, 0x01, 0x00, 0x10, 0x4c, 0x1a, 0x89, 0x27, 0x00, 0x09, 0x6b, 0x61,
    0x66, 0x6b, 0x61, 0x2d, 0x63, 0x6c, 0x69, 0x00, 0x00, 0x00, 0x01, 0xf4, 0x00, 0x00, 0x00, 0x01,
    0x03, 0x20, 0x00, 0x00, 0x00, 0x00, 0x00, 0x00, 0x00, 0x00, 0x00, 0x00, 0x00, 0x02, 0x00, 0x00,
    0x00, 0x00, 0x00, 0x00, 0x40, 0x00, 0x80, 0x00, 0x00, 0x00, 0x00, 0x00, 0x00, 0x86, 0x02, 0x00,
    0x00, 0x00, 0x00, 0xff, 0xff, 0xff, 0xff, 0x00, 0x00, 0x00, 0x00, 0x00, 0x00, 0x00, 0x00, 0xff,
    0xff, 0xff, 0xff, 0xff, 0xff, 0xff, 0xff, 0xff, 0xff, 0xff, 0xff, 0x00, 0x10, 0x00, 0x00, 0x00,
    0x00, 0x01, 0x01, 0x00,
];

const RESPONSE: [u8; 281] = [
    0x00, 0x00, 0x01, 0x15, 0x76, 0x3b, 0x25, 0x54, 0x00, 0x00, 0x00, 0x00, 0x00, 0x00, 0x00, 0x00,
    0x00, 0x00, 0x00, 0x02, 0x00, 0x00, 0x00, 0x00, 0x00, 0x00, 0x40, 0x00, 0x80, 0x00, 0x00, 0x00,
    0x00, 0x00, 0x00, 0x30, 0x03, 0x00, 0x00, 0x00, 0x00, 0x00, 0x00, 0x00, 0x00, 0x00, 0x00, 0x00,
    0x00, 0x00, 0x00, 0xff, 0xff, 0xff, 0xff, 0xff, 0xff, 0xff, 0xff, 0xff, 0xff, 0xff, 0xff, 0xff,
    0xff, 0xff, 0xff, 0x00, 0xff, 0xff, 0xff, 0xff, 0xa8, 0x01, 0x00, 0x00, 0x00, 0x00, 0x00, 0x00,
    0x00, 0x00, 0x00, 0x00, 0x00, 0x44, 0x00, 0x00, 0x00, 0x00, 0x02, 0xab, 0xfd, 0x04, 0x91, 0x00,
    0x00, 0x00, 0x00, 0x00, 0x00, 0x00, 0x00, 0x01, 0x91, 0xe0, 0x5b, 0x6d, 0x8b, 0x00, 0x00, 0x01,
    0x91, 0xe0, 0x5b, 0x6d, 0x8b, 0x00, 0x00, 0x00, 0x00, 0x00, 0x00, 0x00, 0x00, 0x00, 0x00, 0x00,
    0x00, 0x00, 0x00, 0x00, 0x00, 0x00, 0x01, 0x24, 0x00, 0x00, 0x00, 0x01, 0x18, 0x48, 0x65, 0x6c,
    0x6c, 0x6f, 0x20, 0x4b, 0x61, 0x66, 0x6b, 0x61, 0x21, 0x00, 0x00, 0x00, 0x00, 0x00, 0x00, 0x00,
    0x00, 0x10, 0x00, 0x00, 0x00, 0x4b, 0x00, 0x00, 0x00, 0x00, 0x02, 0x55, 0x60, 0x53, 0x93, 0x00,
    0x00, 0x00, 0x00, 0x00, 0x00, 0x00, 0x00, 0x01, 0x91, 0xe0, 0x5b, 0x6d, 0x8b, 0x00, 0x00, 0x01,
    0x91, 0xe0, 0x5b, 0x6d, 0x8b, 0x00, 0x00, 0x00, 0x00, 0x00, 0x00, 0x00, 0x00, 0x00, 0x00, 0x00,
    0x00, 0x00, 0x00, 0x00, 0x00, 0x00, 0x01, 0x32, 0x00, 0x00, 0x00, 0x01, 0x26, 0x48, 0x65, 0x6c,
    0x6c, 0x6f, 0x20, 0x43, 0x6f, 0x64, 0x65, 0x43, 0x72, 0x61, 0x66, 0x74, 0x65, 0x72, 0x73, 0x21,
    0x00, 0x00, 0x00, 0x00, 0x00, 0x01, 0x00, 0x00, 0x00, 0x00, 0x00, 0x00, 0x00, 0x00, 0x00, 0x00,
    0xff, 0xff, 0xff, 0xff, 0xff, 0xff, 0xff, 0xff, 0xff, 0xff, 0xff, 0xff, 0xff, 0xff, 0xff, 0xff,
    0x00, 0xff, 0xff, 0xff, 0xff, 0x00, 0x00, 0x00, 0x00,
];

#[test]
fn test_read_fetch_multi_partition_request() {
    let data: &[u8] = &REQUEST;
    let mut pos: usize = 0;
    let sz_request = read_i32(data, &mut pos).unwrap();
    assert_eq!(sz_request as usize, data.len() - pos);
    let header = read_request_header(data, &mut pos).unwrap();
    assert_eq!(FETCH_KEY, header.request_api_key());
    assert_eq!(16, header.request_api_version());
    let _req = fetch_request::read_request(data, &mut pos, header.request_api_version()).unwrap();
}

#[test]
fn test_read_fetch_multi_partition_response() {
    let data: &[u8] = &RESPONSE;
    let mut pos: usize = 0;
    let sz_request = read_i32(data, &mut pos).unwrap();
    assert_eq!(sz_request as usize, data.len() - pos);
    let _header = read_response_header(data, &mut pos, 1).unwrap();
    let resp = fetch_response::read_response(data, &mut pos, 16).unwrap();
    assert_eq!(1, resp.responses().len(), "responses len");
    assert_eq!(2, resp.responses()[0].partitions().len(), "partitions len of responses[0]");
    {
        let records = resp.responses()[0].partitions()[0].records().unwrap().clone();
        let mut values = Vec::with_capacity(2);
        let mut rpos: usize = 0;
        while rpos < records.len() {
            let rb = read_record_batch(&records, &mut rpos).unwrap();
            values.push(rb);
        }

        assert_eq!(2, values.len(), "record-batches len of responses[0] partitions[0]");
        assert_eq!(
            1,
            values[0].records.len(),
            "records len of responses[0] partitions[0] record-batches[0]"
        );
        if let Record::Value(record_value) = &values[0].records[0] {
            assert_eq!(
                "Hello Kafka!",
                std::str::from_utf8(record_value.value()).unwrap(),
                "value[0] of responses[0] partitions[0] record-batches[0] records[0]"
            )
        } else {
            assert!(false, "responses[0] partitions[0] record-batches[0] is not a value-record");
        };

        assert_eq!(
            1,
            values[1].records.len(),
            "records len of responses[0] partitions[0] record-batches[1]"
        );
        if let Record::Value(record_value) = &values[1].records[0] {
            assert_eq!(
                "Hello CodeCrafters!",
                std::str::from_utf8(record_value.value()).unwrap(),
                "value[0] of responses[0] partitions[0] record-batches[1] records[0]"
            )
        } else {
            assert!(false, "responses[0] partitions[0] record-batches[1] is not a value-record");
        };
    };
    assert!(
        resp.responses()[0].partitions()[1].records().is_none(),
        "responses[0] partitions[0] has empty records"
    );
}

#[test]
fn fetch_request_round_trip_at_v16() {
    let data: &[u8] = &REQUEST;
    let mut pos: usize = 4;
    let header = read_request_header(data, &mut pos).unwrap();
    let start = pos;
    let req = fetch_request::read_request(data, &mut pos, header.request_api_version()).unwrap();
    assert_eq!(pos, data.len());
    assert_eq!(req.max_wait_ms(), 500);
    assert_eq!(req.max_bytes(), 0x0320_0000);
    assert_eq!(req.replica_id(), -1);
    assert_eq!(req.topics().len(), 1);
    assert_eq!(req.topics()[0].partitions()[0].partition_max_bytes(), 0x0010_0000);
    let mut out = Vec::new();
    fetch_request::write_request(&mut out, &req);
    assert_eq!(&out[..], &data[start..]);
}
