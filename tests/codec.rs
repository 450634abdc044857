use kafka_wire::metadata::{read_topic_record, read_value_data, write_topic_record, write_value_data, TopicRecord, ValueData};
use kafka_wire::error::Error;
use kafka_wire::record::{read_record_batch, write_record_batch, ControlRecord, Header, Record, RecordBatch, ValueRecord};
use kafka_wire::tagged::{read_tagged_fields, sort_by_key, write_tagged_fields, write_tagged_fields_sorted, TaggedField};
use kafka_wire::types::{
    read_compact_nullable_string, read_compact_string, read_nullable_string, read_uuid,
    write_compact_nullable_string, write_nullable_string, write_uuid, Uuid,
};
use kafka_wire::varint::{
    read_unsigned_varint, read_unsigned_varlong, read_varint, read_varlong, write_unsigned_varint,
    write_unsigned_varlong, write_varint, write_varlong,
};
use kafka_wire::wire::{read_i16, read_i32, read_i64, read_u16, read_u32, write_i16, write_i32, write_i64, write_u16, write_u32};

#[test]
fn fixed_width_integers_are_big_endian_and_read_back() {
    let mut out = Vec::new();
    write_i16(&mut out, -2);
    write_u16(&mut out, 0xabcd);
    write_i32(&mut out, 0x0102_0304);
    write_u32(&mut out, 0xdead_beef);
    write_i64(&mut out, -1);
    assert_eq!(&out[..4], &[0xff, 0xfe, 0xab, 0xcd]);
    assert_eq!(&out[4..8], &[1, 2, 3, 4]);
    let mut pos = 0;
    assert_eq!(read_i16(&out, &mut pos).unwrap(), -2);
    assert_eq!(read_u16(&out, &mut pos).unwrap(), 0xabcd);
    assert_eq!(read_i32(&out, &mut pos).unwrap(), 0x0102_0304);
    assert_eq!(read_u32(&out, &mut pos).unwrap(), 0xdead_beef);
    assert_eq!(read_i64(&out, &mut pos).unwrap(), -1);
    assert_eq!(pos, out.len());
}

#[test]
fn short_input_is_buffer_underflow() {
    let data = [0u8, 1, 2];
    let mut pos = 0;
    assert!(matches!(read_i32(&data, &mut pos), Err(Error::BufferUnderflow)));
}

#[test]
fn unsigned_varint_encoding_and_round_trip() {
    let mut out = Vec::new();
    write_unsigned_varint(&mut out, 300);
    assert_eq!(out, vec![0xac, 0x02]);
    for v in [0u32, 1, 127, 128, 16383, 16384, 0x0fff_ffff, u32::MAX] {
        let mut out = Vec::new();
        write_unsigned_varint(&mut out, v);
        assert!(out.len() <= 5);
        let mut pos = 0;
        assert_eq!(read_unsigned_varint(&out, &mut pos).unwrap(), v);
        assert_eq!(pos, out.len());
    }
}

#[test]
fn unsigned_varint_with_fifth_continuation_bit_is_refused() {
    let data = [0xffu8, 0xff, 0xff, 0xff, 0xff, 0x01];
    let mut pos = 0;
    assert!(matches!(read_unsigned_varint(&data, &mut pos), Err(Error::IllegalArgument(_))));
}

#[test]
fn varlong_and_zigzag_round_trip() {
    let mut out = Vec::new();
    write_varint(&mut out, -1);
    assert_eq!(out, vec![0x01]);
    let mut out = Vec::new();
    write_varint(&mut out, 1);
    assert_eq!(out, vec![0x02]);
    for v in [0i64, -1, 1, i64::MIN, i64::MAX, 1234567890123] {
        let mut out = Vec::new();
        write_varlong(&mut out, v);
        let mut pos = 0;
        assert_eq!(read_varlong(&out, &mut pos).unwrap(), v);
    }
    for v in [0i32, -1, i32::MIN, i32::MAX] {
        let mut out = Vec::new();
        write_varint(&mut out, v);
        let mut pos = 0;
        assert_eq!(read_varint(&out, &mut pos).unwrap(), v);
    }
    let mut out = Vec::new();
    write_unsigned_varlong(&mut out, u64::MAX);
    assert_eq!(out.len(), 10);
    let mut pos = 0;
    assert_eq!(read_unsigned_varlong(&out, &mut pos).unwrap(), u64::MAX);
}

#[test]
fn varlong_with_tenth_continuation_bit_is_refused() {
    let data = [0xffu8; 11];
    let mut pos = 0;
    assert!(matches!(read_unsigned_varlong(&data, &mut pos), Err(Error::IllegalArgument(_))));
}

#[test]
fn strings_round_trip_and_null_forms() {
    let mut out = Vec::new();
    write_nullable_string(&mut out, Some(b"abc"));
    write_nullable_string(&mut out, None);
    write_compact_nullable_string(&mut out, Some(b""));
    write_compact_nullable_string(&mut out, None);
    assert_eq!(out, vec![0, 3, b'a', b'b', b'c', 0xff, 0xff, 1, 0]);
    let mut pos = 0;
    assert_eq!(read_nullable_string(&out, &mut pos).unwrap().0, Some(b"abc".to_vec()));
    assert_eq!(read_nullable_string(&out, &mut pos).unwrap().0, None);
    assert_eq!(read_compact_nullable_string(&out, &mut pos).unwrap().0, Some(vec![]));
    assert_eq!(read_compact_nullable_string(&out, &mut pos).unwrap().0, None);
}

#[test]
fn null_compact_string_at_non_nullable_position_is_refused() {
    let data = [0u8];
    let mut pos = 0;
    assert!(matches!(read_compact_string(&data, &mut pos, "non-nullable field name was serialized as null"), Err(Error::IllegalArgument("non-nullable field name was serialized as null"))));
}

#[test]
fn uuid_is_sixteen_big_endian_bytes() {
    let u = Uuid::from_u128(0x0011_2233_4455_6677_8899_aabb_ccdd_eeff);
    let mut out = Vec::new();
    write_uuid(&mut out, u);
    assert_eq!(out[0], 0x00);
    assert_eq!(out[15], 0xff);
    let mut pos = 0;
    assert_eq!(read_uuid(&out, &mut pos).unwrap(), u);
}

#[test]
fn tagged_fields_round_trip() {
    let fields = vec![TaggedField::new(0, vec![7]), TaggedField::new(5, vec![1, 2, 3])];
    let mut out = Vec::new();
    write_tagged_fields(&mut out, &fields);
    assert_eq!(out, vec![2, 0, 1, 7, 5, 3, 1, 2, 3]);
    let mut pos = 0;
    let back = read_tagged_fields(&out, &mut pos).unwrap();
    assert_eq!(back.0.len(), 2);
    assert_eq!(back.0[1].key(), 5);
    assert_eq!(back.0[1].data(), &vec![1, 2, 3]);
}

fn sample_batch() -> RecordBatch {
    let rec = ValueRecord::new(0, 5, 1, Some(b"k".to_vec()), b"Hello".to_vec(), vec![Header::new("h", "v")]);
    RecordBatch {
        base_offset: 7,
        partition_leader_epoch: 1,
        magic_byte: 2,
        attributes: 0,
        last_offset_delta: 0,
        base_timestamp: 100,
        max_timestamp: 200,
        producer_id: -1,
        producer_epoch: -1,
        base_sequence: -1,
        records: vec![Record::Value(rec)],
    }
}

#[test]
fn record_batch_round_trip_and_crc() {
    let mut out = Vec::new();
    write_record_batch(&mut out, &sample_batch());
    let batch_length = u32::from_be_bytes([out[8], out[9], out[10], out[11]]) as usize;
    assert_eq!(batch_length, out.len() - 12);
    let crc = u32::from_be_bytes([out[17], out[18], out[19], out[20]]);
    assert_eq!(crc, crc32c::crc32c(&out[21..]));
    let mut pos = 0;
    let back = read_record_batch(&out, &mut pos).unwrap();
    assert_eq!(pos, out.len());
    assert_eq!(back.base_offset, 7);
    assert_eq!(back.max_timestamp, 200);
    match &back.records[0] {
        Record::Value(v) => {
            assert_eq!(v.value(), b"Hello");
            assert_eq!(v.key(), Some(&b"k"[..]));
            assert_eq!(v.timestamp_delta(), 5);
            assert_eq!(v.headers()[0].value(), b"v");
        }
        Record::Control(_) => panic!("expected a value record"),
    }
}

#[test]
fn record_batch_with_flipped_crc_bit_is_refused() {
    let mut out = Vec::new();
    write_record_batch(&mut out, &sample_batch());
    out[20] ^= 0x01;
    let mut pos = 0;
    assert!(matches!(read_record_batch(&out, &mut pos), Err(Error::IllegalArgument(_))));
    assert_eq!(pos, 0);
}

#[test]
fn incomplete_record_batch_is_underflow_without_consuming() {
    let mut out = Vec::new();
    write_record_batch(&mut out, &sample_batch());
    let mut pos = 0;
    assert!(matches!(read_record_batch(&out[..out.len() - 1], &mut pos), Err(Error::BufferUnderflow)));
    assert_eq!(pos, 0);
}

#[test]
fn control_batch_round_trips_and_count_other_than_one_is_refused() {
    let b = RecordBatch {
        base_offset: 0,
        partition_leader_epoch: 0,
        magic_byte: 2,
        attributes: 0x10,
        last_offset_delta: 0,
        base_timestamp: 0,
        max_timestamp: 0,
        producer_id: 0,
        producer_epoch: 0,
        base_sequence: 0,
        records: vec![Record::Control(ControlRecord::new(0, 1))],
    };
    let mut out = Vec::new();
    write_record_batch(&mut out, &b);
    let mut pos = 0;
    let back = read_record_batch(&out, &mut pos).unwrap();
    assert!(matches!(back.records[0], Record::Control(c) if c.record_type() == 1));
    let count_at = 21 + 36;
    out[count_at + 3] = 2;
    let crc = crc32c::crc32c(&out[21..]);
    out[17..21].copy_from_slice(&crc.to_be_bytes());
    let mut pos = 0;
    assert!(matches!(read_record_batch(&out, &mut pos), Err(Error::IllegalArgument(_))));
}

#[test]
fn tagged_fields_are_written_in_ascending_key_order() {
    let fields = vec![TaggedField::new(5, vec![1]), TaggedField::new(0, vec![7]), TaggedField::new(2, vec![])];
    let mut out = Vec::new();
    write_tagged_fields_sorted(&mut out, fields);
    assert_eq!(out, vec![3, 0, 1, 7, 2, 0, 5, 1, 1]);
    let sorted = sort_by_key(vec![TaggedField::new(9, vec![]), TaggedField::new(1, vec![])]);
    assert_eq!(sorted[0].key(), 1);
    assert_eq!(sorted[1].key(), 9);
}

#[test]
fn topic_record_and_value_data_read_back() {
    let t = TopicRecord::new("foo", Uuid::from_u128(9));
    let mut body = Vec::new();
    write_topic_record(&mut body, &t);
    let v = ValueData::new(1, 2, 0, body);
    let mut out = Vec::new();
    write_value_data(&mut out, &v);
    let back = read_value_data(&out).unwrap();
    assert_eq!(back.record_type(), 2);
    let mut pos = 0;
    let tr = read_topic_record(back.data(), &mut pos, 0).unwrap();
    assert_eq!(tr.name(), b"foo");
    assert_eq!(tr.topic_id(), Uuid::from_u128(9));
    let b = RecordBatch::new(1, 0, 2, 0, 0, 0, 0, -1, -1, -1, vec![]);
    assert_eq!(b.base_offset(), 1);
    assert!(!b.is_control_batch());
}
