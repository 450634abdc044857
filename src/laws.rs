use vstd::prelude::*;

use crate::error::Error;
use crate::header::{parse_request_header, API_VERSIONS_KEY, DESCRIBE_TOPIC_PARTITIONS_KEY, FETCH_KEY};
use crate::message::{parse_body, parse_frame};
use crate::record::{crc32c_of, parse_record_batch, parse_batch_body, is_control};
use crate::types::parse_compact_string;
use crate::varint::{parse_uvarint, parse_uvarint_from};
use crate::wire::{need, parse_i32, parse_u16, parse_u32};

verus! {

/// An unsigned varint whose first five bytes all have the high bit set is refused with
/// `IllegalArgument`.
pub proof fn lemma_uvarint_fifth_byte_refused(s: Seq<u8>, p: int)
    requires
        0 <= p,
        need(s, p, 5),
        forall|i: int| p <= i < p + 5 ==> s[i] >= 128,
    ensures
        parse_uvarint(s, p) == Err::<(u32, int), Error>(
            Error::IllegalArgument("Invalid VarInt, msb of 5th byte is set"),
        ),
{
    assert(s[p] >= 128 && s[p + 1] >= 128 && s[p + 2] >= 128 && s[p + 3] >= 128 && s[p + 4] >= 128);
    let a0 = 0u32;
    let a1 = a0 | (((s[p] & 0x7fu8) as u32) << 0u32);
    let a2 = a1 | (((s[p + 1] & 0x7fu8) as u32) << 7u32);
    let a3 = a2 | (((s[p + 2] & 0x7fu8) as u32) << 14u32);
    let a4 = a3 | (((s[p + 3] & 0x7fu8) as u32) << 21u32);
    assert(parse_uvarint_from(s, p + 4, 4, a4) is Err);
    assert(parse_uvarint_from(s, p + 3, 3, a3) == parse_uvarint_from(s, p + 4, 4, a4));
    assert(parse_uvarint_from(s, p + 2, 2, a2) == parse_uvarint_from(s, p + 3, 3, a3));
    assert(parse_uvarint_from(s, p + 1, 1, a1) == parse_uvarint_from(s, p + 2, 2, a2));
    assert(parse_uvarint_from(s, p, 0, a0) == parse_uvarint_from(s, p + 1, 1, a1));
}

/// A `COMPACT_STRING` whose encoded length is 0 at a non-nullable position is refused with
/// `IllegalArgument` naming the field.
pub proof fn lemma_null_compact_string_refused(s: Seq<u8>, p: int, field: &'static str)
    requires
        0 <= p < s.len(),
        s[p] == 0,
    ensures
        parse_compact_string(s, p, field) == Err::<(Seq<u8>, int), Error>(Error::IllegalArgument(field)),
{
    assert(parse_uvarint_from(s, p, 0, 0) == Ok::<(u32, int), Error>((0u32, p + 1))) by {
        assert((0u32 | ((0u8 as u32) << 0u32)) == 0) by (bit_vector);
    }
}

/// A complete record batch whose stored crc differs from the CRC-32C of the bytes after it
/// is refused with `IllegalArgument`.
pub proof fn lemma_crc_mismatch_refused(s: Seq<u8>, p: int)
    requires
        0 <= p,
        need(s, p, 12),
        need(s, p + 12, parse_u32(s, p + 8)->Ok_0.0 as int),
        parse_u32(s, p + 8)->Ok_0.0 >= 9,
        ({
            let bl = parse_u32(s, p + 8)->Ok_0.0 as int;
            let inner = s.subrange(p + 12, p + 12 + bl);
            parse_u32(inner, 5)->Ok_0.0 != crc32c_of(inner.subrange(9, bl))
        }),
    ensures
        parse_record_batch(s, p) == Err::<(crate::record::RecordBatchView, int), Error>(
            Error::IllegalArgument("crc mismatch"),
        ),
{
}

/// A control batch whose record count is not 1 is refused with `IllegalArgument`.
pub proof fn lemma_control_count_refused(body: Seq<u8>, base_offset: i64, epoch: i32, magic: u8)
    requires
        need(body, 0, 40),
        is_control(parse_u16(body, 0)->Ok_0.0),
        parse_i32(body, 36)->Ok_0.0 != 1,
    ensures
        parse_batch_body(body, base_offset, epoch, magic) == Err::<crate::record::RecordBatchView, Error>(
            Error::IllegalArgument("invalid records length for ControlBatch"),
        ),
{
}

/// A complete frame whose header names an api key the server does not know is refused with
/// `UnknownRequest`, an error on which the connection closes.
pub proof fn lemma_unknown_key_refused(s: Seq<u8>, p: int)
    requires
        0 <= p,
        need(s, p, 4),
        parse_i32(s, p)->Ok_0.0 >= 0,
        need(s, p + 4, parse_i32(s, p)->Ok_0.0 as int),
        ({
            let frame = s.subrange(p + 4, p + 4 + parse_i32(s, p)->Ok_0.0 as int);
            &&& parse_request_header(frame, 0) is Ok
            &&& {
                let key = parse_request_header(frame, 0)->Ok_0.0.request_api_key;
                key != FETCH_KEY && key != API_VERSIONS_KEY && key != DESCRIBE_TOPIC_PARTITIONS_KEY
            }
        }),
    ensures
        parse_frame(s, p) is Err,
        parse_frame(s, p)->Err_0 is UnknownRequest,
        !(parse_frame(s, p)->Err_0 is BufferUnderflow),
{
}

} // verus!
