use vstd::prelude::*;
use vstd::slice::slice_to_vec;

use crate::arrays::{enc_compact_array, i32_encoder, opt_seq, opt_slice_seq, write_compact_i32_array};
use crate::error::Error;
use crate::list::{
    enc_list, inverts, lemma_enc_list_push, lemma_list_round_trip, parse_list, parse_list_from,
    Encoder, Parser,
};
use crate::model::{index_of_name_from, Catalog, PartitionView, TopicView};
use crate::tagged::{
    enc_no_tagged_fields, lemma_no_tagged_fields_round_trip, parse_tagged_fields, read_tagged_fields, write_no_tagged_fields,
};
use crate::types::{
    lemma_compact_string_round_trip,
    enc_compact_nullable_string, enc_compact_string, enc_uuid, opt_bytes, opt_slice,
    parse_compact_string, read_compact_string, write_compact_nullable_string, write_uuid, Uuid,
};
use crate::varint::{lemma_uvarint_round_trip, enc_uvarint, parse_uvarint, read_unsigned_varint, write_unsigned_varint};
use crate::wire::{
    holds, lemma_holds_split, lemma_i32_round_trip, lemma_i8_round_trip,
    agrees, enc_bool, enc_i16, enc_i32, enc_i8, parse_i32, parse_i8, read_i32, read_i8,
    write_bool, write_i16, write_i32, write_i8,
};

verus! {

pub const UNKNOWN_TOPIC_OR_PARTITION: i16 = 3;

/// The operations every described topic reports as authorized.
pub const TOPIC_AUTHORIZED_OPERATIONS: i32 = 0x0df8;

// ---------------------------------------------------------------- request

/// A topic asked about, by name.
pub struct TopicRequest {
    pub name: Vec<u8>,
}

impl View for TopicRequest {
    type V = Seq<u8>;

    open spec fn view(&self) -> Seq<u8> {
        self.name@
    }
}

impl TopicRequest {
    pub fn v0(name: Vec<u8>) -> (r: TopicRequest)
        ensures
            r.name == name,
    {
        TopicRequest { name }
    }

    pub fn name(&self) -> (r: &[u8])
        ensures
            r@ == self.name@,
    {
        self.name.as_slice()
    }
}

/// Where a paginated answer resumes.
pub struct Cursor {
    pub topic_name: Vec<u8>,
    pub partition_index: i32,
}

impl View for Cursor {
    type V = (Seq<u8>, i32);

    open spec fn view(&self) -> (Seq<u8>, i32) {
        (self.topic_name@, self.partition_index)
    }
}

impl Cursor {
    pub fn v0(topic_name: Vec<u8>, partition_index: i32) -> (r: Cursor)
        ensures
            r.topic_name == topic_name,
            r.partition_index == partition_index,
    {
        Cursor { topic_name, partition_index }
    }

    pub fn topic_name(&self) -> (r: &[u8])
        ensures
            r@ == self.topic_name@,
    {
        self.topic_name.as_slice()
    }

    pub fn partition_index(&self) -> (r: i32)
        ensures
            r == self.partition_index,
    {
        self.partition_index
    }
}

/// A DescribeTopicPartitions request (v0 only).
pub struct Request {
    pub topics: Vec<TopicRequest>,
    pub response_partition_limit: i32,
    pub cursor: Option<Cursor>,
}

pub struct RequestView {
    pub topics: Seq<Seq<u8>>,
    pub response_partition_limit: i32,
    pub cursor: Option<(Seq<u8>, i32)>,
}

pub open spec fn topic_request_views(v: Seq<TopicRequest>) -> Seq<Seq<u8>> {
    v.map_values(|t: TopicRequest| t@)
}

impl View for Request {
    type V = RequestView;

    open spec fn view(&self) -> RequestView {
        RequestView {
            topics: topic_request_views(self.topics@),
            response_partition_limit: self.response_partition_limit,
            cursor: match self.cursor {
                Some(c) => Some(c@),
                None => None,
            },
        }
    }
}

impl Request {
    pub fn v0(topics: Vec<TopicRequest>, response_partition_limit: i32, cursor: Option<Cursor>) -> (r:
        Request)
        ensures
            r.topics == topics,
            r.response_partition_limit == response_partition_limit,
            r.cursor == cursor,
    {
        Request { topics, response_partition_limit, cursor }
    }

    pub fn topics(&self) -> (r: &[TopicRequest])
        ensures
            r@ == self.topics@,
    {
        self.topics.as_slice()
    }

    pub fn response_partition_limit(&self) -> (r: i32)
        ensures
            r == self.response_partition_limit,
    {
        self.response_partition_limit
    }

    pub fn cursor(&self) -> (r: Option<&Cursor>)
        ensures
            r is Some <==> self.cursor is Some,
            r is Some ==> *r->Some_0 == self.cursor->Some_0,
    {
        self.cursor.as_ref()
    }
}

pub open spec fn parse_topic_request(s: Seq<u8>, p: int) -> Result<(Seq<u8>, int), Error> {
    match parse_compact_string(s, p, "non-nullable field name was serialized as null") {
        Ok((name, q)) => match parse_tagged_fields(s, q) {
            Ok((_, q2)) => Ok((name, q2)),
            Err(e) => Err(e),
        },
        Err(e) => Err(e),
    }
}

pub open spec fn topic_request_parser() -> Parser<Seq<u8>> {
    |s: Seq<u8>, p: int| parse_topic_request(s, p)
}

pub open spec fn parse_cursor(s: Seq<u8>, p: int) -> Result<((Seq<u8>, i32), int), Error> {
    match parse_compact_string(s, p, "non-nullable field topicName was serialized as null") {
        Ok((name, q)) => match parse_i32(s, q) {
            Ok((idx, q2)) => match parse_tagged_fields(s, q2) {
                Ok((_, q3)) => Ok(((name, idx), q3)),
                Err(e) => Err(e),
            },
            Err(e) => Err(e),
        },
        Err(e) => Err(e),
    }
}

/// The request body at `version`; only v0 exists. The topic list may not be null; the cursor
/// is a nullable record (a leading `INT8` of `-1` for absent).
pub open spec fn parse_request(s: Seq<u8>, p: int, version: i16) -> Result<(RequestView, int), Error> {
    if version != 0 {
        Err(Error::UnsupportedVersion)
    } else {
        match parse_uvarint(s, p) {
            Ok((n, q1)) => if n == 0 {
                Err(Error::IllegalArgument("non-nullable field topics was serialized as null"))
            } else {
                match parse_list(topic_request_parser(), s, q1, (n - 1) as nat) {
                    Ok((topics, q2)) => match parse_i32(s, q2) {
                        Ok((limit, q3)) => match parse_i8(s, q3) {
                            Ok((marker, q4)) => {
                                let cur: Result<(Option<(Seq<u8>, i32)>, int), Error> = if marker
                                    == -1 {
                                    Ok((None, q4))
                                } else {
                                    match parse_cursor(s, q4) {
                                        Ok((c, q5)) => Ok((Some(c), q5)),
                                        Err(e) => Err(e),
                                    }
                                };
                                match cur {
                                    Ok((cursor, q5)) => match parse_tagged_fields(s, q5) {
                                        Ok((_, q6)) => Ok(
                                            (
                                                RequestView {
                                                    topics,
                                                    response_partition_limit: limit,
                                                    cursor,
                                                },
                                                q6,
                                            ),
                                        ),
                                        Err(e) => Err(e),
                                    },
                                    Err(e) => Err(e),
                                }
                            },
                            Err(e) => Err(e),
                        },
                        Err(e) => Err(e),
                    },
                    Err(e) => Err(e),
                }
            },
            Err(e) => Err(e),
        }
    }
}

fn read_topic_requests(data: &[u8], pos: &mut usize, n: usize) -> (r: Result<Vec<TopicRequest>, Error>)
    requires
        *old(pos) <= data@.len(),
    ensures
        *final(pos) <= data@.len(),
        match parse_list(topic_request_parser(), data@, *old(pos) as int, n as nat) {
            Ok((ts, q)) => r is Ok && topic_request_views(r->Ok_0@) == ts && *final(pos) == q,
            Err(e) => r == Err::<Vec<TopicRequest>, Error>(e),
        },
{
    let ghost begin = *pos as int;
    let mut v: Vec<TopicRequest> = Vec::new();
    assert(topic_request_views(v@) =~= Seq::<Seq<u8>>::empty());
    let mut i: usize = 0;
    while i < n
        invariant
            i <= n,
            begin == *old(pos),
            *pos <= data@.len(),
            parse_list(topic_request_parser(), data@, begin, n as nat) == parse_list_from(
                topic_request_parser(),
                data@,
                *pos as int,
                (n - i) as nat,
                topic_request_views(v@),
            ),
        decreases n - i,
    {
        let name = read_compact_string(data, pos, "non-nullable field name was serialized as null")?;
        let _ = read_tagged_fields(data, pos)?;
        let t = TopicRequest { name };
        let ghost before = v@;
        v.push(t);
        assert(topic_request_views(v@) =~= topic_request_views(before).push(t@));
        i = i + 1;
    }
    Ok(v)
}

pub fn read_request(data: &[u8], pos: &mut usize, version: i16) -> (r: Result<Request, Error>)
    requires
        *old(pos) <= data@.len(),
    ensures
        *final(pos) <= data@.len(),
        agrees(r, *final(pos), parse_request(data@, *old(pos) as int, version)),
{
    if version != 0 {
        return Err(Error::UnsupportedVersion);
    }
    let n = read_unsigned_varint(data, pos)?;
    if n == 0 {
        return Err(Error::IllegalArgument("non-nullable field topics was serialized as null"));
    }
    let topics = read_topic_requests(data, pos, (n - 1) as usize)?;
    let response_partition_limit = read_i32(data, pos)?;
    let marker = read_i8(data, pos)?;
    let cursor = if marker == -1 {
        None
    } else {
        let topic_name = read_compact_string(data, pos, "non-nullable field topicName was serialized as null")?;
        let partition_index = read_i32(data, pos)?;
        let _ = read_tagged_fields(data, pos)?;
        Some(Cursor { topic_name, partition_index })
    };
    let _ = read_tagged_fields(data, pos)?;
    Ok(Request { topics, response_partition_limit, cursor })
}

// ---------------------------------------------------------------- response

/// One partition of a described topic.
pub struct DescribeTopicPartitionsResponsePartition {
    pub error_code: i16,
    pub partition_index: i32,
    pub leader_id: i32,
    pub leader_epoch: i32,
    pub replica_nodes: Vec<i32>,
    pub isr_nodes: Vec<i32>,
    pub eligible_leader_replicas: Option<Vec<i32>>,
    pub last_known_elr: Option<Vec<i32>>,
    pub offline_replicas: Vec<i32>,
}

pub struct ResponsePartitionView {
    pub error_code: i16,
    pub partition_index: i32,
    pub leader_id: i32,
    pub leader_epoch: i32,
    pub replica_nodes: Seq<i32>,
    pub isr_nodes: Seq<i32>,
    pub eligible_leader_replicas: Option<Seq<i32>>,
    pub last_known_elr: Option<Seq<i32>>,
    pub offline_replicas: Seq<i32>,
}

impl View for DescribeTopicPartitionsResponsePartition {
    type V = ResponsePartitionView;

    open spec fn view(&self) -> ResponsePartitionView {
        ResponsePartitionView {
            error_code: self.error_code,
            partition_index: self.partition_index,
            leader_id: self.leader_id,
            leader_epoch: self.leader_epoch,
            replica_nodes: self.replica_nodes@,
            isr_nodes: self.isr_nodes@,
            eligible_leader_replicas: opt_seq(self.eligible_leader_replicas),
            last_known_elr: opt_seq(self.last_known_elr),
            offline_replicas: self.offline_replicas@,
        }
    }
}

impl DescribeTopicPartitionsResponsePartition {
    pub fn v0(
        error_code: i16,
        partition_index: i32,
        leader_id: i32,
        leader_epoch: i32,
        replica_nodes: Vec<i32>,
        isr_nodes: Vec<i32>,
        eligible_leader_replicas: Option<Vec<i32>>,
        last_known_elr: Option<Vec<i32>>,
        offline_replicas: Vec<i32>,
    ) -> (r: DescribeTopicPartitionsResponsePartition)
        ensures
            r.error_code == error_code,
            r.partition_index == partition_index,
            r.leader_id == leader_id,
            r.leader_epoch == leader_epoch,
            r.replica_nodes == replica_nodes,
            r.isr_nodes == isr_nodes,
            r.eligible_leader_replicas == eligible_leader_replicas,
            r.last_known_elr == last_known_elr,
            r.offline_replicas == offline_replicas,
    {
        DescribeTopicPartitionsResponsePartition {
            error_code,
            partition_index,
            leader_id,
            leader_epoch,
            replica_nodes,
            isr_nodes,
            eligible_leader_replicas,
            last_known_elr,
            offline_replicas,
        }
    }

    pub fn error_code(&self) -> (r: i16)
        ensures
            r == self.error_code,
    {
        self.error_code
    }

    pub fn partition_index(&self) -> (r: i32)
        ensures
            r == self.partition_index,
    {
        self.partition_index
    }

    pub fn leader_id(&self) -> (r: i32)
        ensures
            r == self.leader_id,
    {
        self.leader_id
    }

    pub fn leader_epoch(&self) -> (r: i32)
        ensures
            r == self.leader_epoch,
    {
        self.leader_epoch
    }

    pub fn replica_nodes(&self) -> (r: &[i32])
        ensures
            r@ == self.replica_nodes@,
    {
        self.replica_nodes.as_slice()
    }

    pub fn isr_nodes(&self) -> (r: &[i32])
        ensures
            r@ == self.isr_nodes@,
    {
        self.isr_nodes.as_slice()
    }

    pub fn eligible_leader_replicas(&self) -> (r: Option<&[i32]>)
        ensures
            opt_slice_seq(r) == opt_seq(self.eligible_leader_replicas),
    {
        match &self.eligible_leader_replicas {
            Some(v) => Some(v.as_slice()),
            None => None,
        }
    }

    pub fn last_known_elr(&self) -> (r: Option<&[i32]>)
        ensures
            opt_slice_seq(r) == opt_seq(self.last_known_elr),
    {
        match &self.last_known_elr {
            Some(v) => Some(v.as_slice()),
            None => None,
        }
    }

    pub fn offline_replicas(&self) -> (r: &[i32])
        ensures
            r@ == self.offline_replicas@,
    {
        self.offline_replicas.as_slice()
    }
}

/// One described topic.
pub struct DescribeTopicPartitionsResponseTopic {
    pub error_code: i16,
    pub name: Option<Vec<u8>>,
    pub topic_id: Uuid,
    pub is_internal: bool,
    pub partitions: Vec<DescribeTopicPartitionsResponsePartition>,
    pub topic_authorized_operations: i32,
}

pub struct ResponseTopicView {
    pub error_code: i16,
    pub name: Option<Seq<u8>>,
    pub topic_id: Uuid,
    pub is_internal: bool,
    pub partitions: Seq<ResponsePartitionView>,
    pub topic_authorized_operations: i32,
}

pub open spec fn response_partition_views(v: Seq<DescribeTopicPartitionsResponsePartition>) -> Seq<
    ResponsePartitionView,
> {
    v.map_values(|p: DescribeTopicPartitionsResponsePartition| p@)
}

impl View for DescribeTopicPartitionsResponseTopic {
    type V = ResponseTopicView;

    open spec fn view(&self) -> ResponseTopicView {
        ResponseTopicView {
            error_code: self.error_code,
            name: opt_bytes(self.name),
            topic_id: self.topic_id,
            is_internal: self.is_internal,
            partitions: response_partition_views(self.partitions@),
            topic_authorized_operations: self.topic_authorized_operations,
        }
    }
}

impl DescribeTopicPartitionsResponseTopic {
    pub fn error_code(&self) -> (r: i16)
        ensures
            r == self.error_code,
    {
        self.error_code
    }

    pub fn name(&self) -> (r: Option<&[u8]>)
        ensures
            opt_slice(r) == opt_bytes(self.name),
    {
        match &self.name {
            Some(v) => Some(v.as_slice()),
            None => None,
        }
    }

    pub fn topic_id(&self) -> (r: Uuid)
        ensures
            r == self.topic_id,
    {
        self.topic_id
    }

    pub fn is_internal(&self) -> (r: bool)
        ensures
            r == self.is_internal,
    {
        self.is_internal
    }

    pub fn partitions(&self) -> (r: &[DescribeTopicPartitionsResponsePartition])
        ensures
            r@ == self.partitions@,
    {
        self.partitions.as_slice()
    }

    pub fn topic_authorized_operations(&self) -> (r: i32)
        ensures
            r == self.topic_authorized_operations,
    {
        self.topic_authorized_operations
    }
}

/// A DescribeTopicPartitions response (v0).
pub struct Response {
    pub throttle_time_ms: i32,
    pub topics: Vec<DescribeTopicPartitionsResponseTopic>,
    pub next_cursor: Option<Cursor>,
}

pub struct ResponseView {
    pub throttle_time_ms: i32,
    pub topics: Seq<ResponseTopicView>,
    pub next_cursor: Option<(Seq<u8>, i32)>,
}

pub open spec fn response_topic_views(v: Seq<DescribeTopicPartitionsResponseTopic>) -> Seq<
    ResponseTopicView,
> {
    v.map_values(|t: DescribeTopicPartitionsResponseTopic| t@)
}

impl View for Response {
    type V = ResponseView;

    open spec fn view(&self) -> ResponseView {
        ResponseView {
            throttle_time_ms: self.throttle_time_ms,
            topics: response_topic_views(self.topics@),
            next_cursor: match self.next_cursor {
                Some(c) => Some(c@),
                None => None,
            },
        }
    }
}

impl Response {
    pub fn throttle_time_ms(&self) -> (r: i32)
        ensures
            r == self.throttle_time_ms,
    {
        self.throttle_time_ms
    }

    pub fn topics(&self) -> (r: &[DescribeTopicPartitionsResponseTopic])
        ensures
            r@ == self.topics@,
    {
        self.topics.as_slice()
    }

    pub fn next_cursor(&self) -> (r: Option<&Cursor>)
        ensures
            r is Some <==> self.next_cursor is Some,
    {
        self.next_cursor.as_ref()
    }
}

pub open spec fn eca(o: Option<Seq<i32>>) -> Seq<u8> {
    enc_compact_array(i32_encoder(), o)
}

pub open spec fn arr_fits(o: Option<Seq<i32>>) -> bool {
    o is Some ==> o->Some_0.len() < 0xffff_ffff
}

pub open spec fn enc_response_partition(p: ResponsePartitionView) -> Seq<u8> {
    enc_i16(p.error_code) + enc_i32(p.partition_index) + enc_i32(p.leader_id) + enc_i32(
        p.leader_epoch,
    ) + eca(Some(p.replica_nodes)) + eca(Some(p.isr_nodes)) + eca(p.eligible_leader_replicas) + eca(
        p.last_known_elr,
    ) + eca(Some(p.offline_replicas)) + enc_no_tagged_fields()
}

pub open spec fn partition_fits(p: ResponsePartitionView) -> bool {
    arr_fits(Some(p.replica_nodes)) && arr_fits(Some(p.isr_nodes)) && arr_fits(
        p.eligible_leader_replicas,
    ) && arr_fits(p.last_known_elr) && arr_fits(Some(p.offline_replicas))
}

pub open spec fn response_partition_encoder() -> Encoder<ResponsePartitionView> {
    |p: ResponsePartitionView| enc_response_partition(p)
}

pub open spec fn enc_response_topic(t: ResponseTopicView) -> Seq<u8> {
    enc_i16(t.error_code) + enc_compact_nullable_string(t.name) + enc_uuid(t.topic_id) + enc_bool(
        t.is_internal,
    ) + enc_uvarint((t.partitions.len() + 1) as u32) + enc_list(
        response_partition_encoder(),
        t.partitions,
    ) + enc_i32(t.topic_authorized_operations) + enc_no_tagged_fields()
}

pub open spec fn topic_fits(t: ResponseTopicView) -> bool {
    &&& (t.name is Some ==> t.name->Some_0.len() < 0xffff_ffff)
    &&& t.partitions.len() < 0xffff_ffff
    &&& forall|j: int| 0 <= j < t.partitions.len() ==> partition_fits(#[trigger] t.partitions[j])
}

pub open spec fn response_topic_encoder() -> Encoder<ResponseTopicView> {
    |t: ResponseTopicView| enc_response_topic(t)
}

pub open spec fn enc_cursor(c: Option<(Seq<u8>, i32)>) -> Seq<u8> {
    match c {
        Some((name, idx)) => enc_i8(0i8) + enc_compact_string(name) + enc_i32(idx)
            + enc_no_tagged_fields(),
        None => enc_i8(-1i8),
    }
}

pub open spec fn enc_response(r: ResponseView) -> Seq<u8> {
    enc_i32(r.throttle_time_ms) + enc_uvarint((r.topics.len() + 1) as u32) + enc_list(
        response_topic_encoder(),
        r.topics,
    ) + enc_cursor(r.next_cursor) + enc_no_tagged_fields()
}

/// Every length in the response fits its length field.
pub open spec fn response_fits(r: ResponseView) -> bool {
    &&& r.topics.len() < 0xffff_ffff
    &&& forall|i: int| 0 <= i < r.topics.len() ==> topic_fits(#[trigger] r.topics[i])
    &&& (r.next_cursor is Some ==> r.next_cursor->Some_0.0.len() < 0xffff_ffff)
}

fn write_opt_array(out: &mut Vec<u8>, o: &Option<Vec<i32>>) -> (r: Result<(), Error>)
    ensures
        r is Ok <==> arr_fits(opt_seq(*o)),
        r is Ok ==> final(out)@ == old(out)@ + eca(opt_seq(*o)),
{
    match o {
        Some(v) => {
            if v.len() >= 0xffff_ffff {
                return Err(Error::IllegalArgument("array too long"));
            }
            write_compact_i32_array(out, Some(v.as_slice()));
        },
        None => {
            write_compact_i32_array(out, None);
        },
    }
    Ok(())
}

fn write_array(out: &mut Vec<u8>, v: &Vec<i32>) -> (r: Result<(), Error>)
    ensures
        r is Ok <==> arr_fits(Some(v@)),
        r is Ok ==> final(out)@ == old(out)@ + eca(Some(v@)),
{
    if v.len() >= 0xffff_ffff {
        return Err(Error::IllegalArgument("array too long"));
    }
    write_compact_i32_array(out, Some(v.as_slice()));
    Ok(())
}

fn write_response_partition(out: &mut Vec<u8>, p: &DescribeTopicPartitionsResponsePartition) -> (r:
    Result<(), Error>)
    ensures
        r is Ok <==> partition_fits(p@),
        r is Ok ==> final(out)@ == old(out)@ + enc_response_partition(p@),
{
    write_i16(out, p.error_code);
    write_i32(out, p.partition_index);
    write_i32(out, p.leader_id);
    write_i32(out, p.leader_epoch);
    write_array(out, &p.replica_nodes)?;
    write_array(out, &p.isr_nodes)?;
    write_opt_array(out, &p.eligible_leader_replicas)?;
    write_opt_array(out, &p.last_known_elr)?;
    write_array(out, &p.offline_replicas)?;
    write_no_tagged_fields(out);
    assert(final(out)@ =~= old(out)@ + enc_response_partition(p@));
    Ok(())
}

#[verifier::rlimit(80)]
fn write_response_topic(out: &mut Vec<u8>, t: &DescribeTopicPartitionsResponseTopic) -> (r: Result<
    (),
    Error,
>)
    ensures
        r is Ok <==> topic_fits(t@),
        r is Ok ==> final(out)@ == old(out)@ + enc_response_topic(t@),
{
    let ghost tv = t@;
    write_i16(out, t.error_code);
    match &t.name {
        Some(n) => {
            if n.len() >= 0xffff_ffff {
                return Err(Error::IllegalArgument("string too long"));
            }
        },
        None => {},
    }
    write_compact_nullable_string(out, t.name());
    write_uuid(out, t.topic_id);
    write_bool(out, t.is_internal);
    if t.partitions.len() >= 0xffff_ffff {
        return Err(Error::IllegalArgument("array too long"));
    }
    write_unsigned_varint(out, (t.partitions.len() + 1) as u32);
    let ghost mid = out@;
    let ghost ps = tv.partitions;
    let mut i: usize = 0;
    while i < t.partitions.len()
        invariant
            i <= t.partitions@.len(),
            ps == response_partition_views(t.partitions@),
            forall|j: int| 0 <= j < i ==> partition_fits(#[trigger] ps[j]),
            out@ == mid + enc_list(response_partition_encoder(), ps.subrange(0, i as int)),
        decreases t.partitions@.len() - i,
    {
        let p = &t.partitions[i];
        assert(ps[i as int] == p@);
        write_response_partition(out, p)?;
        proof {
            lemma_enc_list_push(response_partition_encoder(), ps.subrange(0, i as int), p@);
            assert(ps.subrange(0, i as int).push(p@) =~= ps.subrange(0, i + 1));
        }
        i = i + 1;
    }
    assert(ps.subrange(0, ps.len() as int) =~= ps);
    write_i32(out, t.topic_authorized_operations);
    write_no_tagged_fields(out);
    assert(final(out)@ =~= old(out)@ + enc_response_topic(tv));
    Ok(())
}

/// Writes the response body; fails with `IllegalArgument`, and only then, where a length does
/// not fit its field.
pub fn write_response(out: &mut Vec<u8>, r: &Response) -> (res: Result<(), Error>)
    ensures
        res is Ok <==> response_fits(r@),
        res is Ok ==> final(out)@ == old(out)@ + enc_response(r@),
{
    let ghost rv = r@;
    write_i32(out, r.throttle_time_ms);
    if r.topics.len() >= 0xffff_ffff {
        return Err(Error::IllegalArgument("array too long"));
    }
    write_unsigned_varint(out, (r.topics.len() + 1) as u32);
    let ghost mid = out@;
    let ghost ts = rv.topics;
    let mut i: usize = 0;
    while i < r.topics.len()
        invariant
            i <= r.topics@.len(),
            ts == response_topic_views(r.topics@),
            forall|j: int| 0 <= j < i ==> topic_fits(#[trigger] ts[j]),
            out@ == mid + enc_list(response_topic_encoder(), ts.subrange(0, i as int)),
        decreases r.topics@.len() - i,
    {
        let t = &r.topics[i];
        assert(ts[i as int] == t@);
        write_response_topic(out, t)?;
        proof {
            lemma_enc_list_push(response_topic_encoder(), ts.subrange(0, i as int), t@);
            assert(ts.subrange(0, i as int).push(t@) =~= ts.subrange(0, i + 1));
        }
        i = i + 1;
    }
    assert(ts.subrange(0, ts.len() as int) =~= ts);
    let ghost before_cursor = out@;
    match &r.next_cursor {
        Some(c) => {
            if c.topic_name.len() >= 0xffff_ffff {
                return Err(Error::IllegalArgument("string too long"));
            }
            write_i8(out, 0);
            write_compact_nullable_string(out, Some(c.topic_name.as_slice()));
            write_i32(out, c.partition_index);
            write_no_tagged_fields(out);
        },
        None => {
            write_i8(out, -1);
        },
    }
    assert(out@ =~= before_cursor + enc_cursor(rv.next_cursor));
    write_no_tagged_fields(out);
    assert(final(out)@ =~= old(out)@ + enc_response(rv));
    Ok(())
}

// ---------------------------------------------------------------- handler

/// A partition block: its index is its position in the topic's list.
pub open spec fn partition_answer(p: PartitionView, j: int) -> ResponsePartitionView {
    ResponsePartitionView {
        error_code: 0,
        partition_index: #[verifier::truncate] (j as i32),
        leader_id: p.leader,
        leader_epoch: p.leader_epoch,
        replica_nodes: p.replicas,
        isr_nodes: p.isr,
        eligible_leader_replicas: p.eligible_leader_replicas,
        last_known_elr: p.last_known_elr,
        offline_replicas: Seq::empty(),
    }
}

/// A topic block for the name asked about: the first topic of that name in the catalog with
/// its partitions, or error 3 with the all-zero id and no partitions.
pub open spec fn topic_answer(catalog: Seq<TopicView>, name: Seq<u8>) -> ResponseTopicView {
    match index_of_name_from(catalog, name, 0) {
        Some(i) => ResponseTopicView {
            error_code: 0,
            name: Some(name),
            topic_id: catalog[i].id,
            is_internal: false,
            partitions: Seq::new(
                catalog[i].partitions.len(),
                |j: int| partition_answer(catalog[i].partitions[j], j),
            ),
            topic_authorized_operations: TOPIC_AUTHORIZED_OPERATIONS,
        },
        None => ResponseTopicView {
            error_code: UNKNOWN_TOPIC_OR_PARTITION,
            name: Some(name),
            topic_id: Uuid { value: 0 },
            is_internal: false,
            partitions: Seq::empty(),
            topic_authorized_operations: TOPIC_AUTHORIZED_OPERATIONS,
        },
    }
}

pub open spec fn describe_answer(catalog: Seq<TopicView>, request: RequestView) -> ResponseView {
    ResponseView {
        throttle_time_ms: 0,
        topics: request.topics.map_values(|n: Seq<u8>| topic_answer(catalog, n)),
        next_cursor: None,
    }
}

fn copy_opt(o: &Option<Vec<i32>>) -> (r: Option<Vec<i32>>)
    ensures
        opt_seq(r) == opt_seq(*o),
{
    match o {
        Some(v) => Some(slice_to_vec(v.as_slice())),
        None => None,
    }
}

fn describe_topic(catalog: &Catalog, name: &[u8]) -> (r: DescribeTopicPartitionsResponseTopic)
    ensures
        r@ == topic_answer(catalog@, name@),
{
    let n = catalog.len();
    proof {
        if index_of_name_from(catalog@, name@, 0) is Some {
            crate::model::lemma_index_of_name_found(catalog@, name@, 0);
        }
    }
    match catalog.index_of_name(name) {
        Some(i) => {
            proof {
                crate::model::lemma_index_of_name_found(catalog@, name@, 0);
            }
            let t = catalog.topic(i);
            let ghost tv = catalog@[i as int];
            let mut parts: Vec<DescribeTopicPartitionsResponsePartition> = Vec::new();
            let mut j: usize = 0;
            while j < t.partitions.len()
                invariant
                    j <= t.partitions@.len(),
                    tv == t@,
                    parts@.len() == j,
                    forall|k: int|
                        0 <= k < j ==> #[trigger] response_partition_views(parts@)[k]
                            == partition_answer(tv.partitions[k], k),
                decreases t.partitions@.len() - j,
            {
                let p = &t.partitions[j];
                assert(tv.partitions[j as int] == p@);
                let block = DescribeTopicPartitionsResponsePartition {
                    error_code: 0,
                    partition_index: #[verifier::truncate] (j as i32),
                    leader_id: p.leader,
                    leader_epoch: p.leader_epoch,
                    replica_nodes: slice_to_vec(p.replicas.as_slice()),
                    isr_nodes: slice_to_vec(p.isr.as_slice()),
                    eligible_leader_replicas: copy_opt(&p.eligible_leader_replicas),
                    last_known_elr: copy_opt(&p.last_known_elr),
                    offline_replicas: Vec::new(),
                };
                assert(block@ == partition_answer(tv.partitions[j as int], j as int)) by {
                    assert(block@.offline_replicas =~= Seq::<i32>::empty());
                }
                let ghost before = parts@;
                let ghost bv = block@;
                parts.push(block);
                assert(response_partition_views(parts@) =~= response_partition_views(before).push(bv));
                j = j + 1;
            }
            let r = DescribeTopicPartitionsResponseTopic {
                error_code: 0,
                name: Some(slice_to_vec(name)),
                topic_id: t.id,
                is_internal: false,
                partitions: parts,
                topic_authorized_operations: TOPIC_AUTHORIZED_OPERATIONS,
            };
            assert(r@.partitions =~= topic_answer(catalog@, name@).partitions);
            r
        },
        None => {
            let r = DescribeTopicPartitionsResponseTopic {
                error_code: UNKNOWN_TOPIC_OR_PARTITION,
                name: Some(slice_to_vec(name)),
                topic_id: Uuid::nil(),
                is_internal: false,
                partitions: Vec::new(),
                topic_authorized_operations: TOPIC_AUTHORIZED_OPERATIONS,
            };
            assert(r@.partitions =~= Seq::<ResponsePartitionView>::empty());
            r
        },
    }
}

/// Answers each requested name in order, looking it up in the catalog by exact name.
pub fn process_request(request: &Request, catalog: &Catalog) -> (r: Response)
    ensures
        r@ == describe_answer(catalog@, request@),
{
    let mut topics: Vec<DescribeTopicPartitionsResponseTopic> = Vec::new();
    let ghost want = describe_answer(catalog@, request@).topics;
    let mut i: usize = 0;
    while i < request.topics.len()
        invariant
            i <= request.topics@.len(),
            want == describe_answer(catalog@, request@).topics,
            topics@.len() == i,
            forall|k: int| 0 <= k < i ==> #[trigger] response_topic_views(topics@)[k] == want[k],
        decreases request.topics@.len() - i,
    {
        let name = request.topics[i].name.as_slice();
        assert(request@.topics[i as int] == name@);
        let t = describe_topic(catalog, name);
        let ghost before = topics@;
        let ghost tv = t@;
        topics.push(t);
        assert(response_topic_views(topics@) =~= response_topic_views(before).push(tv));
        i = i + 1;
    }
    let r = Response { throttle_time_ms: 0, topics, next_cursor: None };
    assert(r@.topics =~= want);
    r
}

// ---------------------------------------------------------------- writing a request

pub open spec fn enc_topic_request(n: Seq<u8>) -> Seq<u8> {
    enc_compact_string(n) + enc_no_tagged_fields()
}

pub open spec fn topic_request_encoder() -> Encoder<Seq<u8>> {
    |n: Seq<u8>| enc_topic_request(n)
}

pub open spec fn name_fits() -> spec_fn(Seq<u8>) -> bool {
    |n: Seq<u8>| n.len() < 0xffff_ffff
}

pub open spec fn enc_request(r: RequestView) -> Seq<u8> {
    enc_uvarint((r.topics.len() + 1) as u32) + enc_list(topic_request_encoder(), r.topics) + enc_i32(
        r.response_partition_limit,
    ) + enc_cursor(r.cursor) + enc_no_tagged_fields()
}

/// What a request must hold to be written and read back: lengths that fit their fields.
pub open spec fn request_wf(r: RequestView) -> bool {
    &&& r.topics.len() < 0xffff_ffff
    &&& forall|i: int| 0 <= i < r.topics.len() ==> name_fits()(#[trigger] r.topics[i])
    &&& (r.cursor is Some ==> r.cursor->Some_0.0.len() < 0xffff_ffff)
}

pub fn write_request(out: &mut Vec<u8>, r: &Request)
    requires
        request_wf(r@),
    ensures
        final(out)@ == old(out)@ + enc_request(r@),
{
    let ghost rv = r@;
    write_unsigned_varint(out, (r.topics.len() + 1) as u32);
    let ghost mid = out@;
    let ghost ts = rv.topics;
    let mut i: usize = 0;
    while i < r.topics.len()
        invariant
            i <= r.topics@.len(),
            ts == topic_request_views(r.topics@),
            request_wf(rv),
            rv == r@,
            out@ == mid + enc_list(topic_request_encoder(), ts.subrange(0, i as int)),
        decreases r.topics@.len() - i,
    {
        let t = &r.topics[i];
        assert(ts[i as int] == t@);
        assert(name_fits()(ts[i as int]));
        write_compact_nullable_string(out, Some(t.name.as_slice()));
        write_no_tagged_fields(out);
        proof {
            lemma_enc_list_push(topic_request_encoder(), ts.subrange(0, i as int), t@);
            assert(ts.subrange(0, i as int).push(t@) =~= ts.subrange(0, i + 1));
        }
        i = i + 1;
    }
    assert(ts.subrange(0, ts.len() as int) =~= ts);
    write_i32(out, r.response_partition_limit);
    let ghost before_cursor = out@;
    match &r.cursor {
        Some(c) => {
            write_i8(out, 0);
            write_compact_nullable_string(out, Some(c.topic_name.as_slice()));
            write_i32(out, c.partition_index);
            write_no_tagged_fields(out);
        },
        None => {
            write_i8(out, -1);
        },
    }
    assert(out@ =~= before_cursor + enc_cursor(rv.cursor));
    write_no_tagged_fields(out);
    assert(final(out)@ =~= old(out)@ + enc_request(rv));
}

proof fn lemma_topic_request_inverts()
    ensures
        inverts(topic_request_parser(), topic_request_encoder(), name_fits()),
{
    assert forall|n: Seq<u8>, s: Seq<u8>, p: int|
        name_fits()(n) && #[trigger] holds(s, p, topic_request_encoder()(n)) implies #[trigger] topic_request_parser()(
        s,
        p,
    ) == Ok::<(Seq<u8>, int), Error>((n, p + topic_request_encoder()(n).len())) by {
        lemma_holds_split(s, p, enc_compact_string(n), enc_no_tagged_fields());
        lemma_compact_string_round_trip(n, s, p, "non-nullable field name was serialized as null");
        lemma_no_tagged_fields_round_trip(s, p + enc_compact_string(n).len());
    }
}

proof fn lemma_cursor_round_trip(c: Option<(Seq<u8>, i32)>, s: Seq<u8>, p: int)
    requires
        c is Some ==> c->Some_0.0.len() < 0xffff_ffff,
        holds(s, p, enc_cursor(c)),
    ensures
        parse_i8(s, p) is Ok,
        parse_i8(s, p)->Ok_0.1 == p + 1,
        c is None ==> parse_i8(s, p)->Ok_0.0 == -1,
        c is Some ==> parse_i8(s, p)->Ok_0.0 != -1 && parse_cursor(s, p + 1) == Ok::<((Seq<u8>, i32), int), Error>(
            (c->Some_0, p + enc_cursor(c).len()),
        ),
{
    match c {
        Some((n, idx)) => {
            let a = enc_i8(0i8);
            let b = enc_compact_string(n);
            let d = enc_i32(idx);
            lemma_holds_split(s, p, a + b + d, enc_no_tagged_fields());
            lemma_holds_split(s, p, a + b, d);
            lemma_holds_split(s, p, a, b);
            lemma_i8_round_trip(0i8, s, p);
            lemma_compact_string_round_trip(n, s, p + 1, "non-nullable field topicName was serialized as null");
            lemma_i32_round_trip(idx, s, p + 1 + b.len());
            lemma_no_tagged_fields_round_trip(s, p + 1 + b.len() + 4);
        },
        None => {
            lemma_i8_round_trip(-1i8, s, p);
        },
    }
}

/// A DescribeTopicPartitions request reads back as written, whatever follows it.
pub proof fn lemma_request_round_trip(r: RequestView, s: Seq<u8>, p: int)
    requires
        request_wf(r),
        holds(s, p, enc_request(r)),
    ensures
        parse_request(s, p, 0) == Ok::<(RequestView, int), Error>((r, p + enc_request(r).len())),
{
    let a = enc_uvarint((r.topics.len() + 1) as u32);
    let b = enc_list(topic_request_encoder(), r.topics);
    let c = enc_i32(r.response_partition_limit);
    let d = enc_cursor(r.cursor);
    let e = enc_no_tagged_fields();
    lemma_holds_split(s, p, a + b + c + d, e);
    lemma_holds_split(s, p, a + b + c, d);
    lemma_holds_split(s, p, a + b, c);
    lemma_holds_split(s, p, a, b);
    lemma_uvarint_round_trip((r.topics.len() + 1) as u32, s, p);
    lemma_topic_request_inverts();
    lemma_list_round_trip(topic_request_parser(), topic_request_encoder(), name_fits(), r.topics, Seq::empty(), s, p + a.len());
    assert(Seq::<Seq<u8>>::empty() + r.topics =~= r.topics);
    lemma_i32_round_trip(r.response_partition_limit, s, p + a.len() + b.len());
    lemma_cursor_round_trip(r.cursor, s, p + a.len() + b.len() + 4);
    lemma_no_tagged_fields_round_trip(s, p + a.len() + b.len() + 4 + d.len());
}

} // verus!
