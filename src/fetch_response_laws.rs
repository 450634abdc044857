use vstd::prelude::*;

use crate::arrays::{all_wf, lemma_array_round_trip, lemma_compact_array_round_trip};
use crate::error::Error;
use crate::fetch_request::{enc_null_varray, enc_topic_ref, enc_vcount, lemma_topic_ref_round_trip, topic_ref_wf};
use crate::fetch_response::{
    enc_node_endpoint, enc_response, enc_topic_response, node_endpoint_encoder,
    node_endpoint_fits, node_endpoint_parser, parse_response, parse_topic_response,
    partition_data_encoder, partition_data_parser, response_step, topic_response_encoder,
    topic_response_parser, FetchableTopicResponseView, NodeEndpointView, ResponseView,
};
use crate::arrays::enc_compact_array;
use crate::types::{enc_compact_string, lemma_compact_string_round_trip};
use crate::fetch_response::{
    aborted_encoder, aborted_parser, enc_aborted, enc_epoch_end_offset, enc_leader,
    enc_partition_data, enc_partition_data_head, enc_partition_data_tail, enc_snapshot,
    no_partition_data_tags, parse_aborted, parse_epoch_end_offset, parse_leader,
    parse_partition_data, parse_partition_data_tail, parse_snapshot, partition_data_fits,
    partition_data_step, partition_data_tags, AbortedTransaction, PartitionDataTags,
    PartitionDataView,
};
use crate::wire::{enc_i16, lemma_i16_round_trip, parse_i16, parse_i64};
use crate::list::{enc_list, inverts};
use crate::tagged::{
    enc_no_tagged_fields, enc_tagged_fields, fold_tags, lemma_fold_tags_done,
    lemma_fold_tags_step, lemma_no_tagged_fields_round_trip, lemma_tagged_fields_round_trip,
    tagged_fits, tf_wf,
};
use crate::types::{
    enc_compact_nullable_string, enc_nullable_string, lemma_compact_nullable_string_round_trip,
    lemma_nullable_string_round_trip,
};
use crate::varint::lemma_uvarint_len;
use crate::wire::{
    enc_i32, enc_i64, holds, lemma_holds_join, lemma_holds_split, lemma_i32_round_trip,
    lemma_i64_round_trip, parse_i32,
};

verus! {

// ---------------------------------------------------------------- partition data

pub open spec fn aborted_wf(version: i16) -> spec_fn(AbortedTransaction) -> bool {
    |a: AbortedTransaction| a.version == version
}

proof fn lemma_aborted_inverts(version: i16)
    ensures
        inverts(aborted_parser(version), aborted_encoder(version), aborted_wf(version)),
{
    assert forall|a: AbortedTransaction, s: Seq<u8>, p: int|
        aborted_wf(version)(a) && #[trigger] holds(s, p, aborted_encoder(version)(a)) implies #[trigger] aborted_parser(
        version,
    )(s, p) == Ok::<(AbortedTransaction, int), Error>((a, p + aborted_encoder(version)(a).len())) by {
        let t: Seq<u8> = if version >= 12 { enc_no_tagged_fields() } else { Seq::empty() };
        lemma_holds_split(s, p, enc_i64(a.producer_id) + enc_i64(a.first_offset), t);
        lemma_holds_split(s, p, enc_i64(a.producer_id), enc_i64(a.first_offset));
        lemma_i64_round_trip(a.producer_id, s, p);
        lemma_i64_round_trip(a.first_offset, s, p + 8);
        if version >= 12 {
            lemma_no_tagged_fields_round_trip(s, p + 16);
        }
    }
}

/// A partition as it can stand in a response at `version`: fields the version lacks hold
/// their defaults, aborted transactions carry the version, and lengths fit.
pub open spec fn partition_data_wf(d: PartitionDataView, version: i16) -> bool {
    &&& d.version == version
    &&& (version < 5 ==> d.log_start_offset == -1)
    &&& (version < 11 ==> d.preferred_read_replica == -1)
    &&& (version < 12 ==> d.diverging_epoch is None && d.current_leader is None && d.snapshot_id is None)
    &&& partition_data_fits(d, version)
    &&& (d.aborted_transactions is Some ==> forall|i: int|
        0 <= i < d.aborted_transactions->Some_0.len() ==> (#[trigger] d.aborted_transactions->Some_0[i]).version == version)
}

proof fn lemma_whole(e: Seq<u8>)
    ensures
        holds(e, 0, e),
{
    assert(e.subrange(0, e.len() as int) =~= e);
}

#[verifier::rlimit(100)]
proof fn lemma_partition_data_tags(d: PartitionDataView)
    ensures
        tagged_fits(partition_data_tags(d)),
        fold_tags(partition_data_tags(d), no_partition_data_tags(), partition_data_step()) == Ok::<PartitionDataTags, Error>(
            PartitionDataTags { diverging_epoch: d.diverging_epoch, current_leader: d.current_leader, snapshot_id: d.snapshot_id },
        ),
{
    let ts = partition_data_tags(d);
    let step = partition_data_step();
    let init = no_partition_data_tags();
    lemma_uvarint_len(0);
    assert(tagged_fits(ts)) by {
        assert forall|i: int| 0 <= i < ts.len() implies tf_wf()(#[trigger] ts[i]) by {
            assert(ts[i].1.len() <= 0xffff_ffff);
        }
    }
    let t0: Seq<(u32, Seq<u8>)> = match d.diverging_epoch {
        Some(x) => seq![(0u32, enc_epoch_end_offset(x))],
        None => Seq::empty(),
    };
    let t1: Seq<(u32, Seq<u8>)> = match d.current_leader {
        Some(x) => seq![(1u32, enc_leader(x))],
        None => Seq::empty(),
    };
    let t2: Seq<(u32, Seq<u8>)> = match d.snapshot_id {
        Some(x) => seq![(2u32, enc_snapshot(x))],
        None => Seq::empty(),
    };
    assert(ts == t0 + t1 + t2);
    lemma_fold_tags_done(ts, init, step);
    let s1 = PartitionDataTags { diverging_epoch: d.diverging_epoch, ..init };
    let s2 = PartitionDataTags { current_leader: d.current_leader, ..s1 };
    let s3 = PartitionDataTags { snapshot_id: d.snapshot_id, ..s2 };
    let k1 = t0.len() as int;
    let k2 = k1 + t1.len();
    if let Some(x) = d.diverging_epoch {
        let e = enc_epoch_end_offset(x);
        lemma_whole(e);
        lemma_holds_split(e, 0, enc_i32(x.epoch) + enc_i64(x.end_offset), enc_no_tagged_fields());
        lemma_holds_split(e, 0, enc_i32(x.epoch), enc_i64(x.end_offset));
        lemma_i32_round_trip(x.epoch, e, 0);
        lemma_i64_round_trip(x.end_offset, e, 4);
        lemma_no_tagged_fields_round_trip(e, 12);
        assert(ts[0] == t0[0]);
        lemma_fold_tags_step(ts, init, step, 0, init);
    }
    assert(fold_tags(ts.subrange(0, k1), init, step) == Ok::<PartitionDataTags, Error>(s1));
    if let Some(x) = d.current_leader {
        let e = enc_leader(x);
        lemma_whole(e);
        lemma_holds_split(e, 0, enc_i32(x.leader_id) + enc_i32(x.leader_epoch), enc_no_tagged_fields());
        lemma_holds_split(e, 0, enc_i32(x.leader_id), enc_i32(x.leader_epoch));
        lemma_i32_round_trip(x.leader_id, e, 0);
        lemma_i32_round_trip(x.leader_epoch, e, 4);
        lemma_no_tagged_fields_round_trip(e, 8);
        assert(ts[k1] == t1[0]);
        lemma_fold_tags_step(ts, init, step, k1, s1);
    }
    assert(fold_tags(ts.subrange(0, k2), init, step) == Ok::<PartitionDataTags, Error>(s2));
    if let Some(x) = d.snapshot_id {
        let e = enc_snapshot(x);
        lemma_whole(e);
        lemma_holds_split(e, 0, enc_i64(x.end_offset) + enc_i32(x.epoch), enc_no_tagged_fields());
        lemma_holds_split(e, 0, enc_i64(x.end_offset), enc_i32(x.epoch));
        lemma_i64_round_trip(x.end_offset, e, 0);
        lemma_i32_round_trip(x.epoch, e, 8);
        lemma_no_tagged_fields_round_trip(e, 12);
        assert(ts[k2] == t2[0]);
        lemma_fold_tags_step(ts, init, step, k2, s2);
    }
    assert(fold_tags(ts.subrange(0, ts.len() as int), init, step) == Ok::<PartitionDataTags, Error>(s3));
}

pub open spec fn partition_data_head(d: PartitionDataView) -> PartitionDataView {
    PartitionDataView {
        aborted_transactions: None,
        preferred_read_replica: -1i32,
        records: None,
        diverging_epoch: None,
        current_leader: None,
        snapshot_id: None,
        ..d
    }
}

/// The aborted transactions as written: a count and the entries, or the null array.
pub open spec fn enc_aborted_part(d: PartitionDataView, version: i16) -> Seq<u8> {
    match d.aborted_transactions {
        Some(xs) => enc_vcount(xs.len(), version) + enc_list(aborted_encoder(version), xs),
        None => enc_null_varray(version),
    }
}

#[verifier::rlimit(100)]
proof fn lemma_partition_data_rest(d: PartitionDataView, version: i16, s: Seq<u8>, p: int)
    requires
        4 <= version <= 17,
        partition_data_wf(d, version),
        holds(s, p, enc_aborted_part(d, version) + enc_partition_data_tail(d, version)),
    ensures
        parse_partition_data_tail(s, p, version, partition_data_head(d)) == Ok::<(PartitionDataView, int), Error>(
            (d, p + (enc_aborted_part(d, version) + enc_partition_data_tail(d, version)).len()),
        ),
{
    let a = enc_aborted_part(d, version);
    let b: Seq<u8> = if version >= 11 { enc_i32(d.preferred_read_replica) } else { Seq::empty() };
    let c: Seq<u8> = if version <= 11 { enc_nullable_string(d.records) } else { enc_compact_nullable_string(d.records) };
    let t: Seq<u8> = if version >= 12 { enc_tagged_fields(partition_data_tags(d)) } else { Seq::empty() };
    assert(enc_partition_data_tail(d, version) == b + c + t);
    lemma_holds_split(s, p, a, b + c + t);
    let q1 = p + a.len();
    lemma_holds_split(s, q1, b + c, t);
    lemma_holds_split(s, q1, b, c);
    lemma_aborted_inverts(version);
    match d.aborted_transactions {
        Some(xs) => {
            assert(all_wf(aborted_wf(version), Some(xs)));
            if version <= 11 {
                lemma_array_round_trip(aborted_parser(version), aborted_encoder(version), aborted_wf(version), Some(xs), s, p);
            } else {
                lemma_compact_array_round_trip(aborted_parser(version), aborted_encoder(version), aborted_wf(version), Some(xs), s, p);
            }
        },
        None => {
            if version <= 11 {
                lemma_array_round_trip(aborted_parser(version), aborted_encoder(version), aborted_wf(version), None, s, p);
            } else {
                lemma_compact_array_round_trip(aborted_parser(version), aborted_encoder(version), aborted_wf(version), None, s, p);
            }
        },
    }
    if version >= 11 {
        lemma_i32_round_trip(d.preferred_read_replica, s, q1);
    }
    let q2 = q1 + b.len();
    if version <= 11 {
        lemma_nullable_string_round_trip(d.records, s, q2);
    } else {
        lemma_compact_nullable_string_round_trip(d.records, s, q2);
    }
    if version >= 12 {
        lemma_partition_data_tags(d);
        lemma_tagged_fields_round_trip(partition_data_tags(d), s, q2 + c.len());
    }
}

/// A partition of a Fetch response reads back as written at `version`, whatever follows it.
#[verifier::rlimit(100)]
pub proof fn lemma_partition_data_round_trip(d: PartitionDataView, version: i16, s: Seq<u8>, p: int)
    requires
        4 <= version <= 17,
        partition_data_wf(d, version),
        holds(s, p, enc_partition_data(d, version)),
    ensures
        parse_partition_data(s, p, version) == Ok::<(PartitionDataView, int), Error>(
            (d, p + enc_partition_data(d, version).len()),
        ),
{
    let l: Seq<u8> = if version >= 5 { enc_i64(d.log_start_offset) } else { Seq::empty() };
    let a = enc_aborted_part(d, version);
    let tail = enc_partition_data_tail(d, version);
    let h = enc_i32(d.partition_index) + enc_i16(d.error_code) + enc_i64(d.high_watermark) + enc_i64(d.last_stable_offset);
    assert(enc_partition_data(d, version) == h + l + a + tail);
    lemma_holds_split(s, p, h + l + a, tail);
    lemma_holds_split(s, p, h + l, a);
    lemma_holds_split(s, p, h, l);
    lemma_holds_split(s, p, enc_i32(d.partition_index) + enc_i16(d.error_code) + enc_i64(d.high_watermark), enc_i64(d.last_stable_offset));
    lemma_holds_split(s, p, enc_i32(d.partition_index) + enc_i16(d.error_code), enc_i64(d.high_watermark));
    lemma_holds_split(s, p, enc_i32(d.partition_index), enc_i16(d.error_code));
    lemma_i32_round_trip(d.partition_index, s, p);
    lemma_i16_round_trip(d.error_code, s, p + 4);
    lemma_i64_round_trip(d.high_watermark, s, p + 6);
    lemma_i64_round_trip(d.last_stable_offset, s, p + 14);
    if version >= 5 {
        lemma_i64_round_trip(d.log_start_offset, s, p + 22);
    }
    let q = p + 22 + l.len();
    lemma_holds_join(s, q, a, tail);
    lemma_partition_data_rest(d, version, s, q);
}

// ---------------------------------------------------------------- topics and responses

pub open spec fn partition_data_wf_at(version: i16) -> spec_fn(PartitionDataView) -> bool {
    |d: PartitionDataView| 4 <= version <= 17 && partition_data_wf(d, version)
}

proof fn lemma_partition_data_inverts(version: i16)
    ensures
        inverts(partition_data_parser(version), partition_data_encoder(version), partition_data_wf_at(version)),
{
    assert forall|d: PartitionDataView, s: Seq<u8>, p: int|
        partition_data_wf_at(version)(d) && #[trigger] holds(s, p, partition_data_encoder(version)(d)) implies #[trigger] partition_data_parser(
        version,
    )(s, p) == Ok::<(PartitionDataView, int), Error>((d, p + partition_data_encoder(version)(d).len())) by {
        lemma_partition_data_round_trip(d, version, s, p);
    }
}

/// A topic block as it can stand in a response at `version`.
pub open spec fn topic_response_wf(t: FetchableTopicResponseView, version: i16) -> bool {
    &&& t.version == version
    &&& topic_ref_wf(t.topic, version)
    &&& t.partitions.len() < 0x7fff_ffff
    &&& forall|i: int| 0 <= i < t.partitions.len() ==> partition_data_wf(#[trigger] t.partitions[i], version)
}

/// A topic block of a Fetch response reads back as written at `version`.
#[verifier::rlimit(60)]
pub proof fn lemma_topic_response_round_trip(t: FetchableTopicResponseView, version: i16, s: Seq<u8>, p: int)
    requires
        4 <= version <= 17,
        topic_response_wf(t, version),
        holds(s, p, enc_topic_response(t, version)),
    ensures
        parse_topic_response(s, p, version) == Ok::<(FetchableTopicResponseView, int), Error>(
            (t, p + enc_topic_response(t, version).len()),
        ),
{
    let a = enc_topic_ref(t.topic, version);
    let b = enc_vcount(t.partitions.len(), version) + enc_list(partition_data_encoder(version), t.partitions);
    let c: Seq<u8> = if version >= 12 { enc_no_tagged_fields() } else { Seq::empty() };
    assert(enc_topic_response(t, version) =~= a + b + c);
    lemma_holds_split(s, p, a + b, c);
    lemma_holds_split(s, p, a, b);
    lemma_topic_ref_round_trip(t.topic, version, s, p);
    lemma_partition_data_inverts(version);
    assert(all_wf(partition_data_wf_at(version), Some(t.partitions)));
    if version <= 11 {
        lemma_array_round_trip(partition_data_parser(version), partition_data_encoder(version), partition_data_wf_at(version), Some(t.partitions), s, p + a.len());
    } else {
        lemma_compact_array_round_trip(partition_data_parser(version), partition_data_encoder(version), partition_data_wf_at(version), Some(t.partitions), s, p + a.len());
        lemma_no_tagged_fields_round_trip(s, p + a.len() + b.len());
    }
}

pub open spec fn topic_response_wf_at(version: i16) -> spec_fn(FetchableTopicResponseView) -> bool {
    |t: FetchableTopicResponseView| 4 <= version <= 17 && topic_response_wf(t, version)
}

proof fn lemma_topic_response_inverts(version: i16)
    ensures
        inverts(topic_response_parser(version), topic_response_encoder(version), topic_response_wf_at(version)),
{
    assert forall|t: FetchableTopicResponseView, s: Seq<u8>, p: int|
        topic_response_wf_at(version)(t) && #[trigger] holds(s, p, topic_response_encoder(version)(t)) implies #[trigger] topic_response_parser(
        version,
    )(s, p) == Ok::<(FetchableTopicResponseView, int), Error>((t, p + topic_response_encoder(version)(t).len())) by {
        lemma_topic_response_round_trip(t, version, s, p);
    }
}

pub open spec fn node_endpoint_wf() -> spec_fn(NodeEndpointView) -> bool {
    |n: NodeEndpointView| node_endpoint_fits(n)
}

proof fn lemma_node_endpoint_inverts()
    ensures
        inverts(node_endpoint_parser(), node_endpoint_encoder(), node_endpoint_wf()),
{
    assert forall|n: NodeEndpointView, s: Seq<u8>, p: int|
        node_endpoint_wf()(n) && #[trigger] holds(s, p, node_endpoint_encoder()(n)) implies #[trigger] node_endpoint_parser()(
        s,
        p,
    ) == Ok::<(NodeEndpointView, int), Error>((n, p + node_endpoint_encoder()(n).len())) by {
        let a = enc_i32(n.node_id);
        let b = enc_compact_nullable_string(Some(n.host));
        let c = enc_i32(n.port);
        let d = enc_compact_nullable_string(n.rack);
        lemma_holds_split(s, p, a + b + c + d, enc_no_tagged_fields());
        lemma_holds_split(s, p, a + b + c, d);
        lemma_holds_split(s, p, a + b, c);
        lemma_holds_split(s, p, a, b);
        lemma_i32_round_trip(n.node_id, s, p);
        lemma_compact_string_round_trip(n.host, s, p + 4, "non-nullable field host was serialized as null");
        lemma_i32_round_trip(n.port, s, p + 4 + b.len());
        lemma_compact_nullable_string_round_trip(n.rack, s, p + 8 + b.len());
        lemma_no_tagged_fields_round_trip(s, p + 8 + b.len() + d.len());
    }
}

/// A response as it can be written at its version and read back.
pub open spec fn response_wf(r: ResponseView) -> bool {
    let v = r.version;
    &&& 4 <= v <= 17
    &&& (v < 7 ==> r.error_code == 0 && r.session_id == 0)
    &&& r.responses.len() < 0x7fff_ffff
    &&& (forall|i: int| 0 <= i < r.responses.len() ==> topic_response_wf(#[trigger] r.responses[i], v))
    &&& (v < 12 ==> r.node_endpoints is None)
    &&& (r.node_endpoints is Some ==> {
        let ns = r.node_endpoints->Some_0;
        &&& ns.len() < 0xffff_ffff
        &&& (forall|i: int| 0 <= i < ns.len() ==> node_endpoint_fits(#[trigger] ns[i]))
        &&& enc_compact_array(node_endpoint_encoder(), Some(ns)).len() <= 0xffff_ffff
    })
}

proof fn lemma_response_tags(r: ResponseView, s: Seq<u8>, p: int)
    requires
        response_wf(r),
        r.version >= 12,
        holds(s, p, match r.node_endpoints {
            Some(ns) => enc_tagged_fields(seq![(0u32, enc_compact_array(node_endpoint_encoder(), Some(ns)))]),
            None => enc_no_tagged_fields(),
        }),
    ensures
        crate::tagged::parse_tagged_fields(s, p) is Ok,
        crate::tagged::parse_tagged_fields(s, p)->Ok_0.1 == p + (match r.node_endpoints {
            Some(ns) => enc_tagged_fields(seq![(0u32, enc_compact_array(node_endpoint_encoder(), Some(ns)))]),
            None => enc_no_tagged_fields(),
        }).len(),
        fold_tags(crate::tagged::parse_tagged_fields(s, p)->Ok_0.0, None, response_step()) == Ok::<Option<Seq<NodeEndpointView>>, Error>(r.node_endpoints),
{
    match r.node_endpoints {
        Some(ns) => {
            let e = enc_compact_array(node_endpoint_encoder(), Some(ns));
            let ts = seq![(0u32, e)];
            assert(tagged_fits(ts)) by {
                assert forall|i: int| 0 <= i < ts.len() implies tf_wf()(#[trigger] ts[i]) by {}
            }
            lemma_tagged_fields_round_trip(ts, s, p);
            lemma_whole(e);
            lemma_node_endpoint_inverts();
            assert(all_wf(node_endpoint_wf(), Some(ns)));
            lemma_compact_array_round_trip(node_endpoint_parser(), node_endpoint_encoder(), node_endpoint_wf(), Some(ns), e, 0);
            lemma_fold_tags_done(ts, None, response_step());
            lemma_fold_tags_step(ts, None, response_step(), 0, None);
        },
        None => {
            lemma_no_tagged_fields_round_trip(s, p);
            lemma_fold_tags_done(Seq::<(u32, Seq<u8>)>::empty(), None, response_step());
        },
    }
}

pub open spec fn enc_response_tags(r: ResponseView) -> Seq<u8> {
    if r.version >= 12 {
        match r.node_endpoints {
            Some(ns) => enc_tagged_fields(seq![(0u32, enc_compact_array(node_endpoint_encoder(), Some(ns)))]),
            None => enc_no_tagged_fields(),
        }
    } else {
        Seq::empty()
    }
}

proof fn lemma_response_topics(r: ResponseView, s: Seq<u8>, q: int)
    requires
        response_wf(r),
        holds(s, q, enc_vcount(r.responses.len(), r.version) + enc_list(topic_response_encoder(r.version), r.responses)),
    ensures
        crate::fetch_request::parse_varray(topic_response_parser(r.version), s, q, r.version) == Ok::<(Option<Seq<FetchableTopicResponseView>>, int), Error>(
            (Some(r.responses), q + (enc_vcount(r.responses.len(), r.version) + enc_list(topic_response_encoder(r.version), r.responses)).len()),
        ),
{
    let v = r.version;
    lemma_topic_response_inverts(v);
    assert(all_wf(topic_response_wf_at(v), Some(r.responses)));
    if v <= 11 {
        lemma_array_round_trip(topic_response_parser(v), topic_response_encoder(v), topic_response_wf_at(v), Some(r.responses), s, q);
    } else {
        lemma_compact_array_round_trip(topic_response_parser(v), topic_response_encoder(v), topic_response_wf_at(v), Some(r.responses), s, q);
    }
}

#[verifier::rlimit(100)]
proof fn lemma_response_bytes(r: ResponseView, s: Seq<u8>, p: int)
    requires
        response_wf(r),
        holds(s, p, enc_response(r)),
    ensures
        ({
            let v = r.version;
            let q = p + 4 + if v >= 7 { 6int } else { 0int };
            let n = (enc_vcount(r.responses.len(), v) + enc_list(topic_response_encoder(v), r.responses)).len();
            &&& parse_i32(s, p) == Ok::<(i32, int), Error>((r.throttle_time_ms, p + 4))
            &&& (v >= 7 ==> parse_i16(s, p + 4) == Ok::<(i16, int), Error>((r.error_code, p + 6)))
            &&& (v >= 7 ==> parse_i32(s, p + 6) == Ok::<(i32, int), Error>((r.session_id, p + 10)))
            &&& crate::fetch_request::parse_varray(topic_response_parser(v), s, q, v) == Ok::<(Option<Seq<FetchableTopicResponseView>>, int), Error>((Some(r.responses), q + n))
            &&& (v >= 12 ==> holds(s, q + n, enc_response_tags(r)))
            &&& enc_response(r).len() == q - p + n + enc_response_tags(r).len()
        }),
{
    let v = r.version;
    let a = enc_i32(r.throttle_time_ms);
    let b: Seq<u8> = if v >= 7 { enc_i16(r.error_code) + enc_i32(r.session_id) } else { Seq::empty() };
    let vc = enc_vcount(r.responses.len(), v);
    let lst = enc_list(topic_response_encoder(v), r.responses);
    let t = enc_response_tags(r);
    assert(enc_response(r) == a + b + vc + lst + t);
    lemma_holds_split(s, p, a + b + vc + lst, t);
    lemma_holds_split(s, p, a + b + vc, lst);
    lemma_holds_split(s, p, a + b, vc);
    lemma_holds_split(s, p, a, b);
    lemma_holds_join(s, p + a.len() + b.len(), vc, lst);
    lemma_i32_round_trip(r.throttle_time_ms, s, p);
    if v >= 7 {
        lemma_holds_split(s, p + 4, enc_i16(r.error_code), enc_i32(r.session_id));
        lemma_i16_round_trip(r.error_code, s, p + 4);
        lemma_i32_round_trip(r.session_id, s, p + 6);
    }
    let q = p + a.len() + b.len();
    lemma_response_topics(r, s, q);
}

/// A Fetch response reads back as written at its version, whatever follows it.
#[verifier::rlimit(100)]
pub proof fn lemma_response_round_trip(r: ResponseView, s: Seq<u8>, p: int)
    requires
        response_wf(r),
        holds(s, p, enc_response(r)),
    ensures
        parse_response(s, p, r.version) == Ok::<(ResponseView, int), Error>((r, p + enc_response(r).len())),
{
    let v = r.version;
    lemma_response_bytes(r, s, p);
    let q = p + 4 + if v >= 7 { 6int } else { 0int };
    let n = (enc_vcount(r.responses.len(), v) + enc_list(topic_response_encoder(v), r.responses)).len();
    if v >= 12 {
        lemma_response_tags(r, s, q + n);
        let tags = crate::tagged::parse_tagged_fields(s, q + n)->Ok_0;
        assert(fold_tags(tags.0, None, response_step()) == Ok::<Option<Seq<NodeEndpointView>>, Error>(r.node_endpoints));
    }
}

} // verus!
