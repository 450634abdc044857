use vstd::prelude::*;
use vstd::slice::slice_to_vec;

use crate::fetch_request::{FetchTopicView, Request, TopicRef, TopicRefView, fetch_topic_views};
use crate::fetch_response::{
    partition_data_views, topic_response_views, FetchableTopicResponse,
    FetchableTopicResponseView, PartitionData, PartitionDataView, Response, ResponseView,
};
use crate::model::{index_of_id_from, index_of_name_from, Catalog, PartitionView, TopicView};
use crate::types::{opt_bytes, Uuid};

verus! {

pub const UNKNOWN_TOPIC_ID: i16 = 100;

/// The bytes of one partition's log segment, as read from disk.
pub struct LogSegment {
    pub topic_id: Uuid,
    pub partition_id: i32,
    pub records: Vec<u8>,
}

pub struct LogSegmentView {
    pub topic_id: Uuid,
    pub partition_id: i32,
    pub records: Seq<u8>,
}

impl View for LogSegment {
    type V = LogSegmentView;

    open spec fn view(&self) -> LogSegmentView {
        LogSegmentView { topic_id: self.topic_id, partition_id: self.partition_id, records: self.records@ }
    }
}

pub open spec fn segment_views(v: Seq<LogSegment>) -> Seq<LogSegmentView> {
    v.map_values(|s: LogSegment| s@)
}

/// The records of the first segment for (topic, partition) at or after `i`.
pub open spec fn segment_records_from(segs: Seq<LogSegmentView>, topic_id: Uuid, partition_id: i32, i: int) -> Option<Seq<u8>>
    decreases segs.len() - i,
{
    if i < 0 || i >= segs.len() {
        None
    } else if segs[i].topic_id == topic_id && segs[i].partition_id == partition_id {
        Some(segs[i].records)
    } else {
        segment_records_from(segs, topic_id, partition_id, i + 1)
    }
}

/// The catalog position of a requested topic: by name up to v12, by id from v13 on.
pub open spec fn find_topic(catalog: Seq<TopicView>, t: TopicRefView) -> Option<int> {
    match t {
        TopicRefView::Name(n) => index_of_name_from(catalog, n, 0),
        TopicRefView::Id(u) => index_of_id_from(catalog, u, 0),
    }
}

/// A partition of a known topic: no error, high watermark 0, the segment's bytes as records.
pub open spec fn found_partition(
    topic_id: Uuid,
    p: PartitionView,
    segs: Seq<LogSegmentView>,
    version: i16,
) -> PartitionDataView {
    PartitionDataView {
        version,
        partition_index: p.id,
        error_code: 0,
        high_watermark: 0,
        last_stable_offset: -1i64,
        log_start_offset: -1i64,
        aborted_transactions: None,
        preferred_read_replica: -1i32,
        records: segment_records_from(segs, topic_id, p.id, 0),
        diverging_epoch: None,
        current_leader: None,
        snapshot_id: None,
    }
}

/// The single stub partition of an unknown topic: error 100.
pub open spec fn unknown_partition(version: i16) -> PartitionDataView {
    PartitionDataView {
        version,
        partition_index: 0,
        error_code: UNKNOWN_TOPIC_ID,
        high_watermark: 0,
        last_stable_offset: -1i64,
        log_start_offset: -1i64,
        aborted_transactions: None,
        preferred_read_replica: -1i32,
        records: None,
        diverging_epoch: None,
        current_leader: None,
        snapshot_id: None,
    }
}

pub open spec fn topic_fetch_answer(
    catalog: Seq<TopicView>,
    segs: Seq<LogSegmentView>,
    t: FetchTopicView,
    version: i16,
) -> FetchableTopicResponseView {
    match find_topic(catalog, t.topic) {
        Some(i) => FetchableTopicResponseView {
            version,
            topic: t.topic,
            partitions: Seq::new(
                catalog[i].partitions.len(),
                |j: int| found_partition(catalog[i].id, catalog[i].partitions[j], segs, version),
            ),
        },
        None => FetchableTopicResponseView { version, topic: t.topic, partitions: seq![unknown_partition(version)] },
    }
}

/// The answer to a Fetch request: one topic block per requested topic, in order, with no
/// throttle, no error and session 0.
pub open spec fn fetch_answer(
    catalog: Seq<TopicView>,
    segs: Seq<LogSegmentView>,
    version: i16,
    topics: Seq<FetchTopicView>,
) -> ResponseView {
    ResponseView {
        version,
        throttle_time_ms: 0,
        error_code: 0,
        session_id: 0,
        responses: topics.map_values(|t: FetchTopicView| topic_fetch_answer(catalog, segs, t, version)),
        node_endpoints: None,
    }
}

fn segment_records(segs: &[LogSegment], topic_id: Uuid, partition_id: i32) -> (r: Option<Vec<u8>>)
    ensures
        opt_bytes(r) == segment_records_from(segment_views(segs@), topic_id, partition_id, 0),
{
    let ghost vs = segment_views(segs@);
    let mut i: usize = 0;
    while i < segs.len()
        invariant
            i <= segs@.len(),
            vs == segment_views(segs@),
            segment_records_from(vs, topic_id, partition_id, 0) == segment_records_from(vs, topic_id, partition_id, i as int),
        decreases segs@.len() - i,
    {
        assert(vs[i as int] == segs@[i as int]@);
        if segs[i].topic_id == topic_id && segs[i].partition_id == partition_id {
            return Some(slice_to_vec(segs[i].records.as_slice()));
        }
        i = i + 1;
    }
    None
}

impl Catalog {
    /// The position of a requested topic: by name or by id, as the request names it.
    pub fn find_topic(&self, t: &TopicRef) -> (r: Option<usize>)
        ensures
            r is Some <==> find_topic(self@, t@) is Some,
            r is Some ==> r->Some_0 as int == find_topic(self@, t@)->Some_0 && r->Some_0 < self@.len(),
    {
        let n = self.len();
        match t {
            TopicRef::Name(name) => {
                proof {
                    if index_of_name_from(self@, name@, 0) is Some {
                        crate::model::lemma_index_of_name_found(self@, name@, 0);
                    }
                }
                self.index_of_name(name.as_slice())
            },
            TopicRef::Id(u) => {
                proof {
                    if index_of_id_from(self@, *u, 0) is Some {
                        crate::model::lemma_index_of_id_found_pub(self@, *u, 0);
                    }
                }
                self.index_of_id(*u)
            },
        }
    }
}

fn copy_topic_ref(t: &TopicRef) -> (r: TopicRef)
    ensures
        r@ == t@,
{
    match t {
        TopicRef::Name(n) => TopicRef::Name(slice_to_vec(n.as_slice())),
        TopicRef::Id(u) => TopicRef::Id(*u),
    }
}

fn fetch_topic(catalog: &Catalog, segs: &[LogSegment], t: &crate::fetch_request::FetchTopic, version: i16) -> (r:
    FetchableTopicResponse)
    ensures
        r@ == topic_fetch_answer(catalog@, segment_views(segs@), t@, version),
{
    let ghost sv = segment_views(segs@);
    match catalog.find_topic(&t.topic) {
        Some(i) => {
            let topic = catalog.topic(i);
            let ghost tv = catalog@[i as int];
            let mut parts: Vec<PartitionData> = Vec::new();
            let mut j: usize = 0;
            while j < topic.partitions.len()
                invariant
                    j <= topic.partitions@.len(),
                    tv == topic@,
                    sv == segment_views(segs@),
                    parts@.len() == j,
                    forall|k: int|
                        0 <= k < j ==> #[trigger] partition_data_views(parts@)[k]
                            == found_partition(tv.id, tv.partitions[k], sv, version),
                decreases topic.partitions@.len() - j,
            {
                let p = &topic.partitions[j];
                assert(tv.partitions[j as int] == p@);
                let d = PartitionData {
                    version,
                    partition_index: p.id,
                    error_code: 0,
                    high_watermark: 0,
                    last_stable_offset: -1,
                    log_start_offset: -1,
                    aborted_transactions: None,
                    preferred_read_replica: -1,
                    records: segment_records(segs, topic.id, p.id),
                    diverging_epoch: None,
                    current_leader: None,
                    snapshot_id: None,
                };
                let ghost before = parts@;
                let ghost dv = d@;
                parts.push(d);
                assert(partition_data_views(parts@) =~= partition_data_views(before).push(dv));
                j = j + 1;
            }
            let r = FetchableTopicResponse { version, topic: copy_topic_ref(&t.topic), partitions: parts };
            assert(r@.partitions =~= topic_fetch_answer(catalog@, sv, t@, version).partitions);
            r
        },
        None => {
            let mut parts: Vec<PartitionData> = Vec::new();
            parts.push(
                PartitionData {
                    version,
                    partition_index: 0,
                    error_code: UNKNOWN_TOPIC_ID,
                    high_watermark: 0,
                    last_stable_offset: -1,
                    log_start_offset: -1,
                    aborted_transactions: None,
                    preferred_read_replica: -1,
                    records: None,
                    diverging_epoch: None,
                    current_leader: None,
                    snapshot_id: None,
                },
            );
            let r = FetchableTopicResponse { version, topic: copy_topic_ref(&t.topic), partitions: parts };
            assert(r@.partitions =~= seq![unknown_partition(version)]);
            r
        },
    }
}

/// Answers a Fetch request from the catalog and the log segments that were read for it; a
/// partition whose segment is missing gets no records.
pub fn process_request(request: &Request, catalog: &Catalog, segments: &[LogSegment]) -> (r: Response)
    ensures
        r@ == fetch_answer(catalog@, segment_views(segments@), request.version, fetch_topic_views(request.topics@)),
{
    let ghost want = fetch_answer(catalog@, segment_views(segments@), request.version, fetch_topic_views(request.topics@)).responses;
    let mut responses: Vec<FetchableTopicResponse> = Vec::new();
    let mut i: usize = 0;
    while i < request.topics.len()
        invariant
            i <= request.topics@.len(),
            want == fetch_answer(catalog@, segment_views(segments@), request.version, fetch_topic_views(request.topics@)).responses,
            responses@.len() == i,
            forall|k: int| 0 <= k < i ==> #[trigger] topic_response_views(responses@)[k] == want[k],
        decreases request.topics@.len() - i,
    {
        let t = &request.topics[i];
        assert(fetch_topic_views(request.topics@)[i as int] == t@);
        let x = fetch_topic(catalog, segments, t, request.version);
        let ghost before = responses@;
        let ghost xv = x@;
        responses.push(x);
        assert(topic_response_views(responses@) =~= topic_response_views(before).push(xv));
        i = i + 1;
    }
    let r = Response {
        version: request.version,
        throttle_time_ms: 0,
        error_code: 0,
        session_id: 0,
        responses,
        node_endpoints: None,
    };
    assert(r@.responses =~= want);
    r
}

} // verus!
