use vstd::prelude::*;

use crate::arrays::{all_wf, lemma_array_round_trip, lemma_compact_array_round_trip};
use crate::error::Error;
use crate::fetch_request::{
    enc_null_varray, enc_replica_state, enc_request, enc_request_tail, enc_vcount,
    fetch_topic_encoder, fetch_topic_parser, fetch_topic_wf, forgotten_topic_encoder,
    forgotten_topic_parser, forgotten_topic_wf, lemma_fetch_topic_round_trip,
    lemma_forgotten_topic_round_trip, no_request_tags, parse_request, parse_request_tail,
    parse_varray, request_step, request_tags, FetchTopicView, ForgottenTopicView, RequestTags,
    RequestView,
};
use crate::list::{enc_list, inverts};
use crate::tagged::{
    enc_no_tagged_fields, enc_tagged_fields, fold_tags, lemma_fold_tags_done,
    lemma_fold_tags_step, lemma_no_tagged_fields_round_trip, lemma_tagged_fields_round_trip,
    parse_tagged_fields, tagged_fits, tf_wf,
};
use crate::types::{
    enc_compact_nullable_string, enc_nullable_string, lemma_compact_nullable_string_round_trip,
    lemma_nullable_string_round_trip,
};
use crate::varint::lemma_uvarint_len;
use crate::wire::{
    parse_i32, parse_i8,
    enc_i32, enc_i64, enc_i8, holds, lemma_holds_join, lemma_holds_split, lemma_i32_round_trip,
    lemma_i64_round_trip, lemma_i8_round_trip,
};

verus! {

pub open spec fn fetch_topic_wf_at(version: i16) -> spec_fn(FetchTopicView) -> bool {
    |t: FetchTopicView| 4 <= version <= 17 && fetch_topic_wf(t, version)
}

pub open spec fn forgotten_topic_wf_at(version: i16) -> spec_fn(ForgottenTopicView) -> bool {
    |t: ForgottenTopicView| forgotten_topic_wf(t, version)
}

proof fn lemma_fetch_topic_inverts(version: i16)
    ensures
        inverts(fetch_topic_parser(version), fetch_topic_encoder(version), fetch_topic_wf_at(version)),
{
    assert forall|x: FetchTopicView, s: Seq<u8>, p: int|
        fetch_topic_wf_at(version)(x) && #[trigger] holds(s, p, fetch_topic_encoder(version)(x)) implies #[trigger] fetch_topic_parser(
        version,
    )(s, p) == Ok::<(FetchTopicView, int), Error>((x, p + fetch_topic_encoder(version)(x).len())) by {
        lemma_fetch_topic_round_trip(x, version, s, p);
    }
}

proof fn lemma_forgotten_topic_inverts(version: i16)
    ensures
        inverts(forgotten_topic_parser(version), forgotten_topic_encoder(version), forgotten_topic_wf_at(version)),
{
    assert forall|x: ForgottenTopicView, s: Seq<u8>, p: int|
        forgotten_topic_wf_at(version)(x) && #[trigger] holds(s, p, forgotten_topic_encoder(version)(x)) implies #[trigger] forgotten_topic_parser(
        version,
    )(s, p) == Ok::<(ForgottenTopicView, int), Error>((x, p + forgotten_topic_encoder(version)(x).len())) by {
        lemma_forgotten_topic_round_trip(x, version, s, p);
    }
}

/// A Fetch request as it can be written at its version and read back: fields the version
/// lacks hold their defaults, nested entries carry the request's version, and lengths fit.
#[verifier::opaque]
pub open spec fn request_wf(r: RequestView) -> bool {
    let v = r.version;
    &&& 4 <= v <= 17
    &&& (v >= 15 ==> r.replica_id == -1)
    &&& (v < 7 ==> r.session_id == 0 && r.session_epoch == -1)
    &&& r.topics.len() < 0x7fff_ffff
    &&& (forall|i: int| 0 <= i < r.topics.len() ==> fetch_topic_wf(#[trigger] r.topics[i], v))
    &&& (v >= 7 <==> r.forgotten_topics_data is Some)
    &&& (r.forgotten_topics_data is Some ==> {
        let f = r.forgotten_topics_data->Some_0;
        f.len() < 0x7fff_ffff && forall|i: int| 0 <= i < f.len() ==> forgotten_topic_wf(#[trigger] f[i], v)
    })
    &&& (v < 11 ==> r.rack_id is None)
    &&& (r.rack_id is Some ==> r.rack_id->Some_0.len() <= 0x7fff)
    &&& (v < 12 ==> r.cluster_id is None)
    &&& (r.cluster_id is Some ==> r.cluster_id->Some_0.len() <= 0xffff)
    &&& (v < 15 ==> r.replica_state is None)
}

proof fn lemma_request_wf_scalars(r: RequestView)
    requires
        request_wf(r),
    ensures
        4 <= r.version <= 17,
        r.version >= 15 ==> r.replica_id == -1,
        r.version < 7 ==> r.session_id == 0 && r.session_epoch == -1,
        r.version >= 7 <==> r.forgotten_topics_data is Some,
        r.version < 11 ==> r.rack_id is None,
        r.rack_id is Some ==> r.rack_id->Some_0.len() <= 0x7fff,
        r.version < 12 ==> r.cluster_id is None,
        r.cluster_id is Some ==> r.cluster_id->Some_0.len() <= 0xffff,
        r.version < 15 ==> r.replica_state is None,
{
    reveal(request_wf);
}

proof fn lemma_request_topics(r: RequestView, s: Seq<u8>, p: int)
    requires
        request_wf(r),
        holds(s, p, enc_vcount(r.topics.len(), r.version) + enc_list(fetch_topic_encoder(r.version), r.topics)),
    ensures
        parse_varray(fetch_topic_parser(r.version), s, p, r.version) == Ok::<(Option<Seq<FetchTopicView>>, int), Error>(
            (Some(r.topics), p + (enc_vcount(r.topics.len(), r.version) + enc_list(fetch_topic_encoder(r.version), r.topics)).len()),
        ),
{
    reveal(request_wf);
    let v = r.version;
    lemma_fetch_topic_inverts(v);
    assert(all_wf(fetch_topic_wf_at(v), Some(r.topics)));
    if v <= 11 {
        lemma_array_round_trip(fetch_topic_parser(v), fetch_topic_encoder(v), fetch_topic_wf_at(v), Some(r.topics), s, p);
    } else {
        lemma_compact_array_round_trip(fetch_topic_parser(v), fetch_topic_encoder(v), fetch_topic_wf_at(v), Some(r.topics), s, p);
    }
}

proof fn lemma_request_forgotten(r: RequestView, s: Seq<u8>, p: int)
    requires
        request_wf(r),
        r.version >= 7,
        r.forgotten_topics_data is Some,
        holds(s, p, enc_vcount(r.forgotten_topics_data->Some_0.len(), r.version) + enc_list(forgotten_topic_encoder(r.version), r.forgotten_topics_data->Some_0)),
    ensures
        parse_varray(forgotten_topic_parser(r.version), s, p, r.version) == Ok::<(Option<Seq<ForgottenTopicView>>, int), Error>(
            (r.forgotten_topics_data, p + (enc_vcount(r.forgotten_topics_data->Some_0.len(), r.version) + enc_list(forgotten_topic_encoder(r.version), r.forgotten_topics_data->Some_0)).len()),
        ),
{
    reveal(request_wf);
    let v = r.version;
    let f = r.forgotten_topics_data->Some_0;
    lemma_forgotten_topic_inverts(v);
    assert(all_wf(forgotten_topic_wf_at(v), Some(f)));
    if v <= 11 {
        lemma_array_round_trip(forgotten_topic_parser(v), forgotten_topic_encoder(v), forgotten_topic_wf_at(v), Some(f), s, p);
    } else {
        lemma_compact_array_round_trip(forgotten_topic_parser(v), forgotten_topic_encoder(v), forgotten_topic_wf_at(v), Some(f), s, p);
    }
}

#[verifier::rlimit(100)]
proof fn lemma_request_tags(r: RequestView, s: Seq<u8>, p: int)
    requires
        request_wf(r),
        r.version >= 12,
        holds(s, p, enc_tagged_fields(request_tags(r))),
    ensures
        parse_tagged_fields(s, p) == Ok::<(Seq<(u32, Seq<u8>)>, int), Error>(
            (request_tags(r), p + enc_tagged_fields(request_tags(r)).len()),
        ),
        fold_tags(request_tags(r), no_request_tags(), request_step(r.version)) == Ok::<RequestTags, Error>(
            RequestTags { cluster_id: r.cluster_id, replica_state: r.replica_state },
        ),
{
    lemma_request_wf_scalars(r);
    let v = r.version;
    let ts = request_tags(r);
    let step = request_step(v);
    let init = no_request_tags();
    lemma_uvarint_len(0);
    if r.cluster_id is Some {
        lemma_uvarint_len((r.cluster_id->Some_0.len() + 1) as u32);
    }
    assert(tagged_fits(ts)) by {
        assert forall|i: int| 0 <= i < ts.len() implies tf_wf()(#[trigger] ts[i]) by {
            assert(ts[i].1.len() <= 0xffff_ffff);
        }
    }
    lemma_tagged_fields_round_trip(ts, s, p);
    let t0: Seq<(u32, Seq<u8>)> = match r.cluster_id {
        Some(c) => seq![(0u32, enc_compact_nullable_string(Some(c)))],
        None => Seq::empty(),
    };
    let t1: Seq<(u32, Seq<u8>)> = if v >= 15 && r.replica_state is Some {
        seq![(1u32, enc_replica_state(r.replica_state->Some_0))]
    } else {
        Seq::empty()
    };
    assert(ts == t0 + t1);
    lemma_fold_tags_done(ts, init, step);
    let after0 = RequestTags { cluster_id: r.cluster_id, replica_state: None };
    if let Some(c) = r.cluster_id {
        let e = enc_compact_nullable_string(Some(c));
        assert(holds(e, 0, e)) by {
            assert(e.subrange(0, e.len() as int) =~= e);
        }
        lemma_compact_nullable_string_round_trip(Some(c), e, 0);
        assert(ts[0] == t0[0]);
        lemma_fold_tags_step(ts, init, step, 0, init);
    }
    assert(fold_tags(ts.subrange(0, t0.len() as int), init, step) == Ok::<RequestTags, Error>(after0));
    if v >= 15 && r.replica_state is Some {
        let rs = r.replica_state->Some_0;
        let e = enc_replica_state(rs);
        assert(holds(e, 0, e)) by {
            assert(e.subrange(0, e.len() as int) =~= e);
        }
        lemma_holds_split(e, 0, enc_i32(rs.replica_id) + enc_i64(rs.replica_epoch), enc_no_tagged_fields());
        lemma_holds_split(e, 0, enc_i32(rs.replica_id), enc_i64(rs.replica_epoch));
        lemma_i32_round_trip(rs.replica_id, e, 0);
        lemma_i64_round_trip(rs.replica_epoch, e, 4);
        lemma_no_tagged_fields_round_trip(e, 12);
        assert(ts[t0.len() as int] == t1[0]);
        lemma_fold_tags_step(ts, init, step, t0.len() as int, after0);
    }
    assert(fold_tags(ts.subrange(0, ts.len() as int), init, step) == Ok::<RequestTags, Error>(
        RequestTags { cluster_id: r.cluster_id, replica_state: r.replica_state },
    ));
}

/// Everything after `isolation_level`.
pub open spec fn enc_request_rest(r: RequestView) -> Seq<u8> {
    (if r.version >= 7 { enc_i32(r.session_id) + enc_i32(r.session_epoch) } else { Seq::empty() })
        + enc_vcount(r.topics.len(), r.version) + enc_list(fetch_topic_encoder(r.version), r.topics)
        + enc_request_tail(r)
}

pub open spec fn request_head(r: RequestView) -> RequestView {
    RequestView {
        version: r.version,
        replica_id: r.replica_id,
        max_wait_ms: r.max_wait_ms,
        min_bytes: r.min_bytes,
        max_bytes: r.max_bytes,
        isolation_level: r.isolation_level,
        session_id: 0i32,
        session_epoch: -1i32,
        topics: Seq::empty(),
        forgotten_topics_data: None,
        rack_id: None,
        cluster_id: None,
        replica_state: None,
    }
}

#[verifier::rlimit(100)]
proof fn lemma_request_rest(r: RequestView, s: Seq<u8>, p: int)
    requires
        request_wf(r),
        holds(s, p, enc_request_rest(r)),
    ensures
        parse_request_tail(s, p, r.version, request_head(r)) == Ok::<(RequestView, int), Error>(
            (r, p + enc_request_rest(r).len()),
        ),
{
    lemma_request_wf_scalars(r);
    let v = r.version;
    let a: Seq<u8> = if v >= 7 { enc_i32(r.session_id) + enc_i32(r.session_epoch) } else { Seq::empty() };
    let b = enc_vcount(r.topics.len(), v) + enc_list(fetch_topic_encoder(v), r.topics);
    let c: Seq<u8> = if v >= 7 {
        match r.forgotten_topics_data {
            Some(f) => enc_vcount(f.len(), v) + enc_list(forgotten_topic_encoder(v), f),
            None => enc_null_varray(v),
        }
    } else {
        Seq::empty()
    };
    let d: Seq<u8> = if v >= 12 {
        enc_compact_nullable_string(r.rack_id)
    } else if v == 11 {
        enc_nullable_string(r.rack_id)
    } else {
        Seq::empty()
    };
    let e: Seq<u8> = if v >= 12 { enc_tagged_fields(request_tags(r)) } else { Seq::empty() };
    let vc = enc_vcount(r.topics.len(), v);
    let lst = enc_list(fetch_topic_encoder(v), r.topics);
    assert(enc_request_tail(r) == c + d + e);
    lemma_holds_split(s, p, a + vc + lst, c + d + e);
    lemma_holds_split(s, p, a + vc, lst);
    lemma_holds_split(s, p, a, vc);
    lemma_holds_join(s, p + a.len(), vc, lst);
    let q2 = p + a.len() + b.len();
    lemma_holds_split(s, q2, c + d, e);
    lemma_holds_split(s, q2, c, d);
    if v >= 7 {
        lemma_holds_split(s, p, enc_i32(r.session_id), enc_i32(r.session_epoch));
        lemma_i32_round_trip(r.session_id, s, p);
        lemma_i32_round_trip(r.session_epoch, s, p + 4);
    }
    let q1 = p + a.len();
    lemma_request_topics(r, s, q1);
    if v >= 7 {
        lemma_request_forgotten(r, s, q2);
    }
    let q3 = q2 + c.len();
    if v >= 12 {
        lemma_compact_nullable_string_round_trip(r.rack_id, s, q3);
    } else if v == 11 {
        lemma_nullable_string_round_trip(r.rack_id, s, q3);
    }
    let q4 = q3 + d.len();
    if v >= 12 {
        lemma_request_tags(r, s, q4);
    }
}

#[verifier::rlimit(100)]
proof fn lemma_request_head_bytes(r: RequestView, s: Seq<u8>, p: int)
    requires
        request_wf(r),
        holds(s, p, enc_request(r)),
    ensures
        ({
            let q = p + if r.version <= 14 { 4int } else { 0int };
            &&& (r.version <= 14 ==> parse_i32(s, p) == Ok::<(i32, int), Error>((r.replica_id, p + 4)))
            &&& parse_i32(s, q) == Ok::<(i32, int), Error>((r.max_wait_ms, q + 4))
            &&& parse_i32(s, q + 4) == Ok::<(i32, int), Error>((r.min_bytes, q + 8))
            &&& parse_i32(s, q + 8) == Ok::<(i32, int), Error>((r.max_bytes, q + 12))
            &&& parse_i8(s, q + 12) == Ok::<(i8, int), Error>((r.isolation_level, q + 13))
            &&& holds(s, q + 13, enc_request_rest(r))
            &&& enc_request(r).len() == q + 13 + enc_request_rest(r).len() - p
        }),
{
    lemma_request_wf_scalars(r);
    let v = r.version;
    let h0: Seq<u8> = if v <= 14 { enc_i32(r.replica_id) } else { Seq::empty() };
    let rest = enc_request_rest(r);
    let sess: Seq<u8> = if v >= 7 { enc_i32(r.session_id) + enc_i32(r.session_epoch) } else { Seq::empty() };
    let vc = enc_vcount(r.topics.len(), v);
    let lst = enc_list(fetch_topic_encoder(v), r.topics);
    let tail = enc_request_tail(r);
    assert(enc_request(r) == (h0 + enc_i32(r.max_wait_ms) + enc_i32(r.min_bytes) + enc_i32(r.max_bytes) + enc_i8(r.isolation_level) + sess + vc + lst) + tail);
    lemma_holds_split(s, p, h0 + enc_i32(r.max_wait_ms) + enc_i32(r.min_bytes) + enc_i32(r.max_bytes) + enc_i8(r.isolation_level) + sess + vc + lst, tail);
    lemma_holds_split(s, p, h0 + enc_i32(r.max_wait_ms) + enc_i32(r.min_bytes) + enc_i32(r.max_bytes) + enc_i8(r.isolation_level) + sess + vc, lst);
    lemma_holds_split(s, p, h0 + enc_i32(r.max_wait_ms) + enc_i32(r.min_bytes) + enc_i32(r.max_bytes) + enc_i8(r.isolation_level) + sess, vc);
    lemma_holds_split(s, p, h0 + enc_i32(r.max_wait_ms) + enc_i32(r.min_bytes) + enc_i32(r.max_bytes) + enc_i8(r.isolation_level), sess);
    lemma_holds_split(s, p, h0 + enc_i32(r.max_wait_ms) + enc_i32(r.min_bytes) + enc_i32(r.max_bytes), enc_i8(r.isolation_level));
    lemma_holds_split(s, p, h0 + enc_i32(r.max_wait_ms) + enc_i32(r.min_bytes), enc_i32(r.max_bytes));
    lemma_holds_split(s, p, h0 + enc_i32(r.max_wait_ms), enc_i32(r.min_bytes));
    lemma_holds_split(s, p, h0, enc_i32(r.max_wait_ms));
    let q13 = p + h0.len() + 13;
    lemma_holds_join(s, q13, sess, vc);
    lemma_holds_join(s, q13, sess + vc, lst);
    lemma_holds_join(s, q13, sess + vc + lst, tail);
    assert(rest == sess + vc + lst + tail);
    if v <= 14 {
        lemma_i32_round_trip(r.replica_id, s, p);
    }
    let q = p + h0.len();
    lemma_i32_round_trip(r.max_wait_ms, s, q);
    lemma_i32_round_trip(r.min_bytes, s, q + 4);
    lemma_i32_round_trip(r.max_bytes, s, q + 8);
    lemma_i8_round_trip(r.isolation_level, s, q + 12);
}

/// A Fetch request reads back as written at its version, whatever follows it.
pub proof fn lemma_request_round_trip(r: RequestView, s: Seq<u8>, p: int)
    requires
        request_wf(r),
        holds(s, p, enc_request(r)),
    ensures
        parse_request(s, p, r.version) == Ok::<(RequestView, int), Error>((r, p + enc_request(r).len())),
{
    lemma_request_wf_scalars(r);
    lemma_request_head_bytes(r, s, p);
    let q = p + if r.version <= 14 { 4int } else { 0int };
    lemma_request_rest(r, s, q + 13);
}

} // verus!
