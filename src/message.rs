use vstd::prelude::*;

use crate::api_versions;
use crate::describe;
use crate::error::Error;
use crate::fetch;
use crate::fetch::{segment_views, LogSegment};
use crate::fetch_request;
use crate::fetch_response;
use crate::header::{
    enc_response_header, parse_request_header, read_request_header, response_header_version,
    write_response_header, RequestHeader, RequestHeaderView, ResponseHeader, API_VERSIONS_KEY,
    DESCRIBE_TOPIC_PARTITIONS_KEY, FETCH_KEY, response_header_version_of,
};
use crate::model::{Catalog, TopicView};
use crate::types::read_raw;
use crate::wire::{enc_i32, need, parse_i32, read_i32, write_i32};

verus! {

/// A decoded request body, by api.
pub enum KafkaRequest {
    Fetch(fetch_request::Request),
    ApiVersions(api_versions::Request),
    DescribeTopicPartitions(describe::Request),
}

pub enum KafkaRequestView {
    Fetch(fetch_request::RequestView),
    ApiVersions(api_versions::RequestView),
    DescribeTopicPartitions(describe::RequestView),
}

impl View for KafkaRequest {
    type V = KafkaRequestView;

    open spec fn view(&self) -> KafkaRequestView {
        match self {
            KafkaRequest::Fetch(r) => KafkaRequestView::Fetch(r@),
            KafkaRequest::ApiVersions(r) => KafkaRequestView::ApiVersions(r@),
            KafkaRequest::DescribeTopicPartitions(r) => KafkaRequestView::DescribeTopicPartitions(r@),
        }
    }
}

/// A response body, by api.
pub enum KafkaResponse {
    Fetch(fetch_response::Response),
    ApiVersions(api_versions::Response),
    DescribeTopicPartitions(describe::Response),
}

pub enum KafkaResponseView {
    Fetch(fetch_response::ResponseView),
    ApiVersions(api_versions::ResponseView),
    DescribeTopicPartitions(describe::ResponseView),
}

impl View for KafkaResponse {
    type V = KafkaResponseView;

    open spec fn view(&self) -> KafkaResponseView {
        match self {
            KafkaResponse::Fetch(r) => KafkaResponseView::Fetch(r@),
            KafkaResponse::ApiVersions(r) => KafkaResponseView::ApiVersions(r@),
            KafkaResponse::DescribeTopicPartitions(r) => KafkaResponseView::DescribeTopicPartitions(r@),
        }
    }
}

/// The body of a request, routed by api key; a key the server does not know is
/// `UnknownRequest`.
pub open spec fn parse_body(s: Seq<u8>, p: int, key: i16, version: i16) -> Result<KafkaRequestView, Error> {
    if key == FETCH_KEY {
        match fetch_request::parse_request(s, p, version) {
            Ok((r, _)) => Ok(KafkaRequestView::Fetch(r)),
            Err(e) => Err(e),
        }
    } else if key == API_VERSIONS_KEY {
        match api_versions::parse_request(s, p, version) {
            Ok((r, _)) => Ok(KafkaRequestView::ApiVersions(r)),
            Err(e) => Err(e),
        }
    } else if key == DESCRIBE_TOPIC_PARTITIONS_KEY {
        match describe::parse_request(s, p, version) {
            Ok((r, _)) => Ok(KafkaRequestView::DescribeTopicPartitions(r)),
            Err(e) => Err(e),
        }
    } else {
        Err(Error::UnknownRequest(key))
    }
}

/// One size-framed request at `p`: an `INT32` size, then that many bytes holding the header
/// and the body. Too few bytes for the size or the frame is `BufferUnderflow`.
pub open spec fn parse_frame(s: Seq<u8>, p: int) -> Result<((RequestHeaderView, KafkaRequestView), int), Error> {
    if !need(s, p, 4) {
        Err(Error::BufferUnderflow)
    } else {
        let size = parse_i32(s, p)->Ok_0.0 as int;
        if size < 0 {
            Err(Error::IllegalArgument("negative frame size"))
        } else if !need(s, p + 4, size) {
            Err(Error::BufferUnderflow)
        } else {
            let frame = s.subrange(p + 4, p + 4 + size);
            match parse_request_header(frame, 0) {
                Ok((h, q)) => match parse_body(frame, q, h.request_api_key, h.request_api_version) {
                    Ok(b) => Ok(((h, b), p + 4 + size)),
                    Err(e) => Err(e),
                },
                Err(e) => Err(e),
            }
        }
    }
}

/// Reads one framed request. On success the position moves past the frame; on any error it
/// stays where it was.
pub fn read_request(data: &[u8], pos: &mut usize) -> (r: Result<(RequestHeader, KafkaRequest), Error>)
    requires
        *old(pos) <= data@.len(),
    ensures
        *final(pos) <= data@.len(),
        match parse_frame(data@, *old(pos) as int) {
            Ok(((h, b), q)) => r is Ok && r->Ok_0.0@ == h && r->Ok_0.1@ == b && *final(pos) == q,
            Err(e) => r == Err::<(RequestHeader, KafkaRequest), Error>(e),
        },
        r is Err ==> *final(pos) == *old(pos),
{
    if data.len() - *pos < 4 {
        return Err(Error::BufferUnderflow);
    }
    let mut p: usize = *pos;
    let size = read_i32(data, &mut p)?;
    if size < 0 {
        return Err(Error::IllegalArgument("negative frame size"));
    }
    if data.len() - p < size as usize {
        return Err(Error::BufferUnderflow);
    }
    let frame = read_raw(data, &mut p, size as usize)?;
    let f = frame.as_slice();
    let mut q: usize = 0;
    let header = read_request_header(f, &mut q)?;
    let key = header.request_api_key;
    let version = header.request_api_version;
    let body = if key == FETCH_KEY {
        KafkaRequest::Fetch(fetch_request::read_request(f, &mut q, version)?)
    } else if key == API_VERSIONS_KEY {
        KafkaRequest::ApiVersions(api_versions::read_request(f, &mut q, version)?)
    } else if key == DESCRIBE_TOPIC_PARTITIONS_KEY {
        KafkaRequest::DescribeTopicPartitions(describe::read_request(f, &mut q, version)?)
    } else {
        return Err(Error::UnknownRequest(key));
    };
    *pos = p;
    Ok((header, body))
}

/// The answer to a request; Fetch and DescribeTopicPartitions need the catalog and fail with
/// its error when it could not be loaded.
pub open spec fn answer(
    request: KafkaRequestView,
    catalog: Result<Seq<TopicView>, Error>,
    segs: Seq<fetch::LogSegmentView>,
) -> Result<KafkaResponseView, Error> {
    match request {
        KafkaRequestView::ApiVersions(r) => Ok(
            KafkaResponseView::ApiVersions(api_versions::api_versions_answer(r.version)),
        ),
        KafkaRequestView::DescribeTopicPartitions(r) => match catalog {
            Ok(c) => Ok(KafkaResponseView::DescribeTopicPartitions(describe::describe_answer(c, r))),
            Err(e) => Err(e),
        },
        KafkaRequestView::Fetch(r) => match catalog {
            Ok(c) => Ok(KafkaResponseView::Fetch(fetch::fetch_answer(c, segs, r.version, r.topics))),
            Err(e) => Err(e),
        },
    }
}

pub open spec fn catalog_view(c: &Result<Catalog, Error>) -> Result<Seq<TopicView>, Error> {
    match c {
        Ok(c) => Ok(c@),
        Err(e) => Err(*e),
    }
}

/// Whether a response's writer can take it as it stands.
pub open spec fn response_ready(r: KafkaResponseView) -> bool {
    r is ApiVersions ==> api_versions::response_wf(r->ApiVersions_0)
}

pub fn process_request(request: &KafkaRequest, catalog: &Result<Catalog, Error>, segments: &[LogSegment]) -> (r:
    Result<KafkaResponse, Error>)
    ensures
        match answer(request@, catalog_view(catalog), segment_views(segments@)) {
            Ok(v) => r is Ok && r->Ok_0@ == v && response_ready(v),
            Err(e) => r is Err && e.same(r->Err_0),
        },
{
    match request {
        KafkaRequest::ApiVersions(r) => Ok(KafkaResponse::ApiVersions(api_versions::process_request(r))),
        KafkaRequest::DescribeTopicPartitions(r) => match catalog {
            Ok(c) => Ok(KafkaResponse::DescribeTopicPartitions(describe::process_request(r, c))),
            Err(e) => Err(e.duplicate()),
        },
        KafkaRequest::Fetch(r) => match catalog {
            Ok(c) => Ok(KafkaResponse::Fetch(fetch::process_request(r, c, segments))),
            Err(e) => Err(e.duplicate()),
        },
    }
}

/// The response header for a request: the version its (api-key, api-version) pair calls for,
/// v0 for an ApiVersions request at a version the table lacks.
pub open spec fn response_header_for(h: RequestHeaderView) -> Option<ResponseHeader> {
    match response_header_version_of(h.request_api_key, h.request_api_version) {
        Some(v) => Some(ResponseHeader { version: v as i16, correlation_id: h.correlation_id }),
        None => if h.request_api_key == API_VERSIONS_KEY {
            Some(ResponseHeader { version: 0, correlation_id: h.correlation_id })
        } else {
            None
        },
    }
}

pub open spec fn enc_body(r: KafkaResponseView) -> Seq<u8> {
    match r {
        KafkaResponseView::Fetch(x) => fetch_response::enc_response(x),
        KafkaResponseView::ApiVersions(x) => api_versions::enc_response(x),
        KafkaResponseView::DescribeTopicPartitions(x) => describe::enc_response(x),
    }
}

pub open spec fn body_fits(r: KafkaResponseView) -> bool {
    match r {
        KafkaResponseView::Fetch(x) => fetch_response::response_fits(x),
        KafkaResponseView::ApiVersions(x) => true,
        KafkaResponseView::DescribeTopicPartitions(x) => describe::response_fits(x),
    }
}

/// Writes the response header and body. It fails with `UnsupportedVersion` where no response
/// header fits the request, and with `IllegalArgument` where a length does not fit its field.
pub fn write_response(out: &mut Vec<u8>, header: &RequestHeader, response: &KafkaResponse) -> (r: Result<
    (),
    Error,
>)
    requires
        response_ready(response@),
    ensures
        r is Ok <==> response_header_for(header@) is Some && body_fits(response@),
        response_header_for(header@) is None ==> r == Err::<(), Error>(Error::UnsupportedVersion),
        r is Ok ==> final(out)@ == old(out)@ + enc_response_header(response_header_for(header@)->Some_0)
            + enc_body(response@),
{
    let rh = match response_header_version(header.request_api_key, header.request_api_version) {
        Some(v) => ResponseHeader { version: v as i16, correlation_id: header.correlation_id },
        None => {
            if header.request_api_key == API_VERSIONS_KEY {
                ResponseHeader::v0(header.correlation_id)
            } else {
                return Err(Error::UnsupportedVersion);
            }
        },
    };
    write_response_header(out, rh);
    let ghost mid = out@;
    match response {
        KafkaResponse::Fetch(x) => fetch_response::write_response(out, x)?,
        KafkaResponse::ApiVersions(x) => api_versions::write_response(out, x),
        KafkaResponse::DescribeTopicPartitions(x) => describe::write_response(out, x)?,
    }
    assert(final(out)@ =~= old(out)@ + enc_response_header(rh) + enc_body(response@));
    Ok(())
}

/// A whole response frame: an `INT32` size, then the response header and body.
pub fn encode_response_frame(header: &RequestHeader, response: &KafkaResponse) -> (r: Result<Vec<u8>, Error>)
    requires
        response_ready(response@),
    ensures
        r is Ok ==> {
            let payload = enc_response_header(response_header_for(header@)->Some_0) + enc_body(response@);
            &&& payload.len() <= 0x7fff_ffff
            &&& r->Ok_0@ == enc_i32(payload.len() as i32) + payload
        },
        r is Ok <==> response_header_for(header@) is Some && body_fits(response@) && (enc_response_header(
            response_header_for(header@)->Some_0,
        ) + enc_body(response@)).len() <= 0x7fff_ffff,
{
    let mut payload: Vec<u8> = Vec::new();
    write_response(&mut payload, header, response)?;
    if payload.len() > 0x7fff_ffff {
        return Err(Error::IllegalArgument("response too large"));
    }
    let mut out: Vec<u8> = Vec::new();
    write_i32(&mut out, payload.len() as i32);
    crate::types::write_raw(&mut out, payload.as_slice());
    assert(payload@ =~= Seq::<u8>::empty() + enc_response_header(response_header_for(header@)->Some_0)
        + enc_body(response@));
    Ok(out)
}

} // verus!
