use vstd::prelude::*;

use crate::error::Error;
use crate::tagged::{
    enc_no_tagged_fields, lemma_no_tagged_fields_round_trip, parse_tagged_fields,
    read_tagged_fields, write_no_tagged_fields,
};
use crate::types::{
    enc_nullable_string, lemma_nullable_string_round_trip, opt_bytes, opt_slice,
    parse_nullable_string, read_nullable_string, string_fits, write_nullable_string,
};
use crate::wire::{
    agrees, enc_i16, enc_i32, holds, lemma_holds_split, lemma_i16_round_trip,
    lemma_i32_round_trip, parse_i16, parse_i32, read_i16, read_i32, write_i16, write_i32,
};

verus! {

pub const FETCH_KEY: i16 = 1;

pub const API_VERSIONS_KEY: i16 = 18;

pub const DESCRIBE_TOPIC_PARTITIONS_KEY: i16 = 75;

/// The request-header version for an (api-key, api-version) pair the server knows.
pub open spec fn request_header_version_of(key: i16, version: i16) -> Option<u8> {
    if key == FETCH_KEY && 4 <= version <= 11 {
        Some(1u8)
    } else if key == FETCH_KEY && 12 <= version <= 17 {
        Some(2u8)
    } else if key == API_VERSIONS_KEY && 0 <= version <= 2 {
        Some(1u8)
    } else if key == API_VERSIONS_KEY && 3 <= version <= 4 {
        Some(2u8)
    } else if key == DESCRIBE_TOPIC_PARTITIONS_KEY && version == 0 {
        Some(2u8)
    } else {
        None
    }
}

/// The response-header version for an (api-key, api-version) pair the server knows;
/// ApiVersions always answers with v0.
pub open spec fn response_header_version_of(key: i16, version: i16) -> Option<u8> {
    if key == FETCH_KEY && 4 <= version <= 11 {
        Some(0u8)
    } else if key == FETCH_KEY && 12 <= version <= 17 {
        Some(1u8)
    } else if key == API_VERSIONS_KEY && 0 <= version <= 4 {
        Some(0u8)
    } else if key == DESCRIBE_TOPIC_PARTITIONS_KEY && version == 0 {
        Some(1u8)
    } else {
        None
    }
}

pub fn request_header_version(key: i16, version: i16) -> (r: Option<u8>)
    ensures
        r == request_header_version_of(key, version),
{
    if key == FETCH_KEY && 4 <= version && version <= 11 {
        Some(1)
    } else if key == FETCH_KEY && 12 <= version && version <= 17 {
        Some(2)
    } else if key == API_VERSIONS_KEY && 0 <= version && version <= 2 {
        Some(1)
    } else if key == API_VERSIONS_KEY && 3 <= version && version <= 4 {
        Some(2)
    } else if key == DESCRIBE_TOPIC_PARTITIONS_KEY && version == 0 {
        Some(2)
    } else {
        None
    }
}

pub fn response_header_version(key: i16, version: i16) -> (r: Option<u8>)
    ensures
        r == response_header_version_of(key, version),
{
    if key == FETCH_KEY && 4 <= version && version <= 11 {
        Some(0)
    } else if key == FETCH_KEY && 12 <= version && version <= 17 {
        Some(1)
    } else if key == API_VERSIONS_KEY && 0 <= version && version <= 4 {
        Some(0)
    } else if key == DESCRIBE_TOPIC_PARTITIONS_KEY && version == 0 {
        Some(1)
    } else {
        None
    }
}

/// The version a request header is read at: the table's, or v1 for a pair it lacks.
pub open spec fn header_version_read(key: i16, version: i16) -> u8 {
    match request_header_version_of(key, version) {
        Some(v) => v,
        None => 1u8,
    }
}

/// `RequestHeader` v1: api key, api version, correlation id, nullable client id;
/// v2 adds a tagged-field set.
pub struct RequestHeader {
    pub version: u8,
    pub request_api_key: i16,
    pub request_api_version: i16,
    pub correlation_id: i32,
    pub client_id: Option<Vec<u8>>,
}

pub struct RequestHeaderView {
    pub version: u8,
    pub request_api_key: i16,
    pub request_api_version: i16,
    pub correlation_id: i32,
    pub client_id: Option<Seq<u8>>,
}

impl View for RequestHeader {
    type V = RequestHeaderView;

    open spec fn view(&self) -> RequestHeaderView {
        RequestHeaderView {
            version: self.version,
            request_api_key: self.request_api_key,
            request_api_version: self.request_api_version,
            correlation_id: self.correlation_id,
            client_id: opt_bytes(self.client_id),
        }
    }
}

impl RequestHeader {
    pub fn v1(
        request_api_key: i16,
        request_api_version: i16,
        correlation_id: i32,
        client_id: Option<Vec<u8>>,
    ) -> (r: RequestHeader)
        ensures
            r.version == 1,
            r.request_api_key == request_api_key,
            r.request_api_version == request_api_version,
            r.correlation_id == correlation_id,
            r.client_id == client_id,
    {
        RequestHeader { version: 1, request_api_key, request_api_version, correlation_id, client_id }
    }

    pub fn v2(
        request_api_key: i16,
        request_api_version: i16,
        correlation_id: i32,
        client_id: Option<Vec<u8>>,
    ) -> (r: RequestHeader)
        ensures
            r.version == 2,
            r.request_api_key == request_api_key,
            r.request_api_version == request_api_version,
            r.correlation_id == correlation_id,
            r.client_id == client_id,
    {
        RequestHeader { version: 2, request_api_key, request_api_version, correlation_id, client_id }
    }

    pub fn request_api_key(&self) -> (r: i16)
        ensures
            r == self.request_api_key,
    {
        self.request_api_key
    }

    pub fn request_api_version(&self) -> (r: i16)
        ensures
            r == self.request_api_version,
    {
        self.request_api_version
    }

    pub fn correlation_id(&self) -> (r: i32)
        ensures
            r == self.correlation_id,
    {
        self.correlation_id
    }

    pub fn client_id(&self) -> (r: Option<&[u8]>)
        ensures
            opt_slice(r) == opt_bytes(self.client_id),
    {
        match &self.client_id {
            Some(c) => Some(c.as_slice()),
            None => None,
        }
    }
}

pub open spec fn parse_request_header(s: Seq<u8>, p: int) -> Result<(RequestHeaderView, int), Error> {
    match parse_i16(s, p) {
        Ok((key, q1)) => match parse_i16(s, q1) {
            Ok((version, q2)) => match parse_i32(s, q2) {
                Ok((correlation_id, q3)) => match parse_nullable_string(s, q3) {
                    Ok((client_id, q4)) => {
                        let hv = header_version_read(key, version);
                        let h = RequestHeaderView {
                            version: hv,
                            request_api_key: key,
                            request_api_version: version,
                            correlation_id,
                            client_id,
                        };
                        if hv >= 2 {
                            match parse_tagged_fields(s, q4) {
                                Ok((_, q5)) => Ok((h, q5)),
                                Err(e) => Err(e),
                            }
                        } else {
                            Ok((h, q4))
                        }
                    },
                    Err(e) => Err(e),
                },
                Err(e) => Err(e),
            },
            Err(e) => Err(e),
        },
        Err(e) => Err(e),
    }
}

pub open spec fn enc_request_header(h: RequestHeaderView) -> Seq<u8> {
    enc_i16(h.request_api_key) + enc_i16(h.request_api_version) + enc_i32(h.correlation_id)
        + enc_nullable_string(h.client_id) + if h.version >= 2 {
        enc_no_tagged_fields()
    } else {
        Seq::empty()
    }
}

pub fn read_request_header(data: &[u8], pos: &mut usize) -> (r: Result<RequestHeader, Error>)
    requires
        *old(pos) <= data@.len(),
    ensures
        *final(pos) <= data@.len(),
        agrees(r, *final(pos), parse_request_header(data@, *old(pos) as int)),
{
    let key = read_i16(data, pos)?;
    let version = read_i16(data, pos)?;
    let correlation_id = read_i32(data, pos)?;
    let client_id = read_nullable_string(data, pos)?.0;
    let hv = match request_header_version(key, version) {
        Some(v) => v,
        None => 1,
    };
    if hv >= 2 {
        let _ = read_tagged_fields(data, pos)?;
    }
    Ok(
        RequestHeader {
            version: hv,
            request_api_key: key,
            request_api_version: version,
            correlation_id,
            client_id,
        },
    )
}

pub fn write_request_header(out: &mut Vec<u8>, h: &RequestHeader)
    requires
        string_fits(opt_bytes(h.client_id)),
    ensures
        final(out)@ == old(out)@ + enc_request_header(h@),
{
    write_i16(out, h.request_api_key);
    write_i16(out, h.request_api_version);
    write_i32(out, h.correlation_id);
    write_nullable_string(out, h.client_id());
    if h.version >= 2 {
        write_no_tagged_fields(out);
    }
    assert(final(out)@ =~= old(out)@ + enc_request_header(h@));
}

/// A request header written at the version its (api-key, api-version) pair calls for reads
/// back as written.
pub proof fn lemma_request_header_round_trip(h: RequestHeaderView, s: Seq<u8>, p: int)
    requires
        h.version == header_version_read(h.request_api_key, h.request_api_version),
        string_fits(h.client_id),
        holds(s, p, enc_request_header(h)),
    ensures
        parse_request_header(s, p) == Ok::<(RequestHeaderView, int), Error>(
            (h, p + enc_request_header(h).len()),
        ),
{
    let a1 = enc_i16(h.request_api_key);
    let a2 = enc_i16(h.request_api_version);
    let a3 = enc_i32(h.correlation_id);
    let a4 = enc_nullable_string(h.client_id);
    let a5 = if h.version >= 2 {
        enc_no_tagged_fields()
    } else {
        Seq::empty()
    };
    lemma_holds_split(s, p, a1 + a2 + a3 + a4, a5);
    lemma_holds_split(s, p, a1 + a2 + a3, a4);
    lemma_holds_split(s, p, a1 + a2, a3);
    lemma_holds_split(s, p, a1, a2);
    lemma_i16_round_trip(h.request_api_key, s, p);
    lemma_i16_round_trip(h.request_api_version, s, p + 2);
    lemma_i32_round_trip(h.correlation_id, s, p + 4);
    lemma_nullable_string_round_trip(h.client_id, s, p + 8);
    if h.version >= 2 {
        lemma_no_tagged_fields_round_trip(s, p + 8 + a4.len());
    }
}

/// `ResponseHeader` v0: the correlation id; v1 adds a tagged-field set.
#[derive(Clone, Copy, PartialEq, Eq, Structural)]
pub struct ResponseHeader {
    pub version: i16,
    pub correlation_id: i32,
}

impl View for ResponseHeader {
    type V = ResponseHeader;

    open spec fn view(&self) -> ResponseHeader {
        *self
    }
}

impl ResponseHeader {
    pub fn v0(correlation_id: i32) -> (r: ResponseHeader)
        ensures
            r.version == 0,
            r.correlation_id == correlation_id,
    {
        ResponseHeader { version: 0, correlation_id }
    }

    pub fn v1(correlation_id: i32) -> (r: ResponseHeader)
        ensures
            r.version == 1,
            r.correlation_id == correlation_id,
    {
        ResponseHeader { version: 1, correlation_id }
    }

    pub fn correlation_id(&self) -> (r: i32)
        ensures
            r == self.correlation_id,
    {
        self.correlation_id
    }
}

pub open spec fn enc_response_header(h: ResponseHeader) -> Seq<u8> {
    enc_i32(h.correlation_id) + if h.version >= 1 {
        enc_no_tagged_fields()
    } else {
        Seq::empty()
    }
}

pub open spec fn parse_response_header(s: Seq<u8>, p: int, version: i16) -> Result<
    (ResponseHeader, int),
    Error,
> {
    if !(0 <= version <= 1) {
        Err(Error::UnsupportedVersion)
    } else {
        match parse_i32(s, p) {
            Ok((correlation_id, q)) => {
                let h = ResponseHeader { version, correlation_id };
                if version >= 1 {
                    match parse_tagged_fields(s, q) {
                        Ok((_, q2)) => Ok((h, q2)),
                        Err(e) => Err(e),
                    }
                } else {
                    Ok((h, q))
                }
            },
            Err(e) => Err(e),
        }
    }
}

pub fn read_response_header(data: &[u8], pos: &mut usize, version: i16) -> (r: Result<
    ResponseHeader,
    Error,
>)
    requires
        *old(pos) <= data@.len(),
    ensures
        *final(pos) <= data@.len(),
        agrees(r, *final(pos), parse_response_header(data@, *old(pos) as int, version)),
{
    if !(0 <= version && version <= 1) {
        return Err(Error::UnsupportedVersion);
    }
    let correlation_id = read_i32(data, pos)?;
    if version >= 1 {
        let _ = read_tagged_fields(data, pos)?;
    }
    Ok(ResponseHeader { version, correlation_id })
}

pub fn write_response_header(out: &mut Vec<u8>, h: ResponseHeader)
    ensures
        final(out)@ == old(out)@ + enc_response_header(h),
{
    write_i32(out, h.correlation_id);
    if h.version >= 1 {
        write_no_tagged_fields(out);
    }
    assert(final(out)@ =~= old(out)@ + enc_response_header(h));
}

pub proof fn lemma_response_header_round_trip(h: ResponseHeader, s: Seq<u8>, p: int)
    requires
        0 <= h.version <= 1,
        holds(s, p, enc_response_header(h)),
    ensures
        parse_response_header(s, p, h.version) == Ok::<(ResponseHeader, int), Error>(
            (h, p + enc_response_header(h).len()),
        ),
{
    let a2 = if h.version >= 1 {
        enc_no_tagged_fields()
    } else {
        Seq::empty()
    };
    lemma_holds_split(s, p, enc_i32(h.correlation_id), a2);
    lemma_i32_round_trip(h.correlation_id, s, p);
    if h.version >= 1 {
        lemma_no_tagged_fields_round_trip(s, p + 4);
    }
}

} // verus!
