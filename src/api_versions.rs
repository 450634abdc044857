use vstd::prelude::*;

use crate::arrays::{
    all_wf, enc_array, enc_compact_array, lemma_array_round_trip,
    lemma_compact_array_round_trip, parse_array, parse_compact_array,
};
use crate::error::Error;
use crate::list::{
    enc_list, inverts, lemma_enc_list_push, parse_list, parse_list_from, Encoder, Parser,
};
use crate::tagged::{
    fold_tags, lemma_fold_tags_done, lemma_fold_tags_err, lemma_fold_tags_step, lemma_tagged_fields_round_trip,
    enc_no_tagged_fields, enc_tagged_fields, keys_ascending, lemma_no_tagged_fields_round_trip,
    parse_tagged_fields, read_tagged_fields, tagged_fits, tf_views, write_no_tagged_fields,
    write_tagged_fields, TaggedField,
};
use crate::types::{
    compact_fits, enc_compact_string, lemma_compact_string_round_trip, parse_compact_string,
    read_compact_string, write_compact_nullable_string,
};
use crate::varint::{enc_uvarint, parse_uvarint, read_unsigned_varint, write_unsigned_varint};
use crate::wire::{
    agrees, enc_bool, lemma_i32_round_trip, lemma_i64_round_trip, lemma_bool_round_trip, enc_i16, enc_i32, enc_i64, holds, lemma_holds_split,
    lemma_i16_round_trip, parse_bool, parse_i16, parse_i32, parse_i64, read_bool, read_i16,
    read_i32, read_i64, write_bool, write_i16, write_i32, write_i64,
};

verus! {

// ---------------------------------------------------------------- request

/// An ApiVersions request: empty for v0 to v2; v3 and v4 carry the client software's name
/// and version.
pub struct Request {
    pub version: i16,
    pub client_software_name: Option<Vec<u8>>,
    pub client_software_version: Option<Vec<u8>>,
}

pub struct RequestView {
    pub version: i16,
    pub client_software_name: Option<Seq<u8>>,
    pub client_software_version: Option<Seq<u8>>,
}

pub open spec fn opt_view(o: Option<Vec<u8>>) -> Option<Seq<u8>> {
    match o {
        Some(v) => Some(v@),
        None => None,
    }
}

impl View for Request {
    type V = RequestView;

    open spec fn view(&self) -> RequestView {
        RequestView {
            version: self.version,
            client_software_name: opt_view(self.client_software_name),
            client_software_version: opt_view(self.client_software_version),
        }
    }
}

impl Request {
    pub fn v0() -> (r: Request)
        ensures
            r@ == (RequestView { version: 0, client_software_name: None, client_software_version: None }),
    {
        Request { version: 0, client_software_name: None, client_software_version: None }
    }

    pub fn v1() -> (r: Request)
        ensures
            r@ == (RequestView { version: 1, client_software_name: None, client_software_version: None }),
    {
        Request { version: 1, client_software_name: None, client_software_version: None }
    }

    pub fn v2() -> (r: Request)
        ensures
            r@ == (RequestView { version: 2, client_software_name: None, client_software_version: None }),
    {
        Request { version: 2, client_software_name: None, client_software_version: None }
    }

    pub fn v3(client_software_name: Vec<u8>, client_software_version: Vec<u8>) -> (r: Request)
        ensures
            r.version == 3,
            r.client_software_name == Some(client_software_name),
            r.client_software_version == Some(client_software_version),
    {
        Request {
            version: 3,
            client_software_name: Some(client_software_name),
            client_software_version: Some(client_software_version),
        }
    }

    pub fn v4(client_software_name: Vec<u8>, client_software_version: Vec<u8>) -> (r: Request)
        ensures
            r.version == 4,
            r.client_software_name == Some(client_software_name),
            r.client_software_version == Some(client_software_version),
    {
        Request {
            version: 4,
            client_software_name: Some(client_software_name),
            client_software_version: Some(client_software_version),
        }
    }

    pub fn version(&self) -> (r: i16)
        ensures
            r == self.version,
    {
        self.version
    }

    pub fn client_software_name(&self) -> (r: Option<&Vec<u8>>)
        ensures
            r is Some <==> self.client_software_name is Some,
            r is Some ==> *r->Some_0 == self.client_software_name->Some_0,
    {
        self.client_software_name.as_ref()
    }

    pub fn client_software_version(&self) -> (r: Option<&Vec<u8>>)
        ensures
            r is Some <==> self.client_software_version is Some,
            r is Some ==> *r->Some_0 == self.client_software_version->Some_0,
    {
        self.client_software_version.as_ref()
    }
}

/// The request body at `version`. Any version reads: one the server does not support is
/// answered with an error response rather than refused here.
pub open spec fn parse_request(s: Seq<u8>, p: int, version: i16) -> Result<(RequestView, int), Error> {
    if 3 <= version <= 4 {
        match parse_compact_string(s, p, "non-nullable field clientSoftwareName was serialized as null") {
            Ok((name, q1)) => match parse_compact_string(s, q1, "non-nullable field clientSoftwareVersion was serialized as null") {
                Ok((sv, q2)) => match parse_tagged_fields(s, q2) {
                    Ok((_, q3)) => Ok(
                        (
                            RequestView {
                                version,
                                client_software_name: Some(name),
                                client_software_version: Some(sv),
                            },
                            q3,
                        ),
                    ),
                    Err(e) => Err(e),
                },
                Err(e) => Err(e),
            },
            Err(e) => Err(e),
        }
    } else {
        Ok((RequestView { version, client_software_name: None, client_software_version: None }, p))
    }
}

pub open spec fn enc_request(r: RequestView) -> Seq<u8> {
    if r.version >= 3 {
        enc_compact_string(r.client_software_name->Some_0) + enc_compact_string(
            r.client_software_version->Some_0,
        ) + enc_no_tagged_fields()
    } else {
        Seq::empty()
    }
}

/// What a request must hold to be written at its version and read back.
pub open spec fn request_wf(r: RequestView) -> bool {
    &&& 0 <= r.version <= 4
    &&& (r.version >= 3 <==> r.client_software_name is Some)
    &&& (r.version >= 3 <==> r.client_software_version is Some)
    &&& compact_fits(r.client_software_name)
    &&& compact_fits(r.client_software_version)
}

pub fn read_request(data: &[u8], pos: &mut usize, version: i16) -> (r: Result<Request, Error>)
    requires
        *old(pos) <= data@.len(),
    ensures
        *final(pos) <= data@.len(),
        agrees(r, *final(pos), parse_request(data@, *old(pos) as int, version)),
{
    if 3 <= version && version <= 4 {
        let name = read_compact_string(data, pos, "non-nullable field clientSoftwareName was serialized as null")?;
        let sv = read_compact_string(data, pos, "non-nullable field clientSoftwareVersion was serialized as null")?;
        let _ = read_tagged_fields(data, pos)?;
        Ok(
            Request {
                version,
                client_software_name: Some(name),
                client_software_version: Some(sv),
            },
        )
    } else {
        Ok(Request { version, client_software_name: None, client_software_version: None })
    }
}

pub fn write_request(out: &mut Vec<u8>, r: &Request)
    requires
        request_wf(r@),
    ensures
        final(out)@ == old(out)@ + enc_request(r@),
{
    if r.version >= 3 {
        match (&r.client_software_name, &r.client_software_version) {
            (Some(name), Some(sv)) => {
                write_compact_nullable_string(out, Some(name.as_slice()));
                write_compact_nullable_string(out, Some(sv.as_slice()));
                write_no_tagged_fields(out);
                assert(final(out)@ =~= old(out)@ + enc_request(r@));
            },
            _ => {},
        }
    } else {
        assert(final(out)@ =~= old(out)@ + enc_request(r@));
    }
}

/// An ApiVersions request reads back as written at its version.
pub proof fn lemma_request_round_trip(r: RequestView, s: Seq<u8>, p: int)
    requires
        request_wf(r),
        holds(s, p, enc_request(r)),
    ensures
        parse_request(s, p, r.version) == Ok::<(RequestView, int), Error>(
            (r, p + enc_request(r).len()),
        ),
{
    if r.version >= 3 {
        let a = enc_compact_string(r.client_software_name->Some_0);
        let b = enc_compact_string(r.client_software_version->Some_0);
        lemma_holds_split(s, p, a + b, enc_no_tagged_fields());
        lemma_holds_split(s, p, a, b);
        lemma_compact_string_round_trip(r.client_software_name->Some_0, s, p, "non-nullable field clientSoftwareName was serialized as null");
        lemma_compact_string_round_trip(r.client_software_version->Some_0, s, p + a.len(), "non-nullable field clientSoftwareVersion was serialized as null");
        lemma_no_tagged_fields_round_trip(s, p + a.len() + b.len());
    }
}

// ---------------------------------------------------------------- api keys

/// One supported api: its key and its version range.
#[derive(Clone, Copy, PartialEq, Eq, Structural)]
pub struct ApiKey {
    pub version: i16,
    pub api_key: i16,
    pub min_version: i16,
    pub max_version: i16,
}

impl View for ApiKey {
    type V = ApiKey;

    open spec fn view(&self) -> ApiKey {
        *self
    }
}

impl ApiKey {
    pub fn v0(api_key: i16, min_version: i16, max_version: i16) -> (r: ApiKey)
        ensures
            r == (ApiKey { version: 0, api_key, min_version, max_version }),
    {
        ApiKey { version: 0, api_key, min_version, max_version }
    }

    pub fn v1(api_key: i16, min_version: i16, max_version: i16) -> (r: ApiKey)
        ensures
            r == (ApiKey { version: 1, api_key, min_version, max_version }),
    {
        ApiKey { version: 1, api_key, min_version, max_version }
    }

    pub fn v2(api_key: i16, min_version: i16, max_version: i16) -> (r: ApiKey)
        ensures
            r == (ApiKey { version: 2, api_key, min_version, max_version }),
    {
        ApiKey { version: 2, api_key, min_version, max_version }
    }

    pub fn v3(api_key: i16, min_version: i16, max_version: i16) -> (r: ApiKey)
        ensures
            r == (ApiKey { version: 3, api_key, min_version, max_version }),
    {
        ApiKey { version: 3, api_key, min_version, max_version }
    }

    pub fn v4(api_key: i16, min_version: i16, max_version: i16) -> (r: ApiKey)
        ensures
            r == (ApiKey { version: 4, api_key, min_version, max_version }),
    {
        ApiKey { version: 4, api_key, min_version, max_version }
    }

    pub fn api_key(&self) -> (r: i16)
        ensures
            r == self.api_key,
    {
        self.api_key
    }

    pub fn min_version(&self) -> (r: i16)
        ensures
            r == self.min_version,
    {
        self.min_version
    }

    pub fn max_version(&self) -> (r: i16)
        ensures
            r == self.max_version,
    {
        self.max_version
    }
}

/// An api-key entry at `version`: three `INT16`s, then a tagged-field set from v3 on.
pub open spec fn enc_api_key(k: ApiKey, version: i16) -> Seq<u8> {
    enc_i16(k.api_key) + enc_i16(k.min_version) + enc_i16(k.max_version) + if version >= 3 {
        enc_no_tagged_fields()
    } else {
        Seq::empty()
    }
}

pub open spec fn parse_api_key(s: Seq<u8>, p: int, version: i16) -> Result<(ApiKey, int), Error> {
    match parse_i16(s, p) {
        Ok((api_key, q1)) => match parse_i16(s, q1) {
            Ok((min_version, q2)) => match parse_i16(s, q2) {
                Ok((max_version, q3)) => {
                    let k = ApiKey { version, api_key, min_version, max_version };
                    if version >= 3 {
                        match parse_tagged_fields(s, q3) {
                            Ok((_, q4)) => Ok((k, q4)),
                            Err(e) => Err(e),
                        }
                    } else {
                        Ok((k, q3))
                    }
                },
                Err(e) => Err(e),
            },
            Err(e) => Err(e),
        },
        Err(e) => Err(e),
    }
}

pub open spec fn api_key_parser(version: i16) -> Parser<ApiKey> {
    |s: Seq<u8>, p: int| parse_api_key(s, p, version)
}

pub open spec fn api_key_encoder(version: i16) -> Encoder<ApiKey> {
    |k: ApiKey| enc_api_key(k, version)
}

pub open spec fn api_key_wf(version: i16) -> spec_fn(ApiKey) -> bool {
    |k: ApiKey| k.version == version
}

proof fn lemma_api_key_inverts(version: i16)
    ensures
        inverts(api_key_parser(version), api_key_encoder(version), api_key_wf(version)),
{
    assert forall|k: ApiKey, s: Seq<u8>, p: int|
        api_key_wf(version)(k) && #[trigger] holds(s, p, api_key_encoder(version)(k)) implies #[trigger] api_key_parser(
        version,
    )(s, p) == Ok::<(ApiKey, int), Error>((k, p + api_key_encoder(version)(k).len())) by {
        let a1 = enc_i16(k.api_key);
        let a2 = enc_i16(k.min_version);
        let a3 = enc_i16(k.max_version);
        let a4 = if version >= 3 {
            enc_no_tagged_fields()
        } else {
            Seq::empty()
        };
        lemma_holds_split(s, p, a1 + a2 + a3, a4);
        lemma_holds_split(s, p, a1 + a2, a3);
        lemma_holds_split(s, p, a1, a2);
        lemma_i16_round_trip(k.api_key, s, p);
        lemma_i16_round_trip(k.min_version, s, p + 2);
        lemma_i16_round_trip(k.max_version, s, p + 4);
        if version >= 3 {
            lemma_no_tagged_fields_round_trip(s, p + 6);
        }
    }
}

fn read_api_keys(data: &[u8], pos: &mut usize, n: usize, version: i16) -> (r: Result<
    Vec<ApiKey>,
    Error,
>)
    requires
        *old(pos) <= data@.len(),
    ensures
        *final(pos) <= data@.len(),
        agrees(r, *final(pos), parse_list(api_key_parser(version), data@, *old(pos) as int, n as nat)),
{
    let ghost begin = *pos as int;
    let mut v: Vec<ApiKey> = Vec::new();
    let mut i: usize = 0;
    while i < n
        invariant
            i <= n,
            begin == *old(pos),
            *pos <= data@.len(),
            parse_list(api_key_parser(version), data@, begin, n as nat) == parse_list_from(
                api_key_parser(version),
                data@,
                *pos as int,
                (n - i) as nat,
                v@,
            ),
        decreases n - i,
    {
        let api_key = read_i16(data, pos)?;
        let min_version = read_i16(data, pos)?;
        let max_version = read_i16(data, pos)?;
        if version >= 3 {
            let _ = read_tagged_fields(data, pos)?;
        }
        v.push(ApiKey { version, api_key, min_version, max_version });
        i = i + 1;
    }
    proof {
        assert(v@.map_values(|k: ApiKey| k@) =~= v@);
    }
    Ok(v)
}

fn write_api_keys(out: &mut Vec<u8>, ks: &[ApiKey], version: i16)
    ensures
        final(out)@ == old(out)@ + enc_list(api_key_encoder(version), ks@),
{
    let mut i: usize = 0;
    while i < ks.len()
        invariant
            i <= ks@.len(),
            out@ == old(out)@ + enc_list(api_key_encoder(version), ks@.subrange(0, i as int)),
        decreases ks@.len() - i,
    {
        let k = ks[i];
        let ghost before = out@;
        write_i16(out, k.api_key);
        write_i16(out, k.min_version);
        write_i16(out, k.max_version);
        if version >= 3 {
            write_no_tagged_fields(out);
        }
        proof {
            assert(out@ =~= before + enc_api_key(k, version));
            lemma_enc_list_push(api_key_encoder(version), ks@.subrange(0, i as int), k);
            assert(ks@.subrange(0, i as int).push(k) =~= ks@.subrange(0, i + 1));
        }
        i = i + 1;
    }
    assert(ks@.subrange(0, ks@.len() as int) =~= ks@);
}

// ---------------------------------------------------------------- features

/// A feature the broker supports, with its version range.
#[derive(Clone)]
pub struct SupportedFeature {
    pub name: Vec<u8>,
    pub min_version: i16,
    pub max_version: i16,
}

impl View for SupportedFeature {
    type V = (Seq<u8>, i16, i16);

    open spec fn view(&self) -> (Seq<u8>, i16, i16) {
        (self.name@, self.min_version, self.max_version)
    }
}

impl SupportedFeature {
    pub fn v3(name: Vec<u8>, min_version: i16, max_version: i16) -> (r: SupportedFeature)
        ensures
            r@ == (name@, min_version, max_version),
    {
        SupportedFeature { name, min_version, max_version }
    }

    pub fn v4(name: Vec<u8>, min_version: i16, max_version: i16) -> (r: SupportedFeature)
        ensures
            r@ == (name@, min_version, max_version),
    {
        SupportedFeature { name, min_version, max_version }
    }

    pub fn name(&self) -> (r: &[u8])
        ensures
            r@ == self.name@,
    {
        self.name.as_slice()
    }

    pub fn min_version(&self) -> (r: i16)
        ensures
            r == self.min_version,
    {
        self.min_version
    }

    pub fn max_version(&self) -> (r: i16)
        ensures
            r == self.max_version,
    {
        self.max_version
    }
}

/// A finalized feature, with its version levels.
#[derive(Clone)]
pub struct FinalizedFeature {
    pub name: Vec<u8>,
    pub max_version_level: i16,
    pub min_version_level: i16,
}

impl View for FinalizedFeature {
    type V = (Seq<u8>, i16, i16);

    open spec fn view(&self) -> (Seq<u8>, i16, i16) {
        (self.name@, self.max_version_level, self.min_version_level)
    }
}

impl FinalizedFeature {
    pub fn v3(name: Vec<u8>, max_version_level: i16, min_version_level: i16) -> (r: FinalizedFeature)
        ensures
            r@ == (name@, max_version_level, min_version_level),
    {
        FinalizedFeature { name, max_version_level, min_version_level }
    }

    pub fn v4(name: Vec<u8>, max_version_level: i16, min_version_level: i16) -> (r: FinalizedFeature)
        ensures
            r@ == (name@, max_version_level, min_version_level),
    {
        FinalizedFeature { name, max_version_level, min_version_level }
    }

    pub fn name(&self) -> (r: &[u8])
        ensures
            r@ == self.name@,
    {
        self.name.as_slice()
    }

    pub fn max_version_level(&self) -> (r: i16)
        ensures
            r == self.max_version_level,
    {
        self.max_version_level
    }

    pub fn min_version_level(&self) -> (r: i16)
        ensures
            r == self.min_version_level,
    {
        self.min_version_level
    }
}

/// A feature entry: compact-string name, two `INT16`s, an empty tagged-field set.
pub open spec fn enc_feature(f: (Seq<u8>, i16, i16)) -> Seq<u8> {
    enc_compact_string(f.0) + enc_i16(f.1) + enc_i16(f.2) + enc_no_tagged_fields()
}

pub open spec fn feature_encoder() -> Encoder<(Seq<u8>, i16, i16)> {
    |f: (Seq<u8>, i16, i16)| enc_feature(f)
}

pub open spec fn features_fit(fs: Seq<(Seq<u8>, i16, i16)>) -> bool {
    fs.len() < 0xffff_ffff && forall|i: int| 0 <= i < fs.len() ==> #[trigger] fs[i].0.len() < 0xffff_ffff
}

fn write_feature(out: &mut Vec<u8>, name: &[u8], a: i16, b: i16)
    requires
        name@.len() < 0xffff_ffff,
    ensures
        final(out)@ == old(out)@ + enc_feature((name@, a, b)),
{
    write_compact_nullable_string(out, Some(name));
    write_i16(out, a);
    write_i16(out, b);
    write_no_tagged_fields(out);
    assert(final(out)@ =~= old(out)@ + enc_feature((name@, a, b)));
}

pub open spec fn supported_views(v: Seq<SupportedFeature>) -> Seq<(Seq<u8>, i16, i16)> {
    v.map_values(|f: SupportedFeature| f@)
}

pub open spec fn finalized_views(v: Seq<FinalizedFeature>) -> Seq<(Seq<u8>, i16, i16)> {
    v.map_values(|f: FinalizedFeature| f@)
}

fn write_supported_features(out: &mut Vec<u8>, fs: &[SupportedFeature])
    requires
        features_fit(supported_views(fs@)),
    ensures
        final(out)@ == old(out)@ + enc_compact_array(feature_encoder(), Some(supported_views(fs@))),
{
    let ghost vs = supported_views(fs@);
    write_unsigned_varint(out, (fs.len() + 1) as u32);
    let ghost mid = out@;
    let mut i: usize = 0;
    while i < fs.len()
        invariant
            i <= fs@.len(),
            vs == supported_views(fs@),
            features_fit(vs),
            out@ == mid + enc_list(feature_encoder(), vs.subrange(0, i as int)),
        decreases fs@.len() - i,
    {
        let f = &fs[i];
        assert(vs[i as int] == f@);
        assert(vs[i as int].0.len() < 0xffff_ffff);
        write_feature(out, f.name.as_slice(), f.min_version, f.max_version);
        proof {
            lemma_enc_list_push(feature_encoder(), vs.subrange(0, i as int), f@);
            assert(vs.subrange(0, i as int).push(f@) =~= vs.subrange(0, i + 1));
        }
        i = i + 1;
    }
    assert(vs.subrange(0, vs.len() as int) =~= vs);
    assert(final(out)@ =~= old(out)@ + enc_compact_array(feature_encoder(), Some(vs)));
}

fn write_finalized_features(out: &mut Vec<u8>, fs: &[FinalizedFeature])
    requires
        features_fit(finalized_views(fs@)),
    ensures
        final(out)@ == old(out)@ + enc_compact_array(feature_encoder(), Some(finalized_views(fs@))),
{
    let ghost vs = finalized_views(fs@);
    write_unsigned_varint(out, (fs.len() + 1) as u32);
    let ghost mid = out@;
    let mut i: usize = 0;
    while i < fs.len()
        invariant
            i <= fs@.len(),
            vs == finalized_views(fs@),
            features_fit(vs),
            out@ == mid + enc_list(feature_encoder(), vs.subrange(0, i as int)),
        decreases fs@.len() - i,
    {
        let f = &fs[i];
        assert(vs[i as int] == f@);
        assert(vs[i as int].0.len() < 0xffff_ffff);
        write_feature(out, f.name.as_slice(), f.max_version_level, f.min_version_level);
        proof {
            lemma_enc_list_push(feature_encoder(), vs.subrange(0, i as int), f@);
            assert(vs.subrange(0, i as int).push(f@) =~= vs.subrange(0, i + 1));
        }
        i = i + 1;
    }
    assert(vs.subrange(0, vs.len() as int) =~= vs);
    assert(final(out)@ =~= old(out)@ + enc_compact_array(feature_encoder(), Some(vs)));
}

// ---------------------------------------------------------------- response

/// An ApiVersions response; the fields after `api_keys` exist from the version that
/// introduced them on.
pub struct Response {
    pub version: i16,
    pub error_code: i16,
    pub api_keys: Vec<ApiKey>,
    pub throttle_time_ms: Option<i32>,
    pub supported_features: Option<Vec<SupportedFeature>>,
    pub finalized_features_epoch: Option<i64>,
    pub finalized_features: Option<Vec<FinalizedFeature>>,
    pub zk_migration_ready: Option<bool>,
}

pub struct ResponseView {
    pub version: i16,
    pub error_code: i16,
    pub api_keys: Seq<ApiKey>,
    pub throttle_time_ms: Option<i32>,
    pub supported_features: Option<Seq<(Seq<u8>, i16, i16)>>,
    pub finalized_features_epoch: Option<i64>,
    pub finalized_features: Option<Seq<(Seq<u8>, i16, i16)>>,
    pub zk_migration_ready: Option<bool>,
}

impl View for Response {
    type V = ResponseView;

    open spec fn view(&self) -> ResponseView {
        ResponseView {
            version: self.version,
            error_code: self.error_code,
            api_keys: self.api_keys@,
            throttle_time_ms: self.throttle_time_ms,
            supported_features: match self.supported_features {
                Some(v) => Some(supported_views(v@)),
                None => None,
            },
            finalized_features_epoch: self.finalized_features_epoch,
            finalized_features: match self.finalized_features {
                Some(v) => Some(finalized_views(v@)),
                None => None,
            },
            zk_migration_ready: self.zk_migration_ready,
        }
    }
}

impl Response {
    /// A response at `version`, with `throttle_time_ms` present from v1 on and no features.
    pub fn new(version: i16, error_code: i16, api_keys: Vec<ApiKey>, throttle_time_ms: i32) -> (r:
        Response)
        ensures
            r.version == version,
            r.error_code == error_code,
            r.api_keys == api_keys,
            r.throttle_time_ms == if version >= 1 {
                Some(throttle_time_ms)
            } else {
                None::<i32>
            },
            r.supported_features is None,
            r.finalized_features_epoch is None,
            r.finalized_features is None,
            r.zk_migration_ready is None,
    {
        Response {
            version,
            error_code,
            api_keys,
            throttle_time_ms: if version >= 1 {
                Some(throttle_time_ms)
            } else {
                None
            },
            supported_features: None,
            finalized_features_epoch: None,
            finalized_features: None,
            zk_migration_ready: None,
        }
    }

    pub fn error_code(&self) -> (r: i16)
        ensures
            r == self.error_code,
    {
        self.error_code
    }

    pub fn api_keys(&self) -> (r: &[ApiKey])
        ensures
            r@ == self.api_keys@,
    {
        self.api_keys.as_slice()
    }

    /// The throttle time, zero where the version has none.
    pub fn throttle_time_ms(&self) -> (r: i32)
        ensures
            r == match self.throttle_time_ms {
                Some(t) => t,
                None => 0,
            },
    {
        match self.throttle_time_ms {
            Some(t) => t,
            None => 0,
        }
    }

    pub fn supported_features(&self) -> (r: Option<&[SupportedFeature]>)
        ensures
            r is Some <==> self.supported_features is Some,
            r is Some ==> r->Some_0@ == self.supported_features->Some_0@,
    {
        match &self.supported_features {
            Some(v) => Some(v.as_slice()),
            None => None,
        }
    }

    pub fn finalized_features(&self) -> (r: Option<&[FinalizedFeature]>)
        ensures
            r is Some <==> self.finalized_features is Some,
            r is Some ==> r->Some_0@ == self.finalized_features->Some_0@,
    {
        match &self.finalized_features {
            Some(v) => Some(v.as_slice()),
            None => None,
        }
    }

    pub fn finalized_features_epoch(&self) -> (r: Option<i64>)
        ensures
            r == self.finalized_features_epoch,
    {
        self.finalized_features_epoch
    }

    pub fn zk_migration_ready(&self) -> (r: Option<bool>)
        ensures
            r == self.zk_migration_ready,
    {
        self.zk_migration_ready
    }
}

/// The tagged fields of a v3+ response, in ascending key order: supported features (0),
/// finalized-features epoch (1), finalized features (2), zk-migration readiness (3).
pub open spec fn response_tags(r: ResponseView) -> Seq<(u32, Seq<u8>)> {
    let t0: Seq<(u32, Seq<u8>)> = match r.supported_features {
        Some(fs) => seq![(0u32, enc_compact_array(feature_encoder(), Some(fs)))],
        None => Seq::empty(),
    };
    let t1: Seq<(u32, Seq<u8>)> = match r.finalized_features_epoch {
        Some(e) => seq![(1u32, enc_i64(e))],
        None => Seq::empty(),
    };
    let t2: Seq<(u32, Seq<u8>)> = match r.finalized_features {
        Some(fs) => seq![(2u32, enc_compact_array(feature_encoder(), Some(fs)))],
        None => Seq::empty(),
    };
    let t3: Seq<(u32, Seq<u8>)> = match r.zk_migration_ready {
        Some(z) => seq![(3u32, enc_bool(z))],
        None => Seq::empty(),
    };
    t0 + t1 + t2 + t3
}

pub open spec fn enc_response(r: ResponseView) -> Seq<u8> {
    enc_i16(r.error_code) + (if r.version >= 3 {
        enc_compact_array(api_key_encoder(r.version), Some(r.api_keys))
    } else {
        enc_array(api_key_encoder(r.version), Some(r.api_keys))
    }) + (if r.version >= 1 {
        enc_i32(
            match r.throttle_time_ms {
                Some(t) => t,
                None => 0,
            },
        )
    } else {
        Seq::empty()
    }) + if r.version >= 3 {
        enc_tagged_fields(response_tags(r))
    } else {
        Seq::empty()
    }
}

pub open spec fn response_wf(r: ResponseView) -> bool {
    &&& r.api_keys.len() < 0x7fff_ffff
    &&& (r.supported_features is Some ==> features_fit(r.supported_features->Some_0))
    &&& (r.finalized_features is Some ==> features_fit(r.finalized_features->Some_0))
    &&& forall|i: int| 0 <= i < 4 && i < response_tags(r).len() ==> #[trigger] response_tags(r)[i].1.len() <= 0xffff_ffff
}

fn push_tag(v: &mut Vec<TaggedField>, key: u32, data: Vec<u8>)
    ensures
        tf_views(final(v)@) == tf_views(old(v)@).push((key, data@)),
{
    v.push(TaggedField { key, data });
    assert(tf_views(final(v)@) =~= tf_views(old(v)@).push((key, data@)));
}

#[verifier::rlimit(50)]
fn response_tag_fields(r: &Response) -> (tags: Vec<TaggedField>)
    requires
        response_wf(r@),
    ensures
        tf_views(tags@) == response_tags(r@),
        keys_ascending(response_tags(r@)),
        tagged_fits(response_tags(r@)),
{
    let ghost rv = r@;
    let mut tags: Vec<TaggedField> = Vec::new();
    assert(tf_views(tags@) =~= Seq::<(u32, Seq<u8>)>::empty());
    if let Some(fs) = &r.supported_features {
        let mut d: Vec<u8> = Vec::new();
        write_supported_features(&mut d, fs.as_slice());
        push_tag(&mut tags, 0, d);
    }
    if let Some(e) = r.finalized_features_epoch {
        let mut d: Vec<u8> = Vec::new();
        write_i64(&mut d, e);
        push_tag(&mut tags, 1, d);
    }
    if let Some(fs) = &r.finalized_features {
        let mut d: Vec<u8> = Vec::new();
        write_finalized_features(&mut d, fs.as_slice());
        push_tag(&mut tags, 2, d);
    }
    if let Some(z) = r.zk_migration_ready {
        let mut d: Vec<u8> = Vec::new();
        write_bool(&mut d, z);
        push_tag(&mut tags, 3, d);
    }
    assert(tf_views(tags@) =~= response_tags(rv));
    let ghost ts = response_tags(rv);
    assert(ts.len() <= 4);
    assert forall|i: int| 0 <= i < ts.len() implies crate::tagged::tf_wf()(#[trigger] ts[i]) by {
        assert(ts[i].1.len() <= 0xffff_ffff);
    }
    tags
}

pub fn write_response(out: &mut Vec<u8>, r: &Response)
    requires
        response_wf(r@),
    ensures
        final(out)@ == old(out)@ + enc_response(r@),
{
    let ghost rv = r@;
    write_i16(out, r.error_code);
    if r.version >= 3 {
        write_unsigned_varint(out, (r.api_keys.len() + 1) as u32);
    } else {
        write_i32(out, r.api_keys.len() as i32);
    }
    write_api_keys(out, r.api_keys.as_slice(), r.version);
    if r.version >= 1 {
        write_i32(out, r.throttle_time_ms());
    }
    if r.version >= 3 {
        let tags = response_tag_fields(r);
        write_tagged_fields(out, tags.as_slice());
    }
    assert(final(out)@ =~= old(out)@ + enc_response(rv));
}

// ---------------------------------------------------------------- handler

/// The apis this server supports, by key: Fetch, ApiVersions, DescribeTopicPartitions.
pub open spec fn supported_apis_view() -> Seq<ApiKey> {
    seq![
        ApiKey { version: 4, api_key: 1, min_version: 4, max_version: 17 },
        ApiKey { version: 4, api_key: 18, min_version: 0, max_version: 4 },
        ApiKey { version: 4, api_key: 75, min_version: 0, max_version: 0 },
    ]
}

pub fn supported_apis() -> (r: Vec<ApiKey>)
    ensures
        r@ == supported_apis_view(),
{
    let mut v: Vec<ApiKey> = Vec::new();
    v.push(ApiKey::v4(1, 4, 17));
    v.push(ApiKey::v4(18, 0, 4));
    v.push(ApiKey::v4(75, 0, 0));
    assert(v@ =~= supported_apis_view());
    v
}

pub const UNSUPPORTED_VERSION: i16 = 35;

/// The answer to an ApiVersions request: at a supported version, a success response at that
/// version listing every supported api with no throttle and no features; otherwise a v0
/// response with error code 35 and no api keys, which every client can read.
pub open spec fn api_versions_answer(version: i16) -> ResponseView {
    if 0 <= version <= 4 {
        ResponseView {
            version,
            error_code: 0,
            api_keys: supported_apis_view(),
            throttle_time_ms: if version >= 1 {
                Some(0i32)
            } else {
                None
            },
            supported_features: None,
            finalized_features_epoch: None,
            finalized_features: None,
            zk_migration_ready: None,
        }
    } else {
        ResponseView {
            version: 0,
            error_code: UNSUPPORTED_VERSION,
            api_keys: Seq::empty(),
            throttle_time_ms: None,
            supported_features: None,
            finalized_features_epoch: None,
            finalized_features: None,
            zk_migration_ready: None,
        }
    }
}

pub fn process_request(request: &Request) -> (r: Response)
    ensures
        r@ == api_versions_answer(request.version),
        response_wf(r@),
{
    let r = if request.version < 0 || request.version > 4 {
        let none: Vec<ApiKey> = Vec::new();
        Response::new(0, UNSUPPORTED_VERSION, none, 0)
    } else {
        Response::new(request.version, 0, supported_apis(), 0)
    };
    assert(r@.api_keys =~= api_versions_answer(request.version).api_keys);
    assert(response_tags(r@) =~= Seq::<(u32, Seq<u8>)>::empty());
    r
}

// ---------------------------------------------------------------- reading a response

pub open spec fn parse_feature(s: Seq<u8>, p: int) -> Result<((Seq<u8>, i16, i16), int), Error> {
    match parse_compact_string(s, p, "non-nullable field name was serialized as null") {
        Ok((name, q1)) => match parse_i16(s, q1) {
            Ok((a, q2)) => match parse_i16(s, q2) {
                Ok((b, q3)) => match parse_tagged_fields(s, q3) {
                    Ok((_, q4)) => Ok(((name, a, b), q4)),
                    Err(e) => Err(e),
                },
                Err(e) => Err(e),
            },
            Err(e) => Err(e),
        },
        Err(e) => Err(e),
    }
}

pub open spec fn feature_parser() -> Parser<(Seq<u8>, i16, i16)> {
    |s: Seq<u8>, p: int| parse_feature(s, p)
}

pub open spec fn feature_wf() -> spec_fn((Seq<u8>, i16, i16)) -> bool {
    |f: (Seq<u8>, i16, i16)| f.0.len() < 0xffff_ffff
}

proof fn lemma_feature_inverts()
    ensures
        inverts(feature_parser(), feature_encoder(), feature_wf()),
{
    assert forall|f: (Seq<u8>, i16, i16), s: Seq<u8>, p: int|
        feature_wf()(f) && #[trigger] holds(s, p, feature_encoder()(f)) implies #[trigger] feature_parser()(
        s,
        p,
    ) == Ok::<((Seq<u8>, i16, i16), int), Error>((f, p + feature_encoder()(f).len())) by {
        let a = enc_compact_string(f.0);
        lemma_holds_split(s, p, a + enc_i16(f.1) + enc_i16(f.2), enc_no_tagged_fields());
        lemma_holds_split(s, p, a + enc_i16(f.1), enc_i16(f.2));
        lemma_holds_split(s, p, a, enc_i16(f.1));
        lemma_compact_string_round_trip(f.0, s, p, "non-nullable field name was serialized as null");
        lemma_i16_round_trip(f.1, s, p + a.len());
        lemma_i16_round_trip(f.2, s, p + a.len() + 2);
        lemma_no_tagged_fields_round_trip(s, p + a.len() + 4);
    }
}

/// The features carried by a response's tagged fields.
pub struct ResponseTags {
    pub supported_features: Option<Seq<(Seq<u8>, i16, i16)>>,
    pub finalized_features_epoch: Option<i64>,
    pub finalized_features: Option<Seq<(Seq<u8>, i16, i16)>>,
    pub zk_migration_ready: Option<bool>,
}

pub open spec fn no_response_tags() -> ResponseTags {
    ResponseTags {
        supported_features: None,
        finalized_features_epoch: None,
        finalized_features: None,
        zk_migration_ready: None,
    }
}

/// Keys 0 to 3 of a v3+ response's tagged fields; other keys are skipped.
pub open spec fn response_step() -> spec_fn(ResponseTags, (u32, Seq<u8>)) -> Result<ResponseTags, Error> {
    |acc: ResponseTags, t: (u32, Seq<u8>)|
        if t.0 == 0 {
            match parse_compact_array(feature_parser(), t.1, 0) {
                Ok((Some(fs), _)) => Ok(ResponseTags { supported_features: Some(fs), ..acc }),
                Ok((None, _)) => Err(Error::IllegalArgument("non-nullable field supportedFeatures was serialized as null")),
                Err(e) => Err(e),
            }
        } else if t.0 == 1 {
            match parse_i64(t.1, 0) {
                Ok((e, _)) => Ok(ResponseTags { finalized_features_epoch: Some(e), ..acc }),
                Err(e) => Err(e),
            }
        } else if t.0 == 2 {
            match parse_compact_array(feature_parser(), t.1, 0) {
                Ok((Some(fs), _)) => Ok(ResponseTags { finalized_features: Some(fs), ..acc }),
                Ok((None, _)) => Err(Error::IllegalArgument("non-nullable field finalizedFeatures was serialized as null")),
                Err(e) => Err(e),
            }
        } else if t.0 == 3 {
            match parse_bool(t.1, 0) {
                Ok((z, _)) => Ok(ResponseTags { zk_migration_ready: Some(z), ..acc }),
                Err(e) => Err(e),
            }
        } else {
            Ok(acc)
        }
}

/// An ApiVersions response body at `version` (0 to 4; any other is `UnsupportedVersion`).
pub open spec fn parse_response(s: Seq<u8>, p: int, version: i16) -> Result<(ResponseView, int), Error> {
    if !(0 <= version <= 4) {
        Err(Error::UnsupportedVersion)
    } else {
        match parse_i16(s, p) {
            Ok((error_code, q1)) => {
                let ks = if version >= 3 {
                    parse_compact_array(api_key_parser(version), s, q1)
                } else {
                    parse_array(api_key_parser(version), s, q1)
                };
                match ks {
                    Ok((Some(api_keys), q2)) => {
                        let rt: Result<(Option<i32>, int), Error> = if version >= 1 {
                            match parse_i32(s, q2) {
                                Ok((t, q)) => Ok((Some(t), q)),
                                Err(e) => Err(e),
                            }
                        } else {
                            Ok((None, q2))
                        };
                        match rt {
                            Ok((throttle_time_ms, q3)) => {
                                let r = ResponseView {
                                    version,
                                    error_code,
                                    api_keys,
                                    throttle_time_ms,
                                    supported_features: None,
                                    finalized_features_epoch: None,
                                    finalized_features: None,
                                    zk_migration_ready: None,
                                };
                                if version >= 3 {
                                    match parse_tagged_fields(s, q3) {
                                        Ok((ts, q4)) => match fold_tags(ts, no_response_tags(), response_step()) {
                                            Ok(t) => Ok((ResponseView {
                                                supported_features: t.supported_features,
                                                finalized_features_epoch: t.finalized_features_epoch,
                                                finalized_features: t.finalized_features,
                                                zk_migration_ready: t.zk_migration_ready,
                                                ..r
                                            }, q4)),
                                            Err(e) => Err(e),
                                        },
                                        Err(e) => Err(e),
                                    }
                                } else {
                                    Ok((r, q3))
                                }
                            },
                            Err(e) => Err(e),
                        }
                    },
                    Ok((None, _)) => Err(Error::IllegalArgument("non-nullable field apiKeys was serialized as null")),
                    Err(e) => Err(e),
                }
            },
            Err(e) => Err(e),
        }
    }
}

fn read_supported_features(data: &[u8], pos: &mut usize) -> (r: Result<Option<Vec<SupportedFeature>>, Error>)
    requires
        *old(pos) <= data@.len(),
    ensures
        *final(pos) <= data@.len(),
        match parse_compact_array(feature_parser(), data@, *old(pos) as int) {
            Ok((o, q)) => r is Ok && *final(pos) == q && match r->Ok_0 {
                Some(v) => o == Some(supported_views(v@)),
                None => o is None,
            },
            Err(e) => r == Err::<Option<Vec<SupportedFeature>>, Error>(e),
        },
{
    let c = read_unsigned_varint(data, pos)?;
    if c == 0 {
        return Ok(None);
    }
    let n = (c - 1) as usize;
    let ghost begin = *pos as int;
    let mut v: Vec<SupportedFeature> = Vec::new();
    assert(supported_views(v@) =~= Seq::<(Seq<u8>, i16, i16)>::empty());
    let mut i: usize = 0;
    while i < n
        invariant
            i <= n,
            *pos <= data@.len(),
            parse_compact_array(feature_parser(), data@, *old(pos) as int) == match parse_list(
                feature_parser(),
                data@,
                begin,
                n as nat,
            ) {
                Ok((xs, q)) => Ok::<(Option<Seq<(Seq<u8>, i16, i16)>>, int), Error>((Some(xs), q)),
                Err(e) => Err(e),
            },
            parse_list(feature_parser(), data@, begin, n as nat) == parse_list_from(
                feature_parser(),
                data@,
                *pos as int,
                (n - i) as nat,
                supported_views(v@),
            ),
        decreases n - i,
    {
        let name = read_compact_string(data, pos, "non-nullable field name was serialized as null")?;
        let min_version = read_i16(data, pos)?;
        let max_version = read_i16(data, pos)?;
        let _ = read_tagged_fields(data, pos)?;
        let f = SupportedFeature { name, min_version, max_version };
        let ghost before = v@;
        let ghost fv = f@;
        v.push(f);
        assert(supported_views(v@) =~= supported_views(before).push(fv));
        i = i + 1;
    }
    Ok(Some(v))
}

fn read_finalized_features(data: &[u8], pos: &mut usize) -> (r: Result<Option<Vec<FinalizedFeature>>, Error>)
    requires
        *old(pos) <= data@.len(),
    ensures
        *final(pos) <= data@.len(),
        match parse_compact_array(feature_parser(), data@, *old(pos) as int) {
            Ok((o, q)) => r is Ok && *final(pos) == q && match r->Ok_0 {
                Some(v) => o == Some(finalized_views(v@)),
                None => o is None,
            },
            Err(e) => r == Err::<Option<Vec<FinalizedFeature>>, Error>(e),
        },
{
    let c = read_unsigned_varint(data, pos)?;
    if c == 0 {
        return Ok(None);
    }
    let n = (c - 1) as usize;
    let ghost begin = *pos as int;
    let mut v: Vec<FinalizedFeature> = Vec::new();
    assert(finalized_views(v@) =~= Seq::<(Seq<u8>, i16, i16)>::empty());
    let mut i: usize = 0;
    while i < n
        invariant
            i <= n,
            *pos <= data@.len(),
            parse_compact_array(feature_parser(), data@, *old(pos) as int) == match parse_list(
                feature_parser(),
                data@,
                begin,
                n as nat,
            ) {
                Ok((xs, q)) => Ok::<(Option<Seq<(Seq<u8>, i16, i16)>>, int), Error>((Some(xs), q)),
                Err(e) => Err(e),
            },
            parse_list(feature_parser(), data@, begin, n as nat) == parse_list_from(
                feature_parser(),
                data@,
                *pos as int,
                (n - i) as nat,
                finalized_views(v@),
            ),
        decreases n - i,
    {
        let name = read_compact_string(data, pos, "non-nullable field name was serialized as null")?;
        let max_version_level = read_i16(data, pos)?;
        let min_version_level = read_i16(data, pos)?;
        let _ = read_tagged_fields(data, pos)?;
        let f = FinalizedFeature { name, max_version_level, min_version_level };
        let ghost before = v@;
        let ghost fv = f@;
        v.push(f);
        assert(finalized_views(v@) =~= finalized_views(before).push(fv));
        i = i + 1;
    }
    Ok(Some(v))
}

pub open spec fn opt_supported(o: Option<Vec<SupportedFeature>>) -> Option<Seq<(Seq<u8>, i16, i16)>> {
    match o {
        Some(v) => Some(supported_views(v@)),
        None => None,
    }
}

pub open spec fn opt_finalized(o: Option<Vec<FinalizedFeature>>) -> Option<Seq<(Seq<u8>, i16, i16)>> {
    match o {
        Some(v) => Some(finalized_views(v@)),
        None => None,
    }
}

fn read_response_tags(ts: &[TaggedField]) -> (r: Result<
    (Option<Vec<SupportedFeature>>, Option<i64>, Option<Vec<FinalizedFeature>>, Option<bool>),
    Error,
>)
    ensures
        match fold_tags(tf_views(ts@), no_response_tags(), response_step()) {
            Ok(t) => r is Ok && opt_supported(r->Ok_0.0) == t.supported_features
                && r->Ok_0.1 == t.finalized_features_epoch && opt_finalized(r->Ok_0.2)
                == t.finalized_features && r->Ok_0.3 == t.zk_migration_ready,
            Err(e) => r is Err && r->Err_0 == e,
        },
{
    let ghost vs = tf_views(ts@);
    let ghost step = response_step();
    proof {
        lemma_fold_tags_done(vs, no_response_tags(), step);
    }
    let mut sup: Option<Vec<SupportedFeature>> = None;
    let mut epoch: Option<i64> = None;
    let mut fin: Option<Vec<FinalizedFeature>> = None;
    let mut zk: Option<bool> = None;
    let mut i: usize = 0;
    while i < ts.len()
        invariant
            i <= ts@.len(),
            vs == tf_views(ts@),
            step == response_step(),
            fold_tags(vs.subrange(0, i as int), no_response_tags(), step) == Ok::<ResponseTags, Error>(
                ResponseTags {
                    supported_features: opt_supported(sup),
                    finalized_features_epoch: epoch,
                    finalized_features: opt_finalized(fin),
                    zk_migration_ready: zk,
                },
            ),
        decreases ts@.len() - i,
    {
        let t = &ts[i];
        assert(vs[i as int] == t@);
        proof {
            lemma_fold_tags_step(
                vs,
                no_response_tags(),
                step,
                i as int,
                ResponseTags {
                    supported_features: opt_supported(sup),
                    finalized_features_epoch: epoch,
                    finalized_features: opt_finalized(fin),
                    zk_migration_ready: zk,
                },
            );
            if fold_tags(vs.subrange(0, i + 1), no_response_tags(), step) is Err {
                lemma_fold_tags_err(vs, no_response_tags(), step, i + 1);
            }
        }
        let d = t.data.as_slice();
        let mut p: usize = 0;
        if t.key == 0 {
            match read_supported_features(d, &mut p)? {
                Some(v) => {
                    sup = Some(v);
                },
                None => {
                    return Err(Error::IllegalArgument("non-nullable field supportedFeatures was serialized as null"));
                },
            }
        } else if t.key == 1 {
            epoch = Some(read_i64(d, &mut p)?);
        } else if t.key == 2 {
            match read_finalized_features(d, &mut p)? {
                Some(v) => {
                    fin = Some(v);
                },
                None => {
                    return Err(Error::IllegalArgument("non-nullable field finalizedFeatures was serialized as null"));
                },
            }
        } else if t.key == 3 {
            zk = Some(read_bool(d, &mut p)?);
        }
        i = i + 1;
    }
    Ok((sup, epoch, fin, zk))
}

/// Reads an ApiVersions response body at `version`.
pub fn read_response(data: &[u8], pos: &mut usize, version: i16) -> (r: Result<Response, Error>)
    requires
        *old(pos) <= data@.len(),
    ensures
        *final(pos) <= data@.len(),
        agrees(r, *final(pos), parse_response(data@, *old(pos) as int, version)),
{
    if !(0 <= version && version <= 4) {
        return Err(Error::UnsupportedVersion);
    }
    let error_code = read_i16(data, pos)?;
    let n = if version >= 3 {
        let c = read_unsigned_varint(data, pos)?;
        if c == 0 {
            return Err(Error::IllegalArgument("non-nullable field apiKeys was serialized as null"));
        }
        (c - 1) as usize
    } else {
        let c = read_i32(data, pos)?;
        if c < 0 {
            return Err(Error::IllegalArgument("non-nullable field apiKeys was serialized as null"));
        }
        c as usize
    };
    let api_keys = read_api_keys(data, pos, n, version)?;
    let throttle_time_ms = if version >= 1 { Some(read_i32(data, pos)?) } else { None };
    let (supported_features, finalized_features_epoch, finalized_features, zk_migration_ready) = if version >= 3 {
        let ts = read_tagged_fields(data, pos)?;
        read_response_tags(ts.0.as_slice())?
    } else {
        (None, None, None, None)
    };
    Ok(
        Response {
            version,
            error_code,
            api_keys,
            throttle_time_ms,
            supported_features,
            finalized_features_epoch,
            finalized_features,
            zk_migration_ready,
        },
    )
}

// ---------------------------------------------------------------- response round trip

/// A response as it can be written at its version and read back: the api-key entries carry
/// the response's version, `throttle_time_ms` is there exactly from v1 on, features only
/// from v3 on, and lengths fit.
pub open spec fn response_round_trip_wf(r: ResponseView) -> bool {
    &&& 0 <= r.version <= 4
    &&& response_wf(r)
    &&& forall|i: int| 0 <= i < r.api_keys.len() ==> (#[trigger] r.api_keys[i]).version == r.version
    &&& (r.version >= 1 <==> r.throttle_time_ms is Some)
    &&& (r.version < 3 ==> r.supported_features is None && r.finalized_features_epoch is None
        && r.finalized_features is None && r.zk_migration_ready is None)
}

proof fn lemma_features_payload(fs: Seq<(Seq<u8>, i16, i16)>)
    requires
        features_fit(fs),
    ensures
        parse_compact_array(feature_parser(), enc_compact_array(feature_encoder(), Some(fs)), 0) == Ok::<
            (Option<Seq<(Seq<u8>, i16, i16)>>, int),
            Error,
        >((Some(fs), enc_compact_array(feature_encoder(), Some(fs)).len() as int)),
{
    let e = enc_compact_array(feature_encoder(), Some(fs));
    assert(holds(e, 0, e)) by {
        assert(e.subrange(0, e.len() as int) =~= e);
    }
    lemma_feature_inverts();
    assert(all_wf(feature_wf(), Some(fs)));
    lemma_compact_array_round_trip(feature_parser(), feature_encoder(), feature_wf(), Some(fs), e, 0);
}

#[verifier::rlimit(100)]
proof fn lemma_response_tags_fold(r: ResponseView)
    requires
        response_wf(r),
    ensures
        fold_tags(response_tags(r), no_response_tags(), response_step()) == Ok::<ResponseTags, Error>(
            ResponseTags {
                supported_features: r.supported_features,
                finalized_features_epoch: r.finalized_features_epoch,
                finalized_features: r.finalized_features,
                zk_migration_ready: r.zk_migration_ready,
            },
        ),
{
    let ts = response_tags(r);
    let step = response_step();
    let init = no_response_tags();
    let t0: Seq<(u32, Seq<u8>)> = match r.supported_features {
        Some(fs) => seq![(0u32, enc_compact_array(feature_encoder(), Some(fs)))],
        None => Seq::empty(),
    };
    let t1: Seq<(u32, Seq<u8>)> = match r.finalized_features_epoch {
        Some(e) => seq![(1u32, enc_i64(e))],
        None => Seq::empty(),
    };
    let t2: Seq<(u32, Seq<u8>)> = match r.finalized_features {
        Some(fs) => seq![(2u32, enc_compact_array(feature_encoder(), Some(fs)))],
        None => Seq::empty(),
    };
    let t3: Seq<(u32, Seq<u8>)> = match r.zk_migration_ready {
        Some(z) => seq![(3u32, enc_bool(z))],
        None => Seq::empty(),
    };
    assert(ts == t0 + t1 + t2 + t3);
    lemma_fold_tags_done(ts, init, step);
    let s1 = ResponseTags { supported_features: r.supported_features, ..init };
    let s2 = ResponseTags { finalized_features_epoch: r.finalized_features_epoch, ..s1 };
    let s3 = ResponseTags { finalized_features: r.finalized_features, ..s2 };
    let s4 = ResponseTags { zk_migration_ready: r.zk_migration_ready, ..s3 };
    let k1 = t0.len() as int;
    let k2 = k1 + t1.len();
    let k3 = k2 + t2.len();
    let k4 = k3 + t3.len();
    if let Some(fs) = r.supported_features {
        lemma_features_payload(fs);
        assert(ts[0] == t0[0]);
        lemma_fold_tags_step(ts, init, step, 0, init);
    }
    assert(fold_tags(ts.subrange(0, k1), init, step) == Ok::<ResponseTags, Error>(s1));
    if let Some(e) = r.finalized_features_epoch {
        let d = enc_i64(e);
        assert(holds(d, 0, d)) by {
            assert(d.subrange(0, d.len() as int) =~= d);
        }
        lemma_i64_round_trip(e, d, 0);
        assert(ts[k1] == t1[0]);
        lemma_fold_tags_step(ts, init, step, k1, s1);
    }
    assert(fold_tags(ts.subrange(0, k2), init, step) == Ok::<ResponseTags, Error>(s2));
    if let Some(fs) = r.finalized_features {
        lemma_features_payload(fs);
        assert(ts[k2] == t2[0]);
        lemma_fold_tags_step(ts, init, step, k2, s2);
    }
    assert(fold_tags(ts.subrange(0, k3), init, step) == Ok::<ResponseTags, Error>(s3));
    if let Some(z) = r.zk_migration_ready {
        let d = enc_bool(z);
        assert(holds(d, 0, d)) by {
            assert(d.subrange(0, d.len() as int) =~= d);
        }
        lemma_bool_round_trip(z, d, 0);
        assert(ts[k3] == t3[0]);
        lemma_fold_tags_step(ts, init, step, k3, s3);
    }
    assert(fold_tags(ts.subrange(0, k4), init, step) == Ok::<ResponseTags, Error>(s4));
}

/// An ApiVersions response reads back as written at its version, whatever follows it.
#[verifier::rlimit(100)]
pub proof fn lemma_response_round_trip(r: ResponseView, s: Seq<u8>, p: int)
    requires
        response_round_trip_wf(r),
        holds(s, p, enc_response(r)),
    ensures
        parse_response(s, p, r.version) == Ok::<(ResponseView, int), Error>((r, p + enc_response(r).len())),
{
    let v = r.version;
    let a = enc_i16(r.error_code);
    let b: Seq<u8> = if v >= 3 {
        enc_compact_array(api_key_encoder(v), Some(r.api_keys))
    } else {
        enc_array(api_key_encoder(v), Some(r.api_keys))
    };
    let c: Seq<u8> = if v >= 1 {
        enc_i32(
            match r.throttle_time_ms {
                Some(t) => t,
                None => 0,
            },
        )
    } else {
        Seq::empty()
    };
    let d: Seq<u8> = if v >= 3 { enc_tagged_fields(response_tags(r)) } else { Seq::empty() };
    assert(enc_response(r) == a + b + c + d);
    lemma_holds_split(s, p, a + b + c, d);
    lemma_holds_split(s, p, a + b, c);
    lemma_holds_split(s, p, a, b);
    lemma_i16_round_trip(r.error_code, s, p);
    lemma_api_key_inverts(v);
    assert(all_wf(api_key_wf(v), Some(r.api_keys)));
    if v >= 3 {
        lemma_compact_array_round_trip(api_key_parser(v), api_key_encoder(v), api_key_wf(v), Some(r.api_keys), s, p + 2);
    } else {
        lemma_array_round_trip(api_key_parser(v), api_key_encoder(v), api_key_wf(v), Some(r.api_keys), s, p + 2);
    }
    if v >= 1 {
        lemma_i32_round_trip(r.throttle_time_ms->Some_0, s, p + 2 + b.len());
    }
    if v >= 3 {
        let ts = response_tags(r);
        assert(ts.len() <= 4);
        assert(tagged_fits(ts)) by {
            assert forall|i: int| 0 <= i < ts.len() implies crate::tagged::tf_wf()(#[trigger] ts[i]) by {
                assert(ts[i].1.len() <= 0xffff_ffff);
            }
        }
        lemma_tagged_fields_round_trip(ts, s, p + 2 + b.len() + c.len());
        lemma_response_tags_fold(r);
    }
}

} // verus!
