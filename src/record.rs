use vstd::prelude::*;

use vstd::string::{StrSliceExecFns, StringSliceAdditionalSpecFns};

use crate::error::Error;
use crate::list::{
    enc_list, inverts, lemma_enc_list_push, lemma_list_round_trip, parse_list, parse_list_from,
    Encoder, Parser,
};
use crate::types::{lemma_raw_round_trip, parse_raw, read_raw, write_raw};
use crate::varint::{
    enc_varint, enc_varlong, lemma_varint_round_trip, lemma_varlong_round_trip, parse_varint,
    parse_varlong, read_varint, read_varlong, write_varint, write_varlong,
};
use crate::wire::{
    agrees, enc_i16, enc_i32, enc_i64, enc_u16, enc_u32, enc_u8, holds, lemma_holds_split,
    lemma_i16_round_trip, lemma_i32_round_trip, lemma_i64_round_trip, lemma_u16_round_trip,
    lemma_u32_round_trip, lemma_u8_round_trip, need, parse_i16, parse_i32, parse_i64, parse_u16,
    parse_u32, parse_u8, read_i16, read_i32, read_i64, read_u16, read_u32, read_u8, write_i16,
    write_i32, write_i64, write_u16, write_u32, write_u8,
};

verus! {

// ---------------------------------------------------------------- CRC-32C

/// The CRC-32C (Castagnoli) checksum of a byte sequence.
pub uninterp spec fn crc32c_of(b: Seq<u8>) -> u32;

/// Relies on `crc32c::crc32c`: the CRC-32C checksum of the bytes, a function of them alone.
#[verifier::external_body]
fn crc32c_checksum(b: &[u8]) -> (r: u32)
    ensures
        r == crc32c_of(b@),
{
    crc32c::crc32c(b)
}

// ---------------------------------------------------------------- headers

/// A record header: a key and a value, both raw bytes.
#[derive(Clone)]
pub struct Header {
    pub key: Vec<u8>,
    pub value: Vec<u8>,
}

impl View for Header {
    type V = (Seq<u8>, Seq<u8>);

    open spec fn view(&self) -> (Seq<u8>, Seq<u8>) {
        (self.key@, self.value@)
    }
}

impl Header {
    pub fn new(key: &str, value: &str) -> (r: Header)
        ensures
            r.key@ == key.spec_bytes(),
            r.value@ == value.spec_bytes(),
    {
        Header { key: key.as_bytes_vec(), value: value.as_bytes_vec() }
    }

    pub fn key(&self) -> (r: &[u8])
        ensures
            r@ == self.key@,
    {
        self.key.as_slice()
    }

    pub fn value(&self) -> (r: &[u8])
        ensures
            r@ == self.value@,
    {
        self.value.as_slice()
    }
}

/// A byte string with a `VARINT` length; a negative length is refused.
pub open spec fn parse_varint_bytes(s: Seq<u8>, p: int) -> Result<(Seq<u8>, int), Error> {
    match parse_varint(s, p) {
        Ok((n, q)) => if n < 0 {
            Err(Error::IllegalArgument("negative length"))
        } else {
            parse_raw(s, q, n as int)
        },
        Err(e) => Err(e),
    }
}

pub open spec fn enc_varint_bytes(b: Seq<u8>) -> Seq<u8> {
    enc_varint(b.len() as i32) + b
}

proof fn lemma_varint_bytes_round_trip(b: Seq<u8>, s: Seq<u8>, p: int)
    requires
        b.len() <= 0x7fff_ffff,
        holds(s, p, enc_varint_bytes(b)),
    ensures
        parse_varint_bytes(s, p) == Ok::<(Seq<u8>, int), Error>((b, p + enc_varint_bytes(b).len())),
{
    lemma_holds_split(s, p, enc_varint(b.len() as i32), b);
    lemma_varint_round_trip(b.len() as i32, s, p);
}

fn read_varint_bytes(data: &[u8], pos: &mut usize) -> (r: Result<Vec<u8>, Error>)
    requires
        *old(pos) <= data@.len(),
    ensures
        *final(pos) <= data@.len(),
        agrees(r, *final(pos), parse_varint_bytes(data@, *old(pos) as int)),
{
    let n = read_varint(data, pos)?;
    if n < 0 {
        return Err(Error::IllegalArgument("negative length"));
    }
    read_raw(data, pos, n as usize)
}

fn write_varint_bytes(out: &mut Vec<u8>, b: &[u8])
    requires
        b@.len() <= 0x7fff_ffff,
    ensures
        final(out)@ == old(out)@ + enc_varint_bytes(b@),
{
    write_varint(out, b.len() as i32);
    write_raw(out, b);
    assert(final(out)@ =~= old(out)@ + enc_varint_bytes(b@));
}

pub open spec fn parse_header(s: Seq<u8>, p: int) -> Result<((Seq<u8>, Seq<u8>), int), Error> {
    match parse_varint_bytes(s, p) {
        Ok((k, q)) => match parse_varint_bytes(s, q) {
            Ok((v, q2)) => Ok(((k, v), q2)),
            Err(e) => Err(e),
        },
        Err(e) => Err(e),
    }
}

pub open spec fn enc_header(h: (Seq<u8>, Seq<u8>)) -> Seq<u8> {
    enc_varint_bytes(h.0) + enc_varint_bytes(h.1)
}

pub open spec fn header_parser() -> Parser<(Seq<u8>, Seq<u8>)> {
    |s: Seq<u8>, p: int| parse_header(s, p)
}

pub open spec fn header_encoder() -> Encoder<(Seq<u8>, Seq<u8>)> {
    |h: (Seq<u8>, Seq<u8>)| enc_header(h)
}

pub open spec fn header_wf() -> spec_fn((Seq<u8>, Seq<u8>)) -> bool {
    |h: (Seq<u8>, Seq<u8>)| h.0.len() <= 0x7fff_ffff && h.1.len() <= 0x7fff_ffff
}

proof fn lemma_header_inverts()
    ensures
        inverts(header_parser(), header_encoder(), header_wf()),
{
    assert forall|h: (Seq<u8>, Seq<u8>), s: Seq<u8>, p: int|
        header_wf()(h) && #[trigger] holds(s, p, header_encoder()(h)) implies #[trigger] header_parser()(
        s,
        p,
    ) == Ok::<((Seq<u8>, Seq<u8>), int), Error>((h, p + header_encoder()(h).len())) by {
        lemma_holds_split(s, p, enc_varint_bytes(h.0), enc_varint_bytes(h.1));
        lemma_varint_bytes_round_trip(h.0, s, p);
        lemma_varint_bytes_round_trip(h.1, s, p + enc_varint_bytes(h.0).len());
    }
}

// ---------------------------------------------------------------- value records

/// A record of a data batch.
#[derive(Clone)]
pub struct ValueRecord {
    pub attributes: u8,
    pub timestamp_delta: i64,
    pub offset_delta: i32,
    pub key: Option<Vec<u8>>,
    pub value: Vec<u8>,
    pub headers: Vec<Header>,
}

/// What a value record holds, as plain values.
pub struct ValueRecordView {
    pub attributes: u8,
    pub timestamp_delta: i64,
    pub offset_delta: i32,
    pub key: Option<Seq<u8>>,
    pub value: Seq<u8>,
    pub headers: Seq<(Seq<u8>, Seq<u8>)>,
}

pub open spec fn header_views(v: Seq<Header>) -> Seq<(Seq<u8>, Seq<u8>)> {
    v.map_values(|h: Header| h@)
}

impl View for ValueRecord {
    type V = ValueRecordView;

    open spec fn view(&self) -> ValueRecordView {
        ValueRecordView {
            attributes: self.attributes,
            timestamp_delta: self.timestamp_delta,
            offset_delta: self.offset_delta,
            key: match self.key {
                Some(k) => Some(k@),
                None => None,
            },
            value: self.value@,
            headers: header_views(self.headers@),
        }
    }
}

impl ValueRecord {
    pub fn new(
        attributes: u8,
        timestamp_delta: i64,
        offset_delta: i32,
        key: Option<Vec<u8>>,
        value: Vec<u8>,
        headers: Vec<Header>,
    ) -> (r: ValueRecord)
        ensures
            r.attributes == attributes,
            r.timestamp_delta == timestamp_delta,
            r.offset_delta == offset_delta,
            r.key == key,
            r.value == value,
            r.headers == headers,
    {
        ValueRecord { attributes, timestamp_delta, offset_delta, key, value, headers }
    }

    pub fn attributes(&self) -> (r: u8)
        ensures
            r == self.attributes,
    {
        self.attributes
    }

    pub fn timestamp_delta(&self) -> (r: i64)
        ensures
            r == self.timestamp_delta,
    {
        self.timestamp_delta
    }

    pub fn offset_delta(&self) -> (r: i32)
        ensures
            r == self.offset_delta,
    {
        self.offset_delta
    }

    pub fn key(&self) -> (r: Option<&[u8]>)
        ensures
            r is Some <==> self.key is Some,
            r is Some ==> r->Some_0@ == self.key->Some_0@,
    {
        match &self.key {
            Some(k) => Some(k.as_slice()),
            None => None,
        }
    }

    pub fn value(&self) -> (r: &[u8])
        ensures
            r@ == self.value@,
    {
        self.value.as_slice()
    }

    pub fn headers(&self) -> (r: &[Header])
        ensures
            r@ == self.headers@,
    {
        self.headers.as_slice()
    }
}

pub open spec fn value_record_wf(r: ValueRecordView) -> bool {
    &&& (r.key is Some ==> r.key->Some_0.len() <= 0x7fff_ffff)
    &&& r.value.len() <= 0x7fff_ffff
    &&& r.headers.len() <= 0x7fff_ffff
    &&& forall|i: int| 0 <= i < r.headers.len() ==> header_wf()(#[trigger] r.headers[i])
    &&& enc_value_record_body(r).len() <= 0x7fff_ffff
}

pub open spec fn enc_key(k: Option<Seq<u8>>) -> Seq<u8> {
    match k {
        Some(b) => enc_varint_bytes(b),
        None => enc_varint(-1i32),
    }
}

/// Everything after the record's `length` field.
pub open spec fn enc_value_record_body(r: ValueRecordView) -> Seq<u8> {
    enc_u8(r.attributes) + enc_varlong(r.timestamp_delta) + enc_varint(r.offset_delta) + enc_key(
        r.key,
    ) + enc_varint_bytes(r.value) + enc_varint(r.headers.len() as i32) + enc_list(
        header_encoder(),
        r.headers,
    )
}

pub open spec fn enc_value_record(r: ValueRecordView) -> Seq<u8> {
    enc_varint_bytes(enc_value_record_body(r))
}

/// A record key: a `VARINT` length, negative for no key, then the bytes.
pub open spec fn parse_key(s: Seq<u8>, p: int) -> Result<(Option<Seq<u8>>, int), Error> {
    match parse_varint(s, p) {
        Ok((n, q)) => if n < 0 {
            Ok((None, q))
        } else {
            match parse_raw(s, q, n as int) {
                Ok((b, q2)) => Ok((Some(b), q2)),
                Err(e) => Err(e),
            }
        },
        Err(e) => Err(e),
    }
}

/// The fields of a record, read from its body `b` (the bytes that its length delimits).
pub open spec fn parse_value_record_body(b: Seq<u8>) -> Result<ValueRecordView, Error> {
    match parse_u8(b, 0) {
        Ok((attributes, q1)) => match parse_varlong(b, q1) {
            Ok((timestamp_delta, q2)) => match parse_varint(b, q2) {
                Ok((offset_delta, q3)) => match parse_key(b, q3) {
                    Ok((key, q4)) => match parse_varint_bytes(b, q4) {
                        Ok((value, q5)) => match parse_varint(b, q5) {
                            Ok((n, q6)) => if n < 0 {
                                Err(Error::IllegalArgument("negative length"))
                            } else {
                                match parse_list(header_parser(), b, q6, n as nat) {
                                    Ok((headers, _)) => Ok(
                                        ValueRecordView {
                                            attributes,
                                            timestamp_delta,
                                            offset_delta,
                                            key,
                                            value,
                                            headers,
                                        },
                                    ),
                                    Err(e) => Err(e),
                                }
                            },
                            Err(e) => Err(e),
                        },
                        Err(e) => Err(e),
                    },
                    Err(e) => Err(e),
                },
                Err(e) => Err(e),
            },
            Err(e) => Err(e),
        },
        Err(e) => Err(e),
    }
}

pub open spec fn parse_value_record(s: Seq<u8>, p: int) -> Result<(ValueRecordView, int), Error> {
    match parse_varint_bytes(s, p) {
        Ok((b, q)) => match parse_value_record_body(b) {
            Ok(r) => Ok((r, q)),
            Err(e) => Err(e),
        },
        Err(e) => Err(e),
    }
}

fn read_headers(data: &[u8], pos: &mut usize, n: usize) -> (r: Result<Vec<Header>, Error>)
    requires
        *old(pos) <= data@.len(),
    ensures
        *final(pos) <= data@.len(),
        match parse_list(header_parser(), data@, *old(pos) as int, n as nat) {
            Ok((hs, q)) => r is Ok && header_views(r->Ok_0@) == hs && *final(pos) == q,
            Err(e) => r == Err::<Vec<Header>, Error>(e),
        },
{
    let ghost begin = *pos as int;
    let mut v: Vec<Header> = Vec::new();
    assert(header_views(v@) =~= Seq::<(Seq<u8>, Seq<u8>)>::empty());
    let mut i: usize = 0;
    while i < n
        invariant
            i <= n,
            begin == *old(pos),
            *pos <= data@.len(),
            parse_list(header_parser(), data@, begin, n as nat) == parse_list_from(
                header_parser(),
                data@,
                *pos as int,
                (n - i) as nat,
                header_views(v@),
            ),
        decreases n - i,
    {
        let key = read_varint_bytes(data, pos)?;
        let value = read_varint_bytes(data, pos)?;
        let h = Header { key, value };
        let ghost before = v@;
        v.push(h);
        assert(header_views(v@) =~= header_views(before).push(h@));
        i = i + 1;
    }
    Ok(v)
}

fn read_value_record_body(b: &[u8]) -> (r: Result<ValueRecord, Error>)
    ensures
        match parse_value_record_body(b@) {
            Ok(v) => r is Ok && r->Ok_0@ == v,
            Err(e) => r == Err::<ValueRecord, Error>(e),
        },
{
    let mut pos: usize = 0;
    let attributes = read_u8(b, &mut pos)?;
    let timestamp_delta = read_varlong(b, &mut pos)?;
    let offset_delta = read_varint(b, &mut pos)?;
    let klen = read_varint(b, &mut pos)?;
    let key = if klen < 0 {
        None
    } else {
        Some(read_raw(b, &mut pos, klen as usize)?)
    };
    let value = read_varint_bytes(b, &mut pos)?;
    let n = read_varint(b, &mut pos)?;
    if n < 0 {
        return Err(Error::IllegalArgument("negative length"));
    }
    let headers = read_headers(b, &mut pos, n as usize)?;
    Ok(ValueRecord { attributes, timestamp_delta, offset_delta, key, value, headers })
}

pub fn read_value_record(data: &[u8], pos: &mut usize) -> (r: Result<ValueRecord, Error>)
    requires
        *old(pos) <= data@.len(),
    ensures
        *final(pos) <= data@.len(),
        agrees(r, *final(pos), parse_value_record(data@, *old(pos) as int)),
{
    let body = read_varint_bytes(data, pos)?;
    read_value_record_body(body.as_slice())
}

fn write_headers(out: &mut Vec<u8>, hs: &[Header])
    requires
        forall|i: int| 0 <= i < hs@.len() ==> header_wf()(#[trigger] header_views(hs@)[i]),
    ensures
        final(out)@ == old(out)@ + enc_list(header_encoder(), header_views(hs@)),
{
    let mut i: usize = 0;
    while i < hs.len()
        invariant
            i <= hs@.len(),
            forall|j: int| 0 <= j < hs@.len() ==> header_wf()(#[trigger] header_views(hs@)[j]),
            out@ == old(out)@ + enc_list(header_encoder(), header_views(hs@).subrange(0, i as int)),
        decreases hs@.len() - i,
    {
        let h = &hs[i];
        assert(header_views(hs@)[i as int] == h@);
        assert(header_wf()(header_views(hs@)[i as int]));
        write_varint_bytes(out, h.key.as_slice());
        write_varint_bytes(out, h.value.as_slice());
        proof {
            let pre = header_views(hs@).subrange(0, i as int);
            lemma_enc_list_push(header_encoder(), pre, h@);
            assert(pre.push(h@) =~= header_views(hs@).subrange(0, i + 1));
        }
        i = i + 1;
    }
    assert(header_views(hs@).subrange(0, hs@.len() as int) =~= header_views(hs@));
}

pub fn write_value_record(out: &mut Vec<u8>, r: &ValueRecord)
    requires
        value_record_wf(r@),
    ensures
        final(out)@ == old(out)@ + enc_value_record(r@),
{
    let mut body: Vec<u8> = Vec::new();
    write_u8(&mut body, r.attributes);
    write_varlong(&mut body, r.timestamp_delta);
    write_varint(&mut body, r.offset_delta);
    match &r.key {
        Some(k) => write_varint_bytes(&mut body, k.as_slice()),
        None => write_varint(&mut body, -1i32),
    }
    write_varint_bytes(&mut body, r.value.as_slice());
    write_varint(&mut body, r.headers.len() as i32);
    write_headers(&mut body, r.headers.as_slice());
    assert(body@ =~= enc_value_record_body(r@));
    write_varint_bytes(out, body.as_slice());
}

/// A well-formed value record reads back as written, whatever follows it.
pub proof fn lemma_value_record_round_trip(r: ValueRecordView, s: Seq<u8>, p: int)
    requires
        value_record_wf(r),
        holds(s, p, enc_value_record(r)),
    ensures
        parse_value_record(s, p) == Ok::<(ValueRecordView, int), Error>(
            (r, p + enc_value_record(r).len()),
        ),
{
    let b = enc_value_record_body(r);
    lemma_varint_bytes_round_trip(b, s, p);
    let e1 = enc_u8(r.attributes);
    let e2 = enc_varlong(r.timestamp_delta);
    let e3 = enc_varint(r.offset_delta);
    let e4 = enc_key(r.key);
    let e5 = enc_varint_bytes(r.value);
    let e6 = enc_varint(r.headers.len() as i32);
    let e7 = enc_list(header_encoder(), r.headers);
    assert(holds(b, 0, b)) by {
        assert(b.subrange(0, b.len() as int) =~= b);
    }
    lemma_holds_split(b, 0, e1 + e2 + e3 + e4 + e5 + e6, e7);
    lemma_holds_split(b, 0, e1 + e2 + e3 + e4 + e5, e6);
    lemma_holds_split(b, 0, e1 + e2 + e3 + e4, e5);
    lemma_holds_split(b, 0, e1 + e2 + e3, e4);
    lemma_holds_split(b, 0, e1 + e2, e3);
    lemma_holds_split(b, 0, e1, e2);
    lemma_u8_round_trip(r.attributes, b, 0);
    lemma_varlong_round_trip(r.timestamp_delta, b, e1.len() as int);
    lemma_varint_round_trip(r.offset_delta, b, (e1.len() + e2.len()) as int);
    let q3 = (e1.len() + e2.len() + e3.len()) as int;
    match r.key {
        Some(k) => {
            lemma_holds_split(b, q3, enc_varint(k.len() as i32), k);
            lemma_varint_round_trip(k.len() as i32, b, q3);
        },
        None => {
            lemma_varint_round_trip(-1i32, b, q3);
        },
    }
    let q4 = q3 + e4.len();
    lemma_varint_bytes_round_trip(r.value, b, q4);
    let q5 = q4 + e5.len();
    lemma_varint_round_trip(r.headers.len() as i32, b, q5);
    lemma_header_inverts();
    lemma_list_round_trip(
        header_parser(),
        header_encoder(),
        header_wf(),
        r.headers,
        Seq::empty(),
        b,
        q5 + e6.len(),
    );
    assert(Seq::<(Seq<u8>, Seq<u8>)>::empty() + r.headers =~= r.headers);
}

// ---------------------------------------------------------------- control records

/// The one record of a control batch.
#[derive(Clone, Copy, PartialEq, Eq, Structural)]
pub struct ControlRecord {
    pub version: i16,
    pub record_type: i16,
}

impl View for ControlRecord {
    type V = ControlRecord;

    open spec fn view(&self) -> ControlRecord {
        *self
    }
}

impl ControlRecord {
    pub fn new(version: i16, record_type: i16) -> (r: ControlRecord)
        ensures
            r.version == version,
            r.record_type == record_type,
    {
        ControlRecord { version, record_type }
    }

    pub fn version(&self) -> (r: i16)
        ensures
            r == self.version,
    {
        self.version
    }

    pub fn record_type(&self) -> (r: i16)
        ensures
            r == self.record_type,
    {
        self.record_type
    }
}

pub open spec fn enc_control_record(c: ControlRecord) -> Seq<u8> {
    enc_i16(c.version) + enc_i16(c.record_type)
}

pub open spec fn parse_control_record(s: Seq<u8>, p: int) -> Result<(ControlRecord, int), Error> {
    match parse_i16(s, p) {
        Ok((version, q)) => match parse_i16(s, q) {
            Ok((t, q2)) => Ok((ControlRecord { version, record_type: t }, q2)),
            Err(e) => Err(e),
        },
        Err(e) => Err(e),
    }
}

pub fn read_control_record(data: &[u8], pos: &mut usize) -> (r: Result<ControlRecord, Error>)
    requires
        *old(pos) <= data@.len(),
    ensures
        *final(pos) <= data@.len(),
        agrees(r, *final(pos), parse_control_record(data@, *old(pos) as int)),
{
    let version = read_i16(data, pos)?;
    let t = read_i16(data, pos)?;
    Ok(ControlRecord { version, record_type: t })
}

pub fn write_control_record(out: &mut Vec<u8>, c: ControlRecord)
    ensures
        final(out)@ == old(out)@ + enc_control_record(c),
{
    write_i16(out, c.version);
    write_i16(out, c.record_type);
    assert(final(out)@ =~= old(out)@ + enc_control_record(c));
}

// ---------------------------------------------------------------- records and batches

/// A record: a value record in a data batch, a control record in a control batch.
#[derive(Clone)]
pub enum Record {
    Value(ValueRecord),
    Control(ControlRecord),
}

pub enum RecordView {
    Value(ValueRecordView),
    Control(ControlRecord),
}

impl View for Record {
    type V = RecordView;

    open spec fn view(&self) -> RecordView {
        match self {
            Record::Value(v) => RecordView::Value(v@),
            Record::Control(c) => RecordView::Control(*c),
        }
    }
}

pub open spec fn record_views(v: Seq<Record>) -> Seq<RecordView> {
    v.map_values(|r: Record| r@)
}

pub open spec fn enc_record(r: RecordView) -> Seq<u8> {
    match r {
        RecordView::Value(v) => enc_value_record(v),
        RecordView::Control(c) => enc_control_record(c),
    }
}

pub open spec fn record_encoder() -> Encoder<RecordView> {
    |r: RecordView| enc_record(r)
}

pub open spec fn value_parser() -> Parser<RecordView> {
    |s: Seq<u8>, p: int|
        match parse_value_record(s, p) {
            Ok((v, q)) => Ok((RecordView::Value(v), q)),
            Err(e) => Err(e),
        }
}

pub open spec fn value_wf() -> spec_fn(RecordView) -> bool {
    |r: RecordView|
        match r {
            RecordView::Value(v) => value_record_wf(v),
            RecordView::Control(_) => false,
        }
}

proof fn lemma_value_inverts()
    ensures
        inverts(value_parser(), record_encoder(), value_wf()),
{
    assert forall|r: RecordView, s: Seq<u8>, p: int|
        value_wf()(r) && #[trigger] holds(s, p, record_encoder()(r)) implies #[trigger] value_parser()(
        s,
        p,
    ) == Ok::<(RecordView, int), Error>((r, p + record_encoder()(r).len())) by {
        if let RecordView::Value(v) = r {
            lemma_value_record_round_trip(v, s, p);
        }
    }
}

/// A batch of records with its header, as stored in a log segment.
#[derive(Clone)]
pub struct RecordBatch {
    pub base_offset: i64,
    pub partition_leader_epoch: i32,
    pub magic_byte: u8,
    pub attributes: u16,
    pub last_offset_delta: i32,
    pub base_timestamp: i64,
    pub max_timestamp: i64,
    pub producer_id: i64,
    pub producer_epoch: i16,
    pub base_sequence: i32,
    pub records: Vec<Record>,
}

pub struct RecordBatchView {
    pub base_offset: i64,
    pub partition_leader_epoch: i32,
    pub magic_byte: u8,
    pub attributes: u16,
    pub last_offset_delta: i32,
    pub base_timestamp: i64,
    pub max_timestamp: i64,
    pub producer_id: i64,
    pub producer_epoch: i16,
    pub base_sequence: i32,
    pub records: Seq<RecordView>,
}

impl View for RecordBatch {
    type V = RecordBatchView;

    open spec fn view(&self) -> RecordBatchView {
        RecordBatchView {
            base_offset: self.base_offset,
            partition_leader_epoch: self.partition_leader_epoch,
            magic_byte: self.magic_byte,
            attributes: self.attributes,
            last_offset_delta: self.last_offset_delta,
            base_timestamp: self.base_timestamp,
            max_timestamp: self.max_timestamp,
            producer_id: self.producer_id,
            producer_epoch: self.producer_epoch,
            base_sequence: self.base_sequence,
            records: record_views(self.records@),
        }
    }
}

impl RecordBatch {
    pub fn new(
        base_offset: i64,
        partition_leader_epoch: i32,
        magic_byte: u8,
        attributes: u16,
        last_offset_delta: i32,
        base_timestamp: i64,
        max_timestamp: i64,
        producer_id: i64,
        producer_epoch: i16,
        base_sequence: i32,
        records: Vec<Record>,
    ) -> (r: RecordBatch)
        ensures
            r.base_offset == base_offset,
            r.partition_leader_epoch == partition_leader_epoch,
            r.magic_byte == magic_byte,
            r.attributes == attributes,
            r.last_offset_delta == last_offset_delta,
            r.base_timestamp == base_timestamp,
            r.max_timestamp == max_timestamp,
            r.producer_id == producer_id,
            r.producer_epoch == producer_epoch,
            r.base_sequence == base_sequence,
            r.records == records,
    {
        RecordBatch {
            base_offset,
            partition_leader_epoch,
            magic_byte,
            attributes,
            last_offset_delta,
            base_timestamp,
            max_timestamp,
            producer_id,
            producer_epoch,
            base_sequence,
            records,
        }
    }
    pub fn base_offset(&self) -> (r: i64)
        ensures
            r == self.base_offset,
    {
        self.base_offset
    }

    pub fn partition_leader_epoch(&self) -> (r: i32)
        ensures
            r == self.partition_leader_epoch,
    {
        self.partition_leader_epoch
    }

    pub fn magic_byte(&self) -> (r: u8)
        ensures
            r == self.magic_byte,
    {
        self.magic_byte
    }

    pub fn attributes(&self) -> (r: u16)
        ensures
            r == self.attributes,
    {
        self.attributes
    }

    pub fn last_offset_delta(&self) -> (r: i32)
        ensures
            r == self.last_offset_delta,
    {
        self.last_offset_delta
    }

    pub fn base_timestamp(&self) -> (r: i64)
        ensures
            r == self.base_timestamp,
    {
        self.base_timestamp
    }

    pub fn max_timestamp(&self) -> (r: i64)
        ensures
            r == self.max_timestamp,
    {
        self.max_timestamp
    }

    pub fn producer_id(&self) -> (r: i64)
        ensures
            r == self.producer_id,
    {
        self.producer_id
    }

    pub fn producer_epoch(&self) -> (r: i16)
        ensures
            r == self.producer_epoch,
    {
        self.producer_epoch
    }

    pub fn base_sequence(&self) -> (r: i32)
        ensures
            r == self.base_sequence,
    {
        self.base_sequence
    }

    /// Whether bit `0x10` of the attributes is set.
    pub fn is_control_batch(&self) -> (r: bool)
        ensures
            r == is_control(self.attributes),
    {
        self.attributes & 0x10u16 != 0
    }

    pub fn records(&self) -> (r: &[Record])
        ensures
            r@ == self.records@,
    {
        self.records.as_slice()
    }
}

/// A record value with no content of its own.
pub struct Value {}

/// Bit `0x10` of the attributes marks a control batch.
pub open spec fn is_control(attributes: u16) -> bool {
    attributes & 0x10u16 != 0
}

/// The bytes after the crc field: the rest of the header, the count and the records.
pub open spec fn enc_batch_body(b: RecordBatchView) -> Seq<u8> {
    enc_u16(b.attributes) + enc_i32(b.last_offset_delta) + enc_i64(b.base_timestamp) + enc_i64(
        b.max_timestamp,
    ) + enc_i64(b.producer_id) + enc_i16(b.producer_epoch) + enc_i32(b.base_sequence) + enc_i32(
        b.records.len() as i32,
    ) + enc_list(record_encoder(), b.records)
}

/// A whole batch; `batch_length` counts every byte after it, and the crc covers the body.
pub open spec fn enc_record_batch(b: RecordBatchView) -> Seq<u8> {
    let body = enc_batch_body(b);
    enc_i64(b.base_offset) + enc_u32((body.len() + 9) as u32) + enc_i32(b.partition_leader_epoch)
        + enc_u8(b.magic_byte) + enc_u32(crc32c_of(body)) + body
}

/// What a batch must satisfy to be written and read back: format 2, exactly one control
/// record in a control batch, well-formed value records in a data batch, and sizes that fit.
pub open spec fn record_batch_wf(b: RecordBatchView) -> bool {
    &&& b.magic_byte == 2
    &&& (is_control(b.attributes) ==> b.records.len() == 1 && b.records[0] is Control)
    &&& (!is_control(b.attributes) ==> forall|i: int|
        0 <= i < b.records.len() ==> value_wf()(#[trigger] b.records[i]))
    &&& b.records.len() <= 0x7fff_ffff
    &&& enc_batch_body(b).len() + 9 <= 0xffff_ffff
}

/// The records that follow the count, at position 40 of the body.
pub open spec fn parse_batch_records(body: Seq<u8>, attributes: u16, count: i32) -> Result<
    Seq<RecordView>,
    Error,
> {
    if is_control(attributes) {
        if count != 1 {
            Err(Error::IllegalArgument("invalid records length for ControlBatch"))
        } else {
            match parse_control_record(body, 40) {
                Ok((c, _)) => Ok(seq![RecordView::Control(c)]),
                Err(e) => Err(e),
            }
        }
    } else if count < 0 {
        Err(Error::IllegalArgument("negative records count"))
    } else {
        match parse_list(value_parser(), body, 40, count as nat) {
            Ok((rs, _)) => Ok(rs),
            Err(e) => Err(e),
        }
    }
}

/// The body after the crc; its header fields take a fixed 40 bytes.
pub open spec fn parse_batch_body(
    body: Seq<u8>,
    base_offset: i64,
    partition_leader_epoch: i32,
    magic_byte: u8,
) -> Result<RecordBatchView, Error> {
    if !need(body, 0, 40) {
        Err(Error::BufferUnderflow)
    } else {
        let attributes = parse_u16(body, 0)->Ok_0.0;
        match parse_batch_records(body, attributes, parse_i32(body, 36)->Ok_0.0) {
            Ok(records) => Ok(
                RecordBatchView {
                    base_offset,
                    partition_leader_epoch,
                    magic_byte,
                    attributes,
                    last_offset_delta: parse_i32(body, 2)->Ok_0.0,
                    base_timestamp: parse_i64(body, 6)->Ok_0.0,
                    max_timestamp: parse_i64(body, 14)->Ok_0.0,
                    producer_id: parse_i64(body, 22)->Ok_0.0,
                    producer_epoch: parse_i16(body, 30)->Ok_0.0,
                    base_sequence: parse_i32(body, 32)->Ok_0.0,
                    records,
                },
            ),
            Err(e) => Err(e),
        }
    }
}

/// A record batch at `p`. Fewer than 12 bytes, or fewer than `batch_length` after them, is
/// `BufferUnderflow`; a stored crc that differs from the CRC-32C of the body, a magic byte
/// other than 2, a control batch without exactly one record, or a body cut short is
/// `IllegalArgument`.
pub open spec fn parse_record_batch(s: Seq<u8>, p: int) -> Result<(RecordBatchView, int), Error> {
    if !need(s, p, 12) {
        Err(Error::BufferUnderflow)
    } else {
        let base_offset = parse_i64(s, p)->Ok_0.0;
        let batch_length = parse_u32(s, p + 8)->Ok_0.0 as int;
        if !need(s, p + 12, batch_length) {
            Err(Error::BufferUnderflow)
        } else if batch_length < 9 {
            Err(Error::IllegalArgument("truncated record batch"))
        } else {
            let inner = s.subrange(p + 12, p + 12 + batch_length);
            let body = inner.subrange(9, batch_length);
            if parse_u32(inner, 5)->Ok_0.0 != crc32c_of(body) {
                Err(Error::IllegalArgument("crc mismatch"))
            } else if inner[4] != 2 {
                Err(Error::IllegalArgument("unsupported magic byte"))
            } else {
                match parse_batch_body(body, base_offset, parse_i32(inner, 0)->Ok_0.0, inner[4]) {
                    Ok(b) => Ok((b, p + 12 + batch_length)),
                    Err(Error::BufferUnderflow) => Err(
                        Error::IllegalArgument("truncated record batch"),
                    ),
                    Err(e) => Err(e),
                }
            }
        }
    }
}

fn read_value_records(data: &[u8], pos: &mut usize, n: usize) -> (r: Result<Vec<Record>, Error>)
    requires
        *old(pos) <= data@.len(),
    ensures
        *final(pos) <= data@.len(),
        match parse_list(value_parser(), data@, *old(pos) as int, n as nat) {
            Ok((rs, q)) => r is Ok && record_views(r->Ok_0@) == rs && *final(pos) == q,
            Err(e) => r == Err::<Vec<Record>, Error>(e),
        },
{
    let ghost begin = *pos as int;
    let mut v: Vec<Record> = Vec::new();
    assert(record_views(v@) =~= Seq::<RecordView>::empty());
    let mut i: usize = 0;
    while i < n
        invariant
            i <= n,
            begin == *old(pos),
            *pos <= data@.len(),
            parse_list(value_parser(), data@, begin, n as nat) == parse_list_from(
                value_parser(),
                data@,
                *pos as int,
                (n - i) as nat,
                record_views(v@),
            ),
        decreases n - i,
    {
        let rec = read_value_record(data, pos)?;
        let x = Record::Value(rec);
        let ghost before = v@;
        v.push(x);
        assert(record_views(v@) =~= record_views(before).push(x@));
        i = i + 1;
    }
    Ok(v)
}

fn read_batch_body(body: &[u8], base_offset: i64, partition_leader_epoch: i32, magic_byte: u8) -> (r:
    Result<RecordBatch, Error>)
    ensures
        match parse_batch_body(body@, base_offset, partition_leader_epoch, magic_byte) {
            Ok(b) => r is Ok && r->Ok_0@ == b,
            Err(e) => r == Err::<RecordBatch, Error>(e),
        },
{
    if body.len() < 40 {
        return Err(Error::BufferUnderflow);
    }
    let mut pos: usize = 0;
    let attributes = read_u16(body, &mut pos)?;
    let last_offset_delta = read_i32(body, &mut pos)?;
    let base_timestamp = read_i64(body, &mut pos)?;
    let max_timestamp = read_i64(body, &mut pos)?;
    let producer_id = read_i64(body, &mut pos)?;
    let producer_epoch = read_i16(body, &mut pos)?;
    let base_sequence = read_i32(body, &mut pos)?;
    let count = read_i32(body, &mut pos)?;
    let records = if attributes & 0x10u16 != 0 {
        if count != 1 {
            return Err(Error::IllegalArgument("invalid records length for ControlBatch"));
        }
        let c = read_control_record(body, &mut pos)?;
        let mut v: Vec<Record> = Vec::new();
        v.push(Record::Control(c));
        assert(record_views(v@) =~= seq![RecordView::Control(c)]);
        v
    } else {
        if count < 0 {
            return Err(Error::IllegalArgument("negative records count"));
        }
        read_value_records(body, &mut pos, count as usize)?
    };
    Ok(
        RecordBatch {
            base_offset,
            partition_leader_epoch,
            magic_byte,
            attributes,
            last_offset_delta,
            base_timestamp,
            max_timestamp,
            producer_id,
            producer_epoch,
            base_sequence,
            records,
        },
    )
}

/// Reads one record batch. On success the position moves past the whole batch; on any
/// error it stays where it was, so that a caller can read more bytes and try again.
pub fn read_record_batch(data: &[u8], pos: &mut usize) -> (r: Result<RecordBatch, Error>)
    requires
        *old(pos) <= data@.len(),
    ensures
        *final(pos) <= data@.len(),
        agrees(r, *final(pos), parse_record_batch(data@, *old(pos) as int)),
        r is Err ==> *final(pos) == *old(pos),
{
    if data.len() - *pos < 12 {
        return Err(Error::BufferUnderflow);
    }
    let mut p: usize = *pos;
    let base_offset = read_i64(data, &mut p)?;
    let batch_length = read_u32(data, &mut p)?;
    if data.len() - p < batch_length as usize {
        return Err(Error::BufferUnderflow);
    }
    if batch_length < 9 {
        return Err(Error::IllegalArgument("truncated record batch"));
    }
    let inner = read_raw(data, &mut p, batch_length as usize)?;
    let mut ip: usize = 0;
    let partition_leader_epoch = read_i32(inner.as_slice(), &mut ip)?;
    let magic_byte = read_u8(inner.as_slice(), &mut ip)?;
    let crc = read_u32(inner.as_slice(), &mut ip)?;
    let body = read_raw(inner.as_slice(), &mut ip, (batch_length - 9) as usize)?;
    assert(body@ == inner@.subrange(9, batch_length as int));
    if crc != crc32c_checksum(body.as_slice()) {
        return Err(Error::IllegalArgument("crc mismatch"));
    }
    if magic_byte != 2 {
        return Err(Error::IllegalArgument("unsupported magic byte"));
    }
    match read_batch_body(body.as_slice(), base_offset, partition_leader_epoch, magic_byte) {
        Ok(b) => {
            *pos = p;
            Ok(b)
        },
        Err(Error::BufferUnderflow) => Err(Error::IllegalArgument("truncated record batch")),
        Err(e) => Err(e),
    }
}

pub proof fn lemma_control_record_round_trip(c: ControlRecord, s: Seq<u8>, p: int)
    requires
        holds(s, p, enc_control_record(c)),
    ensures
        parse_control_record(s, p) == Ok::<(ControlRecord, int), Error>((c, p + 4)),
{
    lemma_holds_split(s, p, enc_i16(c.version), enc_i16(c.record_type));
    lemma_i16_round_trip(c.version, s, p);
    lemma_i16_round_trip(c.record_type, s, p + 2);
}

/// Writes a batch: the body is built first, then its CRC-32C goes into the header.
pub fn write_record_batch(out: &mut Vec<u8>, b: &RecordBatch)
    requires
        record_batch_wf(b@),
    ensures
        final(out)@ == old(out)@ + enc_record_batch(b@),
{
    let mut body: Vec<u8> = Vec::new();
    write_u16(&mut body, b.attributes);
    write_i32(&mut body, b.last_offset_delta);
    write_i64(&mut body, b.base_timestamp);
    write_i64(&mut body, b.max_timestamp);
    write_i64(&mut body, b.producer_id);
    write_i16(&mut body, b.producer_epoch);
    write_i32(&mut body, b.base_sequence);
    write_i32(&mut body, b.records.len() as i32);
    let ghost head = body@;
    let ghost rs = record_views(b.records@);
    let mut i: usize = 0;
    while i < b.records.len()
        invariant
            i <= b.records@.len(),
            rs == record_views(b.records@),
            record_batch_wf(b@),
            body@ == head + enc_list(record_encoder(), rs.subrange(0, i as int)),
        decreases b.records@.len() - i,
    {
        let rec = &b.records[i];
        assert(rs[i as int] == rec@);
        match rec {
            Record::Value(v) => {
                assert(value_wf()(rs[i as int]));
                write_value_record(&mut body, v);
            },
            Record::Control(c) => {
                write_control_record(&mut body, *c);
            },
        }
        proof {
            lemma_enc_list_push(record_encoder(), rs.subrange(0, i as int), rec@);
            assert(rs.subrange(0, i as int).push(rec@) =~= rs.subrange(0, i + 1));
        }
        i = i + 1;
    }
    assert(rs.subrange(0, rs.len() as int) =~= rs);
    assert(body@ =~= enc_batch_body(b@));
    let crc = crc32c_checksum(body.as_slice());
    write_i64(out, b.base_offset);
    write_u32(out, (body.len() + 9) as u32);
    write_i32(out, b.partition_leader_epoch);
    write_u8(out, b.magic_byte);
    write_u32(out, crc);
    write_raw(out, body.as_slice());
    assert(final(out)@ =~= old(out)@ + enc_record_batch(b@));
}

/// A well-formed record batch reads back as written, whatever follows it; in particular the
/// crc that was written is the CRC-32C of the bytes after it.
#[verifier::rlimit(100)]
pub proof fn lemma_record_batch_round_trip(b: RecordBatchView, s: Seq<u8>, p: int)
    requires
        record_batch_wf(b),
        holds(s, p, enc_record_batch(b)),
    ensures
        parse_record_batch(s, p) == Ok::<(RecordBatchView, int), Error>(
            (b, p + enc_record_batch(b).len()),
        ),
{
    let body = enc_batch_body(b);
    let bl = (body.len() + 9) as u32;
    let a1 = enc_i64(b.base_offset);
    let a2 = enc_u32(bl);
    let a3 = enc_i32(b.partition_leader_epoch);
    let a4 = enc_u8(b.magic_byte);
    let a5 = enc_u32(crc32c_of(body));
    lemma_holds_split(s, p, a1 + a2 + a3 + a4 + a5, body);
    lemma_holds_split(s, p, a1 + a2 + a3 + a4, a5);
    lemma_holds_split(s, p, a1 + a2 + a3, a4);
    lemma_holds_split(s, p, a1 + a2, a3);
    lemma_holds_split(s, p, a1, a2);
    lemma_i64_round_trip(b.base_offset, s, p);
    lemma_u32_round_trip(bl, s, p + 8);
    let inner = s.subrange(p + 12, p + 12 + bl as int);
    assert(inner =~= a3 + a4 + a5 + body);
    assert(holds(inner, 0, inner)) by {
        assert(inner.subrange(0, inner.len() as int) =~= inner);
    }
    lemma_holds_split(inner, 0, a3 + a4 + a5, body);
    lemma_holds_split(inner, 0, a3 + a4, a5);
    lemma_holds_split(inner, 0, a3, a4);
    lemma_i32_round_trip(b.partition_leader_epoch, inner, 0);
    lemma_u32_round_trip(crc32c_of(body), inner, 5);
    assert(inner[4] == b.magic_byte);
    assert(inner.subrange(9, bl as int) =~= body);
    lemma_batch_body_round_trip(b);
}

pub open spec fn enc_batch_fixed(b: RecordBatchView) -> Seq<u8> {
    enc_u16(b.attributes) + enc_i32(b.last_offset_delta) + enc_i64(b.base_timestamp) + enc_i64(
        b.max_timestamp,
    ) + enc_i64(b.producer_id) + enc_i16(b.producer_epoch) + enc_i32(b.base_sequence) + enc_i32(
        b.records.len() as i32,
    )
}

#[verifier::rlimit(50)]
proof fn lemma_batch_fixed(b: RecordBatchView, body: Seq<u8>)
    requires
        holds(body, 0, enc_batch_fixed(b)),
    ensures
        need(body, 0, 40),
        parse_u16(body, 0)->Ok_0.0 == b.attributes,
        parse_i32(body, 2)->Ok_0.0 == b.last_offset_delta,
        parse_i64(body, 6)->Ok_0.0 == b.base_timestamp,
        parse_i64(body, 14)->Ok_0.0 == b.max_timestamp,
        parse_i64(body, 22)->Ok_0.0 == b.producer_id,
        parse_i16(body, 30)->Ok_0.0 == b.producer_epoch,
        parse_i32(body, 32)->Ok_0.0 == b.base_sequence,
        parse_i32(body, 36)->Ok_0.0 == b.records.len() as i32,
{
    let c1 = enc_u16(b.attributes);
    let c2 = enc_i32(b.last_offset_delta);
    let c3 = enc_i64(b.base_timestamp);
    let c4 = enc_i64(b.max_timestamp);
    let c5 = enc_i64(b.producer_id);
    let c6 = enc_i16(b.producer_epoch);
    let c7 = enc_i32(b.base_sequence);
    let c8 = enc_i32(b.records.len() as i32);
    lemma_holds_split(body, 0, c1 + c2 + c3 + c4 + c5 + c6 + c7, c8);
    lemma_holds_split(body, 0, c1 + c2 + c3 + c4 + c5 + c6, c7);
    lemma_holds_split(body, 0, c1 + c2 + c3 + c4 + c5, c6);
    lemma_holds_split(body, 0, c1 + c2 + c3 + c4, c5);
    lemma_holds_split(body, 0, c1 + c2 + c3, c4);
    lemma_holds_split(body, 0, c1 + c2, c3);
    lemma_holds_split(body, 0, c1, c2);
    lemma_u16_round_trip(b.attributes, body, 0);
    lemma_i32_round_trip(b.last_offset_delta, body, 2);
    lemma_i64_round_trip(b.base_timestamp, body, 6);
    lemma_i64_round_trip(b.max_timestamp, body, 14);
    lemma_i64_round_trip(b.producer_id, body, 22);
    lemma_i16_round_trip(b.producer_epoch, body, 30);
    lemma_i32_round_trip(b.base_sequence, body, 32);
    lemma_i32_round_trip(b.records.len() as i32, body, 36);
}

#[verifier::rlimit(100)]
proof fn lemma_batch_body_round_trip(b: RecordBatchView)
    requires
        record_batch_wf(b),
    ensures
        parse_batch_body(enc_batch_body(b), b.base_offset, b.partition_leader_epoch, b.magic_byte)
            == Ok::<RecordBatchView, Error>(b),
{
    let body = enc_batch_body(b);
    let c9 = enc_list(record_encoder(), b.records);
    assert(body == enc_batch_fixed(b) + c9);
    assert(holds(body, 0, body)) by {
        assert(body.subrange(0, body.len() as int) =~= body);
    }
    lemma_holds_split(body, 0, enc_batch_fixed(b), c9);
    lemma_batch_fixed(b, body);
    lemma_batch_records(b, body);
}

#[verifier::rlimit(50)]
proof fn lemma_batch_records(b: RecordBatchView, body: Seq<u8>)
    requires
        record_batch_wf(b),
        holds(body, 40, enc_list(record_encoder(), b.records)),
    ensures
        parse_batch_records(body, b.attributes, b.records.len() as i32) == Ok::<
            Seq<RecordView>,
            Error,
        >(b.records),
{
    let c9 = enc_list(record_encoder(), b.records);
    if is_control(b.attributes) {
        let c = b.records[0]->Control_0;
        assert(b.records.drop_last() =~= Seq::<RecordView>::empty());
        assert(enc_list(record_encoder(), Seq::<RecordView>::empty()) == Seq::<u8>::empty());
        assert(b.records.last() == b.records[0]);
        assert(c9 =~= enc_control_record(c));
        lemma_control_record_round_trip(c, body, 40);
        assert(seq![RecordView::Control(c)] =~= b.records);
    } else {
        lemma_value_inverts();
        lemma_list_round_trip(
            value_parser(),
            record_encoder(),
            value_wf(),
            b.records,
            Seq::empty(),
            body,
            40,
        );
        assert(Seq::<RecordView>::empty() + b.records =~= b.records);
    }
}

} // verus!
