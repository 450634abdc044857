use vstd::prelude::*;

use crate::error::Error;
use crate::list::{
    enc_list, inverts, lemma_enc_list_push, lemma_list_round_trip, parse_list, parse_list_from,
    Encoder, Parser,
};
use crate::varint::{
    enc_uvarint, lemma_uvarint_round_trip, parse_uvarint, read_unsigned_varint,
    write_unsigned_varint,
};
use crate::wire::{
    agrees, enc_i16, enc_i32, enc_i8, enc_u64, holds, lemma_holds_split, lemma_i16_round_trip,
    lemma_i32_round_trip, lemma_i8_round_trip, lemma_u64_round_trip, need, parse_i16, parse_i32,
    parse_i8, parse_u64, read_i16, read_i32, read_u64, write_i16, write_i32, write_u64,
};

verus! {

// ---------------------------------------------------------------- raw bytes

/// `n` bytes taken as they stand.
pub open spec fn parse_raw(s: Seq<u8>, p: int, n: int) -> Result<(Seq<u8>, int), Error> {
    if !need(s, p, n) {
        Err(Error::BufferUnderflow)
    } else {
        Ok((s.subrange(p, p + n), p + n))
    }
}

pub proof fn lemma_raw_round_trip(b: Seq<u8>, s: Seq<u8>, p: int)
    requires
        holds(s, p, b),
    ensures
        parse_raw(s, p, b.len() as int) == Ok::<(Seq<u8>, int), Error>((b, p + b.len())),
{
}

pub fn read_raw(data: &[u8], pos: &mut usize, n: usize) -> (r: Result<Vec<u8>, Error>)
    requires
        *old(pos) <= data@.len(),
    ensures
        *final(pos) <= data@.len(),
        agrees(r, *final(pos), parse_raw(data@, *old(pos) as int, n as int)),
{
    if data.len() - *pos < n {
        return Err(Error::BufferUnderflow);
    }
    let p = *pos;
    let end = p + n;
    let mut v: Vec<u8> = Vec::new();
    let mut i: usize = 0;
    while i < n
        invariant
            end == p + n,
            p + n <= data@.len(),
            i <= n,
            v@ == data@.subrange(p as int, (p + i) as int),
        decreases n - i,
    {
        v.push(data[p + i]);
        i = i + 1;
        assert(v@ =~= data@.subrange(p as int, (p + i) as int));
    }
    *pos = p + n;
    Ok(v)
}

pub fn write_raw(out: &mut Vec<u8>, b: &[u8])
    ensures
        final(out)@ == old(out)@ + b@,
{
    let mut i: usize = 0;
    while i < b.len()
        invariant
            i <= b@.len(),
            out@ == old(out)@ + b@.subrange(0, i as int),
        decreases b@.len() - i,
    {
        out.push(b[i]);
        i = i + 1;
        assert(out@ =~= old(out)@ + b@.subrange(0, i as int));
    }
    assert(b@.subrange(0, b@.len() as int) =~= b@);
}

// ---------------------------------------------------------------- UUID

/// A 128-bit identifier, written as 16 big-endian bytes.
#[derive(Clone, Copy, PartialEq, Eq, Structural, Debug, Hash)]
pub struct Uuid {
    pub value: u128,
}

impl Uuid {
    pub fn from_u128(value: u128) -> (r: Uuid)
        ensures
            r.value == value,
    {
        Uuid { value }
    }

    pub fn as_u128(&self) -> (r: u128)
        ensures
            r == self.value,
    {
        self.value
    }

    /// The all-zero identifier.
    pub fn nil() -> (r: Uuid)
        ensures
            r.value == 0,
    {
        Uuid { value: 0 }
    }
}

impl View for Uuid {
    type V = Uuid;

    open spec fn view(&self) -> Uuid {
        *self
    }
}

pub open spec fn enc_uuid(u: Uuid) -> Seq<u8> {
    enc_u64((u.value >> 64u128) as u64) + enc_u64(u.value as u64)
}

pub open spec fn parse_uuid(s: Seq<u8>, p: int) -> Result<(Uuid, int), Error> {
    match parse_u64(s, p) {
        Ok((hi, q)) => match parse_u64(s, q) {
            Ok((lo, q2)) => Ok((Uuid { value: ((hi as u128) << 64u128) | (lo as u128) }, q2)),
            Err(e) => Err(e),
        },
        Err(e) => Err(e),
    }
}

pub fn read_uuid(data: &[u8], pos: &mut usize) -> (r: Result<Uuid, Error>)
    requires
        *old(pos) <= data@.len(),
    ensures
        *final(pos) <= data@.len(),
        agrees(r, *final(pos), parse_uuid(data@, *old(pos) as int)),
{
    let hi = read_u64(data, pos)?;
    let lo = read_u64(data, pos)?;
    Ok(Uuid { value: ((hi as u128) << 64u128) | (lo as u128) })
}

pub fn write_uuid(out: &mut Vec<u8>, u: Uuid)
    ensures
        final(out)@ == old(out)@ + enc_uuid(u),
{
    write_u64(out, (u.value >> 64u128) as u64);
    write_u64(out, u.value as u64);
    assert(final(out)@ =~= old(out)@ + enc_uuid(u));
}

pub proof fn lemma_uuid_round_trip(u: Uuid, s: Seq<u8>, p: int)
    requires
        holds(s, p, enc_uuid(u)),
    ensures
        parse_uuid(s, p) == Ok::<(Uuid, int), Error>((u, p + 16)),
{
    let v = u.value;
    lemma_holds_split(s, p, enc_u64((v >> 64u128) as u64), enc_u64(v as u64));
    lemma_u64_round_trip((v >> 64u128) as u64, s, p);
    lemma_u64_round_trip(v as u64, s, p + 8);
    assert(((((v >> 64u128) as u64) as u128) << 64u128) | (((v as u64) as u128)) == v)
        by (bit_vector);
}

// ---------------------------------------------------------------- STRING and NULLABLE_STRING

/// A string with an `INT16` length; `-1` stands for null.
#[derive(Clone)]
pub struct KafkaString(pub Option<Vec<u8>>);

impl View for KafkaString {
    type V = Option<Seq<u8>>;

    open spec fn view(&self) -> Option<Seq<u8>> {
        opt_bytes(self.0)
    }
}

pub open spec fn opt_bytes(o: Option<Vec<u8>>) -> Option<Seq<u8>> {
    match o {
        Some(v) => Some(v@),
        None => None,
    }
}

impl KafkaString {
    pub fn value(&self) -> (r: Option<&[u8]>)
        ensures
            r is Some <==> self.0 is Some,
            r is Some ==> r->Some_0@ == self.0->Some_0@,
    {
        match &self.0 {
            Some(v) => Some(v.as_slice()),
            None => None,
        }
    }
}

pub open spec fn string_fits(o: Option<Seq<u8>>) -> bool {
    o is Some ==> o->Some_0.len() <= 0x7fff
}

pub open spec fn enc_nullable_string(o: Option<Seq<u8>>) -> Seq<u8> {
    match o {
        Some(b) => enc_i16(b.len() as i16) + b,
        None => enc_i16(-1i16),
    }
}

pub open spec fn parse_nullable_string(s: Seq<u8>, p: int) -> Result<(Option<Seq<u8>>, int), Error> {
    match parse_i16(s, p) {
        Ok((n, q)) => if n < 0 {
            Ok((None, q))
        } else {
            match parse_raw(s, q, n as int) {
                Ok((b, q2)) => Ok((Some(b), q2)),
                Err(e) => Err(e),
            }
        },
        Err(e) => Err(e),
    }
}

pub fn read_nullable_string(data: &[u8], pos: &mut usize) -> (r: Result<KafkaString, Error>)
    requires
        *old(pos) <= data@.len(),
    ensures
        *final(pos) <= data@.len(),
        agrees(r, *final(pos), parse_nullable_string(data@, *old(pos) as int)),
{
    let n = read_i16(data, pos)?;
    if n < 0 {
        return Ok(KafkaString(None));
    }
    let b = read_raw(data, pos, n as usize)?;
    Ok(KafkaString(Some(b)))
}

pub fn write_nullable_string(out: &mut Vec<u8>, o: Option<&[u8]>)
    requires
        o is Some ==> o->Some_0@.len() <= 0x7fff,
    ensures
        final(out)@ == old(out)@ + enc_nullable_string(opt_slice(o)),
{
    match o {
        Some(b) => {
            write_i16(out, b.len() as i16);
            write_raw(out, b);
            assert(final(out)@ =~= old(out)@ + enc_nullable_string(opt_slice(o)));
        },
        None => {
            write_i16(out, -1i16);
        },
    }
}

pub open spec fn opt_slice(o: Option<&[u8]>) -> Option<Seq<u8>> {
    match o {
        Some(b) => Some(b@),
        None => None,
    }
}

pub proof fn lemma_nullable_string_round_trip(o: Option<Seq<u8>>, s: Seq<u8>, p: int)
    requires
        string_fits(o),
        holds(s, p, enc_nullable_string(o)),
    ensures
        parse_nullable_string(s, p) == Ok::<(Option<Seq<u8>>, int), Error>(
            (o, p + enc_nullable_string(o).len()),
        ),
{
    match o {
        Some(b) => {
            lemma_holds_split(s, p, enc_i16(b.len() as i16), b);
            lemma_i16_round_trip(b.len() as i16, s, p);
        },
        None => {
            lemma_i16_round_trip(-1i16, s, p);
        },
    }
}

/// A non-nullable `STRING`: a null length is refused.
/// `field` names the field in the error.
pub open spec fn parse_string(s: Seq<u8>, p: int, field: &'static str) -> Result<(Seq<u8>, int), Error> {
    match parse_nullable_string(s, p) {
        Ok((Some(b), q)) => Ok((b, q)),
        Ok((None, _)) => Err(Error::IllegalArgument(field)),
        Err(e) => Err(e),
    }
}

pub fn read_string(data: &[u8], pos: &mut usize, field: &'static str) -> (r: Result<Vec<u8>, Error>)
    requires
        *old(pos) <= data@.len(),
    ensures
        *final(pos) <= data@.len(),
        agrees(r, *final(pos), parse_string(data@, *old(pos) as int, field)),
{
    match read_nullable_string(data, pos)?.0 {
        Some(b) => Ok(b),
        None => Err(Error::IllegalArgument(field)),
    }
}

// ---------------------------------------------------------------- COMPACT_STRING

/// A string whose length `n` is written as the unsigned varint `n + 1`; `0` stands for null.
#[derive(Clone)]
pub struct CompactKafkaString(pub Option<Vec<u8>>);

impl View for CompactKafkaString {
    type V = Option<Seq<u8>>;

    open spec fn view(&self) -> Option<Seq<u8>> {
        opt_bytes(self.0)
    }
}

impl CompactKafkaString {
    pub fn value(&self) -> (r: Option<&[u8]>)
        ensures
            r is Some <==> self.0 is Some,
            r is Some ==> r->Some_0@ == self.0->Some_0@,
    {
        match &self.0 {
            Some(v) => Some(v.as_slice()),
            None => None,
        }
    }
}

pub open spec fn compact_fits(o: Option<Seq<u8>>) -> bool {
    o is Some ==> o->Some_0.len() < 0xffff_ffff
}

pub open spec fn enc_compact_nullable_string(o: Option<Seq<u8>>) -> Seq<u8> {
    match o {
        Some(b) => enc_uvarint((b.len() + 1) as u32) + b,
        None => enc_uvarint(0),
    }
}

pub open spec fn enc_compact_string(b: Seq<u8>) -> Seq<u8> {
    enc_compact_nullable_string(Some(b))
}

pub open spec fn parse_compact_nullable_string(s: Seq<u8>, p: int) -> Result<
    (Option<Seq<u8>>, int),
    Error,
> {
    match parse_uvarint(s, p) {
        Ok((n, q)) => if n == 0 {
            Ok((None, q))
        } else {
            match parse_raw(s, q, n - 1) {
                Ok((b, q2)) => Ok((Some(b), q2)),
                Err(e) => Err(e),
            }
        },
        Err(e) => Err(e),
    }
}

/// A non-nullable `COMPACT_STRING`: the length `0` is refused.
/// `field` names the field in the error.
pub open spec fn parse_compact_string(s: Seq<u8>, p: int, field: &'static str) -> Result<(Seq<u8>, int), Error> {
    match parse_compact_nullable_string(s, p) {
        Ok((Some(b), q)) => Ok((b, q)),
        Ok((None, _)) => Err(Error::IllegalArgument(field)),
        Err(e) => Err(e),
    }
}

pub fn read_compact_nullable_string(data: &[u8], pos: &mut usize) -> (r: Result<
    CompactKafkaString,
    Error,
>)
    requires
        *old(pos) <= data@.len(),
    ensures
        *final(pos) <= data@.len(),
        agrees(r, *final(pos), parse_compact_nullable_string(data@, *old(pos) as int)),
{
    let n = read_unsigned_varint(data, pos)?;
    if n == 0 {
        return Ok(CompactKafkaString(None));
    }
    let b = read_raw(data, pos, (n - 1) as usize)?;
    Ok(CompactKafkaString(Some(b)))
}

pub fn read_compact_string(data: &[u8], pos: &mut usize, field: &'static str) -> (r: Result<Vec<u8>, Error>)
    requires
        *old(pos) <= data@.len(),
    ensures
        *final(pos) <= data@.len(),
        agrees(r, *final(pos), parse_compact_string(data@, *old(pos) as int, field)),
{
    match read_compact_nullable_string(data, pos)?.0 {
        Some(b) => Ok(b),
        None => Err(Error::IllegalArgument(field)),
    }
}

pub fn write_compact_nullable_string(out: &mut Vec<u8>, o: Option<&[u8]>)
    requires
        o is Some ==> o->Some_0@.len() < 0xffff_ffff,
    ensures
        final(out)@ == old(out)@ + enc_compact_nullable_string(opt_slice(o)),
{
    match o {
        Some(b) => {
            write_unsigned_varint(out, (b.len() + 1) as u32);
            write_raw(out, b);
            assert(final(out)@ =~= old(out)@ + enc_compact_nullable_string(opt_slice(o)));
        },
        None => {
            write_unsigned_varint(out, 0);
        },
    }
}

pub proof fn lemma_compact_nullable_string_round_trip(o: Option<Seq<u8>>, s: Seq<u8>, p: int)
    requires
        compact_fits(o),
        holds(s, p, enc_compact_nullable_string(o)),
    ensures
        parse_compact_nullable_string(s, p) == Ok::<(Option<Seq<u8>>, int), Error>(
            (o, p + enc_compact_nullable_string(o).len()),
        ),
{
    match o {
        Some(b) => {
            lemma_holds_split(s, p, enc_uvarint((b.len() + 1) as u32), b);
            lemma_uvarint_round_trip((b.len() + 1) as u32, s, p);
        },
        None => {
            lemma_uvarint_round_trip(0, s, p);
        },
    }
}

pub proof fn lemma_compact_string_round_trip(b: Seq<u8>, s: Seq<u8>, p: int, field: &'static str)
    requires
        b.len() < 0xffff_ffff,
        holds(s, p, enc_compact_string(b)),
    ensures
        parse_compact_string(s, p, field) == Ok::<(Seq<u8>, int), Error>(
            (b, p + enc_compact_string(b).len()),
        ),
{
    lemma_compact_nullable_string_round_trip(Some(b), s, p);
}

} // verus!
