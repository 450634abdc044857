use vstd::prelude::*;

use crate::error::Error;
use crate::list::{
    enc_list, inverts, lemma_enc_list_push, lemma_list_round_trip, parse_list, parse_list_from,
    Encoder, Parser,
};
use crate::types::{enc_uuid, lemma_uuid_round_trip, parse_uuid, read_uuid, write_uuid, Uuid};
use crate::varint::{
    enc_uvarint, lemma_uvarint_round_trip, parse_uvarint, read_unsigned_varint,
    write_unsigned_varint,
};
use crate::wire::{
    agrees, enc_i32, holds, lemma_holds_split, lemma_i32_round_trip, parse_i32, read_i32,
    write_i32,
};

verus! {

/// `COMPACT_ARRAY<T>`: the count `n` written as the unsigned varint `n + 1`; `0` stands for null.
pub open spec fn enc_compact_array<T>(g: Encoder<T>, o: Option<Seq<T>>) -> Seq<u8> {
    match o {
        Some(xs) => enc_uvarint((xs.len() + 1) as u32) + enc_list(g, xs),
        None => enc_uvarint(0),
    }
}

pub open spec fn parse_compact_array<T>(f: Parser<T>, s: Seq<u8>, p: int) -> Result<
    (Option<Seq<T>>, int),
    Error,
> {
    match parse_uvarint(s, p) {
        Ok((n, q)) => if n == 0 {
            Ok((None, q))
        } else {
            match parse_list(f, s, q, (n - 1) as nat) {
                Ok((xs, q2)) => Ok((Some(xs), q2)),
                Err(e) => Err(e),
            }
        },
        Err(e) => Err(e),
    }
}

/// `ARRAY<T>`: an `INT32` count; a negative count stands for null.
pub open spec fn enc_array<T>(g: Encoder<T>, o: Option<Seq<T>>) -> Seq<u8> {
    match o {
        Some(xs) => enc_i32(xs.len() as i32) + enc_list(g, xs),
        None => enc_i32(-1i32),
    }
}

pub open spec fn parse_array<T>(f: Parser<T>, s: Seq<u8>, p: int) -> Result<
    (Option<Seq<T>>, int),
    Error,
> {
    match parse_i32(s, p) {
        Ok((n, q)) => if n < 0 {
            Ok((None, q))
        } else {
            match parse_list(f, s, q, n as nat) {
                Ok((xs, q2)) => Ok((Some(xs), q2)),
                Err(e) => Err(e),
            }
        },
        Err(e) => Err(e),
    }
}

pub open spec fn all_wf<T>(wf: spec_fn(T) -> bool, o: Option<Seq<T>>) -> bool {
    o is Some ==> forall|i: int| 0 <= i < o->Some_0.len() ==> wf(#[trigger] o->Some_0[i])
}

pub proof fn lemma_compact_array_round_trip<T>(
    f: Parser<T>,
    g: Encoder<T>,
    wf: spec_fn(T) -> bool,
    o: Option<Seq<T>>,
    s: Seq<u8>,
    p: int,
)
    requires
        inverts(f, g, wf),
        all_wf(wf, o),
        o is Some ==> o->Some_0.len() < 0xffff_ffff,
        holds(s, p, enc_compact_array(g, o)),
    ensures
        parse_compact_array(f, s, p) == Ok::<(Option<Seq<T>>, int), Error>(
            (o, p + enc_compact_array(g, o).len()),
        ),
{
    match o {
        Some(xs) => {
            let h = enc_uvarint((xs.len() + 1) as u32);
            lemma_holds_split(s, p, h, enc_list(g, xs));
            lemma_uvarint_round_trip((xs.len() + 1) as u32, s, p);
            lemma_list_round_trip(f, g, wf, xs, Seq::empty(), s, p + h.len());
            assert(Seq::<T>::empty() + xs =~= xs);
        },
        None => {
            lemma_uvarint_round_trip(0, s, p);
        },
    }
}

pub proof fn lemma_array_round_trip<T>(
    f: Parser<T>,
    g: Encoder<T>,
    wf: spec_fn(T) -> bool,
    o: Option<Seq<T>>,
    s: Seq<u8>,
    p: int,
)
    requires
        inverts(f, g, wf),
        all_wf(wf, o),
        o is Some ==> o->Some_0.len() <= 0x7fff_ffff,
        holds(s, p, enc_array(g, o)),
    ensures
        parse_array(f, s, p) == Ok::<(Option<Seq<T>>, int), Error>(
            (o, p + enc_array(g, o).len()),
        ),
{
    match o {
        Some(xs) => {
            lemma_holds_split(s, p, enc_i32(xs.len() as i32), enc_list(g, xs));
            lemma_i32_round_trip(xs.len() as i32, s, p);
            lemma_list_round_trip(f, g, wf, xs, Seq::empty(), s, p + 4);
            assert(Seq::<T>::empty() + xs =~= xs);
        },
        None => {
            lemma_i32_round_trip(-1i32, s, p);
        },
    }
}

// ---------------------------------------------------------------- elements: INT32 and UUID

pub open spec fn i32_parser() -> Parser<i32> {
    |s: Seq<u8>, p: int| parse_i32(s, p)
}

pub open spec fn i32_encoder() -> Encoder<i32> {
    |v: i32| enc_i32(v)
}

pub open spec fn any_i32() -> spec_fn(i32) -> bool {
    |v: i32| true
}

pub open spec fn uuid_parser() -> Parser<Uuid> {
    |s: Seq<u8>, p: int| parse_uuid(s, p)
}

pub open spec fn uuid_encoder() -> Encoder<Uuid> {
    |v: Uuid| enc_uuid(v)
}

pub open spec fn any_uuid() -> spec_fn(Uuid) -> bool {
    |v: Uuid| true
}

pub proof fn lemma_i32_inverts()
    ensures
        inverts(i32_parser(), i32_encoder(), any_i32()),
{
    assert forall|x: i32, s: Seq<u8>, p: int|
        any_i32()(x) && #[trigger] holds(s, p, i32_encoder()(x)) implies #[trigger] i32_parser()(
        s,
        p,
    ) == Ok::<(i32, int), Error>((x, p + i32_encoder()(x).len())) by {
        lemma_i32_round_trip(x, s, p);
    }
}

pub proof fn lemma_uuid_inverts()
    ensures
        inverts(uuid_parser(), uuid_encoder(), any_uuid()),
{
    assert forall|x: Uuid, s: Seq<u8>, p: int|
        any_uuid()(x) && #[trigger] holds(s, p, uuid_encoder()(x)) implies #[trigger] uuid_parser()(
        s,
        p,
    ) == Ok::<(Uuid, int), Error>((x, p + uuid_encoder()(x).len())) by {
        lemma_uuid_round_trip(x, s, p);
    }
}

fn read_i32_list(data: &[u8], pos: &mut usize, n: usize) -> (r: Result<Vec<i32>, Error>)
    requires
        *old(pos) <= data@.len(),
    ensures
        *final(pos) <= data@.len(),
        agrees(r, *final(pos), parse_list(i32_parser(), data@, *old(pos) as int, n as nat)),
{
    let ghost begin = *pos as int;
    let mut v: Vec<i32> = Vec::new();
    let mut i: usize = 0;
    while i < n
        invariant
            i <= n,
            begin == *old(pos),
            *pos <= data@.len(),
            parse_list(i32_parser(), data@, begin, n as nat) == parse_list_from(
                i32_parser(),
                data@,
                *pos as int,
                (n - i) as nat,
                v@,
            ),
        decreases n - i,
    {
        let x = read_i32(data, pos)?;
        v.push(x);
        i = i + 1;
    }
    Ok(v)
}

fn read_uuid_list(data: &[u8], pos: &mut usize, n: usize) -> (r: Result<Vec<Uuid>, Error>)
    requires
        *old(pos) <= data@.len(),
    ensures
        *final(pos) <= data@.len(),
        agrees(r, *final(pos), parse_list(uuid_parser(), data@, *old(pos) as int, n as nat)),
{
    let ghost begin = *pos as int;
    let mut v: Vec<Uuid> = Vec::new();
    let mut i: usize = 0;
    while i < n
        invariant
            i <= n,
            begin == *old(pos),
            *pos <= data@.len(),
            parse_list(uuid_parser(), data@, begin, n as nat) == parse_list_from(
                uuid_parser(),
                data@,
                *pos as int,
                (n - i) as nat,
                v@,
            ),
        decreases n - i,
    {
        let x = read_uuid(data, pos)?;
        v.push(x);
        i = i + 1;
    }
    proof {
        assert(v@.map_values(|u: Uuid| u@) =~= v@);
    }
    Ok(v)
}

pub fn write_i32_list(out: &mut Vec<u8>, xs: &[i32])
    ensures
        final(out)@ == old(out)@ + enc_list(i32_encoder(), xs@),
{
    let mut i: usize = 0;
    while i < xs.len()
        invariant
            i <= xs@.len(),
            out@ == old(out)@ + enc_list(i32_encoder(), xs@.subrange(0, i as int)),
        decreases xs@.len() - i,
    {
        write_i32(out, xs[i]);
        proof {
            lemma_enc_list_push(i32_encoder(), xs@.subrange(0, i as int), xs@[i as int]);
            assert(xs@.subrange(0, i as int).push(xs@[i as int]) =~= xs@.subrange(0, i + 1));
        }
        i = i + 1;
    }
    assert(xs@.subrange(0, xs@.len() as int) =~= xs@);
}

fn write_uuid_list(out: &mut Vec<u8>, xs: &[Uuid])
    ensures
        final(out)@ == old(out)@ + enc_list(uuid_encoder(), xs@),
{
    let mut i: usize = 0;
    while i < xs.len()
        invariant
            i <= xs@.len(),
            out@ == old(out)@ + enc_list(uuid_encoder(), xs@.subrange(0, i as int)),
        decreases xs@.len() - i,
    {
        write_uuid(out, xs[i]);
        proof {
            lemma_enc_list_push(uuid_encoder(), xs@.subrange(0, i as int), xs@[i as int]);
            assert(xs@.subrange(0, i as int).push(xs@[i as int]) =~= xs@.subrange(0, i + 1));
        }
        i = i + 1;
    }
    assert(xs@.subrange(0, xs@.len() as int) =~= xs@);
}

pub open spec fn opt_seq<T>(o: Option<Vec<T>>) -> Option<Seq<T>> {
    match o {
        Some(v) => Some(v@),
        None => None,
    }
}

pub open spec fn opt_slice_seq<T>(o: Option<&[T]>) -> Option<Seq<T>> {
    match o {
        Some(v) => Some(v@),
        None => None,
    }
}

/// `COMPACT_ARRAY<INT32>`.
pub fn read_compact_i32_array(data: &[u8], pos: &mut usize) -> (r: Result<Option<Vec<i32>>, Error>)
    requires
        *old(pos) <= data@.len(),
    ensures
        *final(pos) <= data@.len(),
        match parse_compact_array(i32_parser(), data@, *old(pos) as int) {
            Ok((o, q)) => r is Ok && opt_seq(r->Ok_0) == o && *final(pos) == q,
            Err(e) => r == Err::<Option<Vec<i32>>, Error>(e),
        },
{
    let n = read_unsigned_varint(data, pos)?;
    if n == 0 {
        return Ok(None);
    }
    let v = read_i32_list(data, pos, (n - 1) as usize)?;
    Ok(Some(v))
}

/// `ARRAY<INT32>`.
pub fn read_i32_array(data: &[u8], pos: &mut usize) -> (r: Result<Option<Vec<i32>>, Error>)
    requires
        *old(pos) <= data@.len(),
    ensures
        *final(pos) <= data@.len(),
        match parse_array(i32_parser(), data@, *old(pos) as int) {
            Ok((o, q)) => r is Ok && opt_seq(r->Ok_0) == o && *final(pos) == q,
            Err(e) => r == Err::<Option<Vec<i32>>, Error>(e),
        },
{
    let n = read_i32(data, pos)?;
    if n < 0 {
        return Ok(None);
    }
    let v = read_i32_list(data, pos, n as usize)?;
    Ok(Some(v))
}

/// `COMPACT_ARRAY<UUID>`.
pub fn read_compact_uuid_array(data: &[u8], pos: &mut usize) -> (r: Result<Option<Vec<Uuid>>, Error>)
    requires
        *old(pos) <= data@.len(),
    ensures
        *final(pos) <= data@.len(),
        match parse_compact_array(uuid_parser(), data@, *old(pos) as int) {
            Ok((o, q)) => r is Ok && opt_seq(r->Ok_0) == o && *final(pos) == q,
            Err(e) => r == Err::<Option<Vec<Uuid>>, Error>(e),
        },
{
    let n = read_unsigned_varint(data, pos)?;
    if n == 0 {
        return Ok(None);
    }
    let v = read_uuid_list(data, pos, (n - 1) as usize)?;
    Ok(Some(v))
}

pub fn write_compact_i32_array(out: &mut Vec<u8>, o: Option<&[i32]>)
    requires
        o is Some ==> o->Some_0@.len() < 0xffff_ffff,
    ensures
        final(out)@ == old(out)@ + enc_compact_array(i32_encoder(), opt_slice_seq(o)),
{
    match o {
        Some(xs) => {
            write_unsigned_varint(out, (xs.len() + 1) as u32);
            write_i32_list(out, xs);
            assert(final(out)@ =~= old(out)@ + enc_compact_array(i32_encoder(), opt_slice_seq(o)));
        },
        None => {
            write_unsigned_varint(out, 0);
        },
    }
}

pub fn write_i32_array(out: &mut Vec<u8>, o: Option<&[i32]>)
    requires
        o is Some ==> o->Some_0@.len() <= 0x7fff_ffff,
    ensures
        final(out)@ == old(out)@ + enc_array(i32_encoder(), opt_slice_seq(o)),
{
    match o {
        Some(xs) => {
            write_i32(out, xs.len() as i32);
            write_i32_list(out, xs);
            assert(final(out)@ =~= old(out)@ + enc_array(i32_encoder(), opt_slice_seq(o)));
        },
        None => {
            write_i32(out, -1i32);
        },
    }
}

pub fn write_compact_uuid_array(out: &mut Vec<u8>, o: Option<&[Uuid]>)
    requires
        o is Some ==> o->Some_0@.len() < 0xffff_ffff,
    ensures
        final(out)@ == old(out)@ + enc_compact_array(uuid_encoder(), opt_slice_seq(o)),
{
    match o {
        Some(xs) => {
            write_unsigned_varint(out, (xs.len() + 1) as u32);
            write_uuid_list(out, xs);
            assert(final(out)@ =~= old(out)@ + enc_compact_array(uuid_encoder(), opt_slice_seq(o)));
        },
        None => {
            write_unsigned_varint(out, 0);
        },
    }
}

/// An array with an `INT32` count; `-1` stands for null.
pub struct Array<T>(pub Option<Vec<T>>);

impl<T> Array<T> {
    pub fn value(&self) -> (r: Option<&[T]>)
        ensures
            r is Some <==> self.0 is Some,
            r is Some ==> r->Some_0@ == self.0->Some_0@,
    {
        match &self.0 {
            Some(v) => Some(v.as_slice()),
            None => None,
        }
    }
}

/// An array whose count `n` is written as the unsigned varint `n + 1`; `0` stands for null.
pub struct CompactArray<T>(pub Option<Vec<T>>);

impl<T> CompactArray<T> {
    pub fn value(&self) -> (r: Option<&[T]>)
        ensures
            r is Some <==> self.0 is Some,
            r is Some ==> r->Some_0@ == self.0->Some_0@,
    {
        match &self.0 {
            Some(v) => Some(v.as_slice()),
            None => None,
        }
    }
}

/// A value preceded by an `INT8`: `-1` stands for absent.
pub struct NullableRecord<T>(pub Option<T>);

impl<T> NullableRecord<T> {
    pub fn value(&self) -> (r: Option<&T>)
        ensures
            r is Some <==> self.0 is Some,
            r is Some ==> *r->Some_0 == self.0->Some_0,
    {
        match &self.0 {
            Some(v) => Some(v),
            None => None,
        }
    }
}

} // verus!
