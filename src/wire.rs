use vstd::prelude::*;

use crate::error::Error;

verus! {

/// The bytes `e` stand in `s` from position `p` on.
pub open spec fn holds(s: Seq<u8>, p: int, e: Seq<u8>) -> bool {
    0 <= p && p + e.len() <= s.len() && s.subrange(p, p + e.len()) == e
}

/// Splitting an encoding that is a concatenation.
pub proof fn lemma_holds_split(s: Seq<u8>, p: int, a: Seq<u8>, b: Seq<u8>)
    requires
        holds(s, p, a + b),
    ensures
        holds(s, p, a),
        holds(s, p + a.len(), b),
{
    let w = s.subrange(p, p + a.len() + b.len());
    assert(w == a + b);
    assert(s.subrange(p, p + a.len()) =~= w.subrange(0, a.len() as int));
    assert(a =~= (a + b).subrange(0, a.len() as int));
    assert(s.subrange(p + a.len(), p + a.len() + b.len()) =~= w.subrange(
        a.len() as int,
        (a.len() + b.len()) as int,
    ));
    assert(b =~= (a + b).subrange(a.len() as int, (a.len() + b.len()) as int));
}

/// Joining two encodings that stand one after the other.
pub proof fn lemma_holds_join(s: Seq<u8>, p: int, a: Seq<u8>, b: Seq<u8>)
    requires
        holds(s, p, a),
        holds(s, p + a.len(), b),
    ensures
        holds(s, p, a + b),
{
    assert(s.subrange(p, p + a.len() + b.len()) =~= a + b) by {
        assert forall|i: int| 0 <= i < a.len() + b.len() implies s.subrange(p, p + a.len() + b.len())[i] == (a + b)[i] by {
            if i < a.len() {
                assert(s.subrange(p, p + a.len())[i] == a[i]);
            } else {
                assert(s.subrange(p + a.len(), p + a.len() + b.len())[i - a.len()] == b[i - a.len()]);
            }
        }
    }
}

/// The outcome of a reader that started at `begin` agrees with a parse result:
/// the same value (seen through its view) and the new position, or the same error.
pub open spec fn agrees<T: View>(r: Result<T, Error>, p: usize, spec: Result<(T::V, int), Error>) -> bool {
    match spec {
        Ok((v, q)) => r is Ok && r->Ok_0@ == v && p == q,
        Err(e) => r == Err::<T, Error>(e),
    }
}

/// A parse that needs `n` bytes at `p`.
pub open spec fn need(s: Seq<u8>, p: int, n: int) -> bool {
    p + n <= s.len()
}

// ---------------------------------------------------------------- fixed-width integers

pub open spec fn be16(a: u8, b: u8) -> u16 {
    ((a as u16) << 8u16) | (b as u16)
}

pub open spec fn be32(a: u8, b: u8, c: u8, d: u8) -> u32 {
    ((a as u32) << 24u32) | ((b as u32) << 16u32) | ((c as u32) << 8u32) | (d as u32)
}

pub open spec fn be64(hi: u32, lo: u32) -> u64 {
    ((hi as u64) << 32u64) | (lo as u64)
}

pub open spec fn enc_u8(v: u8) -> Seq<u8> {
    seq![v]
}

pub open spec fn enc_u16(v: u16) -> Seq<u8> {
    seq![(v >> 8u16) as u8, v as u8]
}

pub open spec fn enc_u32(v: u32) -> Seq<u8> {
    seq![(v >> 24u32) as u8, (v >> 16u32) as u8, (v >> 8u32) as u8, v as u8]
}

pub open spec fn enc_u64(v: u64) -> Seq<u8> {
    enc_u32((v >> 32u64) as u32) + enc_u32(v as u32)
}

pub open spec fn enc_i8(v: i8) -> Seq<u8> {
    enc_u8(v as u8)
}

pub open spec fn enc_i16(v: i16) -> Seq<u8> {
    enc_u16(v as u16)
}

pub open spec fn enc_i32(v: i32) -> Seq<u8> {
    enc_u32(v as u32)
}

pub open spec fn enc_i64(v: i64) -> Seq<u8> {
    enc_u64(v as u64)
}

pub open spec fn enc_bool(v: bool) -> Seq<u8> {
    enc_u8(if v { 1u8 } else { 0u8 })
}

pub open spec fn parse_u8(s: Seq<u8>, p: int) -> Result<(u8, int), Error> {
    if !need(s, p, 1) {
        Err(Error::BufferUnderflow)
    } else {
        Ok((s[p], p + 1))
    }
}

pub open spec fn parse_u16(s: Seq<u8>, p: int) -> Result<(u16, int), Error> {
    if !need(s, p, 2) {
        Err(Error::BufferUnderflow)
    } else {
        Ok((be16(s[p], s[p + 1]), p + 2))
    }
}

pub open spec fn parse_u32(s: Seq<u8>, p: int) -> Result<(u32, int), Error> {
    if !need(s, p, 4) {
        Err(Error::BufferUnderflow)
    } else {
        Ok((be32(s[p], s[p + 1], s[p + 2], s[p + 3]), p + 4))
    }
}

pub open spec fn parse_u64(s: Seq<u8>, p: int) -> Result<(u64, int), Error> {
    if !need(s, p, 8) {
        Err(Error::BufferUnderflow)
    } else {
        Ok((
            be64(
                be32(s[p], s[p + 1], s[p + 2], s[p + 3]),
                be32(s[p + 4], s[p + 5], s[p + 6], s[p + 7]),
            ),
            p + 8,
        ))
    }
}

pub open spec fn parse_i8(s: Seq<u8>, p: int) -> Result<(i8, int), Error> {
    match parse_u8(s, p) {
        Ok((v, q)) => Ok((v as i8, q)),
        Err(e) => Err(e),
    }
}

pub open spec fn parse_i16(s: Seq<u8>, p: int) -> Result<(i16, int), Error> {
    match parse_u16(s, p) {
        Ok((v, q)) => Ok((v as i16, q)),
        Err(e) => Err(e),
    }
}

pub open spec fn parse_i32(s: Seq<u8>, p: int) -> Result<(i32, int), Error> {
    match parse_u32(s, p) {
        Ok((v, q)) => Ok((v as i32, q)),
        Err(e) => Err(e),
    }
}

pub open spec fn parse_i64(s: Seq<u8>, p: int) -> Result<(i64, int), Error> {
    match parse_u64(s, p) {
        Ok((v, q)) => Ok((v as i64, q)),
        Err(e) => Err(e),
    }
}

/// A boolean is one byte; any value but zero reads as true.
pub open spec fn parse_bool(s: Seq<u8>, p: int) -> Result<(bool, int), Error> {
    match parse_u8(s, p) {
        Ok((v, q)) => Ok((v != 0, q)),
        Err(e) => Err(e),
    }
}

pub fn read_u8(data: &[u8], pos: &mut usize) -> (r: Result<u8, Error>)
    requires
        *old(pos) <= data@.len(),
    ensures
        *final(pos) <= data@.len(),
        agrees(r, *final(pos), parse_u8(data@, *old(pos) as int)),
{
    if data.len() - *pos < 1 {
        return Err(Error::BufferUnderflow);
    }
    let v = data[*pos];
    *pos = *pos + 1;
    Ok(v)
}

pub fn read_u16(data: &[u8], pos: &mut usize) -> (r: Result<u16, Error>)
    requires
        *old(pos) <= data@.len(),
    ensures
        *final(pos) <= data@.len(),
        agrees(r, *final(pos), parse_u16(data@, *old(pos) as int)),
{
    if data.len() - *pos < 2 {
        return Err(Error::BufferUnderflow);
    }
    let p = *pos;
    let v = ((data[p] as u16) << 8u16) | (data[p + 1] as u16);
    *pos = p + 2;
    Ok(v)
}

pub fn read_u32(data: &[u8], pos: &mut usize) -> (r: Result<u32, Error>)
    requires
        *old(pos) <= data@.len(),
    ensures
        *final(pos) <= data@.len(),
        agrees(r, *final(pos), parse_u32(data@, *old(pos) as int)),
{
    if data.len() - *pos < 4 {
        return Err(Error::BufferUnderflow);
    }
    let p = *pos;
    let v = ((data[p] as u32) << 24u32) | ((data[p + 1] as u32) << 16u32) | ((data[p + 2] as u32)
        << 8u32) | (data[p + 3] as u32);
    *pos = p + 4;
    Ok(v)
}

pub fn read_u64(data: &[u8], pos: &mut usize) -> (r: Result<u64, Error>)
    requires
        *old(pos) <= data@.len(),
    ensures
        *final(pos) <= data@.len(),
        agrees(r, *final(pos), parse_u64(data@, *old(pos) as int)),
{
    if data.len() - *pos < 8 {
        return Err(Error::BufferUnderflow);
    }
    let p = *pos;
    let hi = ((data[p] as u32) << 24u32) | ((data[p + 1] as u32) << 16u32) | ((data[p + 2] as u32)
        << 8u32) | (data[p + 3] as u32);
    let lo = ((data[p + 4] as u32) << 24u32) | ((data[p + 5] as u32) << 16u32) | ((data[p
        + 6] as u32) << 8u32) | (data[p + 7] as u32);
    *pos = p + 8;
    Ok(((hi as u64) << 32u64) | (lo as u64))
}

pub fn read_i8(data: &[u8], pos: &mut usize) -> (r: Result<i8, Error>)
    requires
        *old(pos) <= data@.len(),
    ensures
        *final(pos) <= data@.len(),
        agrees(r, *final(pos), parse_i8(data@, *old(pos) as int)),
{
    let v = read_u8(data, pos)?;
    Ok(v as i8)
}

pub fn read_i16(data: &[u8], pos: &mut usize) -> (r: Result<i16, Error>)
    requires
        *old(pos) <= data@.len(),
    ensures
        *final(pos) <= data@.len(),
        agrees(r, *final(pos), parse_i16(data@, *old(pos) as int)),
{
    let v = read_u16(data, pos)?;
    Ok(v as i16)
}

pub fn read_i32(data: &[u8], pos: &mut usize) -> (r: Result<i32, Error>)
    requires
        *old(pos) <= data@.len(),
    ensures
        *final(pos) <= data@.len(),
        agrees(r, *final(pos), parse_i32(data@, *old(pos) as int)),
{
    let v = read_u32(data, pos)?;
    Ok(v as i32)
}

pub fn read_i64(data: &[u8], pos: &mut usize) -> (r: Result<i64, Error>)
    requires
        *old(pos) <= data@.len(),
    ensures
        *final(pos) <= data@.len(),
        agrees(r, *final(pos), parse_i64(data@, *old(pos) as int)),
{
    let v = read_u64(data, pos)?;
    Ok(v as i64)
}

pub fn read_bool(data: &[u8], pos: &mut usize) -> (r: Result<bool, Error>)
    requires
        *old(pos) <= data@.len(),
    ensures
        *final(pos) <= data@.len(),
        agrees(r, *final(pos), parse_bool(data@, *old(pos) as int)),
{
    let v = read_u8(data, pos)?;
    Ok(v != 0)
}

pub fn write_u8(out: &mut Vec<u8>, v: u8)
    ensures
        final(out)@ == old(out)@ + enc_u8(v),
{
    out.push(v);
    assert(final(out)@ =~= old(out)@ + enc_u8(v));
}

pub fn write_u16(out: &mut Vec<u8>, v: u16)
    ensures
        final(out)@ == old(out)@ + enc_u16(v),
{
    out.push((v >> 8u16) as u8);
    out.push(v as u8);
    assert(final(out)@ =~= old(out)@ + enc_u16(v));
}

pub fn write_u32(out: &mut Vec<u8>, v: u32)
    ensures
        final(out)@ == old(out)@ + enc_u32(v),
{
    out.push((v >> 24u32) as u8);
    out.push((v >> 16u32) as u8);
    out.push((v >> 8u32) as u8);
    out.push(v as u8);
    assert(final(out)@ =~= old(out)@ + enc_u32(v));
}

pub fn write_u64(out: &mut Vec<u8>, v: u64)
    ensures
        final(out)@ == old(out)@ + enc_u64(v),
{
    write_u32(out, (v >> 32u64) as u32);
    write_u32(out, v as u32);
    assert(final(out)@ =~= old(out)@ + enc_u64(v));
}

pub fn write_i8(out: &mut Vec<u8>, v: i8)
    ensures
        final(out)@ == old(out)@ + enc_i8(v),
{
    write_u8(out, v as u8);
}

pub fn write_i16(out: &mut Vec<u8>, v: i16)
    ensures
        final(out)@ == old(out)@ + enc_i16(v),
{
    write_u16(out, v as u16);
}

pub fn write_i32(out: &mut Vec<u8>, v: i32)
    ensures
        final(out)@ == old(out)@ + enc_i32(v),
{
    write_u32(out, v as u32);
}

pub fn write_i64(out: &mut Vec<u8>, v: i64)
    ensures
        final(out)@ == old(out)@ + enc_i64(v),
{
    write_u64(out, v as u64);
}

pub fn write_bool(out: &mut Vec<u8>, v: bool)
    ensures
        final(out)@ == old(out)@ + enc_bool(v),
{
    write_u8(out, if v { 1u8 } else { 0u8 });
}

// ---------------------------------------------------------------- round trips

pub proof fn lemma_u8_round_trip(v: u8, s: Seq<u8>, p: int)
    requires
        holds(s, p, enc_u8(v)),
    ensures
        parse_u8(s, p) == Ok::<(u8, int), Error>((v, p + 1)),
{
    assert(s[p] == s.subrange(p, p + 1)[0]);
}

pub proof fn lemma_u16_round_trip(v: u16, s: Seq<u8>, p: int)
    requires
        holds(s, p, enc_u16(v)),
    ensures
        parse_u16(s, p) == Ok::<(u16, int), Error>((v, p + 2)),
{
    let w = s.subrange(p, p + 2);
    assert(s[p] == w[0] && s[p + 1] == w[1]);
    assert(be16((v >> 8u16) as u8, v as u8) == v) by (bit_vector);
}

pub proof fn lemma_be32(v: u32)
    ensures
        be32((v >> 24u32) as u8, (v >> 16u32) as u8, (v >> 8u32) as u8, v as u8) == v,
{
    assert(((((v >> 24u32) as u8) as u32) << 24u32) | ((((v >> 16u32) as u8) as u32) << 16u32)
        | ((((v >> 8u32) as u8) as u32) << 8u32) | ((v as u8) as u32) == v) by (bit_vector);
}

pub proof fn lemma_u32_round_trip(v: u32, s: Seq<u8>, p: int)
    requires
        holds(s, p, enc_u32(v)),
    ensures
        parse_u32(s, p) == Ok::<(u32, int), Error>((v, p + 4)),
{
    let w = s.subrange(p, p + 4);
    assert(s[p] == w[0] && s[p + 1] == w[1] && s[p + 2] == w[2] && s[p + 3] == w[3]);
    lemma_be32(v);
}

pub proof fn lemma_u64_round_trip(v: u64, s: Seq<u8>, p: int)
    requires
        holds(s, p, enc_u64(v)),
    ensures
        parse_u64(s, p) == Ok::<(u64, int), Error>((v, p + 8)),
{
    let w = s.subrange(p, p + 8);
    assert(s[p] == w[0] && s[p + 1] == w[1] && s[p + 2] == w[2] && s[p + 3] == w[3]);
    assert(s[p + 4] == w[4] && s[p + 5] == w[5] && s[p + 6] == w[6] && s[p + 7] == w[7]);
    lemma_be32((v >> 32u64) as u32);
    lemma_be32(v as u32);
    assert(((((v >> 32u64) as u32) as u64) << 32u64) | (((v as u32) as u64)) == v) by (bit_vector);
}

pub proof fn lemma_i8_round_trip(v: i8, s: Seq<u8>, p: int)
    requires
        holds(s, p, enc_i8(v)),
    ensures
        parse_i8(s, p) == Ok::<(i8, int), Error>((v, p + 1)),
{
    lemma_u8_round_trip(v as u8, s, p);
    assert((v as u8) as i8 == v) by (bit_vector);
}

pub proof fn lemma_i16_round_trip(v: i16, s: Seq<u8>, p: int)
    requires
        holds(s, p, enc_i16(v)),
    ensures
        parse_i16(s, p) == Ok::<(i16, int), Error>((v, p + 2)),
{
    lemma_u16_round_trip(v as u16, s, p);
    assert((v as u16) as i16 == v) by (bit_vector);
}

pub proof fn lemma_i32_round_trip(v: i32, s: Seq<u8>, p: int)
    requires
        holds(s, p, enc_i32(v)),
    ensures
        parse_i32(s, p) == Ok::<(i32, int), Error>((v, p + 4)),
{
    lemma_u32_round_trip(v as u32, s, p);
    assert((v as u32) as i32 == v) by (bit_vector);
}

pub proof fn lemma_i64_round_trip(v: i64, s: Seq<u8>, p: int)
    requires
        holds(s, p, enc_i64(v)),
    ensures
        parse_i64(s, p) == Ok::<(i64, int), Error>((v, p + 8)),
{
    lemma_u64_round_trip(v as u64, s, p);
    assert((v as u64) as i64 == v) by (bit_vector);
}

pub proof fn lemma_bool_round_trip(v: bool, s: Seq<u8>, p: int)
    requires
        holds(s, p, enc_bool(v)),
    ensures
        parse_bool(s, p) == Ok::<(bool, int), Error>((v, p + 1)),
{
    lemma_u8_round_trip(if v { 1u8 } else { 0u8 }, s, p);
}

} // verus!
