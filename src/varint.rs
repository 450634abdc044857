use vstd::prelude::*;

use crate::error::Error;
use crate::wire::{agrees, holds, lemma_holds_split, need};

verus! {

// ---------------------------------------------------------------- UNSIGNED_VARINT (u32)

/// Little-endian base-128: seven bits per byte, the high bit set on every byte but the last.
pub open spec fn enc_uvarint(v: u32) -> Seq<u8>
    decreases v,
{
    if v < 128 {
        seq![v as u8]
    } else {
        seq![((v % 128) + 128) as u8] + enc_uvarint(v / 128)
    }
}

/// Reads byte `i` (counting from 0) of an unsigned varint at `p`, `acc` holding the bits so far.
/// A fifth byte with its high bit set is refused.
pub open spec fn parse_uvarint_from(s: Seq<u8>, p: int, i: nat, acc: u32) -> Result<(u32, int), Error>
    decreases 5 - i,
{
    if i >= 5 {
        Err(Error::IllegalArgument("Invalid VarInt, msb of 5th byte is set"))
    } else if !need(s, p, 1) {
        Err(Error::BufferUnderflow)
    } else if s[p] < 128 {
        Ok((acc | ((s[p] as u32) << ((7 * i) as u32)), p + 1))
    } else if i == 4 {
        Err(Error::IllegalArgument("Invalid VarInt, msb of 5th byte is set"))
    } else {
        parse_uvarint_from(s, p + 1, i + 1, acc | (((s[p] & 0x7fu8) as u32) << ((7 * i) as u32)))
    }
}

pub open spec fn parse_uvarint(s: Seq<u8>, p: int) -> Result<(u32, int), Error> {
    parse_uvarint_from(s, p, 0, 0)
}

pub fn read_unsigned_varint(data: &[u8], pos: &mut usize) -> (r: Result<u32, Error>)
    requires
        *old(pos) <= data@.len(),
    ensures
        *final(pos) <= data@.len(),
        agrees(r, *final(pos), parse_uvarint(data@, *old(pos) as int)),
{
    let ghost begin = *pos as int;
    let mut i: u32 = 0;
    let mut acc: u32 = 0;
    let mut p: usize = *pos;
    loop
        invariant
            p <= data@.len(),
            *pos <= data@.len(),
            i < 5,
            begin == *old(pos),
            parse_uvarint(data@, begin) == parse_uvarint_from(data@, p as int, i as nat, acc),
        decreases 5 - i,
    {
        if p >= data.len() {
            return Err(Error::BufferUnderflow);
        }
        let b = data[p];
        if b < 128 {
            *pos = p + 1;
            return Ok(acc | ((b as u32) << (7 * i)));
        }
        if i == 4 {
            return Err(Error::IllegalArgument("Invalid VarInt, msb of 5th byte is set"));
        }
        acc = acc | (((b & 0x7fu8) as u32) << (7 * i));
        i = i + 1;
        p = p + 1;
    }
}

pub fn write_unsigned_varint(out: &mut Vec<u8>, v: u32)
    ensures
        final(out)@ == old(out)@ + enc_uvarint(v),
{
    let ghost start = out@;
    let mut w: u32 = v;
    while w >= 128
        invariant
            out@ + enc_uvarint(w) == start + enc_uvarint(v),
        decreases w,
    {
        let ghost before = out@;
        out.push(((w % 128) + 128) as u8);
        assert(before + enc_uvarint(w) == out@ + enc_uvarint(w / 128)) by {
            assert(before + enc_uvarint(w) =~= before + (seq![((w % 128) + 128) as u8]
                + enc_uvarint(w / 128)));
            assert(out@ =~= before + seq![((w % 128) + 128) as u8]);
        }
        w = w / 128;
    }
    let ghost before = out@;
    out.push(w as u8);
    assert(out@ =~= before + enc_uvarint(w));
}

proof fn lemma_uvarint_step(w: u32, sh: u32, acc: u32)
    by (bit_vector)
    requires
        sh <= 21,
        w >= 128,
        (w << sh) >> sh == w,
        acc >> sh == 0,
    ensures
        (acc | (((((w % 128) + 128) as u8 & 0x7fu8) as u32) << sh)) >> (sh + 7) == 0,
        ((w / 128) << (sh + 7)) >> (sh + 7) == w / 128,
        (acc | (((((w % 128) + 128) as u8 & 0x7fu8) as u32) << sh)) | ((w / 128) << (sh + 7))
            == acc | (w << sh),
{
}

proof fn lemma_uvarint_last(w: u32, sh: u32)
    by (bit_vector)
    requires
        sh == 28,
        w >= 128,
    ensures
        (w << sh) >> sh != w,
{
}

proof fn lemma_uvarint_from(w: u32, i: nat, acc: u32, s: Seq<u8>, p: int)
    requires
        i <= 4,
        holds(s, p, enc_uvarint(w)),
        (w << ((7 * i) as u32)) >> ((7 * i) as u32) == w,
        acc >> ((7 * i) as u32) == 0,
    ensures
        parse_uvarint_from(s, p, i, acc) == Ok::<(u32, int), Error>(
            (acc | (w << ((7 * i) as u32)), p + enc_uvarint(w).len()),
        ),
    decreases w,
{
    let sh = (7 * i) as u32;
    if w < 128 {
        assert(s[p] == s.subrange(p, p + 1)[0]);
        assert(((w as u8) as u32) == w) by (bit_vector)
            requires
                w < 128,
        ;
    } else {
        let b = ((w % 128) + 128) as u8;
        lemma_holds_split(s, p, seq![b], enc_uvarint(w / 128));
        assert(s[p] == s.subrange(p, p + 1)[0]);
        if i == 4 {
            lemma_uvarint_last(w, sh);
        }
        lemma_uvarint_step(w, sh, acc);
        let acc2 = acc | (((b & 0x7fu8) as u32) << sh);
        assert((7 * (i + 1)) as u32 == sh + 7);
        lemma_uvarint_from(w / 128, i + 1, acc2, s, p + 1);
    }
}

/// An unsigned varint reads back as the value written, whatever follows it.
pub proof fn lemma_uvarint_round_trip(v: u32, s: Seq<u8>, p: int)
    requires
        holds(s, p, enc_uvarint(v)),
    ensures
        parse_uvarint(s, p) == Ok::<(u32, int), Error>((v, p + enc_uvarint(v).len())),
{
    assert((v << 0u32) >> 0u32 == v && (0u32 >> 0u32) == 0 && (0u32 | (v << 0u32)) == v)
        by (bit_vector);
    lemma_uvarint_from(v, 0, 0, s, p);
}

// ---------------------------------------------------------------- UNSIGNED_VARLONG (u64)

/// The same scheme over 64 bits, at most ten bytes.
pub open spec fn enc_uvarlong(v: u64) -> Seq<u8>
    decreases v,
{
    if v < 128 {
        seq![v as u8]
    } else {
        seq![((v % 128) + 128) as u8] + enc_uvarlong(v / 128)
    }
}

/// Reads byte `i` of an unsigned varlong; a tenth byte with its high bit set is refused.
pub open spec fn parse_uvarlong_from(s: Seq<u8>, p: int, i: nat, acc: u64) -> Result<(u64, int), Error>
    decreases 10 - i,
{
    if i >= 10 {
        Err(Error::IllegalArgument("Invalid Varlong, msb of 10th byte is set"))
    } else if !need(s, p, 1) {
        Err(Error::BufferUnderflow)
    } else if s[p] < 128 {
        Ok((acc | ((s[p] as u64) << ((7 * i) as u64)), p + 1))
    } else if i == 9 {
        Err(Error::IllegalArgument("Invalid Varlong, msb of 10th byte is set"))
    } else {
        parse_uvarlong_from(s, p + 1, i + 1, acc | (((s[p] & 0x7fu8) as u64) << ((7 * i) as u64)))
    }
}

pub open spec fn parse_uvarlong(s: Seq<u8>, p: int) -> Result<(u64, int), Error> {
    parse_uvarlong_from(s, p, 0, 0)
}

pub fn read_unsigned_varlong(data: &[u8], pos: &mut usize) -> (r: Result<u64, Error>)
    requires
        *old(pos) <= data@.len(),
    ensures
        *final(pos) <= data@.len(),
        agrees(r, *final(pos), parse_uvarlong(data@, *old(pos) as int)),
{
    let ghost begin = *pos as int;
    let mut i: u64 = 0;
    let mut acc: u64 = 0;
    let mut p: usize = *pos;
    loop
        invariant
            p <= data@.len(),
            *pos <= data@.len(),
            i < 10,
            begin == *old(pos),
            parse_uvarlong(data@, begin) == parse_uvarlong_from(data@, p as int, i as nat, acc),
        decreases 10 - i,
    {
        if p >= data.len() {
            return Err(Error::BufferUnderflow);
        }
        let b = data[p];
        if b < 128 {
            *pos = p + 1;
            return Ok(acc | ((b as u64) << (7 * i)));
        }
        if i == 9 {
            return Err(Error::IllegalArgument("Invalid Varlong, msb of 10th byte is set"));
        }
        acc = acc | (((b & 0x7fu8) as u64) << (7 * i));
        i = i + 1;
        p = p + 1;
    }
}

pub fn write_unsigned_varlong(out: &mut Vec<u8>, v: u64)
    ensures
        final(out)@ == old(out)@ + enc_uvarlong(v),
{
    let ghost start = out@;
    let mut w: u64 = v;
    while w >= 128
        invariant
            out@ + enc_uvarlong(w) == start + enc_uvarlong(v),
        decreases w,
    {
        let ghost before = out@;
        out.push(((w % 128) + 128) as u8);
        assert(before + enc_uvarlong(w) == out@ + enc_uvarlong(w / 128)) by {
            assert(before + enc_uvarlong(w) =~= before + (seq![((w % 128) + 128) as u8]
                + enc_uvarlong(w / 128)));
            assert(out@ =~= before + seq![((w % 128) + 128) as u8]);
        }
        w = w / 128;
    }
    let ghost before = out@;
    out.push(w as u8);
    assert(out@ =~= before + enc_uvarlong(w));
}

proof fn lemma_uvarlong_step(w: u64, sh: u64, acc: u64)
    by (bit_vector)
    requires
        sh <= 56,
        w >= 128,
        (w << sh) >> sh == w,
        acc >> sh == 0,
    ensures
        (acc | (((((w % 128) + 128) as u8 & 0x7fu8) as u64) << sh)) >> (sh + 7) == 0,
        ((w / 128) << (sh + 7)) >> (sh + 7) == w / 128,
        (acc | (((((w % 128) + 128) as u8 & 0x7fu8) as u64) << sh)) | ((w / 128) << (sh + 7))
            == acc | (w << sh),
{
}

proof fn lemma_uvarlong_last(w: u64, sh: u64)
    by (bit_vector)
    requires
        sh == 63,
        w >= 128,
    ensures
        (w << sh) >> sh != w,
{
}

proof fn lemma_uvarlong_from(w: u64, i: nat, acc: u64, s: Seq<u8>, p: int)
    requires
        i <= 9,
        holds(s, p, enc_uvarlong(w)),
        (w << ((7 * i) as u64)) >> ((7 * i) as u64) == w,
        acc >> ((7 * i) as u64) == 0,
    ensures
        parse_uvarlong_from(s, p, i, acc) == Ok::<(u64, int), Error>(
            (acc | (w << ((7 * i) as u64)), p + enc_uvarlong(w).len()),
        ),
    decreases w,
{
    let sh = (7 * i) as u64;
    if w < 128 {
        assert(s[p] == s.subrange(p, p + 1)[0]);
        assert(((w as u8) as u64) == w) by (bit_vector)
            requires
                w < 128,
        ;
    } else {
        let b = ((w % 128) + 128) as u8;
        lemma_holds_split(s, p, seq![b], enc_uvarlong(w / 128));
        assert(s[p] == s.subrange(p, p + 1)[0]);
        if i == 9 {
            lemma_uvarlong_last(w, sh);
        }
        lemma_uvarlong_step(w, sh, acc);
        let acc2 = acc | (((b & 0x7fu8) as u64) << sh);
        assert((7 * (i + 1)) as u64 == sh + 7);
        lemma_uvarlong_from(w / 128, i + 1, acc2, s, p + 1);
    }
}

/// An unsigned varlong reads back as the value written, whatever follows it.
pub proof fn lemma_uvarlong_round_trip(v: u64, s: Seq<u8>, p: int)
    requires
        holds(s, p, enc_uvarlong(v)),
    ensures
        parse_uvarlong(s, p) == Ok::<(u64, int), Error>((v, p + enc_uvarlong(v).len())),
{
    assert((v << 0u64) >> 0u64 == v && (0u64 >> 0u64) == 0 && (0u64 | (v << 0u64)) == v)
        by (bit_vector);
    lemma_uvarlong_from(v, 0, 0, s, p);
}

// ---------------------------------------------------------------- ZigZag: VARINT and VARLONG

pub open spec fn zigzag32(n: i32) -> u32 {
    ((n << 1i32) ^ (n >> 31i32)) as u32
}

pub open spec fn unzigzag32(u: u32) -> i32 {
    if u & 1 == 0 {
        (u >> 1u32) as i32
    } else {
        !((u >> 1u32) as i32)
    }
}

pub open spec fn zigzag64(n: i64) -> u64 {
    ((n << 1i64) ^ (n >> 63i64)) as u64
}

pub open spec fn unzigzag64(u: u64) -> i64 {
    if u & 1 == 0 {
        (u >> 1u64) as i64
    } else {
        !((u >> 1u64) as i64)
    }
}

pub proof fn lemma_zigzag32(n: i32)
    ensures
        unzigzag32(zigzag32(n)) == n,
{
    assert((if ((n << 1i32) ^ (n >> 31i32)) as u32 & 1 == 0 {
        (((n << 1i32) ^ (n >> 31i32)) as u32 >> 1u32) as i32
    } else {
        !((((n << 1i32) ^ (n >> 31i32)) as u32 >> 1u32) as i32)
    }) == n) by (bit_vector);
}

pub proof fn lemma_zigzag64(n: i64)
    ensures
        unzigzag64(zigzag64(n)) == n,
{
    assert((if ((n << 1i64) ^ (n >> 63i64)) as u64 & 1 == 0 {
        (((n << 1i64) ^ (n >> 63i64)) as u64 >> 1u64) as i64
    } else {
        !((((n << 1i64) ^ (n >> 63i64)) as u64 >> 1u64) as i64)
    }) == n) by (bit_vector);
}

pub open spec fn enc_varint(n: i32) -> Seq<u8> {
    enc_uvarint(zigzag32(n))
}

pub open spec fn enc_varlong(n: i64) -> Seq<u8> {
    enc_uvarlong(zigzag64(n))
}

pub open spec fn parse_varint(s: Seq<u8>, p: int) -> Result<(i32, int), Error> {
    match parse_uvarint(s, p) {
        Ok((u, q)) => Ok((unzigzag32(u), q)),
        Err(e) => Err(e),
    }
}

pub open spec fn parse_varlong(s: Seq<u8>, p: int) -> Result<(i64, int), Error> {
    match parse_uvarlong(s, p) {
        Ok((u, q)) => Ok((unzigzag64(u), q)),
        Err(e) => Err(e),
    }
}

pub fn read_varint(data: &[u8], pos: &mut usize) -> (r: Result<i32, Error>)
    requires
        *old(pos) <= data@.len(),
    ensures
        *final(pos) <= data@.len(),
        agrees(r, *final(pos), parse_varint(data@, *old(pos) as int)),
{
    let u = read_unsigned_varint(data, pos)?;
    if u & 1 == 0 {
        Ok((u >> 1u32) as i32)
    } else {
        Ok(!((u >> 1u32) as i32))
    }
}

pub fn write_varint(out: &mut Vec<u8>, n: i32)
    ensures
        final(out)@ == old(out)@ + enc_varint(n),
{
    write_unsigned_varint(out, ((n << 1i32) ^ (n >> 31i32)) as u32);
}

pub fn read_varlong(data: &[u8], pos: &mut usize) -> (r: Result<i64, Error>)
    requires
        *old(pos) <= data@.len(),
    ensures
        *final(pos) <= data@.len(),
        agrees(r, *final(pos), parse_varlong(data@, *old(pos) as int)),
{
    let u = read_unsigned_varlong(data, pos)?;
    if u & 1 == 0 {
        Ok((u >> 1u64) as i64)
    } else {
        Ok(!((u >> 1u64) as i64))
    }
}

pub fn write_varlong(out: &mut Vec<u8>, n: i64)
    ensures
        final(out)@ == old(out)@ + enc_varlong(n),
{
    write_unsigned_varlong(out, ((n << 1i64) ^ (n >> 63i64)) as u64);
}

pub proof fn lemma_varint_round_trip(n: i32, s: Seq<u8>, p: int)
    requires
        holds(s, p, enc_varint(n)),
    ensures
        parse_varint(s, p) == Ok::<(i32, int), Error>((n, p + enc_varint(n).len())),
{
    lemma_uvarint_round_trip(zigzag32(n), s, p);
    lemma_zigzag32(n);
}

pub proof fn lemma_varlong_round_trip(n: i64, s: Seq<u8>, p: int)
    requires
        holds(s, p, enc_varlong(n)),
    ensures
        parse_varlong(s, p) == Ok::<(i64, int), Error>((n, p + enc_varlong(n).len())),
{
    lemma_uvarlong_round_trip(zigzag64(n), s, p);
    lemma_zigzag64(n);
}

/// A ZigZag-encoded 32-bit integer, written as an unsigned varint.
#[derive(Clone, Copy)]
pub struct VarInt(pub i32);

impl VarInt {
    pub fn value(&self) -> (r: i32)
        ensures
            r == self.0,
    {
        self.0
    }
}

/// A ZigZag-encoded 64-bit integer, written as an unsigned varlong.
#[derive(Clone, Copy)]
pub struct VarLong(pub i64);

impl VarLong {
    pub fn value(&self) -> (r: i64)
        ensures
            r == self.0,
    {
        self.0
    }
}

proof fn lemma_uvarint_len_k(v: u32, k: nat)
    requires
        1 <= k <= 5,
        k == 1 ==> v < 0x80,
        k == 2 ==> v < 0x4000,
        k == 3 ==> v < 0x20_0000,
        k == 4 ==> v < 0x1000_0000,
    ensures
        enc_uvarint(v).len() <= k,
    decreases v,
{
    if v >= 128 {
        lemma_uvarint_len_k(v / 128, (k - 1) as nat);
    }
}

/// An unsigned varint takes at most five bytes.
pub proof fn lemma_uvarint_len(v: u32)
    ensures
        1 <= enc_uvarint(v).len() <= 5,
{
    lemma_uvarint_len_k(v, 5);
}

} // verus!
