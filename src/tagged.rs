use vstd::prelude::*;

use crate::error::Error;
use crate::list::{
    enc_list, inverts, lemma_enc_list_push, lemma_list_round_trip, parse_list, parse_list_from,
    Encoder, Parser,
};
use crate::types::{lemma_raw_round_trip, parse_raw, read_raw, write_raw};
use crate::varint::{
    enc_uvarint, lemma_uvarint_round_trip, parse_uvarint, read_unsigned_varint,
    write_unsigned_varint,
};
use crate::wire::{agrees, holds, lemma_holds_split};
use vstd::multiset::Multiset;
use vstd::seq_lib::{to_multiset_insert, to_multiset_remove};

verus! {

/// One entry of a tagged-field set: a key and the raw bytes of its value.
#[derive(Clone)]
pub struct TaggedField {
    pub key: u32,
    pub data: Vec<u8>,
}

impl View for TaggedField {
    type V = (u32, Seq<u8>);

    open spec fn view(&self) -> (u32, Seq<u8>) {
        (self.key, self.data@)
    }
}

impl TaggedField {
    pub fn new(key: u32, data: Vec<u8>) -> (r: TaggedField)
        ensures
            r@ == (key, data@),
    {
        TaggedField { key, data }
    }

    pub fn key(&self) -> (r: u32)
        ensures
            r == self.key,
    {
        self.key
    }

    pub fn data(&self) -> (r: &Vec<u8>)
        ensures
            r@ == self.data@,
    {
        &self.data
    }
}

/// A tagged-field set, its keys in strictly ascending order when written.
pub struct TaggedFields(pub Vec<TaggedField>);

pub open spec fn tf_views(v: Seq<TaggedField>) -> Seq<(u32, Seq<u8>)> {
    v.map_values(|t: TaggedField| t@)
}

impl View for TaggedFields {
    type V = Seq<(u32, Seq<u8>)>;

    open spec fn view(&self) -> Seq<(u32, Seq<u8>)> {
        tf_views(self.0@)
    }
}

impl TaggedFields {
    pub fn new(value: Vec<TaggedField>) -> (r: TaggedFields)
        ensures
            r@ == tf_views(value@),
    {
        TaggedFields(value)
    }

    pub fn value(&self) -> (r: &[TaggedField])
        ensures
            tf_views(r@) == self@,
    {
        self.0.as_slice()
    }
}

pub open spec fn enc_tagged_field(t: (u32, Seq<u8>)) -> Seq<u8> {
    enc_uvarint(t.0) + enc_uvarint(t.1.len() as u32) + t.1
}

pub open spec fn parse_tagged_field(s: Seq<u8>, p: int) -> Result<((u32, Seq<u8>), int), Error> {
    match parse_uvarint(s, p) {
        Ok((k, q)) => match parse_uvarint(s, q) {
            Ok((n, q2)) => match parse_raw(s, q2, n as int) {
                Ok((b, q3)) => Ok(((k, b), q3)),
                Err(e) => Err(e),
            },
            Err(e) => Err(e),
        },
        Err(e) => Err(e),
    }
}

pub open spec fn tf_parser() -> Parser<(u32, Seq<u8>)> {
    |s: Seq<u8>, p: int| parse_tagged_field(s, p)
}

pub open spec fn tf_encoder() -> Encoder<(u32, Seq<u8>)> {
    |t: (u32, Seq<u8>)| enc_tagged_field(t)
}

pub open spec fn tf_wf() -> spec_fn((u32, Seq<u8>)) -> bool {
    |t: (u32, Seq<u8>)| t.1.len() <= 0xffff_ffff
}

/// Keys strictly ascending: the order in which a set is written, and no key twice.
pub open spec fn keys_ascending(ts: Seq<(u32, Seq<u8>)>) -> bool {
    forall|i: int, j: int| 0 <= i < j < ts.len() ==> ts[i].0 < ts[j].0
}

pub open spec fn tagged_fits(ts: Seq<(u32, Seq<u8>)>) -> bool {
    ts.len() <= 0xffff_ffff && forall|i: int| 0 <= i < ts.len() ==> tf_wf()(#[trigger] ts[i])
}

pub open spec fn enc_tagged_fields(ts: Seq<(u32, Seq<u8>)>) -> Seq<u8> {
    enc_uvarint(ts.len() as u32) + enc_list(tf_encoder(), ts)
}

/// An empty set is the single byte 0.
pub open spec fn enc_no_tagged_fields() -> Seq<u8> {
    enc_uvarint(0)
}

pub open spec fn parse_tagged_fields(s: Seq<u8>, p: int) -> Result<(Seq<(u32, Seq<u8>)>, int), Error> {
    match parse_uvarint(s, p) {
        Ok((n, q)) => parse_list(tf_parser(), s, q, n as nat),
        Err(e) => Err(e),
    }
}

pub proof fn lemma_tagged_field_round_trip(t: (u32, Seq<u8>), s: Seq<u8>, p: int)
    requires
        t.1.len() <= 0xffff_ffff,
        holds(s, p, enc_tagged_field(t)),
    ensures
        parse_tagged_field(s, p) == Ok::<((u32, Seq<u8>), int), Error>(
            (t, p + enc_tagged_field(t).len()),
        ),
{
    let a = enc_uvarint(t.0);
    let b = enc_uvarint(t.1.len() as u32);
    lemma_holds_split(s, p, a + b, t.1);
    lemma_holds_split(s, p, a, b);
    lemma_uvarint_round_trip(t.0, s, p);
    lemma_uvarint_round_trip(t.1.len() as u32, s, p + a.len());
    lemma_raw_round_trip(t.1, s, p + a.len() + b.len());
}

pub proof fn lemma_tf_inverts()
    ensures
        inverts(tf_parser(), tf_encoder(), tf_wf()),
{
    assert forall|x: (u32, Seq<u8>), s: Seq<u8>, p: int|
        tf_wf()(x) && #[trigger] holds(s, p, tf_encoder()(x)) implies #[trigger] tf_parser()(
        s,
        p,
    ) == Ok::<((u32, Seq<u8>), int), Error>((x, p + tf_encoder()(x).len())) by {
        lemma_tagged_field_round_trip(x, s, p);
    }
}

/// A tagged-field set reads back as written.
pub proof fn lemma_tagged_fields_round_trip(ts: Seq<(u32, Seq<u8>)>, s: Seq<u8>, p: int)
    requires
        tagged_fits(ts),
        holds(s, p, enc_tagged_fields(ts)),
    ensures
        parse_tagged_fields(s, p) == Ok::<(Seq<(u32, Seq<u8>)>, int), Error>(
            (ts, p + enc_tagged_fields(ts).len()),
        ),
{
    let h = enc_uvarint(ts.len() as u32);
    lemma_holds_split(s, p, h, enc_list(tf_encoder(), ts));
    lemma_uvarint_round_trip(ts.len() as u32, s, p);
    lemma_tf_inverts();
    lemma_list_round_trip(tf_parser(), tf_encoder(), tf_wf(), ts, Seq::empty(), s, p + h.len());
    assert(Seq::<(u32, Seq<u8>)>::empty() + ts =~= ts);
}

pub proof fn lemma_no_tagged_fields_round_trip(s: Seq<u8>, p: int)
    requires
        holds(s, p, enc_no_tagged_fields()),
    ensures
        parse_tagged_fields(s, p) == Ok::<(Seq<(u32, Seq<u8>)>, int), Error>(
            (Seq::empty(), p + 1),
        ),
{
    lemma_uvarint_round_trip(0, s, p);
}

pub fn read_tagged_fields(data: &[u8], pos: &mut usize) -> (r: Result<TaggedFields, Error>)
    requires
        *old(pos) <= data@.len(),
    ensures
        *final(pos) <= data@.len(),
        agrees(r, *final(pos), parse_tagged_fields(data@, *old(pos) as int)),
{
    let n = read_unsigned_varint(data, pos)?;
    let ghost begin = *pos as int;
    let mut v: Vec<TaggedField> = Vec::new();
    assert(tf_views(v@) =~= Seq::<(u32, Seq<u8>)>::empty());
    let mut i: u32 = 0;
    while i < n
        invariant
            i <= n,
            parse_tagged_fields(data@, *old(pos) as int) == parse_list(tf_parser(), data@, begin, n as nat),
            *pos <= data@.len(),
            parse_list(tf_parser(), data@, begin, n as nat) == parse_list_from(
                tf_parser(),
                data@,
                *pos as int,
                (n - i) as nat,
                tf_views(v@),
            ),
        decreases n - i,
    {
        let key = read_unsigned_varint(data, pos)?;
        let size = read_unsigned_varint(data, pos)?;
        let bytes = read_raw(data, pos, size as usize)?;
        let t = TaggedField { key, data: bytes };
        let ghost before = v@;
        v.push(t);
        assert(tf_views(v@) =~= tf_views(before).push(t@));
        i = i + 1;
    }
    Ok(TaggedFields(v))
}

pub fn write_tagged_fields(out: &mut Vec<u8>, ts: &[TaggedField])
    requires
        tagged_fits(tf_views(ts@)),
        keys_ascending(tf_views(ts@)),
    ensures
        final(out)@ == old(out)@ + enc_tagged_fields(tf_views(ts@)),
{
    write_unsigned_varint(out, ts.len() as u32);
    let ghost mid = out@;
    let mut i: usize = 0;
    while i < ts.len()
        invariant
            i <= ts@.len(),
            tagged_fits(tf_views(ts@)),
            out@ == mid + enc_list(tf_encoder(), tf_views(ts@).subrange(0, i as int)),
        decreases ts@.len() - i,
    {
        let t = &ts[i];
        assert(tf_views(ts@)[i as int] == t@);
        assert(tf_wf()(tf_views(ts@)[i as int]));
        write_unsigned_varint(out, t.key);
        write_unsigned_varint(out, t.data.len() as u32);
        write_raw(out, t.data.as_slice());
        proof {
            let pre = tf_views(ts@).subrange(0, i as int);
            lemma_enc_list_push(tf_encoder(), pre, t@);
            assert(pre.push(t@) =~= tf_views(ts@).subrange(0, i + 1));
        }
        i = i + 1;
    }
    assert(tf_views(ts@).subrange(0, ts@.len() as int) =~= tf_views(ts@));
    assert(final(out)@ =~= old(out)@ + enc_tagged_fields(tf_views(ts@)));
}

pub fn write_no_tagged_fields(out: &mut Vec<u8>)
    ensures
        final(out)@ == old(out)@ + enc_no_tagged_fields(),
{
    write_unsigned_varint(out, 0);
}

/// The tagged fields applied one by one, in order, to `init`; the first failure stops it.
pub open spec fn fold_tags<A>(
    ts: Seq<(u32, Seq<u8>)>,
    init: A,
    step: spec_fn(A, (u32, Seq<u8>)) -> Result<A, Error>,
) -> Result<A, Error>
    decreases ts.len(),
{
    if ts.len() == 0 {
        Ok(init)
    } else {
        match fold_tags(ts.drop_last(), init, step) {
            Ok(a) => step(a, ts.last()),
            Err(e) => Err(e),
        }
    }
}

pub proof fn lemma_fold_tags_step<A>(
    ts: Seq<(u32, Seq<u8>)>,
    init: A,
    step: spec_fn(A, (u32, Seq<u8>)) -> Result<A, Error>,
    k: int,
    a: A,
)
    requires
        0 <= k < ts.len(),
        fold_tags(ts.subrange(0, k), init, step) == Ok::<A, Error>(a),
    ensures
        fold_tags(ts.subrange(0, k + 1), init, step) == step(a, ts[k]),
{
    assert(ts.subrange(0, k + 1).drop_last() =~= ts.subrange(0, k));
}

pub proof fn lemma_fold_tags_err<A>(
    ts: Seq<(u32, Seq<u8>)>,
    init: A,
    step: spec_fn(A, (u32, Seq<u8>)) -> Result<A, Error>,
    k: int,
)
    requires
        0 <= k <= ts.len(),
        fold_tags(ts.subrange(0, k), init, step) is Err,
    ensures
        fold_tags(ts, init, step) == fold_tags(ts.subrange(0, k), init, step),
    decreases ts.len() - k,
{
    if k == ts.len() {
        assert(ts.subrange(0, k) =~= ts);
    } else {
        assert(ts.subrange(0, k + 1).drop_last() =~= ts.subrange(0, k));
        lemma_fold_tags_err(ts, init, step, k + 1);
    }
}

pub proof fn lemma_fold_tags_done<A>(
    ts: Seq<(u32, Seq<u8>)>,
    init: A,
    step: spec_fn(A, (u32, Seq<u8>)) -> Result<A, Error>,
)
    ensures
        fold_tags(ts.subrange(0, ts.len() as int), init, step) == fold_tags(ts, init, step),
        fold_tags(ts.subrange(0, 0), init, step) == Ok::<A, Error>(init),
{
    assert(ts.subrange(0, ts.len() as int) =~= ts);
    assert(ts.subrange(0, 0) =~= Seq::<(u32, Seq<u8>)>::empty());
}

/// No key occurs twice.
pub open spec fn keys_unique(ts: Seq<(u32, Seq<u8>)>) -> bool {
    forall|i: int, j: int| 0 <= i < ts.len() && 0 <= j < ts.len() && i != j ==> ts[i].0 != ts[j].0
}

/// The same fields ordered by ascending key.
pub fn sort_by_key(fields: Vec<TaggedField>) -> (r: Vec<TaggedField>)
    requires
        keys_unique(tf_views(fields@)),
    ensures
        tf_views(r@).to_multiset() == tf_views(fields@).to_multiset(),
        keys_ascending(tf_views(r@)),
{
    broadcast use vstd::multiset::group_multiset_axioms;
    broadcast use vstd::seq_lib::group_to_multiset_ensures;

    let ghost all = tf_views(fields@).to_multiset();
    let mut rest = fields;
    let mut out: Vec<TaggedField> = Vec::new();
    assert(tf_views(out@) =~= Seq::<(u32, Seq<u8>)>::empty());
    assert(tf_views(out@).to_multiset() =~= Multiset::<(u32, Seq<u8>)>::empty());
    while rest.len() > 0
        invariant
            tf_views(out@).to_multiset().add(tf_views(rest@).to_multiset()) == all,
            keys_ascending(tf_views(out@)),
            keys_unique(tf_views(rest@)),
            forall|a: int, b: int|
                0 <= a < out@.len() && 0 <= b < rest@.len() ==> out@[a].key != rest@[b].key,
        decreases rest@.len(),
    {
        let ghost rv = tf_views(rest@);
        let ghost rest_before = rest@;
        let t = rest.remove(0);
        proof {
            assert(tf_views(rest@) =~= rv.remove(0));
            to_multiset_remove(rv, 0);
            assert forall|b: int| 0 <= b < rest@.len() implies rest@[b].key != t.key by {
                assert(rest@[b] == rest_before[b + 1]);
                assert(rv[b + 1].0 != rv[0].0);
            }
        }
        let mut j: usize = 0;
        while j < out.len() && out[j].key < t.key
            invariant
                j <= out@.len(),
                forall|k: int| 0 <= k < j ==> out@[k].key < t.key,
            decreases out@.len() - j,
        {
            j = j + 1;
        }
        let ghost ov = tf_views(out@);
        let ghost out_before = out@;
        let ghost tv = t@;
        proof {
            assert(j < ov.len() ==> ov[j as int].0 != tv.0) by {
                if j < ov.len() {
                    assert(out_before[j as int].key != rest_before[0].key);
                }
            }
        }
        out.insert(j, t);
        proof {
            assert(tf_views(out@) =~= ov.insert(j as int, tv));
            to_multiset_insert(ov, j as int, tv);
            assert(rv[0] == tv);
            assert(rv.contains(tv));
            vstd::seq_lib::to_multiset_contains(rv, tv);
            assert(rv.to_multiset().count(tv) > 0);
            assert(tf_views(out@).to_multiset().add(tf_views(rest@).to_multiset()) =~= all);
            let nv = tf_views(out@);
            assert forall|a: int, b: int| 0 <= a < b < nv.len() implies nv[a].0 < nv[b].0 by {
                if b < j {
                } else if b == j {
                    assert(nv[a] == ov[a]);
                } else if a < j {
                    assert(nv[b] == ov[b - 1]);
                    if j < ov.len() {
                        assert(ov[j as int].0 > tv.0);
                    }
                } else if a == j {
                    assert(nv[b] == ov[b - 1]);
                    assert(ov[j as int].0 > tv.0);
                } else {
                    assert(nv[a] == ov[a - 1] && nv[b] == ov[b - 1]);
                }
            }
            assert forall|a: int, b: int|
                0 <= a < out@.len() && 0 <= b < rest@.len() implies out@[a].key != rest@[b].key by {
                assert(rest@[b] == rest_before[b + 1]);
                if a < j {
                    assert(out@[a] == out_before[a]);
                } else if a > j {
                    assert(out@[a] == out_before[a - 1]);
                }
            }
            assert forall|a: int, b: int|
                0 <= a < tf_views(rest@).len() && 0 <= b < tf_views(rest@).len() && a != b implies tf_views(rest@)[a].0 != tf_views(rest@)[b].0 by {
                assert(tf_views(rest@)[a] == rv[a + 1] && tf_views(rest@)[b] == rv[b + 1]);
            }
        }
    }
    assert(tf_views(rest@) =~= Seq::<(u32, Seq<u8>)>::empty());
    assert(tf_views(rest@).to_multiset() =~= Multiset::<(u32, Seq<u8>)>::empty());
    out
}

/// Writes a tagged-field set with unique keys, ordering it by ascending key first.
pub fn write_tagged_fields_sorted(out: &mut Vec<u8>, fields: Vec<TaggedField>)
    requires
        keys_unique(tf_views(fields@)),
        tagged_fits(tf_views(fields@)),
    ensures
        exists|ts: Seq<(u32, Seq<u8>)>|
            ts.to_multiset() == tf_views(fields@).to_multiset() && keys_ascending(ts)
                && final(out)@ == old(out)@ + enc_tagged_fields(ts),
{
    broadcast use vstd::multiset::group_multiset_axioms;
    broadcast use vstd::seq_lib::group_to_multiset_ensures;

    let ghost fv = tf_views(fields@);
    let sorted = sort_by_key(fields);
    let ghost sv = tf_views(sorted@);
    proof {
        assert(sv.len() == fv.len()) by {
            vstd::seq_lib::to_multiset_len(sv);
            vstd::seq_lib::to_multiset_len(fv);
        }
        assert forall|i: int| 0 <= i < sv.len() implies tf_wf()(#[trigger] sv[i]) by {
            assert(sv.to_multiset().count(sv[i]) > 0);
            assert(fv.contains(sv[i]));
        }
    }
    write_tagged_fields(out, sorted.as_slice());
}

} // verus!
