use vstd::prelude::*;

use crate::arrays::{
    write_i32_list,
    enc_array, enc_compact_array, i32_encoder, i32_parser, opt_seq, opt_slice_seq, parse_array,
    parse_compact_array, read_compact_i32_array, read_i32_array, write_compact_i32_array,
    write_i32_array,
};
use crate::error::Error;
use crate::list::{enc_list, inverts, lemma_enc_list_push, parse_list, parse_list_from, Encoder, Parser};
use crate::tagged::{
    enc_no_tagged_fields, enc_tagged_fields, fold_tags, keys_ascending, lemma_fold_tags_done,
    lemma_fold_tags_err, lemma_fold_tags_step, parse_tagged_fields, read_tagged_fields,
    tagged_fits, tf_views, write_no_tagged_fields, write_tagged_fields, TaggedField,
};
use crate::types::{
    enc_compact_nullable_string, enc_compact_string, enc_nullable_string, enc_uuid, opt_bytes,
    parse_compact_nullable_string, parse_compact_string, parse_nullable_string, parse_string,
    parse_uuid, read_compact_nullable_string, read_compact_string, read_nullable_string,
    read_string, read_uuid, write_compact_nullable_string, write_nullable_string, write_uuid, Uuid,
};
use crate::varint::{enc_uvarint, parse_uvarint, read_unsigned_varint, write_unsigned_varint};
use crate::wire::{
    holds, lemma_holds_split,
    agrees, enc_i32, enc_i64, enc_i8, parse_i32, parse_i64, parse_i8, read_i32, read_i64,
    read_i8, write_i32, write_i64, write_i8,
};

verus! {

// ---------------------------------------------------------------- topic identifiers

/// A topic named by its name (up to v12) or by its id (v13 on).
#[derive(Clone)]
pub enum TopicRef {
    Name(Vec<u8>),
    Id(Uuid),
}

pub enum TopicRefView {
    Name(Seq<u8>),
    Id(Uuid),
}

impl View for TopicRef {
    type V = TopicRefView;

    open spec fn view(&self) -> TopicRefView {
        match self {
            TopicRef::Name(n) => TopicRefView::Name(n@),
            TopicRef::Id(u) => TopicRefView::Id(*u),
        }
    }
}

/// `STRING` name up to v11, `COMPACT_STRING` at v12, `UUID` from v13 on.
pub open spec fn parse_topic_ref(s: Seq<u8>, p: int, version: i16) -> Result<(TopicRefView, int), Error> {
    if version <= 12 {
        let r = if version <= 11 {
            parse_string(s, p, "non-nullable field topic was serialized as null")
        } else {
            parse_compact_string(s, p, "non-nullable field topic was serialized as null")
        };
        match r {
            Ok((n, q)) => Ok((TopicRefView::Name(n), q)),
            Err(e) => Err(e),
        }
    } else {
        match parse_uuid(s, p) {
            Ok((u, q)) => Ok((TopicRefView::Id(u), q)),
            Err(e) => Err(e),
        }
    }
}

pub open spec fn enc_topic_ref(t: TopicRefView, version: i16) -> Seq<u8> {
    match t {
        TopicRefView::Name(n) => if version <= 11 {
            enc_nullable_string(Some(n))
        } else {
            enc_compact_string(n)
        },
        TopicRefView::Id(u) => enc_uuid(u),
    }
}

pub open spec fn topic_ref_fits(t: TopicRefView) -> bool {
    t is Name ==> t->Name_0.len() <= 0x7fff
}

pub fn read_topic_ref(data: &[u8], pos: &mut usize, version: i16) -> (r: Result<TopicRef, Error>)
    requires
        *old(pos) <= data@.len(),
    ensures
        *final(pos) <= data@.len(),
        agrees(r, *final(pos), parse_topic_ref(data@, *old(pos) as int, version)),
{
    if version <= 12 {
        let n = if version <= 11 {
            read_string(data, pos, "non-nullable field topic was serialized as null")?
        } else {
            read_compact_string(data, pos, "non-nullable field topic was serialized as null")?
        };
        Ok(TopicRef::Name(n))
    } else {
        Ok(TopicRef::Id(read_uuid(data, pos)?))
    }
}

pub fn write_topic_ref(out: &mut Vec<u8>, t: &TopicRef, version: i16)
    requires
        topic_ref_fits(t@),
    ensures
        final(out)@ == old(out)@ + enc_topic_ref(t@, version),
{
    match t {
        TopicRef::Name(n) => {
            if version <= 11 {
                write_nullable_string(out, Some(n.as_slice()));
            } else {
                write_compact_nullable_string(out, Some(n.as_slice()));
            }
        },
        TopicRef::Id(u) => write_uuid(out, *u),
    }
}

/// An array at `version`: `ARRAY` up to v11, `COMPACT_ARRAY` from v12 on.
pub open spec fn parse_varray<T>(f: Parser<T>, s: Seq<u8>, p: int, version: i16) -> Result<
    (Option<Seq<T>>, int),
    Error,
> {
    if version <= 11 {
        parse_array(f, s, p)
    } else {
        parse_compact_array(f, s, p)
    }
}

pub open spec fn enc_varray<T>(g: Encoder<T>, o: Option<Seq<T>>, version: i16) -> Seq<u8> {
    if version <= 11 {
        enc_array(g, o)
    } else {
        enc_compact_array(g, o)
    }
}

/// The count of an array at `version`, `None` for null.
pub open spec fn parse_varray_count(s: Seq<u8>, p: int, version: i16) -> Result<(Option<nat>, int), Error> {
    if version <= 11 {
        match parse_i32(s, p) {
            Ok((n, q)) => if n < 0 {
                Ok((None, q))
            } else {
                Ok((Some(n as nat), q))
            },
            Err(e) => Err(e),
        }
    } else {
        match parse_uvarint(s, p) {
            Ok((n, q)) => if n == 0 {
                Ok((None, q))
            } else {
                Ok((Some((n - 1) as nat), q))
            },
            Err(e) => Err(e),
        }
    }
}

pub proof fn lemma_varray_count<T>(f: Parser<T>, s: Seq<u8>, p: int, version: i16)
    ensures
        parse_varray(f, s, p, version) == match parse_varray_count(s, p, version) {
            Ok((None, q)) => Ok((None, q)),
            Ok((Some(n), q)) => match parse_list(f, s, q, n) {
                Ok((xs, q2)) => Ok((Some(xs), q2)),
                Err(e) => Err(e),
            },
            Err(e) => Err::<(Option<Seq<T>>, int), Error>(e),
        },
{
}

pub fn read_varray_count(data: &[u8], pos: &mut usize, version: i16) -> (r: Result<Option<usize>, Error>)
    requires
        *old(pos) <= data@.len(),
    ensures
        *final(pos) <= data@.len(),
        match parse_varray_count(data@, *old(pos) as int, version) {
            Ok((o, q)) => r is Ok && *final(pos) == q && match o {
                Some(n) => r->Ok_0 == Some(n as usize) && n <= usize::MAX,
                None => r->Ok_0 is None,
            },
            Err(e) => r == Err::<Option<usize>, Error>(e),
        },
{
    if version <= 11 {
        let n = read_i32(data, pos)?;
        if n < 0 {
            Ok(None)
        } else {
            Ok(Some(n as usize))
        }
    } else {
        let n = read_unsigned_varint(data, pos)?;
        if n == 0 {
            Ok(None)
        } else {
            Ok(Some((n - 1) as usize))
        }
    }
}

pub fn write_varray_count(out: &mut Vec<u8>, n: usize, version: i16)
    requires
        n < 0x7fff_ffff,
    ensures
        final(out)@ == old(out)@ + if version <= 11 {
            enc_i32(n as i32)
        } else {
            enc_uvarint((n + 1) as u32)
        },
{
    if version <= 11 {
        write_i32(out, n as i32);
    } else {
        write_unsigned_varint(out, (n + 1) as u32);
    }
}

// ---------------------------------------------------------------- replica state

/// The fetching replica's id and epoch (v15 to v17).
#[derive(Clone, Copy, PartialEq, Eq, Structural)]
pub struct ReplicaState {
    pub replica_id: i32,
    pub replica_epoch: i64,
}

impl ReplicaState {
    pub fn new(replica_id: i32, replica_epoch: i64) -> (r: ReplicaState)
        ensures
            r == (ReplicaState { replica_id, replica_epoch }),
    {
        ReplicaState { replica_id, replica_epoch }
    }

    pub fn v15(replica_id: i32, replica_epoch: i64) -> (r: ReplicaState)
        ensures
            r == (ReplicaState { replica_id, replica_epoch }),
    {
        ReplicaState { replica_id, replica_epoch }
    }

    pub fn v16(replica_id: i32, replica_epoch: i64) -> (r: ReplicaState)
        ensures
            r == (ReplicaState { replica_id, replica_epoch }),
    {
        ReplicaState { replica_id, replica_epoch }
    }

    pub fn v17(replica_id: i32, replica_epoch: i64) -> (r: ReplicaState)
        ensures
            r == (ReplicaState { replica_id, replica_epoch }),
    {
        ReplicaState { replica_id, replica_epoch }
    }

    pub fn replica_id(&self) -> (r: i32)
        ensures
            r == self.replica_id,
    {
        self.replica_id
    }

    pub fn replica_epoch(&self) -> (r: i64)
        ensures
            r == self.replica_epoch,
    {
        self.replica_epoch
    }
}

pub open spec fn enc_replica_state(r: ReplicaState) -> Seq<u8> {
    enc_i32(r.replica_id) + enc_i64(r.replica_epoch) + enc_no_tagged_fields()
}

pub open spec fn parse_replica_state(s: Seq<u8>, p: int) -> Result<(ReplicaState, int), Error> {
    match parse_i32(s, p) {
        Ok((id, q1)) => match parse_i64(s, q1) {
            Ok((epoch, q2)) => match parse_tagged_fields(s, q2) {
                Ok((_, q3)) => Ok((ReplicaState { replica_id: id, replica_epoch: epoch }, q3)),
                Err(e) => Err(e),
            },
            Err(e) => Err(e),
        },
        Err(e) => Err(e),
    }
}

fn read_replica_state(data: &[u8], pos: &mut usize) -> (r: Result<ReplicaState, Error>)
    requires
        *old(pos) <= data@.len(),
    ensures
        *final(pos) <= data@.len(),
        match parse_replica_state(data@, *old(pos) as int) {
            Ok((v, q)) => r == Ok::<ReplicaState, Error>(v) && *final(pos) == q,
            Err(e) => r == Err::<ReplicaState, Error>(e),
        },
{
    let replica_id = read_i32(data, pos)?;
    let replica_epoch = read_i64(data, pos)?;
    let _ = read_tagged_fields(data, pos)?;
    Ok(ReplicaState { replica_id, replica_epoch })
}

fn write_replica_state(out: &mut Vec<u8>, r: ReplicaState)
    ensures
        final(out)@ == old(out)@ + enc_replica_state(r),
{
    write_i32(out, r.replica_id);
    write_i64(out, r.replica_epoch);
    write_no_tagged_fields(out);
    assert(final(out)@ =~= old(out)@ + enc_replica_state(r));
}

// ---------------------------------------------------------------- partitions

/// One partition to fetch from; fields that a version lacks hold their defaults.
#[derive(Clone)]
pub struct FetchPartition {
    pub version: i16,
    pub partition: i32,
    pub current_leader_epoch: i32,
    pub fetch_offset: i64,
    pub last_fetched_epoch: i32,
    pub log_start_offset: i64,
    pub partition_max_bytes: i32,
    pub replica_directory_id: Uuid,
}

impl View for FetchPartition {
    type V = FetchPartition;

    open spec fn view(&self) -> FetchPartition {
        *self
    }
}

impl Copy for FetchPartition {

}

impl FetchPartition {
    pub fn partition(&self) -> (r: i32)
        ensures
            r == self.partition,
    {
        self.partition
    }

    pub fn current_leader_epoch(&self) -> (r: i32)
        ensures
            r == self.current_leader_epoch,
    {
        self.current_leader_epoch
    }

    pub fn fetch_offset(&self) -> (r: i64)
        ensures
            r == self.fetch_offset,
    {
        self.fetch_offset
    }

    pub fn last_fetched_epoch(&self) -> (r: i32)
        ensures
            r == self.last_fetched_epoch,
    {
        self.last_fetched_epoch
    }

    pub fn log_start_offset(&self) -> (r: i64)
        ensures
            r == self.log_start_offset,
    {
        self.log_start_offset
    }

    pub fn partition_max_bytes(&self) -> (r: i32)
        ensures
            r == self.partition_max_bytes,
    {
        self.partition_max_bytes
    }

    pub fn replica_directory_id(&self) -> (r: Uuid)
        ensures
            r == self.replica_directory_id,
    {
        self.replica_directory_id
    }
}

/// Key 0 of a partition's tagged fields is the replica directory id, from v17 on.
pub open spec fn fetch_partition_step(version: i16) -> spec_fn(Uuid, (u32, Seq<u8>)) -> Result<
    Uuid,
    Error,
> {
    |acc: Uuid, t: (u32, Seq<u8>)|
        if t.0 == 0 && version >= 17 {
            match parse_uuid(t.1, 0) {
                Ok((u, _)) => Ok(u),
                Err(e) => Err(e),
            }
        } else {
            Ok(acc)
        }
}

pub open spec fn parse_fetch_partition(s: Seq<u8>, p: int, version: i16) -> Result<
    (FetchPartition, int),
    Error,
> {
    match parse_i32(s, p) {
        Ok((partition, q1)) => {
            let r2 = if version >= 9 { parse_i32(s, q1) } else { Ok((-1i32, q1)) };
            match r2 {
                Ok((current_leader_epoch, q2)) => match parse_i64(s, q2) {
                    Ok((fetch_offset, q3)) => {
                        let r4 = if version >= 12 { parse_i32(s, q3) } else { Ok((-1i32, q3)) };
                        match r4 {
                            Ok((last_fetched_epoch, q4)) => {
                                let r5 = if version >= 5 { parse_i64(s, q4) } else { Ok((-1i64, q4)) };
                                match r5 {
                                    Ok((log_start_offset, q5)) => match parse_i32(s, q5) {
                                        Ok((partition_max_bytes, q6)) => {
                                            let fp = FetchPartition {
                                                version,
                                                partition,
                                                current_leader_epoch,
                                                fetch_offset,
                                                last_fetched_epoch,
                                                log_start_offset,
                                                partition_max_bytes,
                                                replica_directory_id: Uuid { value: 0 },
                                            };
                                            if version >= 12 {
                                                match parse_tagged_fields(s, q6) {
                                                    Ok((ts, q7)) => match fold_tags(ts, Uuid { value: 0 }, fetch_partition_step(version)) {
                                                        Ok(dir) => Ok((FetchPartition { replica_directory_id: dir, ..fp }, q7)),
                                                        Err(e) => Err(e),
                                                    },
                                                    Err(e) => Err(e),
                                                }
                                            } else {
                                                Ok((fp, q6))
                                            }
                                        },
                                        Err(e) => Err(e),
                                    },
                                    Err(e) => Err(e),
                                }
                            },
                            Err(e) => Err(e),
                        }
                    },
                    Err(e) => Err(e),
                },
                Err(e) => Err(e),
            }
        },
        Err(e) => Err(e),
    }
}

pub open spec fn fetch_partition_parser(version: i16) -> Parser<FetchPartition> {
    |s: Seq<u8>, p: int| parse_fetch_partition(s, p, version)
}

fn read_tags_fetch_partition(ts: &[TaggedField], version: i16) -> (r: Result<Uuid, Error>)
    ensures
        match fold_tags(tf_views(ts@), Uuid { value: 0 }, fetch_partition_step(version)) {
            Ok(u) => r == Ok::<Uuid, Error>(u),
            Err(e) => r == Err::<Uuid, Error>(e),
        },
{
    let ghost vs = tf_views(ts@);
    let ghost step = fetch_partition_step(version);
    proof {
        lemma_fold_tags_done(vs, Uuid { value: 0 }, step);
    }
    let mut acc = Uuid::nil();
    let mut i: usize = 0;
    while i < ts.len()
        invariant
            i <= ts@.len(),
            vs == tf_views(ts@),
            step == fetch_partition_step(version),
            fold_tags(vs.subrange(0, i as int), Uuid { value: 0 }, step) == Ok::<Uuid, Error>(acc),
        decreases ts@.len() - i,
    {
        let t = &ts[i];
        assert(vs[i as int] == t@);
        proof {
            lemma_fold_tags_step(vs, Uuid { value: 0 }, step, i as int, acc);
            if fold_tags(vs.subrange(0, i + 1), Uuid { value: 0 }, step) is Err {
                lemma_fold_tags_err(vs, Uuid { value: 0 }, step, i + 1);
            }
        }
        if t.key == 0 && version >= 17 {
            let mut p: usize = 0;
            acc = read_uuid(t.data.as_slice(), &mut p)?;
        }
        i = i + 1;
    }
    Ok(acc)
}

pub fn read_fetch_partition(data: &[u8], pos: &mut usize, version: i16) -> (r: Result<FetchPartition, Error>)
    requires
        *old(pos) <= data@.len(),
    ensures
        *final(pos) <= data@.len(),
        agrees(r, *final(pos), parse_fetch_partition(data@, *old(pos) as int, version)),
{
    let partition = read_i32(data, pos)?;
    let current_leader_epoch = if version >= 9 { read_i32(data, pos)? } else { -1 };
    let fetch_offset = read_i64(data, pos)?;
    let last_fetched_epoch = if version >= 12 { read_i32(data, pos)? } else { -1 };
    let log_start_offset = if version >= 5 { read_i64(data, pos)? } else { -1 };
    let partition_max_bytes = read_i32(data, pos)?;
    let replica_directory_id = if version >= 12 {
        let ts = read_tagged_fields(data, pos)?;
        read_tags_fetch_partition(ts.0.as_slice(), version)?
    } else {
        Uuid::nil()
    };
    Ok(
        FetchPartition {
            version,
            partition,
            current_leader_epoch,
            fetch_offset,
            last_fetched_epoch,
            log_start_offset,
            partition_max_bytes,
            replica_directory_id,
        },
    )
}

pub open spec fn enc_fetch_partition(f: FetchPartition, version: i16) -> Seq<u8> {
    enc_i32(f.partition) + (if version >= 9 { enc_i32(f.current_leader_epoch) } else { Seq::empty() })
        + enc_i64(f.fetch_offset) + (if version >= 12 { enc_i32(f.last_fetched_epoch) } else { Seq::empty() })
        + (if version >= 5 { enc_i64(f.log_start_offset) } else { Seq::empty() }) + enc_i32(
        f.partition_max_bytes,
    ) + if version >= 17 {
        enc_tagged_fields(seq![(0u32, enc_uuid(f.replica_directory_id))])
    } else if version >= 12 {
        enc_no_tagged_fields()
    } else {
        Seq::empty()
    }
}

pub fn write_fetch_partition(out: &mut Vec<u8>, f: &FetchPartition, version: i16)
    ensures
        final(out)@ == old(out)@ + enc_fetch_partition(*f, version),
{
    write_i32(out, f.partition);
    if version >= 9 {
        write_i32(out, f.current_leader_epoch);
    }
    write_i64(out, f.fetch_offset);
    if version >= 12 {
        write_i32(out, f.last_fetched_epoch);
    }
    if version >= 5 {
        write_i64(out, f.log_start_offset);
    }
    write_i32(out, f.partition_max_bytes);
    let ghost mid = out@;
    if version >= 17 {
        let mut d: Vec<u8> = Vec::new();
        write_uuid(&mut d, f.replica_directory_id);
        let mut ts: Vec<TaggedField> = Vec::new();
        ts.push(TaggedField { key: 0, data: d });
        assert(tf_views(ts@) =~= seq![(0u32, enc_uuid(f.replica_directory_id))]);
        write_tagged_fields(out, ts.as_slice());
    } else if version >= 12 {
        write_no_tagged_fields(out);
    }
    assert(final(out)@ =~= old(out)@ + enc_fetch_partition(*f, version));
}

fn read_fetch_partitions(data: &[u8], pos: &mut usize, n: usize, version: i16) -> (r: Result<
    Vec<FetchPartition>,
    Error,
>)
    requires
        *old(pos) <= data@.len(),
    ensures
        *final(pos) <= data@.len(),
        match parse_list(fetch_partition_parser(version), data@, *old(pos) as int, n as nat) {
            Ok((xs, q)) => r is Ok && r->Ok_0@ == xs && *final(pos) == q,
            Err(e) => r == Err::<Vec<FetchPartition>, Error>(e),
        },
{
    let ghost begin = *pos as int;
    let mut v: Vec<FetchPartition> = Vec::new();
    let mut i: usize = 0;
    while i < n
        invariant
            i <= n,
            begin == *old(pos),
            *pos <= data@.len(),
            parse_list(fetch_partition_parser(version), data@, begin, n as nat) == parse_list_from(
                fetch_partition_parser(version),
                data@,
                *pos as int,
                (n - i) as nat,
                v@,
            ),
        decreases n - i,
    {
        let x = read_fetch_partition(data, pos, version)?;
        v.push(x);
        i = i + 1;
    }
    Ok(v)
}

// ---------------------------------------------------------------- topics

/// One topic to fetch from.
#[derive(Clone)]
pub struct FetchTopic {
    pub version: i16,
    pub topic: TopicRef,
    pub partitions: Vec<FetchPartition>,
}

pub struct FetchTopicView {
    pub version: i16,
    pub topic: TopicRefView,
    pub partitions: Seq<FetchPartition>,
}

impl View for FetchTopic {
    type V = FetchTopicView;

    open spec fn view(&self) -> FetchTopicView {
        FetchTopicView { version: self.version, topic: self.topic@, partitions: self.partitions@ }
    }
}

impl FetchTopic {
    /// The topic's name, where it is named by name.
    pub fn topic(&self) -> (r: Option<&[u8]>)
        ensures
            r is Some <==> self.topic is Name,
            r is Some ==> r->Some_0@ == self.topic->Name_0@,
    {
        match &self.topic {
            TopicRef::Name(n) => Some(n.as_slice()),
            TopicRef::Id(_) => None,
        }
    }

    /// The topic's id, or the all-zero id where it is named by name.
    pub fn topic_id(&self) -> (r: Uuid)
        ensures
            r == match self.topic {
                TopicRef::Id(u) => u,
                TopicRef::Name(_) => Uuid { value: 0 },
            },
    {
        match &self.topic {
            TopicRef::Id(u) => *u,
            TopicRef::Name(_) => Uuid::nil(),
        }
    }

    pub fn partitions(&self) -> (r: &[FetchPartition])
        ensures
            r@ == self.partitions@,
    {
        self.partitions.as_slice()
    }
}

pub open spec fn parse_fetch_topic(s: Seq<u8>, p: int, version: i16) -> Result<(FetchTopicView, int), Error> {
    match parse_topic_ref(s, p, version) {
        Ok((topic, q1)) => match parse_varray(fetch_partition_parser(version), s, q1, version) {
            Ok((Some(partitions), q2)) => {
                let t = FetchTopicView { version, topic, partitions };
                if version >= 12 {
                    match parse_tagged_fields(s, q2) {
                        Ok((_, q3)) => Ok((t, q3)),
                        Err(e) => Err(e),
                    }
                } else {
                    Ok((t, q2))
                }
            },
            Ok((None, _)) => Err(Error::IllegalArgument("non-nullable field partitions was serialized as null")),
            Err(e) => Err(e),
        },
        Err(e) => Err(e),
    }
}

pub open spec fn fetch_topic_parser(version: i16) -> Parser<FetchTopicView> {
    |s: Seq<u8>, p: int| parse_fetch_topic(s, p, version)
}

pub fn read_fetch_topic(data: &[u8], pos: &mut usize, version: i16) -> (r: Result<FetchTopic, Error>)
    requires
        *old(pos) <= data@.len(),
    ensures
        *final(pos) <= data@.len(),
        agrees(r, *final(pos), parse_fetch_topic(data@, *old(pos) as int, version)),
{
    let topic = read_topic_ref(data, pos, version)?;
    let ghost q1 = *pos as int;
    proof {
        lemma_varray_count(fetch_partition_parser(version), data@, q1, version);
    }
    let partitions = match read_varray_count(data, pos, version)? {
        Some(n) => read_fetch_partitions(data, pos, n, version)?,
        None => {
            return Err(Error::IllegalArgument("non-nullable field partitions was serialized as null"));
        },
    };
    if version >= 12 {
        let _ = read_tagged_fields(data, pos)?;
    }
    Ok(FetchTopic { version, topic, partitions })
}

pub open spec fn fetch_topic_views(v: Seq<FetchTopic>) -> Seq<FetchTopicView> {
    v.map_values(|t: FetchTopic| t@)
}

fn read_fetch_topics(data: &[u8], pos: &mut usize, n: usize, version: i16) -> (r: Result<
    Vec<FetchTopic>,
    Error,
>)
    requires
        *old(pos) <= data@.len(),
    ensures
        *final(pos) <= data@.len(),
        match parse_list(fetch_topic_parser(version), data@, *old(pos) as int, n as nat) {
            Ok((xs, q)) => r is Ok && fetch_topic_views(r->Ok_0@) == xs && *final(pos) == q,
            Err(e) => r == Err::<Vec<FetchTopic>, Error>(e),
        },
{
    let ghost begin = *pos as int;
    let mut v: Vec<FetchTopic> = Vec::new();
    assert(fetch_topic_views(v@) =~= Seq::<FetchTopicView>::empty());
    let mut i: usize = 0;
    while i < n
        invariant
            i <= n,
            begin == *old(pos),
            *pos <= data@.len(),
            parse_list(fetch_topic_parser(version), data@, begin, n as nat) == parse_list_from(
                fetch_topic_parser(version),
                data@,
                *pos as int,
                (n - i) as nat,
                fetch_topic_views(v@),
            ),
        decreases n - i,
    {
        let x = read_fetch_topic(data, pos, version)?;
        let ghost before = v@;
        let ghost xv = x@;
        v.push(x);
        assert(fetch_topic_views(v@) =~= fetch_topic_views(before).push(xv));
        i = i + 1;
    }
    Ok(v)
}

/// A topic the fetch session should forget (v7 on), with its partitions.
#[derive(Clone)]
pub struct ForgottenTopic {
    pub version: i16,
    pub topic: TopicRef,
    pub partitions: Vec<i32>,
}

pub struct ForgottenTopicView {
    pub version: i16,
    pub topic: TopicRefView,
    pub partitions: Seq<i32>,
}

impl View for ForgottenTopic {
    type V = ForgottenTopicView;

    open spec fn view(&self) -> ForgottenTopicView {
        ForgottenTopicView { version: self.version, topic: self.topic@, partitions: self.partitions@ }
    }
}

impl ForgottenTopic {
    pub fn partitions(&self) -> (r: &[i32])
        ensures
            r@ == self.partitions@,
    {
        self.partitions.as_slice()
    }
}

pub open spec fn parse_forgotten_topic(s: Seq<u8>, p: int, version: i16) -> Result<
    (ForgottenTopicView, int),
    Error,
> {
    match parse_topic_ref(s, p, version) {
        Ok((topic, q1)) => match parse_varray(i32_parser(), s, q1, version) {
            Ok((Some(partitions), q2)) => {
                let t = ForgottenTopicView { version, topic, partitions };
                if version >= 12 {
                    match parse_tagged_fields(s, q2) {
                        Ok((_, q3)) => Ok((t, q3)),
                        Err(e) => Err(e),
                    }
                } else {
                    Ok((t, q2))
                }
            },
            Ok((None, _)) => Err(Error::IllegalArgument("non-nullable field partitions was serialized as null")),
            Err(e) => Err(e),
        },
        Err(e) => Err(e),
    }
}

pub open spec fn forgotten_topic_parser(version: i16) -> Parser<ForgottenTopicView> {
    |s: Seq<u8>, p: int| parse_forgotten_topic(s, p, version)
}

pub fn read_forgotten_topic(data: &[u8], pos: &mut usize, version: i16) -> (r: Result<ForgottenTopic, Error>)
    requires
        *old(pos) <= data@.len(),
    ensures
        *final(pos) <= data@.len(),
        agrees(r, *final(pos), parse_forgotten_topic(data@, *old(pos) as int, version)),
{
    let topic = read_topic_ref(data, pos, version)?;
    let o = if version <= 11 {
        read_i32_array(data, pos)?
    } else {
        read_compact_i32_array(data, pos)?
    };
    let partitions = match o {
        Some(v) => v,
        None => {
            return Err(Error::IllegalArgument("non-nullable field partitions was serialized as null"));
        },
    };
    if version >= 12 {
        let _ = read_tagged_fields(data, pos)?;
    }
    Ok(ForgottenTopic { version, topic, partitions })
}

pub open spec fn forgotten_topic_views(v: Seq<ForgottenTopic>) -> Seq<ForgottenTopicView> {
    v.map_values(|t: ForgottenTopic| t@)
}

fn read_forgotten_topics(data: &[u8], pos: &mut usize, n: usize, version: i16) -> (r: Result<
    Vec<ForgottenTopic>,
    Error,
>)
    requires
        *old(pos) <= data@.len(),
    ensures
        *final(pos) <= data@.len(),
        match parse_list(forgotten_topic_parser(version), data@, *old(pos) as int, n as nat) {
            Ok((xs, q)) => r is Ok && forgotten_topic_views(r->Ok_0@) == xs && *final(pos) == q,
            Err(e) => r == Err::<Vec<ForgottenTopic>, Error>(e),
        },
{
    let ghost begin = *pos as int;
    let mut v: Vec<ForgottenTopic> = Vec::new();
    assert(forgotten_topic_views(v@) =~= Seq::<ForgottenTopicView>::empty());
    let mut i: usize = 0;
    while i < n
        invariant
            i <= n,
            begin == *old(pos),
            *pos <= data@.len(),
            parse_list(forgotten_topic_parser(version), data@, begin, n as nat) == parse_list_from(
                forgotten_topic_parser(version),
                data@,
                *pos as int,
                (n - i) as nat,
                forgotten_topic_views(v@),
            ),
        decreases n - i,
    {
        let x = read_forgotten_topic(data, pos, version)?;
        let ghost before = v@;
        let ghost xv = x@;
        v.push(x);
        assert(forgotten_topic_views(v@) =~= forgotten_topic_views(before).push(xv));
        i = i + 1;
    }
    Ok(v)
}

// ---------------------------------------------------------------- request

/// A Fetch request, v4 to v17; fields that a version lacks hold their defaults.
pub struct Request {
    pub version: i16,
    pub replica_id: i32,
    pub max_wait_ms: i32,
    pub min_bytes: i32,
    pub max_bytes: i32,
    pub isolation_level: i8,
    pub session_id: i32,
    pub session_epoch: i32,
    pub topics: Vec<FetchTopic>,
    pub forgotten_topics_data: Option<Vec<ForgottenTopic>>,
    pub rack_id: Option<Vec<u8>>,
    pub cluster_id: Option<Vec<u8>>,
    pub replica_state: Option<ReplicaState>,
}

pub struct RequestView {
    pub version: i16,
    pub replica_id: i32,
    pub max_wait_ms: i32,
    pub min_bytes: i32,
    pub max_bytes: i32,
    pub isolation_level: i8,
    pub session_id: i32,
    pub session_epoch: i32,
    pub topics: Seq<FetchTopicView>,
    pub forgotten_topics_data: Option<Seq<ForgottenTopicView>>,
    pub rack_id: Option<Seq<u8>>,
    pub cluster_id: Option<Seq<u8>>,
    pub replica_state: Option<ReplicaState>,
}

impl View for Request {
    type V = RequestView;

    open spec fn view(&self) -> RequestView {
        RequestView {
            version: self.version,
            replica_id: self.replica_id,
            max_wait_ms: self.max_wait_ms,
            min_bytes: self.min_bytes,
            max_bytes: self.max_bytes,
            isolation_level: self.isolation_level,
            session_id: self.session_id,
            session_epoch: self.session_epoch,
            topics: fetch_topic_views(self.topics@),
            forgotten_topics_data: match self.forgotten_topics_data {
                Some(v) => Some(forgotten_topic_views(v@)),
                None => None,
            },
            rack_id: opt_bytes(self.rack_id),
            cluster_id: opt_bytes(self.cluster_id),
            replica_state: self.replica_state,
        }
    }
}

impl Request {
    pub fn version(&self) -> (r: i16)
        ensures
            r == self.version,
    {
        self.version
    }

    pub fn replica_id(&self) -> (r: i32)
        ensures
            r == self.replica_id,
    {
        self.replica_id
    }

    pub fn max_wait_ms(&self) -> (r: i32)
        ensures
            r == self.max_wait_ms,
    {
        self.max_wait_ms
    }

    pub fn min_bytes(&self) -> (r: i32)
        ensures
            r == self.min_bytes,
    {
        self.min_bytes
    }

    pub fn max_bytes(&self) -> (r: i32)
        ensures
            r == self.max_bytes,
    {
        self.max_bytes
    }

    pub fn isolation_level(&self) -> (r: i8)
        ensures
            r == self.isolation_level,
    {
        self.isolation_level
    }

    pub fn session_id(&self) -> (r: i32)
        ensures
            r == self.session_id,
    {
        self.session_id
    }

    pub fn session_epoch(&self) -> (r: i32)
        ensures
            r == self.session_epoch,
    {
        self.session_epoch
    }

    pub fn topics(&self) -> (r: &[FetchTopic])
        ensures
            r@ == self.topics@,
    {
        self.topics.as_slice()
    }

    pub fn forgotten_topics_data(&self) -> (r: Option<&[ForgottenTopic]>)
        ensures
            r is Some <==> self.forgotten_topics_data is Some,
            r is Some ==> r->Some_0@ == self.forgotten_topics_data->Some_0@,
    {
        match &self.forgotten_topics_data {
            Some(v) => Some(v.as_slice()),
            None => None,
        }
    }

    pub fn rack_id(&self) -> (r: Option<&[u8]>)
        ensures
            r is Some <==> self.rack_id is Some,
            r is Some ==> r->Some_0@ == self.rack_id->Some_0@,
    {
        match &self.rack_id {
            Some(v) => Some(v.as_slice()),
            None => None,
        }
    }

    pub fn cluster_id(&self) -> (r: Option<&[u8]>)
        ensures
            r is Some <==> self.cluster_id is Some,
            r is Some ==> r->Some_0@ == self.cluster_id->Some_0@,
    {
        match &self.cluster_id {
            Some(v) => Some(v.as_slice()),
            None => None,
        }
    }

    pub fn replica_state(&self) -> (r: Option<ReplicaState>)
        ensures
            r == self.replica_state,
    {
        self.replica_state
    }
}

/// What the request's tagged fields carry: the cluster id (key 0) and, from v15 to v17, the
/// replica state (key 1).
pub struct RequestTags {
    pub cluster_id: Option<Seq<u8>>,
    pub replica_state: Option<ReplicaState>,
}

pub open spec fn request_step(version: i16) -> spec_fn(RequestTags, (u32, Seq<u8>)) -> Result<
    RequestTags,
    Error,
> {
    |acc: RequestTags, t: (u32, Seq<u8>)|
        if t.0 == 0 {
            match parse_compact_nullable_string(t.1, 0) {
                Ok((Some(c), _)) => Ok(RequestTags { cluster_id: Some(c), ..acc }),
                Ok((None, _)) => Ok(acc),
                Err(e) => Err(e),
            }
        } else if t.0 == 1 && 15 <= version <= 17 {
            match parse_replica_state(t.1, 0) {
                Ok((r, _)) => Ok(RequestTags { replica_state: Some(r), ..acc }),
                Err(e) => Err(e),
            }
        } else {
            Ok(acc)
        }
}

pub open spec fn no_request_tags() -> RequestTags {
    RequestTags { cluster_id: None, replica_state: None }
}

/// The fields after `isolation_level`: session, topics, forgotten topics, rack, tags.
pub open spec fn parse_request_tail(s: Seq<u8>, p: int, version: i16, head: RequestView) -> Result<
    (RequestView, int),
    Error,
> {
    let rs = if version >= 7 {
        match parse_i32(s, p) {
            Ok((a, q)) => match parse_i32(s, q) {
                Ok((b, q2)) => Ok(((a, b), q2)),
                Err(e) => Err(e),
            },
            Err(e) => Err(e),
        }
    } else {
        Ok(((0i32, -1i32), p))
    };
    match rs {
        Ok(((session_id, session_epoch), q1)) => match parse_varray(fetch_topic_parser(version), s, q1, version) {
            Ok((Some(topics), q2)) => {
                let rf: Result<(Option<Seq<ForgottenTopicView>>, int), Error> = if version >= 7 {
                    match parse_varray(forgotten_topic_parser(version), s, q2, version) {
                        Ok((Some(f), q)) => Ok((Some(f), q)),
                        Ok((None, _)) => Err(Error::IllegalArgument("non-nullable field forgotten_topics_data was serialized as null")),
                        Err(e) => Err(e),
                    }
                } else {
                    Ok((None, q2))
                };
                match rf {
                    Ok((forgotten_topics_data, q3)) => {
                        let rr = if version >= 12 {
                            parse_compact_nullable_string(s, q3)
                        } else if version == 11 {
                            parse_nullable_string(s, q3)
                        } else {
                            Ok((None, q3))
                        };
                        match rr {
                            Ok((rack_id, q4)) => {
                                let r = RequestView {
                                    session_id,
                                    session_epoch,
                                    topics,
                                    forgotten_topics_data,
                                    rack_id,
                                    ..head
                                };
                                if version >= 12 {
                                    match parse_tagged_fields(s, q4) {
                                        Ok((ts, q5)) => match fold_tags(ts, no_request_tags(), request_step(version)) {
                                            Ok(tags) => Ok((RequestView { cluster_id: tags.cluster_id, replica_state: tags.replica_state, ..r }, q5)),
                                            Err(e) => Err(e),
                                        },
                                        Err(e) => Err(e),
                                    }
                                } else {
                                    Ok((r, q4))
                                }
                            },
                            Err(e) => Err(e),
                        }
                    },
                    Err(e) => Err(e),
                }
            },
            Ok((None, _)) => Err(Error::IllegalArgument("non-nullable field topics was serialized as null")),
            Err(e) => Err(e),
        },
        Err(e) => Err(e),
    }
}

/// A Fetch request body at `version` (4 to 17; any other is `UnsupportedVersion`).
pub open spec fn parse_request(s: Seq<u8>, p: int, version: i16) -> Result<(RequestView, int), Error> {
    if !(4 <= version <= 17) {
        Err(Error::UnsupportedVersion)
    } else {
        let r0 = if version <= 14 { parse_i32(s, p) } else { Ok((-1i32, p)) };
        match r0 {
            Ok((replica_id, q0)) => match parse_i32(s, q0) {
                Ok((max_wait_ms, q1)) => match parse_i32(s, q1) {
                    Ok((min_bytes, q2)) => match parse_i32(s, q2) {
                        Ok((max_bytes, q3)) => match parse_i8(s, q3) {
                            Ok((isolation_level, q4)) => parse_request_tail(s, q4, version, RequestView {
                                version,
                                replica_id,
                                max_wait_ms,
                                min_bytes,
                                max_bytes,
                                isolation_level,
                                session_id: 0i32,
                                session_epoch: -1i32,
                                topics: Seq::empty(),
                                forgotten_topics_data: None,
                                rack_id: None,
                                cluster_id: None,
                                replica_state: None,
                            }),
                            Err(e) => Err(e),
                        },
                        Err(e) => Err(e),
                    },
                    Err(e) => Err(e),
                },
                Err(e) => Err(e),
            },
            Err(e) => Err(e),
        }
    }
}

fn read_request_tags(ts: &[TaggedField], version: i16) -> (r: Result<
    (Option<Vec<u8>>, Option<ReplicaState>),
    Error,
>)
    ensures
        match fold_tags(tf_views(ts@), no_request_tags(), request_step(version)) {
            Ok(t) => r is Ok && opt_bytes(r->Ok_0.0) == t.cluster_id && r->Ok_0.1 == t.replica_state,
            Err(e) => r == Err::<(Option<Vec<u8>>, Option<ReplicaState>), Error>(e),
        },
{
    let ghost vs = tf_views(ts@);
    let ghost step = request_step(version);
    proof {
        lemma_fold_tags_done(vs, no_request_tags(), step);
    }
    let mut cluster_id: Option<Vec<u8>> = None;
    let mut replica_state: Option<ReplicaState> = None;
    let mut i: usize = 0;
    while i < ts.len()
        invariant
            i <= ts@.len(),
            vs == tf_views(ts@),
            step == request_step(version),
            fold_tags(vs.subrange(0, i as int), no_request_tags(), step) == Ok::<RequestTags, Error>(
                RequestTags { cluster_id: opt_bytes(cluster_id), replica_state },
            ),
        decreases ts@.len() - i,
    {
        let t = &ts[i];
        assert(vs[i as int] == t@);
        proof {
            lemma_fold_tags_step(
                vs,
                no_request_tags(),
                step,
                i as int,
                RequestTags { cluster_id: opt_bytes(cluster_id), replica_state },
            );
            if fold_tags(vs.subrange(0, i + 1), no_request_tags(), step) is Err {
                lemma_fold_tags_err(vs, no_request_tags(), step, i + 1);
            }
        }
        let mut p: usize = 0;
        if t.key == 0 {
            match read_compact_nullable_string(t.data.as_slice(), &mut p)?.0 {
                Some(c) => {
                    cluster_id = Some(c);
                },
                None => {},
            }
        } else if t.key == 1 && 15 <= version && version <= 17 {
            replica_state = Some(read_replica_state(t.data.as_slice(), &mut p)?);
        }
        i = i + 1;
    }
    Ok((cluster_id, replica_state))
}

#[verifier::rlimit(60)]
pub fn read_request(data: &[u8], pos: &mut usize, version: i16) -> (r: Result<Request, Error>)
    requires
        *old(pos) <= data@.len(),
    ensures
        *final(pos) <= data@.len(),
        agrees(r, *final(pos), parse_request(data@, *old(pos) as int, version)),
{
    if !(4 <= version && version <= 17) {
        return Err(Error::UnsupportedVersion);
    }
    let replica_id = if version <= 14 { read_i32(data, pos)? } else { -1 };
    let max_wait_ms = read_i32(data, pos)?;
    let min_bytes = read_i32(data, pos)?;
    let max_bytes = read_i32(data, pos)?;
    let isolation_level = read_i8(data, pos)?;
    let session_id = if version >= 7 { read_i32(data, pos)? } else { 0 };
    let session_epoch = if version >= 7 { read_i32(data, pos)? } else { -1 };
    let ghost q1 = *pos as int;
    proof {
        lemma_varray_count(fetch_topic_parser(version), data@, q1, version);
    }
    let topics = match read_varray_count(data, pos, version)? {
        Some(n) => read_fetch_topics(data, pos, n, version)?,
        None => {
            return Err(Error::IllegalArgument("non-nullable field topics was serialized as null"));
        },
    };
    let ghost q2 = *pos as int;
    proof {
        lemma_varray_count(forgotten_topic_parser(version), data@, q2, version);
    }
    let forgotten_topics_data = if version >= 7 {
        match read_varray_count(data, pos, version)? {
            Some(n) => Some(read_forgotten_topics(data, pos, n, version)?),
            None => {
                return Err(Error::IllegalArgument("non-nullable field forgotten_topics_data was serialized as null"));
            },
        }
    } else {
        None
    };
    let rack_id = if version >= 12 {
        read_compact_nullable_string(data, pos)?.0
    } else if version == 11 {
        read_nullable_string(data, pos)?.0
    } else {
        None
    };
    let (cluster_id, replica_state) = if version >= 12 {
        let ts = read_tagged_fields(data, pos)?;
        read_request_tags(ts.0.as_slice(), version)?
    } else {
        (None, None)
    };
    Ok(
        Request {
            version,
            replica_id,
            max_wait_ms,
            min_bytes,
            max_bytes,
            isolation_level,
            session_id,
            session_epoch,
            topics,
            forgotten_topics_data,
            rack_id,
            cluster_id,
            replica_state,
        },
    )
}

// ---------------------------------------------------------------- writing a request

/// An array count at `version`.
pub open spec fn enc_vcount(n: nat, version: i16) -> Seq<u8> {
    if version <= 11 {
        enc_i32(n as i32)
    } else {
        enc_uvarint((n + 1) as u32)
    }
}

pub open spec fn enc_null_varray(version: i16) -> Seq<u8> {
    if version <= 11 {
        enc_i32(-1i32)
    } else {
        enc_uvarint(0)
    }
}

pub open spec fn fetch_partition_encoder(version: i16) -> Encoder<FetchPartition> {
    |f: FetchPartition| enc_fetch_partition(f, version)
}

pub open spec fn enc_fetch_topic(t: FetchTopicView, version: i16) -> Seq<u8> {
    enc_topic_ref(t.topic, version) + enc_vcount(t.partitions.len(), version) + enc_list(
        fetch_partition_encoder(version),
        t.partitions,
    ) + if version >= 12 {
        enc_no_tagged_fields()
    } else {
        Seq::empty()
    }
}

pub open spec fn fetch_topic_encoder(version: i16) -> Encoder<FetchTopicView> {
    |t: FetchTopicView| enc_fetch_topic(t, version)
}

pub open spec fn enc_forgotten_topic(t: ForgottenTopicView, version: i16) -> Seq<u8> {
    enc_topic_ref(t.topic, version) + enc_vcount(t.partitions.len(), version) + enc_list(
        i32_encoder(),
        t.partitions,
    ) + if version >= 12 {
        enc_no_tagged_fields()
    } else {
        Seq::empty()
    }
}

pub open spec fn forgotten_topic_encoder(version: i16) -> Encoder<ForgottenTopicView> {
    |t: ForgottenTopicView| enc_forgotten_topic(t, version)
}

pub open spec fn request_tags(r: RequestView) -> Seq<(u32, Seq<u8>)> {
    (match r.cluster_id {
        Some(c) => seq![(0u32, enc_compact_nullable_string(Some(c)))],
        None => Seq::empty(),
    }) + if r.version >= 15
        && r.replica_state is Some {
        seq![(1u32, enc_replica_state(r.replica_state->Some_0))]
    } else {
        Seq::empty()
    }
}

pub open spec fn enc_request_head(r: RequestView) -> Seq<u8> {
    let v = r.version;
    (if v <= 14 { enc_i32(r.replica_id) } else { Seq::empty() }) + enc_i32(r.max_wait_ms) + enc_i32(
        r.min_bytes,
    ) + enc_i32(r.max_bytes) + enc_i8(r.isolation_level) + (if v >= 7 {
        enc_i32(r.session_id) + enc_i32(r.session_epoch)
    } else {
        Seq::empty()
    }) + enc_vcount(r.topics.len(), v) + enc_list(fetch_topic_encoder(v), r.topics)
}

pub open spec fn enc_request_tail(r: RequestView) -> Seq<u8> {
    let v = r.version;
    (if v >= 7 {
        match r.forgotten_topics_data {
            Some(f) => enc_vcount(f.len(), v) + enc_list(forgotten_topic_encoder(v), f),
            None => enc_null_varray(v),
        }
    } else {
        Seq::empty()
    }) + (if v >= 12 {
        enc_compact_nullable_string(r.rack_id)
    } else if v == 11 {
        enc_nullable_string(r.rack_id)
    } else {
        Seq::empty()
    }) + if v >= 12 {
        enc_tagged_fields(request_tags(r))
    } else {
        Seq::empty()
    }
}

pub open spec fn enc_request(r: RequestView) -> Seq<u8> {
    enc_request_head(r) + enc_request_tail(r)
}

pub open spec fn fetch_topic_fits(t: FetchTopicView) -> bool {
    topic_ref_fits(t.topic) && t.partitions.len() < 0x7fff_ffff
}

pub open spec fn forgotten_topic_fits(t: ForgottenTopicView) -> bool {
    topic_ref_fits(t.topic) && t.partitions.len() < 0x7fff_ffff
}

/// Every length in the request fits its length field.
pub open spec fn request_fits(r: RequestView) -> bool {
    &&& r.topics.len() < 0x7fff_ffff
    &&& forall|i: int| 0 <= i < r.topics.len() ==> fetch_topic_fits(#[trigger] r.topics[i])
    &&& (r.forgotten_topics_data is Some ==> {
        let f = r.forgotten_topics_data->Some_0;
        f.len() < 0x7fff_ffff && forall|i: int| 0 <= i < f.len() ==> forgotten_topic_fits(#[trigger] f[i])
    })
    &&& (r.rack_id is Some ==> r.rack_id->Some_0.len() <= 0x7fff)
    &&& (r.cluster_id is Some ==> r.cluster_id->Some_0.len() <= 0xffff)
}

fn write_vcount(out: &mut Vec<u8>, n: usize, version: i16)
    requires
        n < 0x7fff_ffff,
    ensures
        final(out)@ == old(out)@ + enc_vcount(n as nat, version),
{
    write_varray_count(out, n, version);
}

fn write_fetch_topic(out: &mut Vec<u8>, t: &FetchTopic, version: i16)
    requires
        fetch_topic_fits(t@),
    ensures
        final(out)@ == old(out)@ + enc_fetch_topic(t@, version),
{
    write_topic_ref(out, &t.topic, version);
    write_vcount(out, t.partitions.len(), version);
    let ghost mid = out@;
    let mut i: usize = 0;
    while i < t.partitions.len()
        invariant
            i <= t.partitions@.len(),
            out@ == mid + enc_list(fetch_partition_encoder(version), t.partitions@.subrange(0, i as int)),
        decreases t.partitions@.len() - i,
    {
        let f = t.partitions[i];
        write_fetch_partition(out, &f, version);
        proof {
            lemma_enc_list_push(fetch_partition_encoder(version), t.partitions@.subrange(0, i as int), f);
            assert(t.partitions@.subrange(0, i as int).push(f) =~= t.partitions@.subrange(0, i + 1));
        }
        i = i + 1;
    }
    assert(t.partitions@.subrange(0, t.partitions@.len() as int) =~= t.partitions@);
    if version >= 12 {
        write_no_tagged_fields(out);
    }
    assert(final(out)@ =~= old(out)@ + enc_fetch_topic(t@, version));
}

fn write_forgotten_topic(out: &mut Vec<u8>, t: &ForgottenTopic, version: i16)
    requires
        forgotten_topic_fits(t@),
    ensures
        final(out)@ == old(out)@ + enc_forgotten_topic(t@, version),
{
    write_topic_ref(out, &t.topic, version);
    write_vcount(out, t.partitions.len(), version);
    write_i32_list(out, t.partitions.as_slice());
    if version >= 12 {
        write_no_tagged_fields(out);
    }
    assert(final(out)@ =~= old(out)@ + enc_forgotten_topic(t@, version));
}

fn write_fetch_topics(out: &mut Vec<u8>, ts: &[FetchTopic], version: i16)
    requires
        forall|i: int| 0 <= i < ts@.len() ==> fetch_topic_fits(#[trigger] fetch_topic_views(ts@)[i]),
    ensures
        final(out)@ == old(out)@ + enc_list(fetch_topic_encoder(version), fetch_topic_views(ts@)),
{
    let ghost vs = fetch_topic_views(ts@);
    let mut i: usize = 0;
    while i < ts.len()
        invariant
            i <= ts@.len(),
            vs == fetch_topic_views(ts@),
            forall|j: int| 0 <= j < ts@.len() ==> fetch_topic_fits(#[trigger] vs[j]),
            out@ == old(out)@ + enc_list(fetch_topic_encoder(version), vs.subrange(0, i as int)),
        decreases ts@.len() - i,
    {
        let t = &ts[i];
        assert(vs[i as int] == t@);
        write_fetch_topic(out, t, version);
        proof {
            lemma_enc_list_push(fetch_topic_encoder(version), vs.subrange(0, i as int), t@);
            assert(vs.subrange(0, i as int).push(t@) =~= vs.subrange(0, i + 1));
        }
        i = i + 1;
    }
    assert(vs.subrange(0, vs.len() as int) =~= vs);
}

fn write_forgotten_topics(out: &mut Vec<u8>, ts: &[ForgottenTopic], version: i16)
    requires
        forall|i: int| 0 <= i < ts@.len() ==> forgotten_topic_fits(#[trigger] forgotten_topic_views(ts@)[i]),
    ensures
        final(out)@ == old(out)@ + enc_list(forgotten_topic_encoder(version), forgotten_topic_views(ts@)),
{
    let ghost vs = forgotten_topic_views(ts@);
    let mut i: usize = 0;
    while i < ts.len()
        invariant
            i <= ts@.len(),
            vs == forgotten_topic_views(ts@),
            forall|j: int| 0 <= j < ts@.len() ==> forgotten_topic_fits(#[trigger] vs[j]),
            out@ == old(out)@ + enc_list(forgotten_topic_encoder(version), vs.subrange(0, i as int)),
        decreases ts@.len() - i,
    {
        let t = &ts[i];
        assert(vs[i as int] == t@);
        write_forgotten_topic(out, t, version);
        proof {
            lemma_enc_list_push(forgotten_topic_encoder(version), vs.subrange(0, i as int), t@);
            assert(vs.subrange(0, i as int).push(t@) =~= vs.subrange(0, i + 1));
        }
        i = i + 1;
    }
    assert(vs.subrange(0, vs.len() as int) =~= vs);
}

fn request_tag_fields(r: &Request) -> (tags: Vec<TaggedField>)
    requires
        request_fits(r@),
    ensures
        tf_views(tags@) == request_tags(r@),
        keys_ascending(request_tags(r@)),
        tagged_fits(request_tags(r@)),
{
    let ghost rv = r@;
    let mut tags: Vec<TaggedField> = Vec::new();
    if let Some(c) = &r.cluster_id {
        let mut d: Vec<u8> = Vec::new();
        write_compact_nullable_string(&mut d, Some(c.as_slice()));
        tags.push(TaggedField { key: 0, data: d });
    }
    if r.version >= 15 {
        if let Some(rs) = r.replica_state {
            let mut d2: Vec<u8> = Vec::new();
            write_replica_state(&mut d2, rs);
            tags.push(TaggedField { key: 1, data: d2 });
        }
    }
    assert(tf_views(tags@) =~= request_tags(rv));
    let ghost ts = request_tags(rv);
    proof {
        crate::varint::lemma_uvarint_len(0);
        if rv.cluster_id is Some {
            crate::varint::lemma_uvarint_len((rv.cluster_id->Some_0.len() + 1) as u32);
        }
        crate::varint::lemma_uvarint_len(0);
    }
    assert forall|i: int| 0 <= i < ts.len() implies crate::tagged::tf_wf()(#[trigger] ts[i]) by {
        assert(ts[i].1.len() <= 0xffff_ffff);
    }
    tags
}

#[verifier::rlimit(60)]
fn write_request_head(out: &mut Vec<u8>, r: &Request)
    requires
        request_fits(r@),
    ensures
        final(out)@ == old(out)@ + enc_request_head(r@),
{
    let v = r.version;
    if v <= 14 {
        write_i32(out, r.replica_id);
    }
    write_i32(out, r.max_wait_ms);
    write_i32(out, r.min_bytes);
    write_i32(out, r.max_bytes);
    write_i8(out, r.isolation_level);
    if v >= 7 {
        write_i32(out, r.session_id);
        write_i32(out, r.session_epoch);
    }
    write_vcount(out, r.topics.len(), v);
    write_fetch_topics(out, r.topics.as_slice(), v);
    assert(final(out)@ =~= old(out)@ + enc_request_head(r@));
}

#[verifier::rlimit(60)]
fn write_request_tail(out: &mut Vec<u8>, r: &Request)
    requires
        request_fits(r@),
    ensures
        final(out)@ == old(out)@ + enc_request_tail(r@),
{
    let ghost rv = r@;
    let v = r.version;
    if v >= 7 {
        match &r.forgotten_topics_data {
            Some(f) => {
                write_vcount(out, f.len(), v);
                write_forgotten_topics(out, f.as_slice(), v);
            },
            None => {
                if v <= 11 {
                    write_i32(out, -1i32);
                } else {
                    write_unsigned_varint(out, 0);
                }
            },
        }
    }
    let ghost c = out@;
    if v >= 12 {
        match &r.rack_id {
            Some(x) => write_compact_nullable_string(out, Some(x.as_slice())),
            None => write_compact_nullable_string(out, None),
        }
    } else if v == 11 {
        match &r.rack_id {
            Some(x) => write_nullable_string(out, Some(x.as_slice())),
            None => write_nullable_string(out, None),
        }
    }
    if v >= 12 {
        let tags = request_tag_fields(r);
        write_tagged_fields(out, tags.as_slice());
    }
    assert(final(out)@ =~= old(out)@ + enc_request_tail(rv));
}

/// Writes a request body at its own version.
pub fn write_request(out: &mut Vec<u8>, r: &Request)
    requires
        request_fits(r@),
    ensures
        final(out)@ == old(out)@ + enc_request(r@),
{
    write_request_head(out, r);
    write_request_tail(out, r);
    assert(final(out)@ =~= old(out)@ + enc_request(r@));
}

// ---------------------------------------------------------------- round trip of a partition

/// A partition as it can stand in a request at `version`: fields the version lacks hold
/// their defaults.
pub open spec fn fetch_partition_wf(f: FetchPartition, version: i16) -> bool {
    &&& f.version == version
    &&& (version < 9 ==> f.current_leader_epoch == -1)
    &&& (version < 12 ==> f.last_fetched_epoch == -1)
    &&& (version < 5 ==> f.log_start_offset == -1)
    &&& (version < 17 ==> f.replica_directory_id == Uuid { value: 0 })
}

/// A partition entry of a Fetch request reads back as written at `version`.
#[verifier::rlimit(100)]
pub proof fn lemma_fetch_partition_round_trip(f: FetchPartition, version: i16, s: Seq<u8>, p: int)
    requires
        fetch_partition_wf(f, version),
        holds(s, p, enc_fetch_partition(f, version)),
    ensures
        parse_fetch_partition(s, p, version) == Ok::<(FetchPartition, int), Error>(
            (f, p + enc_fetch_partition(f, version).len()),
        ),
{
    let a1 = enc_i32(f.partition);
    let a2: Seq<u8> = if version >= 9 { enc_i32(f.current_leader_epoch) } else { Seq::empty() };
    let a3 = enc_i64(f.fetch_offset);
    let a4: Seq<u8> = if version >= 12 { enc_i32(f.last_fetched_epoch) } else { Seq::empty() };
    let a5: Seq<u8> = if version >= 5 { enc_i64(f.log_start_offset) } else { Seq::empty() };
    let a6 = enc_i32(f.partition_max_bytes);
    let a7: Seq<u8> = if version >= 17 {
        enc_tagged_fields(seq![(0u32, enc_uuid(f.replica_directory_id))])
    } else if version >= 12 {
        enc_no_tagged_fields()
    } else {
        Seq::empty()
    };
    assert(enc_fetch_partition(f, version) == a1 + a2 + a3 + a4 + a5 + a6 + a7);
    lemma_holds_split(s, p, a1 + a2 + a3 + a4 + a5 + a6, a7);
    lemma_holds_split(s, p, a1 + a2 + a3 + a4 + a5, a6);
    lemma_holds_split(s, p, a1 + a2 + a3 + a4, a5);
    lemma_holds_split(s, p, a1 + a2 + a3, a4);
    lemma_holds_split(s, p, a1 + a2, a3);
    lemma_holds_split(s, p, a1, a2);
    let q1 = p + 4;
    let q2 = q1 + a2.len();
    let q3 = q2 + 8;
    let q4 = q3 + a4.len();
    let q5 = q4 + a5.len();
    let q6 = q5 + 4;
    crate::wire::lemma_i32_round_trip(f.partition, s, p);
    if version >= 9 {
        crate::wire::lemma_i32_round_trip(f.current_leader_epoch, s, q1);
    }
    crate::wire::lemma_i64_round_trip(f.fetch_offset, s, q2);
    if version >= 12 {
        crate::wire::lemma_i32_round_trip(f.last_fetched_epoch, s, q3);
    }
    if version >= 5 {
        crate::wire::lemma_i64_round_trip(f.log_start_offset, s, q4);
    }
    crate::wire::lemma_i32_round_trip(f.partition_max_bytes, s, q5);
    if version >= 17 {
        let e = enc_uuid(f.replica_directory_id);
        let ts = seq![(0u32, e)];
        crate::varint::lemma_uvarint_len(0);
        assert(e.len() == 16);
        assert(crate::tagged::tagged_fits(ts)) by {
            assert forall|i: int| 0 <= i < ts.len() implies crate::tagged::tf_wf()(#[trigger] ts[i]) by {}
        }
        crate::tagged::lemma_tagged_fields_round_trip(ts, s, q6);
        assert(holds(e, 0, e)) by {
            assert(e.subrange(0, e.len() as int) =~= e);
        }
        crate::types::lemma_uuid_round_trip(f.replica_directory_id, e, 0);
        assert(ts.drop_last() =~= Seq::<(u32, Seq<u8>)>::empty());
        assert(fold_tags(ts, Uuid { value: 0 }, fetch_partition_step(version)) == Ok::<Uuid, Error>(
            f.replica_directory_id,
        ));
    } else if version >= 12 {
        crate::tagged::lemma_no_tagged_fields_round_trip(s, q6);
        assert(fold_tags(Seq::<(u32, Seq<u8>)>::empty(), Uuid { value: 0 }, fetch_partition_step(version))
            == Ok::<Uuid, Error>(Uuid { value: 0 }));
    }
}

pub open spec fn fetch_partition_wf_at(version: i16) -> spec_fn(FetchPartition) -> bool {
    |f: FetchPartition| fetch_partition_wf(f, version)
}

proof fn lemma_fetch_partition_inverts(version: i16)
    ensures
        inverts(fetch_partition_parser(version), fetch_partition_encoder(version), fetch_partition_wf_at(version)),
{
    assert forall|x: FetchPartition, s: Seq<u8>, p: int|
        fetch_partition_wf_at(version)(x) && #[trigger] holds(s, p, fetch_partition_encoder(version)(x)) implies #[trigger] fetch_partition_parser(
        version,
    )(s, p) == Ok::<(FetchPartition, int), Error>((x, p + fetch_partition_encoder(version)(x).len())) by {
        lemma_fetch_partition_round_trip(x, version, s, p);
    }
}

/// The topic is named the way `version` names topics, and a name fits a `STRING`.
pub open spec fn topic_ref_wf(t: TopicRefView, version: i16) -> bool {
    &&& (t is Name <==> version <= 12)
    &&& topic_ref_fits(t)
}

pub proof fn lemma_topic_ref_round_trip(t: TopicRefView, version: i16, s: Seq<u8>, p: int)
    requires
        topic_ref_wf(t, version),
        holds(s, p, enc_topic_ref(t, version)),
    ensures
        parse_topic_ref(s, p, version) == Ok::<(TopicRefView, int), Error>(
            (t, p + enc_topic_ref(t, version).len()),
        ),
{
    match t {
        TopicRefView::Name(n) => {
            if version <= 11 {
                crate::types::lemma_nullable_string_round_trip(Some(n), s, p);
            } else {
                crate::types::lemma_compact_string_round_trip(n, s, p, "non-nullable field topic was serialized as null");
            }
        },
        TopicRefView::Id(u) => {
            crate::types::lemma_uuid_round_trip(u, s, p);
        },
    }
}

/// A topic as it can stand in a request at `version`.
pub open spec fn fetch_topic_wf(t: FetchTopicView, version: i16) -> bool {
    &&& t.version == version
    &&& topic_ref_wf(t.topic, version)
    &&& t.partitions.len() < 0x7fff_ffff
    &&& forall|i: int| 0 <= i < t.partitions.len() ==> fetch_partition_wf(#[trigger] t.partitions[i], version)
}

/// A topic entry of a Fetch request reads back as written at `version`.
#[verifier::rlimit(60)]
pub proof fn lemma_fetch_topic_round_trip(t: FetchTopicView, version: i16, s: Seq<u8>, p: int)
    requires
        4 <= version <= 17,
        fetch_topic_wf(t, version),
        holds(s, p, enc_fetch_topic(t, version)),
    ensures
        parse_fetch_topic(s, p, version) == Ok::<(FetchTopicView, int), Error>(
            (t, p + enc_fetch_topic(t, version).len()),
        ),
{
    let a = enc_topic_ref(t.topic, version);
    let b = enc_vcount(t.partitions.len(), version) + enc_list(fetch_partition_encoder(version), t.partitions);
    let c: Seq<u8> = if version >= 12 { enc_no_tagged_fields() } else { Seq::empty() };
    assert(enc_fetch_topic(t, version) =~= a + b + c);
    lemma_holds_split(s, p, a + b, c);
    lemma_holds_split(s, p, a, b);
    lemma_topic_ref_round_trip(t.topic, version, s, p);
    lemma_fetch_partition_inverts(version);
    assert(crate::arrays::all_wf(fetch_partition_wf_at(version), Some(t.partitions)));
    if version <= 11 {
        assert(b == crate::arrays::enc_array(fetch_partition_encoder(version), Some(t.partitions)));
        crate::arrays::lemma_array_round_trip(fetch_partition_parser(version), fetch_partition_encoder(version), fetch_partition_wf_at(version), Some(t.partitions), s, p + a.len());
    } else {
        assert(b == crate::arrays::enc_compact_array(fetch_partition_encoder(version), Some(t.partitions)));
        crate::arrays::lemma_compact_array_round_trip(fetch_partition_parser(version), fetch_partition_encoder(version), fetch_partition_wf_at(version), Some(t.partitions), s, p + a.len());
        crate::tagged::lemma_no_tagged_fields_round_trip(s, p + a.len() + b.len());
    }
}

/// A forgotten topic as it can stand in a request at `version`.
pub open spec fn forgotten_topic_wf(t: ForgottenTopicView, version: i16) -> bool {
    &&& t.version == version
    &&& topic_ref_wf(t.topic, version)
    &&& t.partitions.len() < 0x7fff_ffff
}

pub proof fn lemma_forgotten_topic_round_trip(t: ForgottenTopicView, version: i16, s: Seq<u8>, p: int)
    requires
        forgotten_topic_wf(t, version),
        holds(s, p, enc_forgotten_topic(t, version)),
    ensures
        parse_forgotten_topic(s, p, version) == Ok::<(ForgottenTopicView, int), Error>(
            (t, p + enc_forgotten_topic(t, version).len()),
        ),
{
    let a = enc_topic_ref(t.topic, version);
    let b = enc_vcount(t.partitions.len(), version) + enc_list(i32_encoder(), t.partitions);
    let c: Seq<u8> = if version >= 12 { enc_no_tagged_fields() } else { Seq::empty() };
    assert(enc_forgotten_topic(t, version) =~= a + b + c);
    lemma_holds_split(s, p, a + b, c);
    lemma_holds_split(s, p, a, b);
    lemma_topic_ref_round_trip(t.topic, version, s, p);
    crate::arrays::lemma_i32_inverts();
    assert(crate::arrays::all_wf(crate::arrays::any_i32(), Some(t.partitions)));
    if version <= 11 {
        crate::arrays::lemma_array_round_trip(i32_parser(), i32_encoder(), crate::arrays::any_i32(), Some(t.partitions), s, p + a.len());
    } else {
        crate::arrays::lemma_compact_array_round_trip(i32_parser(), i32_encoder(), crate::arrays::any_i32(), Some(t.partitions), s, p + a.len());
        crate::tagged::lemma_no_tagged_fields_round_trip(s, p + a.len() + b.len());
    }
}

} // verus!
