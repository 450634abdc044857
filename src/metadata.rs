use vstd::prelude::*;
use vstd::string::{StrSliceExecFns, StringSliceAdditionalSpecFns};
use vstd::utf8::{decode_utf8, decode_utf8_encode_utf8, valid_utf8};

use crate::arrays::{
    i32_parser, opt_seq, parse_compact_array, read_compact_i32_array, read_compact_uuid_array,
    uuid_parser,
};
use crate::error::Error;
use crate::model::{index_of_id_from, Catalog, Partition, PartitionView, Topic, TopicView};
use crate::record::{RecordBatch, RecordBatchView, RecordView, Record, read_record_batch, parse_record_batch};
use crate::tagged::{parse_tagged_fields, read_tagged_fields, tf_views};
use crate::types::{parse_compact_string, parse_uuid, read_compact_string, read_uuid, Uuid};
use crate::wire::{agrees, need, parse_i32, parse_u8, read_i32, read_u8};

verus! {

pub const TOPIC_RECORD_TYPE: u8 = 2;

pub const PARTITION_RECORD_TYPE: u8 = 3;

// ---------------------------------------------------------------- value data

/// The prefix of a metadata record's value: frame version, type and version; the rest is data.
pub struct ValueData {
    pub frame_version: u8,
    pub record_type: u8,
    pub version: u8,
    pub data: Vec<u8>,
}

pub struct ValueDataView {
    pub frame_version: u8,
    pub record_type: u8,
    pub version: u8,
    pub data: Seq<u8>,
}

impl View for ValueData {
    type V = ValueDataView;

    open spec fn view(&self) -> ValueDataView {
        ValueDataView {
            frame_version: self.frame_version,
            record_type: self.record_type,
            version: self.version,
            data: self.data@,
        }
    }
}

impl ValueData {
    pub fn new(frame_version: u8, record_type: u8, version: u8, data: Vec<u8>) -> (r: ValueData)
        ensures
            r@ == (ValueDataView { frame_version, record_type, version, data: data@ }),
    {
        ValueData { frame_version, record_type, version, data }
    }

    pub fn frame_version(&self) -> (r: u8)
        ensures
            r == self.frame_version,
    {
        self.frame_version
    }

    pub fn record_type(&self) -> (r: u8)
        ensures
            r == self.record_type,
    {
        self.record_type
    }

    pub fn version(&self) -> (r: u8)
        ensures
            r == self.version,
    {
        self.version
    }

    pub fn data(&self) -> (r: &[u8])
        ensures
            r@ == self.data@,
    {
        self.data.as_slice()
    }
}

pub open spec fn parse_value_data(b: Seq<u8>) -> Result<ValueDataView, Error> {
    if !need(b, 0, 3) {
        Err(Error::BufferUnderflow)
    } else {
        Ok(
            ValueDataView {
                frame_version: b[0],
                record_type: b[1],
                version: b[2],
                data: b.subrange(3, b.len() as int),
            },
        )
    }
}

pub open spec fn enc_value_data(v: ValueDataView) -> Seq<u8> {
    seq![v.frame_version, v.record_type, v.version] + v.data
}

pub fn write_value_data(out: &mut Vec<u8>, v: &ValueData)
    ensures
        final(out)@ == old(out)@ + enc_value_data(v@),
{
    out.push(v.frame_version);
    out.push(v.record_type);
    out.push(v.version);
    crate::types::write_raw(out, v.data.as_slice());
    assert(final(out)@ =~= old(out)@ + enc_value_data(v@));
}

pub fn read_value_data(b: &[u8]) -> (r: Result<ValueData, Error>)
    ensures
        match parse_value_data(b@) {
            Ok(v) => r is Ok && r->Ok_0@ == v,
            Err(e) => r == Err::<ValueData, Error>(e),
        },
{
    let mut pos: usize = 0;
    let frame_version = read_u8(b, &mut pos)?;
    let record_type = read_u8(b, &mut pos)?;
    let version = read_u8(b, &mut pos)?;
    let data = crate::types::read_raw(b, &mut pos, b.len() - 3)?;
    Ok(ValueData { frame_version, record_type, version, data })
}

// ---------------------------------------------------------------- topic record

/// A topic's creation: its name and identifier.
pub struct TopicRecord {
    pub name: Vec<u8>,
    pub topic_id: Uuid,
}

impl View for TopicRecord {
    type V = (Seq<u8>, Uuid);

    open spec fn view(&self) -> (Seq<u8>, Uuid) {
        (self.name@, self.topic_id)
    }
}

impl TopicRecord {
    pub fn new(name: &str, topic_id: Uuid) -> (r: TopicRecord)
        ensures
            r@ == (name.spec_bytes(), topic_id),
    {
        TopicRecord { name: name.as_bytes_vec(), topic_id }
    }

    pub fn name(&self) -> (r: &[u8])
        ensures
            r@ == self.name@,
    {
        self.name.as_slice()
    }

    pub fn topic_id(&self) -> (r: Uuid)
        ensures
            r == self.topic_id,
    {
        self.topic_id
    }
}

/// A topic record; only version 0 exists.
pub open spec fn parse_topic_record(s: Seq<u8>, p: int, version: i16) -> Result<
    ((Seq<u8>, Uuid), int),
    Error,
> {
    if version != 0 {
        Err(Error::UnsupportedVersion)
    } else {
        match parse_compact_string(s, p, "non-nullable field name was serialized as null") {
            Ok((name, q1)) => match parse_uuid(s, q1) {
                Ok((id, q2)) => match parse_tagged_fields(s, q2) {
                    Ok((_, q3)) => Ok(((name, id), q3)),
                    Err(e) => Err(e),
                },
                Err(e) => Err(e),
            },
            Err(e) => Err(e),
        }
    }
}

pub open spec fn enc_topic_record(t: (Seq<u8>, Uuid)) -> Seq<u8> {
    crate::types::enc_compact_string(t.0) + crate::types::enc_uuid(t.1) + crate::tagged::enc_no_tagged_fields()
}

pub fn write_topic_record(out: &mut Vec<u8>, t: &TopicRecord)
    requires
        t.name@.len() < 0xffff_ffff,
    ensures
        final(out)@ == old(out)@ + enc_topic_record(t@),
{
    crate::types::write_compact_nullable_string(out, Some(t.name.as_slice()));
    crate::types::write_uuid(out, t.topic_id);
    crate::tagged::write_no_tagged_fields(out);
    assert(final(out)@ =~= old(out)@ + enc_topic_record(t@));
}

pub fn read_topic_record(data: &[u8], pos: &mut usize, version: i16) -> (r: Result<TopicRecord, Error>)
    requires
        *old(pos) <= data@.len(),
    ensures
        *final(pos) <= data@.len(),
        agrees(r, *final(pos), parse_topic_record(data@, *old(pos) as int, version)),
{
    if version != 0 {
        return Err(Error::UnsupportedVersion);
    }
    let name = read_compact_string(data, pos, "non-nullable field name was serialized as null")?;
    let topic_id = read_uuid(data, pos)?;
    let _ = read_tagged_fields(data, pos)?;
    Ok(TopicRecord { name, topic_id })
}

// ---------------------------------------------------------------- partition record

/// A partition's assignment, versions 0 to 2.
pub struct PartitionRecord {
    pub version: i16,
    pub partition_id: i32,
    pub topic_id: Uuid,
    pub replicas: Vec<i32>,
    pub isr: Vec<i32>,
    pub removing_replicas: Vec<i32>,
    pub adding_replicas: Vec<i32>,
    pub leader: i32,
    pub leader_epoch: i32,
    pub partition_epoch: i32,
    pub directories: Vec<Uuid>,
    pub leader_recovery_state: u8,
    pub eligible_leader_replicas: Option<Vec<i32>>,
    pub last_known_elr: Option<Vec<i32>>,
}

pub struct PartitionRecordView {
    pub version: i16,
    pub partition_id: i32,
    pub topic_id: Uuid,
    pub replicas: Seq<i32>,
    pub isr: Seq<i32>,
    pub removing_replicas: Seq<i32>,
    pub adding_replicas: Seq<i32>,
    pub leader: i32,
    pub leader_epoch: i32,
    pub partition_epoch: i32,
    pub directories: Seq<Uuid>,
    pub leader_recovery_state: u8,
    pub eligible_leader_replicas: Option<Seq<i32>>,
    pub last_known_elr: Option<Seq<i32>>,
}

impl View for PartitionRecord {
    type V = PartitionRecordView;

    open spec fn view(&self) -> PartitionRecordView {
        PartitionRecordView {
            version: self.version,
            partition_id: self.partition_id,
            topic_id: self.topic_id,
            replicas: self.replicas@,
            isr: self.isr@,
            removing_replicas: self.removing_replicas@,
            adding_replicas: self.adding_replicas@,
            leader: self.leader,
            leader_epoch: self.leader_epoch,
            partition_epoch: self.partition_epoch,
            directories: self.directories@,
            leader_recovery_state: self.leader_recovery_state,
            eligible_leader_replicas: opt_seq(self.eligible_leader_replicas),
            last_known_elr: opt_seq(self.last_known_elr),
        }
    }
}

impl PartitionRecord {
    pub fn partition_id(&self) -> (r: i32)
        ensures
            r == self.partition_id,
    {
        self.partition_id
    }

    pub fn topic_id(&self) -> (r: Uuid)
        ensures
            r == self.topic_id,
    {
        self.topic_id
    }

    pub fn leader(&self) -> (r: i32)
        ensures
            r == self.leader,
    {
        self.leader
    }

    pub fn leader_epoch(&self) -> (r: i32)
        ensures
            r == self.leader_epoch,
    {
        self.leader_epoch
    }

    pub fn partition_epoch(&self) -> (r: i32)
        ensures
            r == self.partition_epoch,
    {
        self.partition_epoch
    }

    pub fn replicas(&self) -> (r: &[i32])
        ensures
            r@ == self.replicas@,
    {
        self.replicas.as_slice()
    }

    pub fn isr(&self) -> (r: &[i32])
        ensures
            r@ == self.isr@,
    {
        self.isr.as_slice()
    }

    pub fn removing_replicas(&self) -> (r: &[i32])
        ensures
            r@ == self.removing_replicas@,
    {
        self.removing_replicas.as_slice()
    }

    pub fn adding_replicas(&self) -> (r: &[i32])
        ensures
            r@ == self.adding_replicas@,
    {
        self.adding_replicas.as_slice()
    }

    pub fn directories(&self) -> (r: &[Uuid])
        ensures
            r@ == self.directories@,
    {
        self.directories.as_slice()
    }

    pub fn leader_recovery_state(&self) -> (r: u8)
        ensures
            r == self.leader_recovery_state,
    {
        self.leader_recovery_state
    }
}

/// What the tagged fields of a partition record carry.
pub struct PartitionTags {
    pub leader_recovery_state: u8,
    pub eligible_leader_replicas: Option<Seq<i32>>,
    pub last_known_elr: Option<Seq<i32>>,
}

/// Applies one tagged field: key 0 is the leader recovery state, keys 1 and 2 (from v2 on)
/// the eligible leader replicas and the last known ELR; other keys are skipped.
pub open spec fn apply_partition_tag(acc: PartitionTags, t: (u32, Seq<u8>), version: i16) -> Result<
    PartitionTags,
    Error,
> {
    if t.0 == 0 {
        match parse_u8(t.1, 0) {
            Ok((v, _)) => Ok(PartitionTags { leader_recovery_state: v, ..acc }),
            Err(e) => Err(e),
        }
    } else if t.0 == 1 && version >= 2 {
        match parse_compact_array(i32_parser(), t.1, 0) {
            Ok((Some(v), _)) => Ok(PartitionTags { eligible_leader_replicas: Some(v), ..acc }),
            Ok((None, _)) => Ok(acc),
            Err(e) => Err(e),
        }
    } else if t.0 == 2 && version >= 2 {
        match parse_compact_array(i32_parser(), t.1, 0) {
            Ok((Some(v), _)) => Ok(PartitionTags { last_known_elr: Some(v), ..acc }),
            Ok((None, _)) => Ok(acc),
            Err(e) => Err(e),
        }
    } else {
        Ok(acc)
    }
}

pub open spec fn fold_partition_tags(ts: Seq<(u32, Seq<u8>)>, version: i16) -> Result<
    PartitionTags,
    Error,
>
    decreases ts.len(),
{
    if ts.len() == 0 {
        Ok(PartitionTags { leader_recovery_state: 0, eligible_leader_replicas: None, last_known_elr: None })
    } else {
        match fold_partition_tags(ts.drop_last(), version) {
            Ok(acc) => apply_partition_tag(acc, ts.last(), version),
            Err(e) => Err(e),
        }
    }
}

pub open spec fn non_null<T>(r: Result<(Option<Seq<T>>, int), Error>, field: &'static str) -> Result<
    (Seq<T>, int),
    Error,
> {
    match r {
        Ok((Some(v), q)) => Ok((v, q)),
        Ok((None, _)) => Err(Error::IllegalArgument(field)),
        Err(e) => Err(e),
    }
}

/// The fields after the topic id: four non-null compact arrays, three `INT32`s, the
/// directories from v1 on, then the tagged fields.
pub open spec fn parse_partition_record_rest(
    s: Seq<u8>,
    p: int,
    version: i16,
    partition_id: i32,
    topic_id: Uuid,
) -> Result<(PartitionRecordView, int), Error> {
    match non_null(parse_compact_array(i32_parser(), s, p), "non-nullable field replicas was serialized as null") {
        Ok((replicas, q1)) => match non_null(parse_compact_array(i32_parser(), s, q1), "non-nullable field isr was serialized as null") {
            Ok((isr, q2)) => match non_null(parse_compact_array(i32_parser(), s, q2), "non-nullable field removing_replicas was serialized as null") {
                Ok((removing, q3)) => match non_null(parse_compact_array(i32_parser(), s, q3), "non-nullable field adding_replicas was serialized as null") {
                    Ok((adding, q4)) => match parse_i32(s, q4) {
                        Ok((leader, q5)) => match parse_i32(s, q5) {
                            Ok((leader_epoch, q6)) => match parse_i32(s, q6) {
                                Ok((partition_epoch, q7)) => {
                                    let dirs: Result<(Seq<Uuid>, int), Error> = if version >= 1 {
                                        non_null(parse_compact_array(uuid_parser(), s, q7), "non-nullable field directories was serialized as null")
                                    } else {
                                        Ok((Seq::empty(), q7))
                                    };
                                    match dirs {
                                        Ok((directories, q8)) => match parse_tagged_fields(s, q8) {
                                            Ok((ts, q9)) => match fold_partition_tags(ts, version) {
                                                Ok(tags) => Ok((PartitionRecordView {
                                                    version,
                                                    partition_id,
                                                    topic_id,
                                                    replicas,
                                                    isr,
                                                    removing_replicas: removing,
                                                    adding_replicas: adding,
                                                    leader,
                                                    leader_epoch,
                                                    partition_epoch,
                                                    directories,
                                                    leader_recovery_state: tags.leader_recovery_state,
                                                    eligible_leader_replicas: tags.eligible_leader_replicas,
                                                    last_known_elr: tags.last_known_elr,
                                                }, q9)),
                                                Err(e) => Err(e),
                                            },
                                            Err(e) => Err(e),
                                        },
                                        Err(e) => Err(e),
                                    }
                                },
                                Err(e) => Err(e),
                            },
                            Err(e) => Err(e),
                        },
                        Err(e) => Err(e),
                    },
                    Err(e) => Err(e),
                },
                Err(e) => Err(e),
            },
            Err(e) => Err(e),
        },
        Err(e) => Err(e),
    }
}

/// A partition record at `version` (0 to 2; any other is `UnsupportedVersion`).
pub open spec fn parse_partition_record(s: Seq<u8>, p: int, version: i16) -> Result<
    (PartitionRecordView, int),
    Error,
> {
    if !(0 <= version <= 2) {
        Err(Error::UnsupportedVersion)
    } else {
        match parse_i32(s, p) {
            Ok((partition_id, q1)) => match parse_uuid(s, q1) {
                Ok((topic_id, q2)) => parse_partition_record_rest(s, q2, version, partition_id, topic_id),
                Err(e) => Err(e),
            },
            Err(e) => Err(e),
        }
    }
}

fn read_non_null_i32s(data: &[u8], pos: &mut usize, field: &'static str) -> (r: Result<Vec<i32>, Error>)
    requires
        *old(pos) <= data@.len(),
    ensures
        *final(pos) <= data@.len(),
        agrees(r, *final(pos), non_null(parse_compact_array(i32_parser(), data@, *old(pos) as int), field)),
{
    match read_compact_i32_array(data, pos)? {
        Some(v) => Ok(v),
        None => Err(Error::IllegalArgument(field)),
    }
}

fn read_partition_tags(ts: &[crate::tagged::TaggedField], version: i16) -> (r: Result<
    (u8, Option<Vec<i32>>, Option<Vec<i32>>),
    Error,
>)
    ensures
        match fold_partition_tags(tf_views(ts@), version) {
            Ok(t) => r is Ok && r->Ok_0.0 == t.leader_recovery_state && opt_seq(r->Ok_0.1)
                == t.eligible_leader_replicas && opt_seq(r->Ok_0.2) == t.last_known_elr,
            Err(e) => r == Err::<(u8, Option<Vec<i32>>, Option<Vec<i32>>), Error>(e),
        },
{
    let ghost vs = tf_views(ts@);
    let mut lrs: u8 = 0;
    let mut elr: Option<Vec<i32>> = None;
    let mut lke: Option<Vec<i32>> = None;
    let mut i: usize = 0;
    assert(vs.subrange(0, 0) =~= Seq::<(u32, Seq<u8>)>::empty());
    while i < ts.len()
        invariant
            i <= ts@.len(),
            vs == tf_views(ts@),
            fold_partition_tags(vs.subrange(0, i as int), version) == Ok::<PartitionTags, Error>(
                PartitionTags {
                    leader_recovery_state: lrs,
                    eligible_leader_replicas: opt_seq(elr),
                    last_known_elr: opt_seq(lke),
                },
            ),
        decreases ts@.len() - i,
    {
        let t = &ts[i];
        assert(vs[i as int] == t@);
        assert(vs.subrange(0, i + 1).drop_last() =~= vs.subrange(0, i as int));
        assert(vs.subrange(0, i + 1).last() == t@);
        proof {
            if fold_partition_tags(vs.subrange(0, i + 1), version) is Err {
                lemma_partition_tags_err(vs, i + 1, version);
            }
        }
        let d = t.data.as_slice();
        let mut p: usize = 0;
        if t.key == 0 {
            lrs = read_u8(d, &mut p)?;
        } else if t.key == 1 && version >= 2 {
            match read_compact_i32_array(d, &mut p)? {
                Some(v) => {
                    elr = Some(v);
                },
                None => {},
            }
        } else if t.key == 2 && version >= 2 {
            match read_compact_i32_array(d, &mut p)? {
                Some(v) => {
                    lke = Some(v);
                },
                None => {},
            }
        }
        i = i + 1;
    }
    assert(vs.subrange(0, vs.len() as int) =~= vs);
    Ok((lrs, elr, lke))
}

proof fn lemma_partition_tags_err(vs: Seq<(u32, Seq<u8>)>, k: int, version: i16)
    requires
        0 <= k <= vs.len(),
        fold_partition_tags(vs.subrange(0, k), version) is Err,
    ensures
        fold_partition_tags(vs, version) == fold_partition_tags(vs.subrange(0, k), version),
    decreases vs.len() - k,
{
    if k == vs.len() {
        assert(vs.subrange(0, k) =~= vs);
    } else {
        assert(vs.subrange(0, k + 1).drop_last() =~= vs.subrange(0, k));
        lemma_partition_tags_err(vs, k + 1, version);
    }
}

pub fn read_partition_record(data: &[u8], pos: &mut usize, version: i16) -> (r: Result<
    PartitionRecord,
    Error,
>)
    requires
        *old(pos) <= data@.len(),
    ensures
        *final(pos) <= data@.len(),
        agrees(r, *final(pos), parse_partition_record(data@, *old(pos) as int, version)),
{
    if !(0 <= version && version <= 2) {
        return Err(Error::UnsupportedVersion);
    }
    let partition_id = read_i32(data, pos)?;
    let topic_id = read_uuid(data, pos)?;
    let replicas = read_non_null_i32s(data, pos, "non-nullable field replicas was serialized as null")?;
    let isr = read_non_null_i32s(data, pos, "non-nullable field isr was serialized as null")?;
    let removing_replicas = read_non_null_i32s(data, pos, "non-nullable field removing_replicas was serialized as null")?;
    let adding_replicas = read_non_null_i32s(data, pos, "non-nullable field adding_replicas was serialized as null")?;
    let leader = read_i32(data, pos)?;
    let leader_epoch = read_i32(data, pos)?;
    let partition_epoch = read_i32(data, pos)?;
    let directories = if version >= 1 {
        match read_compact_uuid_array(data, pos)? {
            Some(v) => v,
            None => {
                return Err(Error::IllegalArgument("non-nullable field directories was serialized as null"));
            },
        }
    } else {
        Vec::new()
    };
    let ts = read_tagged_fields(data, pos)?;
    let (leader_recovery_state, eligible_leader_replicas, last_known_elr) = read_partition_tags(
        ts.0.as_slice(),
        version,
    )?;
    let r = PartitionRecord {
        version,
        partition_id,
        topic_id,
        replicas,
        isr,
        removing_replicas,
        adding_replicas,
        leader,
        leader_epoch,
        partition_epoch,
        directories,
        leader_recovery_state,
        eligible_leader_replicas,
        last_known_elr,
    };
    assert(version < 1 ==> r@.directories =~= Seq::<Uuid>::empty());
    Ok(r)
}

// ---------------------------------------------------------------- the log and the catalog

/// Relies on `String::from_utf8`: it succeeds exactly when the bytes are valid UTF-8, and then
/// holds the characters they encode.
#[verifier::external_body]
fn string_from_utf8(b: Vec<u8>) -> (r: Option<String>)
    ensures
        r is Some <==> valid_utf8(b@),
        r is Some ==> r->Some_0@ == decode_utf8(b@),
{
    String::from_utf8(b).ok()
}

pub open spec fn batch_views(v: Seq<RecordBatch>) -> Seq<RecordBatchView> {
    v.map_values(|b: RecordBatch| b@)
}

/// Record batches one after another from `p`, appended to `acc`, until the bytes run out
/// (`BufferUnderflow` ends the log, leaving an incomplete tail unread); any other error is
/// the log's.
pub open spec fn parse_batches_from(s: Seq<u8>, p: int, acc: Seq<RecordBatchView>) -> Result<
    Seq<RecordBatchView>,
    Error,
>
    decreases s.len() - p,
{
    match parse_record_batch(s, p) {
        Ok((b, q)) => if p < q <= s.len() {
            parse_batches_from(s, q, acc.push(b))
        } else {
            Ok(acc.push(b))
        },
        Err(Error::BufferUnderflow) => Ok(acc),
        Err(e) => Err(e),
    }
}

/// Every complete record batch of a log, in order.
pub fn read_record_batches(data: &[u8]) -> (r: Result<Vec<RecordBatch>, Error>)
    ensures
        match parse_batches_from(data@, 0, Seq::empty()) {
            Ok(bs) => r is Ok && batch_views(r->Ok_0@) == bs,
            Err(e) => r == Err::<Vec<RecordBatch>, Error>(e),
        },
{
    let mut v: Vec<RecordBatch> = Vec::new();
    let mut pos: usize = 0;
    assert(batch_views(v@) =~= Seq::<RecordBatchView>::empty());
    loop
        invariant
            pos <= data@.len(),
            parse_batches_from(data@, 0, Seq::empty()) == parse_batches_from(
                data@,
                pos as int,
                batch_views(v@),
            ),
        decreases data@.len() - pos,
    {
        let ghost before = v@;
        let ghost begin = pos as int;
        match read_record_batch(data, &mut pos) {
            Ok(b) => {
                let ghost bv = b@;
                v.push(b);
                assert(batch_views(v@) =~= batch_views(before).push(bv));
            },
            Err(Error::BufferUnderflow) => {
                return Ok(v);
            },
            Err(e) => {
                return Err(e);
            },
        }
    }
}

/// The partition that a partition record describes.
pub open spec fn partition_of(pr: PartitionRecordView) -> PartitionView {
    PartitionView {
        id: pr.partition_id,
        leader: pr.leader,
        leader_epoch: pr.leader_epoch,
        replicas: pr.replicas,
        isr: pr.isr,
        eligible_leader_replicas: pr.eligible_leader_replicas,
        last_known_elr: pr.last_known_elr,
    }
}

pub open spec fn insert_topic(c: Seq<TopicView>, t: TopicView) -> Seq<TopicView> {
    match index_of_id_from(c, t.id, 0) {
        Some(i) => c.update(i, t),
        None => c.push(t),
    }
}

/// One metadata value applied to the catalog: a topic record (type 2) adds the topic with no
/// partitions, replacing one with the same id; a partition record (type 3) appends its
/// partition to its topic, or is ignored when the topic is unknown; other types are ignored.
pub open spec fn apply_value(c: Seq<TopicView>, v: Seq<u8>) -> Result<Seq<TopicView>, Error> {
    match parse_value_data(v) {
        Err(e) => Err(e),
        Ok(vd) => if vd.record_type == TOPIC_RECORD_TYPE {
            match parse_topic_record(vd.data, 0, vd.version as i16) {
                Ok(((name, id), _)) => if valid_utf8(name) {
                    Ok(insert_topic(c, TopicView { id, name, partitions: Seq::empty() }))
                } else {
                    Err(Error::Utf8Error)
                },
                Err(e) => Err(e),
            }
        } else if vd.record_type == PARTITION_RECORD_TYPE {
            match parse_partition_record(vd.data, 0, vd.version as i16) {
                Ok((pr, _)) => match index_of_id_from(c, pr.topic_id, 0) {
                    Some(i) => Ok(
                        c.update(
                            i,
                            TopicView { partitions: c[i].partitions.push(partition_of(pr)), ..c[i] },
                        ),
                    ),
                    None => Ok(c),
                },
                Err(e) => Err(e),
            }
        } else {
            Ok(c)
        },
    }
}

pub open spec fn apply_records(c: Seq<TopicView>, rs: Seq<RecordView>) -> Result<Seq<TopicView>, Error>
    decreases rs.len(),
{
    if rs.len() == 0 {
        Ok(c)
    } else {
        match apply_records(c, rs.drop_last()) {
            Ok(c2) => match rs.last() {
                RecordView::Value(v) => apply_value(c2, v.value),
                RecordView::Control(_) => Ok(c2),
            },
            Err(e) => Err(e),
        }
    }
}

pub open spec fn apply_batches(c: Seq<TopicView>, bs: Seq<RecordBatchView>) -> Result<
    Seq<TopicView>,
    Error,
>
    decreases bs.len(),
{
    if bs.len() == 0 {
        Ok(c)
    } else {
        match apply_batches(c, bs.drop_last()) {
            Ok(c2) => apply_records(c2, bs.last().records),
            Err(e) => Err(e),
        }
    }
}

proof fn lemma_apply_records_err(c: Seq<TopicView>, rs: Seq<RecordView>, k: int)
    requires
        0 <= k <= rs.len(),
        apply_records(c, rs.subrange(0, k)) is Err,
    ensures
        apply_records(c, rs) == apply_records(c, rs.subrange(0, k)),
    decreases rs.len() - k,
{
    if k == rs.len() {
        assert(rs.subrange(0, k) =~= rs);
    } else {
        assert(rs.subrange(0, k + 1).drop_last() =~= rs.subrange(0, k));
        lemma_apply_records_err(c, rs, k + 1);
    }
}

proof fn lemma_apply_batches_err(c: Seq<TopicView>, bs: Seq<RecordBatchView>, k: int)
    requires
        0 <= k <= bs.len(),
        apply_batches(c, bs.subrange(0, k)) is Err,
    ensures
        apply_batches(c, bs) == apply_batches(c, bs.subrange(0, k)),
    decreases bs.len() - k,
{
    if k == bs.len() {
        assert(bs.subrange(0, k) =~= bs);
    } else {
        assert(bs.subrange(0, k + 1).drop_last() =~= bs.subrange(0, k));
        lemma_apply_batches_err(c, bs, k + 1);
    }
}

fn apply_value_exec(catalog: &mut Catalog, value: &[u8]) -> (r: Result<(), Error>)
    requires
        old(catalog).wf(),
    ensures
        final(catalog).wf(),
        match apply_value(old(catalog)@, value@) {
            Ok(c) => r is Ok && final(catalog)@ == c,
            Err(e) => r == Err::<(), Error>(e),
        },
{
    let vd = read_value_data(value)?;
    let d = vd.data.as_slice();
    let mut p: usize = 0;
    if vd.record_type == TOPIC_RECORD_TYPE {
        let tr = read_topic_record(d, &mut p, vd.version as i16)?;
        let ghost name = tr.name@;
        let id = tr.topic_id;
        match string_from_utf8(tr.name) {
            Some(s) => {
                proof {
                    decode_utf8_encode_utf8(name);
                }
                let t = Topic::new(id, s);
                catalog.insert(t);
                Ok(())
            },
            None => Err(Error::Utf8Error),
        }
    } else if vd.record_type == PARTITION_RECORD_TYPE {
        let pr = read_partition_record(d, &mut p, vd.version as i16)?;
        let n = catalog.len();
        let ghost prv = pr@;
        proof {
            if index_of_id_from(catalog@, pr.topic_id, 0) is Some {
                crate::model::lemma_index_of_id_found_pub(catalog@, pr.topic_id, 0);
            }
        }
        match catalog.index_of_id(pr.topic_id) {
            Some(i) => {
                let part = Partition {
                    id: pr.partition_id,
                    leader: pr.leader,
                    leader_epoch: pr.leader_epoch,
                    replicas: pr.replicas,
                    isr: pr.isr,
                    eligible_leader_replicas: pr.eligible_leader_replicas,
                    last_known_elr: pr.last_known_elr,
                };
                assert(part@ == partition_of(prv));
                catalog.add_partition(i, part);
                Ok(())
            },
            None => Ok(()),
        }
    } else {
        Ok(())
    }
}

/// Builds the catalog from a log's batches, record by record in log order.
pub fn build_catalog(batches: &[RecordBatch]) -> (r: Result<Catalog, Error>)
    ensures
        match apply_batches(Seq::empty(), batch_views(batches@)) {
            Ok(c) => r is Ok && r->Ok_0@ == c && r->Ok_0.wf(),
            Err(e) => r is Err && r->Err_0 == e,
        },
{
    let mut catalog = Catalog::new();
    let ghost bs = batch_views(batches@);
    let mut i: usize = 0;
    assert(bs.subrange(0, 0) =~= Seq::<RecordBatchView>::empty());
    while i < batches.len()
        invariant
            i <= batches@.len(),
            bs == batch_views(batches@),
            catalog.wf(),
            apply_batches(Seq::empty(), bs.subrange(0, i as int)) == Ok::<Seq<TopicView>, Error>(
                catalog@,
            ),
        decreases batches@.len() - i,
    {
        let b = &batches[i];
        assert(bs[i as int] == b@);
        let ghost start = catalog@;
        let ghost rs = b@.records;
        assert(bs.subrange(0, i + 1).drop_last() =~= bs.subrange(0, i as int));
        assert(bs.subrange(0, i + 1).last() == b@);
        proof {
            if apply_batches(Seq::empty(), bs.subrange(0, i + 1)) is Err {
                lemma_apply_batches_err(Seq::empty(), bs, i + 1);
            }
        }
        let mut j: usize = 0;
        assert(rs.subrange(0, 0) =~= Seq::<RecordView>::empty());
        while j < b.records.len()
            invariant
                j <= b.records@.len(),
                rs == crate::record::record_views(b.records@),
                bs == batch_views(batches@),
                i < bs.len(),
                bs[i as int] == b@,
                apply_batches(Seq::empty(), bs.subrange(0, i as int)) == Ok::<Seq<TopicView>, Error>(start),
                bs.subrange(0, i + 1).drop_last() == bs.subrange(0, i as int),
                bs.subrange(0, i + 1).last() == b@,
                catalog.wf(),
                apply_records(start, rs.subrange(0, j as int)) == Ok::<Seq<TopicView>, Error>(
                    catalog@,
                ),
            decreases b.records@.len() - j,
        {
            let rec = &b.records[j];
            assert(rs[j as int] == rec@);
            assert(rs.subrange(0, j + 1).drop_last() =~= rs.subrange(0, j as int));
            assert(rs.subrange(0, j + 1).last() == rec@);
            proof {
                if apply_records(start, rs.subrange(0, j + 1)) is Err {
                    lemma_apply_records_err(start, rs, j + 1);
                }
            }
            match rec {
                Record::Value(v) => {
                    match apply_value_exec(&mut catalog, v.value.as_slice()) {
                        Ok(()) => {},
                        Err(e) => {
                            proof {
                                lemma_apply_records_err(start, rs, j + 1);
                                lemma_apply_batches_err(Seq::empty(), bs, i + 1);
                            }
                            return Err(e);
                        },
                    }
                },
                Record::Control(_) => {},
            }
            j = j + 1;
        }
        assert(rs.subrange(0, rs.len() as int) =~= rs);
        i = i + 1;
    }
    assert(bs.subrange(0, bs.len() as int) =~= bs);
    Ok(catalog)
}

/// The catalog of a whole metadata log: its complete batches read in order and applied.
pub fn load_catalog(data: &[u8]) -> (r: Result<Catalog, Error>)
    ensures
        match parse_batches_from(data@, 0, Seq::empty()) {
            Ok(bs) => match apply_batches(Seq::empty(), bs) {
                Ok(c) => r is Ok && r->Ok_0@ == c && r->Ok_0.wf(),
                Err(e) => r is Err && r->Err_0 == e,
            },
            Err(e) => r is Err && r->Err_0 == e,
        },
{
    let batches = read_record_batches(data)?;
    build_catalog(batches.as_slice())
}

} // verus!
