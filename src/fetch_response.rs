use vstd::prelude::*;

use crate::arrays::{enc_compact_array, parse_compact_array};
use crate::error::Error;
use crate::fetch_request::{
    enc_null_varray, enc_topic_ref, enc_vcount, lemma_varray_count, parse_topic_ref,
    parse_varray, parse_varray_count, read_topic_ref, read_varray_count, topic_ref_fits,
    write_topic_ref, write_varray_count, TopicRef, TopicRefView,
};
use crate::list::{enc_list, lemma_enc_list_push, parse_list, parse_list_from, Encoder, Parser};
use crate::tagged::{
    enc_no_tagged_fields, enc_tagged_fields, fold_tags, keys_ascending, lemma_fold_tags_done,
    lemma_fold_tags_err, lemma_fold_tags_step, parse_tagged_fields, read_tagged_fields,
    tagged_fits, tf_views, write_no_tagged_fields, write_tagged_fields, TaggedField,
};
use crate::types::{
    enc_compact_nullable_string, enc_nullable_string, opt_bytes, parse_compact_nullable_string,
    parse_compact_string, parse_nullable_string, read_compact_nullable_string,
    read_compact_string, read_nullable_string, write_compact_nullable_string,
    write_nullable_string,
};
use crate::varint::{parse_uvarint, read_unsigned_varint, write_unsigned_varint};
use crate::wire::{
    agrees, enc_i16, enc_i32, enc_i64, parse_i16, parse_i32, parse_i64, read_i16, read_i32,
    read_i64, write_i16, write_i32, write_i64,
};

verus! {

// ---------------------------------------------------------------- small records

/// A transaction aborted within the fetched range.
#[derive(Clone, Copy, PartialEq, Eq, Structural)]
pub struct AbortedTransaction {
    pub version: i16,
    pub producer_id: i64,
    pub first_offset: i64,
}

impl AbortedTransaction {
    pub fn v4(producer_id: i64, first_offset: i64) -> (r: AbortedTransaction)
        ensures
            r == (AbortedTransaction { version: 4, producer_id, first_offset }),
    {
        AbortedTransaction { version: 4, producer_id, first_offset }
    }

    pub fn v5(producer_id: i64, first_offset: i64) -> (r: AbortedTransaction)
        ensures
            r == (AbortedTransaction { version: 5, producer_id, first_offset }),
    {
        AbortedTransaction { version: 5, producer_id, first_offset }
    }

    pub fn v6(producer_id: i64, first_offset: i64) -> (r: AbortedTransaction)
        ensures
            r == (AbortedTransaction { version: 6, producer_id, first_offset }),
    {
        AbortedTransaction { version: 6, producer_id, first_offset }
    }

    pub fn v7(producer_id: i64, first_offset: i64) -> (r: AbortedTransaction)
        ensures
            r == (AbortedTransaction { version: 7, producer_id, first_offset }),
    {
        AbortedTransaction { version: 7, producer_id, first_offset }
    }

    pub fn v8(producer_id: i64, first_offset: i64) -> (r: AbortedTransaction)
        ensures
            r == (AbortedTransaction { version: 8, producer_id, first_offset }),
    {
        AbortedTransaction { version: 8, producer_id, first_offset }
    }

    pub fn v9(producer_id: i64, first_offset: i64) -> (r: AbortedTransaction)
        ensures
            r == (AbortedTransaction { version: 9, producer_id, first_offset }),
    {
        AbortedTransaction { version: 9, producer_id, first_offset }
    }

    pub fn v10(producer_id: i64, first_offset: i64) -> (r: AbortedTransaction)
        ensures
            r == (AbortedTransaction { version: 10, producer_id, first_offset }),
    {
        AbortedTransaction { version: 10, producer_id, first_offset }
    }

    pub fn v11(producer_id: i64, first_offset: i64) -> (r: AbortedTransaction)
        ensures
            r == (AbortedTransaction { version: 11, producer_id, first_offset }),
    {
        AbortedTransaction { version: 11, producer_id, first_offset }
    }

    pub fn v12(producer_id: i64, first_offset: i64) -> (r: AbortedTransaction)
        ensures
            r == (AbortedTransaction { version: 12, producer_id, first_offset }),
    {
        AbortedTransaction { version: 12, producer_id, first_offset }
    }

    pub fn v13(producer_id: i64, first_offset: i64) -> (r: AbortedTransaction)
        ensures
            r == (AbortedTransaction { version: 13, producer_id, first_offset }),
    {
        AbortedTransaction { version: 13, producer_id, first_offset }
    }

    pub fn v14(producer_id: i64, first_offset: i64) -> (r: AbortedTransaction)
        ensures
            r == (AbortedTransaction { version: 14, producer_id, first_offset }),
    {
        AbortedTransaction { version: 14, producer_id, first_offset }
    }

    pub fn v15(producer_id: i64, first_offset: i64) -> (r: AbortedTransaction)
        ensures
            r == (AbortedTransaction { version: 15, producer_id, first_offset }),
    {
        AbortedTransaction { version: 15, producer_id, first_offset }
    }

    pub fn v16(producer_id: i64, first_offset: i64) -> (r: AbortedTransaction)
        ensures
            r == (AbortedTransaction { version: 16, producer_id, first_offset }),
    {
        AbortedTransaction { version: 16, producer_id, first_offset }
    }

    pub fn v17(producer_id: i64, first_offset: i64) -> (r: AbortedTransaction)
        ensures
            r == (AbortedTransaction { version: 17, producer_id, first_offset }),
    {
        AbortedTransaction { version: 17, producer_id, first_offset }
    }

    pub fn new(version: i16, producer_id: i64, first_offset: i64) -> (r: AbortedTransaction)
        ensures
            r == (AbortedTransaction { version, producer_id, first_offset }),
    {
        AbortedTransaction { version, producer_id, first_offset }
    }

    pub fn producer_id(&self) -> (r: i64)
        ensures
            r == self.producer_id,
    {
        self.producer_id
    }

    pub fn first_offset(&self) -> (r: i64)
        ensures
            r == self.first_offset,
    {
        self.first_offset
    }
}

/// The epoch end offset reported when a follower's log diverges.
#[derive(Clone, Copy, PartialEq, Eq, Structural)]
pub struct EpochEndOffset {
    pub epoch: i32,
    pub end_offset: i64,
}

impl EpochEndOffset {
    pub fn new(epoch: i32, end_offset: i64) -> (r: EpochEndOffset)
        ensures
            r == (EpochEndOffset { epoch, end_offset }),
    {
        EpochEndOffset { epoch, end_offset }
    }

    pub fn epoch(&self) -> (r: i32)
        ensures
            r == self.epoch,
    {
        self.epoch
    }

    pub fn end_offset(&self) -> (r: i64)
        ensures
            r == self.end_offset,
    {
        self.end_offset
    }
}

/// The current leader and its epoch.
#[derive(Clone, Copy, PartialEq, Eq, Structural)]
pub struct LeaderIdAndEpoch {
    pub leader_id: i32,
    pub leader_epoch: i32,
}

impl LeaderIdAndEpoch {
    pub fn new(leader_id: i32, leader_epoch: i32) -> (r: LeaderIdAndEpoch)
        ensures
            r == (LeaderIdAndEpoch { leader_id, leader_epoch }),
    {
        LeaderIdAndEpoch { leader_id, leader_epoch }
    }

    pub fn leader_id(&self) -> (r: i32)
        ensures
            r == self.leader_id,
    {
        self.leader_id
    }

    pub fn leader_epoch(&self) -> (r: i32)
        ensures
            r == self.leader_epoch,
    {
        self.leader_epoch
    }
}

/// The snapshot a follower should fetch instead.
#[derive(Clone, Copy, PartialEq, Eq, Structural)]
pub struct SnapshotId {
    pub end_offset: i64,
    pub epoch: i32,
}

impl SnapshotId {
    pub fn new(end_offset: i64, epoch: i32) -> (r: SnapshotId)
        ensures
            r == (SnapshotId { end_offset, epoch }),
    {
        SnapshotId { end_offset, epoch }
    }

    pub fn end_offset(&self) -> (r: i64)
        ensures
            r == self.end_offset,
    {
        self.end_offset
    }

    pub fn epoch(&self) -> (r: i32)
        ensures
            r == self.epoch,
    {
        self.epoch
    }
}

pub open spec fn enc_aborted(a: AbortedTransaction, version: i16) -> Seq<u8> {
    enc_i64(a.producer_id) + enc_i64(a.first_offset) + if version >= 12 {
        enc_no_tagged_fields()
    } else {
        Seq::empty()
    }
}

pub open spec fn aborted_encoder(version: i16) -> Encoder<AbortedTransaction> {
    |a: AbortedTransaction| enc_aborted(a, version)
}

pub open spec fn parse_aborted(s: Seq<u8>, p: int, version: i16) -> Result<(AbortedTransaction, int), Error> {
    match parse_i64(s, p) {
        Ok((producer_id, q1)) => match parse_i64(s, q1) {
            Ok((first_offset, q2)) => {
                let a = AbortedTransaction { version, producer_id, first_offset };
                if version >= 12 {
                    match parse_tagged_fields(s, q2) {
                        Ok((_, q3)) => Ok((a, q3)),
                        Err(e) => Err(e),
                    }
                } else {
                    Ok((a, q2))
                }
            },
            Err(e) => Err(e),
        },
        Err(e) => Err(e),
    }
}

pub open spec fn aborted_parser(version: i16) -> Parser<AbortedTransaction> {
    |s: Seq<u8>, p: int| parse_aborted(s, p, version)
}

fn read_aborted_list(data: &[u8], pos: &mut usize, n: usize, version: i16) -> (r: Result<
    Vec<AbortedTransaction>,
    Error,
>)
    requires
        *old(pos) <= data@.len(),
    ensures
        *final(pos) <= data@.len(),
        match parse_list(aborted_parser(version), data@, *old(pos) as int, n as nat) {
            Ok((xs, q)) => r is Ok && r->Ok_0@ == xs && *final(pos) == q,
            Err(e) => r == Err::<Vec<AbortedTransaction>, Error>(e),
        },
{
    let ghost begin = *pos as int;
    let mut v: Vec<AbortedTransaction> = Vec::new();
    let mut i: usize = 0;
    while i < n
        invariant
            i <= n,
            begin == *old(pos),
            *pos <= data@.len(),
            parse_list(aborted_parser(version), data@, begin, n as nat) == parse_list_from(
                aborted_parser(version),
                data@,
                *pos as int,
                (n - i) as nat,
                v@,
            ),
        decreases n - i,
    {
        let producer_id = read_i64(data, pos)?;
        let first_offset = read_i64(data, pos)?;
        if version >= 12 {
            let _ = read_tagged_fields(data, pos)?;
        }
        v.push(AbortedTransaction { version, producer_id, first_offset });
        i = i + 1;
    }
    Ok(v)
}

fn write_aborted_list(out: &mut Vec<u8>, xs: &[AbortedTransaction], version: i16)
    ensures
        final(out)@ == old(out)@ + enc_list(aborted_encoder(version), xs@),
{
    let mut i: usize = 0;
    while i < xs.len()
        invariant
            i <= xs@.len(),
            out@ == old(out)@ + enc_list(aborted_encoder(version), xs@.subrange(0, i as int)),
        decreases xs@.len() - i,
    {
        let a = xs[i];
        let ghost before = out@;
        write_i64(out, a.producer_id);
        write_i64(out, a.first_offset);
        if version >= 12 {
            write_no_tagged_fields(out);
        }
        proof {
            assert(out@ =~= before + enc_aborted(a, version));
            lemma_enc_list_push(aborted_encoder(version), xs@.subrange(0, i as int), a);
            assert(xs@.subrange(0, i as int).push(a) =~= xs@.subrange(0, i + 1));
        }
        i = i + 1;
    }
    assert(xs@.subrange(0, xs@.len() as int) =~= xs@);
}

pub open spec fn enc_epoch_end_offset(x: EpochEndOffset) -> Seq<u8> {
    enc_i32(x.epoch) + enc_i64(x.end_offset) + enc_no_tagged_fields()
}

pub open spec fn enc_leader(x: LeaderIdAndEpoch) -> Seq<u8> {
    enc_i32(x.leader_id) + enc_i32(x.leader_epoch) + enc_no_tagged_fields()
}

pub open spec fn enc_snapshot(x: SnapshotId) -> Seq<u8> {
    enc_i64(x.end_offset) + enc_i32(x.epoch) + enc_no_tagged_fields()
}

pub open spec fn parse_epoch_end_offset(s: Seq<u8>) -> Result<EpochEndOffset, Error> {
    match parse_i32(s, 0) {
        Ok((epoch, q1)) => match parse_i64(s, q1) {
            Ok((end_offset, q2)) => match parse_tagged_fields(s, q2) {
                Ok(_) => Ok(EpochEndOffset { epoch, end_offset }),
                Err(e) => Err(e),
            },
            Err(e) => Err(e),
        },
        Err(e) => Err(e),
    }
}

pub open spec fn parse_leader(s: Seq<u8>) -> Result<LeaderIdAndEpoch, Error> {
    match parse_i32(s, 0) {
        Ok((leader_id, q1)) => match parse_i32(s, q1) {
            Ok((leader_epoch, q2)) => match parse_tagged_fields(s, q2) {
                Ok(_) => Ok(LeaderIdAndEpoch { leader_id, leader_epoch }),
                Err(e) => Err(e),
            },
            Err(e) => Err(e),
        },
        Err(e) => Err(e),
    }
}

pub open spec fn parse_snapshot(s: Seq<u8>) -> Result<SnapshotId, Error> {
    match parse_i64(s, 0) {
        Ok((end_offset, q1)) => match parse_i32(s, q1) {
            Ok((epoch, q2)) => match parse_tagged_fields(s, q2) {
                Ok(_) => Ok(SnapshotId { end_offset, epoch }),
                Err(e) => Err(e),
            },
            Err(e) => Err(e),
        },
        Err(e) => Err(e),
    }
}

// ---------------------------------------------------------------- partition data

/// What a fetch returns for one partition.
pub struct PartitionData {
    pub version: i16,
    pub partition_index: i32,
    pub error_code: i16,
    pub high_watermark: i64,
    pub last_stable_offset: i64,
    pub log_start_offset: i64,
    pub aborted_transactions: Option<Vec<AbortedTransaction>>,
    pub preferred_read_replica: i32,
    pub records: Option<Vec<u8>>,
    pub diverging_epoch: Option<EpochEndOffset>,
    pub current_leader: Option<LeaderIdAndEpoch>,
    pub snapshot_id: Option<SnapshotId>,
}

pub struct PartitionDataView {
    pub version: i16,
    pub partition_index: i32,
    pub error_code: i16,
    pub high_watermark: i64,
    pub last_stable_offset: i64,
    pub log_start_offset: i64,
    pub aborted_transactions: Option<Seq<AbortedTransaction>>,
    pub preferred_read_replica: i32,
    pub records: Option<Seq<u8>>,
    pub diverging_epoch: Option<EpochEndOffset>,
    pub current_leader: Option<LeaderIdAndEpoch>,
    pub snapshot_id: Option<SnapshotId>,
}

impl View for PartitionData {
    type V = PartitionDataView;

    open spec fn view(&self) -> PartitionDataView {
        PartitionDataView {
            version: self.version,
            partition_index: self.partition_index,
            error_code: self.error_code,
            high_watermark: self.high_watermark,
            last_stable_offset: self.last_stable_offset,
            log_start_offset: self.log_start_offset,
            aborted_transactions: match self.aborted_transactions {
                Some(v) => Some(v@),
                None => None,
            },
            preferred_read_replica: self.preferred_read_replica,
            records: opt_bytes(self.records),
            diverging_epoch: self.diverging_epoch,
            current_leader: self.current_leader,
            snapshot_id: self.snapshot_id,
        }
    }
}

impl PartitionData {
    pub fn partition_index(&self) -> (r: i32)
        ensures
            r == self.partition_index,
    {
        self.partition_index
    }

    pub fn error_code(&self) -> (r: i16)
        ensures
            r == self.error_code,
    {
        self.error_code
    }

    pub fn high_watermark(&self) -> (r: i64)
        ensures
            r == self.high_watermark,
    {
        self.high_watermark
    }

    pub fn records(&self) -> (r: Option<&Vec<u8>>)
        ensures
            r is Some <==> self.records is Some,
            r is Some ==> r->Some_0@ == self.records->Some_0@,
    {
        self.records.as_ref()
    }

    pub fn aborted_transactions(&self) -> (r: Option<&[AbortedTransaction]>)
        ensures
            r is Some <==> self.aborted_transactions is Some,
            r is Some ==> r->Some_0@ == self.aborted_transactions->Some_0@,
    {
        match &self.aborted_transactions {
            Some(v) => Some(v.as_slice()),
            None => None,
        }
    }
}

pub struct PartitionDataTags {
    pub diverging_epoch: Option<EpochEndOffset>,
    pub current_leader: Option<LeaderIdAndEpoch>,
    pub snapshot_id: Option<SnapshotId>,
}

/// Keys 0, 1 and 2 of a partition's tagged fields: diverging epoch, current leader, snapshot id.
pub open spec fn partition_data_step() -> spec_fn(PartitionDataTags, (u32, Seq<u8>)) -> Result<
    PartitionDataTags,
    Error,
> {
    |acc: PartitionDataTags, t: (u32, Seq<u8>)|
        if t.0 == 0 {
            match parse_epoch_end_offset(t.1) {
                Ok(x) => Ok(PartitionDataTags { diverging_epoch: Some(x), ..acc }),
                Err(e) => Err(e),
            }
        } else if t.0 == 1 {
            match parse_leader(t.1) {
                Ok(x) => Ok(PartitionDataTags { current_leader: Some(x), ..acc }),
                Err(e) => Err(e),
            }
        } else if t.0 == 2 {
            match parse_snapshot(t.1) {
                Ok(x) => Ok(PartitionDataTags { snapshot_id: Some(x), ..acc }),
                Err(e) => Err(e),
            }
        } else {
            Ok(acc)
        }
}

pub open spec fn no_partition_data_tags() -> PartitionDataTags {
    PartitionDataTags { diverging_epoch: None, current_leader: None, snapshot_id: None }
}

pub open spec fn parse_partition_data_tail(s: Seq<u8>, p: int, version: i16, head: PartitionDataView) -> Result<
    (PartitionDataView, int),
    Error,
> {
    match parse_varray(aborted_parser(version), s, p, version) {
        Ok((aborted_transactions, q1)) => {
            let r2 = if version >= 11 { parse_i32(s, q1) } else { Ok((-1i32, q1)) };
            match r2 {
                Ok((preferred_read_replica, q2)) => {
                    let r3 = if version <= 11 {
                        parse_nullable_string(s, q2)
                    } else {
                        parse_compact_nullable_string(s, q2)
                    };
                    match r3 {
                        Ok((records, q3)) => {
                            let d = PartitionDataView {
                                aborted_transactions,
                                preferred_read_replica,
                                records,
                                ..head
                            };
                            if version >= 12 {
                                match parse_tagged_fields(s, q3) {
                                    Ok((ts, q4)) => match fold_tags(ts, no_partition_data_tags(), partition_data_step()) {
                                        Ok(t) => Ok((PartitionDataView {
                                            diverging_epoch: t.diverging_epoch,
                                            current_leader: t.current_leader,
                                            snapshot_id: t.snapshot_id,
                                            ..d
                                        }, q4)),
                                        Err(e) => Err(e),
                                    },
                                    Err(e) => Err(e),
                                }
                            } else {
                                Ok((d, q3))
                            }
                        },
                        Err(e) => Err(e),
                    }
                },
                Err(e) => Err(e),
            }
        },
        Err(e) => Err(e),
    }
}

pub open spec fn parse_partition_data(s: Seq<u8>, p: int, version: i16) -> Result<
    (PartitionDataView, int),
    Error,
> {
    match parse_i32(s, p) {
        Ok((partition_index, q1)) => match parse_i16(s, q1) {
            Ok((error_code, q2)) => match parse_i64(s, q2) {
                Ok((high_watermark, q3)) => match parse_i64(s, q3) {
                    Ok((last_stable_offset, q4)) => {
                        let r5 = if version >= 5 { parse_i64(s, q4) } else { Ok((-1i64, q4)) };
                        match r5 {
                            Ok((log_start_offset, q5)) => parse_partition_data_tail(s, q5, version, PartitionDataView {
                                version,
                                partition_index,
                                error_code,
                                high_watermark,
                                last_stable_offset,
                                log_start_offset,
                                aborted_transactions: None,
                                preferred_read_replica: -1i32,
                                records: None,
                                diverging_epoch: None,
                                current_leader: None,
                                snapshot_id: None,
                            }),
                            Err(e) => Err(e),
                        }
                    },
                    Err(e) => Err(e),
                },
                Err(e) => Err(e),
            },
            Err(e) => Err(e),
        },
        Err(e) => Err(e),
    }
}

pub open spec fn partition_data_parser(version: i16) -> Parser<PartitionDataView> {
    |s: Seq<u8>, p: int| parse_partition_data(s, p, version)
}

fn read_epoch_end_offset(d: &[u8]) -> (r: Result<EpochEndOffset, Error>)
    ensures
        r == parse_epoch_end_offset(d@),
{
    let mut p: usize = 0;
    let epoch = read_i32(d, &mut p)?;
    let end_offset = read_i64(d, &mut p)?;
    let _ = read_tagged_fields(d, &mut p)?;
    Ok(EpochEndOffset { epoch, end_offset })
}

fn read_leader(d: &[u8]) -> (r: Result<LeaderIdAndEpoch, Error>)
    ensures
        r == parse_leader(d@),
{
    let mut p: usize = 0;
    let leader_id = read_i32(d, &mut p)?;
    let leader_epoch = read_i32(d, &mut p)?;
    let _ = read_tagged_fields(d, &mut p)?;
    Ok(LeaderIdAndEpoch { leader_id, leader_epoch })
}

fn read_snapshot(d: &[u8]) -> (r: Result<SnapshotId, Error>)
    ensures
        r == parse_snapshot(d@),
{
    let mut p: usize = 0;
    let end_offset = read_i64(d, &mut p)?;
    let epoch = read_i32(d, &mut p)?;
    let _ = read_tagged_fields(d, &mut p)?;
    Ok(SnapshotId { end_offset, epoch })
}

fn read_partition_data_tags(ts: &[TaggedField]) -> (r: Result<
    (Option<EpochEndOffset>, Option<LeaderIdAndEpoch>, Option<SnapshotId>),
    Error,
>)
    ensures
        match fold_tags(tf_views(ts@), no_partition_data_tags(), partition_data_step()) {
            Ok(t) => r == Ok::<(Option<EpochEndOffset>, Option<LeaderIdAndEpoch>, Option<SnapshotId>), Error>(
                (t.diverging_epoch, t.current_leader, t.snapshot_id),
            ),
            Err(e) => r == Err::<(Option<EpochEndOffset>, Option<LeaderIdAndEpoch>, Option<SnapshotId>), Error>(e),
        },
{
    let ghost vs = tf_views(ts@);
    let ghost step = partition_data_step();
    proof {
        lemma_fold_tags_done(vs, no_partition_data_tags(), step);
    }
    let mut a: Option<EpochEndOffset> = None;
    let mut b: Option<LeaderIdAndEpoch> = None;
    let mut c: Option<SnapshotId> = None;
    let mut i: usize = 0;
    while i < ts.len()
        invariant
            i <= ts@.len(),
            vs == tf_views(ts@),
            step == partition_data_step(),
            fold_tags(vs.subrange(0, i as int), no_partition_data_tags(), step) == Ok::<PartitionDataTags, Error>(
                PartitionDataTags { diverging_epoch: a, current_leader: b, snapshot_id: c },
            ),
        decreases ts@.len() - i,
    {
        let t = &ts[i];
        assert(vs[i as int] == t@);
        proof {
            lemma_fold_tags_step(vs, no_partition_data_tags(), step, i as int, PartitionDataTags { diverging_epoch: a, current_leader: b, snapshot_id: c });
            if fold_tags(vs.subrange(0, i + 1), no_partition_data_tags(), step) is Err {
                lemma_fold_tags_err(vs, no_partition_data_tags(), step, i + 1);
            }
        }
        if t.key == 0 {
            a = Some(read_epoch_end_offset(t.data.as_slice())?);
        } else if t.key == 1 {
            b = Some(read_leader(t.data.as_slice())?);
        } else if t.key == 2 {
            c = Some(read_snapshot(t.data.as_slice())?);
        }
        i = i + 1;
    }
    Ok((a, b, c))
}

#[verifier::rlimit(60)]
pub fn read_partition_data(data: &[u8], pos: &mut usize, version: i16) -> (r: Result<PartitionData, Error>)
    requires
        *old(pos) <= data@.len(),
    ensures
        *final(pos) <= data@.len(),
        agrees(r, *final(pos), parse_partition_data(data@, *old(pos) as int, version)),
{
    let partition_index = read_i32(data, pos)?;
    let error_code = read_i16(data, pos)?;
    let high_watermark = read_i64(data, pos)?;
    let last_stable_offset = read_i64(data, pos)?;
    let log_start_offset = if version >= 5 { read_i64(data, pos)? } else { -1 };
    let ghost q = *pos as int;
    proof {
        lemma_varray_count(aborted_parser(version), data@, q, version);
    }
    let aborted_transactions = match read_varray_count(data, pos, version)? {
        Some(n) => Some(read_aborted_list(data, pos, n, version)?),
        None => None,
    };
    let preferred_read_replica = if version >= 11 { read_i32(data, pos)? } else { -1 };
    let records = if version <= 11 {
        read_nullable_string(data, pos)?.0
    } else {
        read_compact_nullable_string(data, pos)?.0
    };
    let (diverging_epoch, current_leader, snapshot_id) = if version >= 12 {
        let ts = read_tagged_fields(data, pos)?;
        read_partition_data_tags(ts.0.as_slice())?
    } else {
        (None, None, None)
    };
    Ok(
        PartitionData {
            version,
            partition_index,
            error_code,
            high_watermark,
            last_stable_offset,
            log_start_offset,
            aborted_transactions,
            preferred_read_replica,
            records,
            diverging_epoch,
            current_leader,
            snapshot_id,
        },
    )
}

pub open spec fn partition_data_tags(d: PartitionDataView) -> Seq<(u32, Seq<u8>)> {
    (match d.diverging_epoch {
        Some(x) => seq![(0u32, enc_epoch_end_offset(x))],
        None => Seq::empty(),
    }) + (match d.current_leader {
        Some(x) => seq![(1u32, enc_leader(x))],
        None => Seq::empty(),
    }) + match d.snapshot_id {
        Some(x) => seq![(2u32, enc_snapshot(x))],
        None => Seq::empty(),
    }
}

pub open spec fn enc_partition_data_head(d: PartitionDataView, version: i16) -> Seq<u8> {
    enc_i32(d.partition_index) + enc_i16(d.error_code) + enc_i64(d.high_watermark) + enc_i64(
        d.last_stable_offset,
    ) + (if version >= 5 { enc_i64(d.log_start_offset) } else { Seq::empty() }) + match d.aborted_transactions {
        Some(xs) => enc_vcount(xs.len(), version) + enc_list(aborted_encoder(version), xs),
        None => enc_null_varray(version),
    }
}

pub open spec fn enc_partition_data_tail(d: PartitionDataView, version: i16) -> Seq<u8> {
    (if version >= 11 { enc_i32(d.preferred_read_replica) } else { Seq::empty() }) + (if version <= 11 {
        enc_nullable_string(d.records)
    } else {
        enc_compact_nullable_string(d.records)
    }) + if version >= 12 {
        enc_tagged_fields(partition_data_tags(d))
    } else {
        Seq::empty()
    }
}

pub open spec fn enc_partition_data(d: PartitionDataView, version: i16) -> Seq<u8> {
    enc_partition_data_head(d, version) + enc_partition_data_tail(d, version)
}

/// The partition's lengths fit their fields at `version`: records framed as a `STRING` (at
/// most 32767 bytes) up to v11.
pub open spec fn partition_data_fits(d: PartitionDataView, version: i16) -> bool {
    &&& (d.aborted_transactions is Some ==> d.aborted_transactions->Some_0.len() < 0x7fff_ffff)
    &&& (d.records is Some ==> if version <= 11 {
        d.records->Some_0.len() <= 0x7fff
    } else {
        d.records->Some_0.len() < 0xffff_ffff
    })
}

fn partition_data_tag_fields(d: &PartitionData) -> (tags: Vec<TaggedField>)
    ensures
        tf_views(tags@) == partition_data_tags(d@),
        keys_ascending(partition_data_tags(d@)),
        tagged_fits(partition_data_tags(d@)),
{
    let mut tags: Vec<TaggedField> = Vec::new();
    if let Some(x) = d.diverging_epoch {
        let mut b: Vec<u8> = Vec::new();
        write_i32(&mut b, x.epoch);
        write_i64(&mut b, x.end_offset);
        write_no_tagged_fields(&mut b);
        assert(b@ =~= enc_epoch_end_offset(x));
        tags.push(TaggedField { key: 0, data: b });
    }
    if let Some(x) = d.current_leader {
        let mut b: Vec<u8> = Vec::new();
        write_i32(&mut b, x.leader_id);
        write_i32(&mut b, x.leader_epoch);
        write_no_tagged_fields(&mut b);
        assert(b@ =~= enc_leader(x));
        tags.push(TaggedField { key: 1, data: b });
    }
    if let Some(x) = d.snapshot_id {
        let mut b: Vec<u8> = Vec::new();
        write_i64(&mut b, x.end_offset);
        write_i32(&mut b, x.epoch);
        write_no_tagged_fields(&mut b);
        assert(b@ =~= enc_snapshot(x));
        tags.push(TaggedField { key: 2, data: b });
    }
    assert(tf_views(tags@) =~= partition_data_tags(d@));
    let ghost ts = partition_data_tags(d@);
    proof {
        crate::varint::lemma_uvarint_len(0);
    }
    assert forall|i: int| 0 <= i < ts.len() implies crate::tagged::tf_wf()(#[trigger] ts[i]) by {
        assert(ts[i].1.len() <= 0xffff_ffff);
    }
    tags
}

fn write_partition_data_head(out: &mut Vec<u8>, d: &PartitionData, version: i16)
    requires
        partition_data_fits(d@, version),
    ensures
        final(out)@ == old(out)@ + enc_partition_data_head(d@, version),
{
    write_i32(out, d.partition_index);
    write_i16(out, d.error_code);
    write_i64(out, d.high_watermark);
    write_i64(out, d.last_stable_offset);
    if version >= 5 {
        write_i64(out, d.log_start_offset);
    }
    match &d.aborted_transactions {
        Some(xs) => {
            write_varray_count(out, xs.len(), version);
            write_aborted_list(out, xs.as_slice(), version);
        },
        None => {
            if version <= 11 {
                write_i32(out, -1i32);
            } else {
                write_unsigned_varint(out, 0);
            }
        },
    }
    assert(final(out)@ =~= old(out)@ + enc_partition_data_head(d@, version));
}

fn write_partition_data_tail(out: &mut Vec<u8>, d: &PartitionData, version: i16)
    requires
        partition_data_fits(d@, version),
    ensures
        final(out)@ == old(out)@ + enc_partition_data_tail(d@, version),
{
    if version >= 11 {
        write_i32(out, d.preferred_read_replica);
    }
    let rec: Option<&[u8]> = match &d.records {
        Some(x) => Some(x.as_slice()),
        None => None,
    };
    if version <= 11 {
        write_nullable_string(out, rec);
    } else {
        write_compact_nullable_string(out, rec);
    }
    if version >= 12 {
        let tags = partition_data_tag_fields(d);
        write_tagged_fields(out, tags.as_slice());
    }
    assert(final(out)@ =~= old(out)@ + enc_partition_data_tail(d@, version));
}

/// Writes one partition at `version`; fails with `IllegalArgument`, and only then, where a
/// length does not fit its field.
pub fn write_partition_data(out: &mut Vec<u8>, d: &PartitionData, version: i16) -> (r: Result<(), Error>)
    ensures
        r is Ok <==> partition_data_fits(d@, version),
        r is Ok ==> final(out)@ == old(out)@ + enc_partition_data(d@, version),
{
    match &d.aborted_transactions {
        Some(xs) => {
            if xs.len() >= 0x7fff_ffff {
                return Err(Error::IllegalArgument("array too long"));
            }
        },
        None => {},
    }
    match &d.records {
        Some(b) => {
            if version <= 11 && b.len() > 0x7fff {
                return Err(Error::IllegalArgument("records too long"));
            }
            if version > 11 && b.len() >= 0xffff_ffff {
                return Err(Error::IllegalArgument("records too long"));
            }
        },
        None => {},
    }
    write_partition_data_head(out, d, version);
    write_partition_data_tail(out, d, version);
    assert(final(out)@ =~= old(out)@ + enc_partition_data(d@, version));
    Ok(())
}

// ---------------------------------------------------------------- topics

/// What a fetch returns for one topic.
pub struct FetchableTopicResponse {
    pub version: i16,
    pub topic: TopicRef,
    pub partitions: Vec<PartitionData>,
}

pub struct FetchableTopicResponseView {
    pub version: i16,
    pub topic: TopicRefView,
    pub partitions: Seq<PartitionDataView>,
}

pub open spec fn partition_data_views(v: Seq<PartitionData>) -> Seq<PartitionDataView> {
    v.map_values(|d: PartitionData| d@)
}

impl View for FetchableTopicResponse {
    type V = FetchableTopicResponseView;

    open spec fn view(&self) -> FetchableTopicResponseView {
        FetchableTopicResponseView {
            version: self.version,
            topic: self.topic@,
            partitions: partition_data_views(self.partitions@),
        }
    }
}

impl FetchableTopicResponse {
    pub fn topic_ref(&self) -> (r: &TopicRef)
        ensures
            r@ == self.topic@,
    {
        &self.topic
    }

    pub fn partitions(&self) -> (r: &[PartitionData])
        ensures
            r@ == self.partitions@,
    {
        self.partitions.as_slice()
    }
}

pub open spec fn parse_topic_response(s: Seq<u8>, p: int, version: i16) -> Result<
    (FetchableTopicResponseView, int),
    Error,
> {
    match parse_topic_ref(s, p, version) {
        Ok((topic, q1)) => match parse_varray(partition_data_parser(version), s, q1, version) {
            Ok((Some(partitions), q2)) => {
                let t = FetchableTopicResponseView { version, topic, partitions };
                if version >= 12 {
                    match parse_tagged_fields(s, q2) {
                        Ok((_, q3)) => Ok((t, q3)),
                        Err(e) => Err(e),
                    }
                } else {
                    Ok((t, q2))
                }
            },
            Ok((None, _)) => Err(Error::IllegalArgument("non-nullable field partitions was serialized as null")),
            Err(e) => Err(e),
        },
        Err(e) => Err(e),
    }
}

pub open spec fn topic_response_parser(version: i16) -> Parser<FetchableTopicResponseView> {
    |s: Seq<u8>, p: int| parse_topic_response(s, p, version)
}

fn read_partition_data_list(data: &[u8], pos: &mut usize, n: usize, version: i16) -> (r: Result<
    Vec<PartitionData>,
    Error,
>)
    requires
        *old(pos) <= data@.len(),
    ensures
        *final(pos) <= data@.len(),
        match parse_list(partition_data_parser(version), data@, *old(pos) as int, n as nat) {
            Ok((xs, q)) => r is Ok && partition_data_views(r->Ok_0@) == xs && *final(pos) == q,
            Err(e) => r == Err::<Vec<PartitionData>, Error>(e),
        },
{
    let ghost begin = *pos as int;
    let mut v: Vec<PartitionData> = Vec::new();
    assert(partition_data_views(v@) =~= Seq::<PartitionDataView>::empty());
    let mut i: usize = 0;
    while i < n
        invariant
            i <= n,
            begin == *old(pos),
            *pos <= data@.len(),
            parse_list(partition_data_parser(version), data@, begin, n as nat) == parse_list_from(
                partition_data_parser(version),
                data@,
                *pos as int,
                (n - i) as nat,
                partition_data_views(v@),
            ),
        decreases n - i,
    {
        let x = read_partition_data(data, pos, version)?;
        let ghost before = v@;
        let ghost xv = x@;
        v.push(x);
        assert(partition_data_views(v@) =~= partition_data_views(before).push(xv));
        i = i + 1;
    }
    Ok(v)
}

pub fn read_topic_response(data: &[u8], pos: &mut usize, version: i16) -> (r: Result<
    FetchableTopicResponse,
    Error,
>)
    requires
        *old(pos) <= data@.len(),
    ensures
        *final(pos) <= data@.len(),
        agrees(r, *final(pos), parse_topic_response(data@, *old(pos) as int, version)),
{
    let topic = read_topic_ref(data, pos, version)?;
    let ghost q1 = *pos as int;
    proof {
        lemma_varray_count(partition_data_parser(version), data@, q1, version);
    }
    let partitions = match read_varray_count(data, pos, version)? {
        Some(n) => read_partition_data_list(data, pos, n, version)?,
        None => {
            return Err(Error::IllegalArgument("non-nullable field partitions was serialized as null"));
        },
    };
    if version >= 12 {
        let _ = read_tagged_fields(data, pos)?;
    }
    Ok(FetchableTopicResponse { version, topic, partitions })
}

pub open spec fn partition_data_encoder(version: i16) -> Encoder<PartitionDataView> {
    |d: PartitionDataView| enc_partition_data(d, version)
}

pub open spec fn enc_topic_response(t: FetchableTopicResponseView, version: i16) -> Seq<u8> {
    enc_topic_ref(t.topic, version) + enc_vcount(t.partitions.len(), version) + enc_list(
        partition_data_encoder(version),
        t.partitions,
    ) + if version >= 12 {
        enc_no_tagged_fields()
    } else {
        Seq::empty()
    }
}

pub open spec fn topic_response_fits(t: FetchableTopicResponseView, version: i16) -> bool {
    &&& topic_ref_fits(t.topic)
    &&& t.partitions.len() < 0x7fff_ffff
    &&& forall|j: int| 0 <= j < t.partitions.len() ==> partition_data_fits(#[trigger] t.partitions[j], version)
}

#[verifier::rlimit(60)]
pub fn write_topic_response(out: &mut Vec<u8>, t: &FetchableTopicResponse, version: i16) -> (r: Result<
    (),
    Error,
>)
    ensures
        r is Ok <==> topic_response_fits(t@, version),
        r is Ok ==> final(out)@ == old(out)@ + enc_topic_response(t@, version),
{
    let ghost tv = t@;
    match &t.topic {
        TopicRef::Name(n) => {
            if n.len() > 0x7fff {
                return Err(Error::IllegalArgument("string too long"));
            }
        },
        TopicRef::Id(_) => {},
    }
    if t.partitions.len() >= 0x7fff_ffff {
        return Err(Error::IllegalArgument("array too long"));
    }
    write_topic_ref(out, &t.topic, version);
    write_varray_count(out, t.partitions.len(), version);
    let ghost mid = out@;
    let ghost ps = tv.partitions;
    let mut i: usize = 0;
    while i < t.partitions.len()
        invariant
            i <= t.partitions@.len(),
            ps == partition_data_views(t.partitions@),
            forall|j: int| 0 <= j < i ==> partition_data_fits(#[trigger] ps[j], version),
            out@ == mid + enc_list(partition_data_encoder(version), ps.subrange(0, i as int)),
        decreases t.partitions@.len() - i,
    {
        let d = &t.partitions[i];
        assert(ps[i as int] == d@);
        write_partition_data(out, d, version)?;
        proof {
            lemma_enc_list_push(partition_data_encoder(version), ps.subrange(0, i as int), d@);
            assert(ps.subrange(0, i as int).push(d@) =~= ps.subrange(0, i + 1));
        }
        i = i + 1;
    }
    assert(ps.subrange(0, ps.len() as int) =~= ps);
    if version >= 12 {
        write_no_tagged_fields(out);
    }
    assert(final(out)@ =~= old(out)@ + enc_topic_response(tv, version));
    Ok(())
}

// ---------------------------------------------------------------- node endpoints

/// A broker's address, reported from v16 on.
pub struct NodeEndpoint {
    pub node_id: i32,
    pub host: Vec<u8>,
    pub port: i32,
    pub rack: Option<Vec<u8>>,
}

pub struct NodeEndpointView {
    pub node_id: i32,
    pub host: Seq<u8>,
    pub port: i32,
    pub rack: Option<Seq<u8>>,
}

impl View for NodeEndpoint {
    type V = NodeEndpointView;

    open spec fn view(&self) -> NodeEndpointView {
        NodeEndpointView { node_id: self.node_id, host: self.host@, port: self.port, rack: opt_bytes(self.rack) }
    }
}

impl NodeEndpoint {
    pub fn node_id(&self) -> (r: i32)
        ensures
            r == self.node_id,
    {
        self.node_id
    }

    pub fn host(&self) -> (r: &[u8])
        ensures
            r@ == self.host@,
    {
        self.host.as_slice()
    }

    pub fn port(&self) -> (r: i32)
        ensures
            r == self.port,
    {
        self.port
    }

    pub fn rack(&self) -> (r: Option<&[u8]>)
        ensures
            r is Some <==> self.rack is Some,
            r is Some ==> r->Some_0@ == self.rack->Some_0@,
    {
        match &self.rack {
            Some(v) => Some(v.as_slice()),
            None => None,
        }
    }
}

pub open spec fn enc_node_endpoint(n: NodeEndpointView) -> Seq<u8> {
    enc_i32(n.node_id) + enc_compact_nullable_string(Some(n.host)) + enc_i32(n.port)
        + enc_compact_nullable_string(n.rack) + enc_no_tagged_fields()
}

pub open spec fn node_endpoint_encoder() -> Encoder<NodeEndpointView> {
    |n: NodeEndpointView| enc_node_endpoint(n)
}

pub open spec fn parse_node_endpoint(s: Seq<u8>, p: int) -> Result<(NodeEndpointView, int), Error> {
    match parse_i32(s, p) {
        Ok((node_id, q1)) => match parse_compact_string(s, q1, "non-nullable field host was serialized as null") {
            Ok((host, q2)) => match parse_i32(s, q2) {
                Ok((port, q3)) => match parse_compact_nullable_string(s, q3) {
                    Ok((rack, q4)) => match parse_tagged_fields(s, q4) {
                        Ok((_, q5)) => Ok((NodeEndpointView { node_id, host, port, rack }, q5)),
                        Err(e) => Err(e),
                    },
                    Err(e) => Err(e),
                },
                Err(e) => Err(e),
            },
            Err(e) => Err(e),
        },
        Err(e) => Err(e),
    }
}

pub open spec fn node_endpoint_parser() -> Parser<NodeEndpointView> {
    |s: Seq<u8>, p: int| parse_node_endpoint(s, p)
}

pub open spec fn node_endpoint_views(v: Seq<NodeEndpoint>) -> Seq<NodeEndpointView> {
    v.map_values(|n: NodeEndpoint| n@)
}

fn read_node_endpoints(data: &[u8], pos: &mut usize, n: usize) -> (r: Result<Vec<NodeEndpoint>, Error>)
    requires
        *old(pos) <= data@.len(),
    ensures
        *final(pos) <= data@.len(),
        match parse_list(node_endpoint_parser(), data@, *old(pos) as int, n as nat) {
            Ok((xs, q)) => r is Ok && node_endpoint_views(r->Ok_0@) == xs && *final(pos) == q,
            Err(e) => r == Err::<Vec<NodeEndpoint>, Error>(e),
        },
{
    let ghost begin = *pos as int;
    let mut v: Vec<NodeEndpoint> = Vec::new();
    assert(node_endpoint_views(v@) =~= Seq::<NodeEndpointView>::empty());
    let mut i: usize = 0;
    while i < n
        invariant
            i <= n,
            begin == *old(pos),
            *pos <= data@.len(),
            parse_list(node_endpoint_parser(), data@, begin, n as nat) == parse_list_from(
                node_endpoint_parser(),
                data@,
                *pos as int,
                (n - i) as nat,
                node_endpoint_views(v@),
            ),
        decreases n - i,
    {
        let node_id = read_i32(data, pos)?;
        let host = read_compact_string(data, pos, "non-nullable field host was serialized as null")?;
        let port = read_i32(data, pos)?;
        let rack = read_compact_nullable_string(data, pos)?.0;
        let _ = read_tagged_fields(data, pos)?;
        let x = NodeEndpoint { node_id, host, port, rack };
        let ghost before = v@;
        let ghost xv = x@;
        v.push(x);
        assert(node_endpoint_views(v@) =~= node_endpoint_views(before).push(xv));
        i = i + 1;
    }
    Ok(v)
}

// ---------------------------------------------------------------- response

/// A Fetch response, v4 to v17.
pub struct Response {
    pub version: i16,
    pub throttle_time_ms: i32,
    pub error_code: i16,
    pub session_id: i32,
    pub responses: Vec<FetchableTopicResponse>,
    pub node_endpoints: Option<Vec<NodeEndpoint>>,
}

pub struct ResponseView {
    pub version: i16,
    pub throttle_time_ms: i32,
    pub error_code: i16,
    pub session_id: i32,
    pub responses: Seq<FetchableTopicResponseView>,
    pub node_endpoints: Option<Seq<NodeEndpointView>>,
}

pub open spec fn topic_response_views(v: Seq<FetchableTopicResponse>) -> Seq<FetchableTopicResponseView> {
    v.map_values(|t: FetchableTopicResponse| t@)
}

impl View for Response {
    type V = ResponseView;

    open spec fn view(&self) -> ResponseView {
        ResponseView {
            version: self.version,
            throttle_time_ms: self.throttle_time_ms,
            error_code: self.error_code,
            session_id: self.session_id,
            responses: topic_response_views(self.responses@),
            node_endpoints: match self.node_endpoints {
                Some(v) => Some(node_endpoint_views(v@)),
                None => None,
            },
        }
    }
}

impl Response {
    pub fn throttle_time_ms(&self) -> (r: i32)
        ensures
            r == self.throttle_time_ms,
    {
        self.throttle_time_ms
    }

    pub fn error_code(&self) -> (r: i16)
        ensures
            r == self.error_code,
    {
        self.error_code
    }

    pub fn session_id(&self) -> (r: i32)
        ensures
            r == self.session_id,
    {
        self.session_id
    }

    pub fn responses(&self) -> (r: &[FetchableTopicResponse])
        ensures
            r@ == self.responses@,
    {
        self.responses.as_slice()
    }

    pub fn node_endpoints(&self) -> (r: Option<&[NodeEndpoint]>)
        ensures
            r is Some <==> self.node_endpoints is Some,
    {
        match &self.node_endpoints {
            Some(v) => Some(v.as_slice()),
            None => None,
        }
    }
}

/// Key 0 of the response's tagged fields: the node endpoints, a non-null compact array.
pub open spec fn response_step() -> spec_fn(Option<Seq<NodeEndpointView>>, (u32, Seq<u8>)) -> Result<
    Option<Seq<NodeEndpointView>>,
    Error,
> {
    |acc: Option<Seq<NodeEndpointView>>, t: (u32, Seq<u8>)|
        if t.0 == 0 {
            match parse_compact_array(node_endpoint_parser(), t.1, 0) {
                Ok((Some(ns), _)) => Ok(Some(ns)),
                Ok((None, _)) => Err(Error::IllegalArgument("non-nullable field node_endpoints was serialized as null")),
                Err(e) => Err(e),
            }
        } else {
            Ok(acc)
        }
}

/// A Fetch response body at `version` (4 to 17; any other is `UnsupportedVersion`).
pub open spec fn parse_response(s: Seq<u8>, p: int, version: i16) -> Result<(ResponseView, int), Error> {
    if !(4 <= version <= 17) {
        Err(Error::UnsupportedVersion)
    } else {
        match parse_i32(s, p) {
            Ok((throttle_time_ms, q1)) => {
                let r2 = if version >= 7 {
                    match parse_i16(s, q1) {
                        Ok((e, q)) => match parse_i32(s, q) {
                            Ok((sid, q2)) => Ok(((e, sid), q2)),
                            Err(x) => Err(x),
                        },
                        Err(x) => Err(x),
                    }
                } else {
                    Ok(((0i16, 0i32), q1))
                };
                match r2 {
                    Ok(((error_code, session_id), q2)) => match parse_varray(topic_response_parser(version), s, q2, version) {
                        Ok((Some(responses), q3)) => {
                            let r = ResponseView { version, throttle_time_ms, error_code, session_id, responses, node_endpoints: None };
                            if version >= 12 {
                                match parse_tagged_fields(s, q3) {
                                    Ok((ts, q4)) => match fold_tags(ts, None, response_step()) {
                                        Ok(ne) => Ok((ResponseView { node_endpoints: ne, ..r }, q4)),
                                        Err(e) => Err(e),
                                    },
                                    Err(e) => Err(e),
                                }
                            } else {
                                Ok((r, q3))
                            }
                        },
                        Ok((None, _)) => Err(Error::IllegalArgument("non-nullable field responses was serialized as null")),
                        Err(e) => Err(e),
                    },
                    Err(e) => Err(e),
                }
            },
            Err(e) => Err(e),
        }
    }
}

fn read_topic_responses(data: &[u8], pos: &mut usize, n: usize, version: i16) -> (r: Result<
    Vec<FetchableTopicResponse>,
    Error,
>)
    requires
        *old(pos) <= data@.len(),
    ensures
        *final(pos) <= data@.len(),
        match parse_list(topic_response_parser(version), data@, *old(pos) as int, n as nat) {
            Ok((xs, q)) => r is Ok && topic_response_views(r->Ok_0@) == xs && *final(pos) == q,
            Err(e) => r == Err::<Vec<FetchableTopicResponse>, Error>(e),
        },
{
    let ghost begin = *pos as int;
    let mut v: Vec<FetchableTopicResponse> = Vec::new();
    assert(topic_response_views(v@) =~= Seq::<FetchableTopicResponseView>::empty());
    let mut i: usize = 0;
    while i < n
        invariant
            i <= n,
            begin == *old(pos),
            *pos <= data@.len(),
            parse_list(topic_response_parser(version), data@, begin, n as nat) == parse_list_from(
                topic_response_parser(version),
                data@,
                *pos as int,
                (n - i) as nat,
                topic_response_views(v@),
            ),
        decreases n - i,
    {
        let x = read_topic_response(data, pos, version)?;
        let ghost before = v@;
        let ghost xv = x@;
        v.push(x);
        assert(topic_response_views(v@) =~= topic_response_views(before).push(xv));
        i = i + 1;
    }
    Ok(v)
}

pub open spec fn ne_view(o: Option<Vec<NodeEndpoint>>) -> Option<Seq<NodeEndpointView>> {
    match o {
        Some(v) => Some(node_endpoint_views(v@)),
        None => None,
    }
}

fn read_response_tags(ts: &[TaggedField]) -> (r: Result<Option<Vec<NodeEndpoint>>, Error>)
    ensures
        match fold_tags(tf_views(ts@), None, response_step()) {
            Ok(o) => r is Ok && match r->Ok_0 {
                Some(v) => o == Some(node_endpoint_views(v@)),
                None => o is None,
            },
            Err(e) => r == Err::<Option<Vec<NodeEndpoint>>, Error>(e),
        },
{
    let ghost vs = tf_views(ts@);
    let ghost step = response_step();
    proof {
        lemma_fold_tags_done(vs, None, step);
    }
    let mut acc: Option<Vec<NodeEndpoint>> = None;
    let mut i: usize = 0;
    while i < ts.len()
        invariant
            i <= ts@.len(),
            vs == tf_views(ts@),
            step == response_step(),
            fold_tags(vs.subrange(0, i as int), None, step) == Ok::<Option<Seq<NodeEndpointView>>, Error>(
                ne_view(acc),
            ),
        decreases ts@.len() - i,
    {
        let t = &ts[i];
        assert(vs[i as int] == t@);
        proof {
            lemma_fold_tags_step(vs, None, step, i as int, ne_view(acc));
            if fold_tags(vs.subrange(0, i + 1), None, step) is Err {
                lemma_fold_tags_err(vs, None, step, i + 1);
            }
        }
        if t.key == 0 {
            let d = t.data.as_slice();
            let mut p: usize = 0;
            let n = read_unsigned_varint(d, &mut p)?;
            if n == 0 {
                return Err(Error::IllegalArgument("non-nullable field node_endpoints was serialized as null"));
            }
            acc = Some(read_node_endpoints(d, &mut p, (n - 1) as usize)?);
        }
        i = i + 1;
    }
    Ok(acc)
}

pub fn read_response(data: &[u8], pos: &mut usize, version: i16) -> (r: Result<Response, Error>)
    requires
        *old(pos) <= data@.len(),
    ensures
        *final(pos) <= data@.len(),
        agrees(r, *final(pos), parse_response(data@, *old(pos) as int, version)),
{
    if !(4 <= version && version <= 17) {
        return Err(Error::UnsupportedVersion);
    }
    let throttle_time_ms = read_i32(data, pos)?;
    let (error_code, session_id) = if version >= 7 {
        let e = read_i16(data, pos)?;
        let sid = read_i32(data, pos)?;
        (e, sid)
    } else {
        (0, 0)
    };
    let ghost q = *pos as int;
    proof {
        lemma_varray_count(topic_response_parser(version), data@, q, version);
    }
    let responses = match read_varray_count(data, pos, version)? {
        Some(n) => read_topic_responses(data, pos, n, version)?,
        None => {
            return Err(Error::IllegalArgument("non-nullable field responses was serialized as null"));
        },
    };
    let node_endpoints = if version >= 12 {
        let ts = read_tagged_fields(data, pos)?;
        read_response_tags(ts.0.as_slice())?
    } else {
        None
    };
    Ok(Response { version, throttle_time_ms, error_code, session_id, responses, node_endpoints })
}

pub open spec fn topic_response_encoder(version: i16) -> Encoder<FetchableTopicResponseView> {
    |t: FetchableTopicResponseView| enc_topic_response(t, version)
}

pub open spec fn enc_response(r: ResponseView) -> Seq<u8> {
    let v = r.version;
    enc_i32(r.throttle_time_ms) + (if v >= 7 {
        enc_i16(r.error_code) + enc_i32(r.session_id)
    } else {
        Seq::empty()
    }) + enc_vcount(r.responses.len(), v) + enc_list(topic_response_encoder(v), r.responses) + if v >= 12 {
        match r.node_endpoints {
            Some(ns) => enc_tagged_fields(seq![(0u32, enc_compact_array(node_endpoint_encoder(), Some(ns)))]),
            None => enc_no_tagged_fields(),
        }
    } else {
        Seq::empty()
    }
}

pub open spec fn response_fits(r: ResponseView) -> bool {
    &&& r.responses.len() < 0x7fff_ffff
    &&& forall|i: int| 0 <= i < r.responses.len() ==> topic_response_fits(#[trigger] r.responses[i], r.version)
    &&& (r.version >= 12 && r.node_endpoints is Some ==> {
        let ns = r.node_endpoints->Some_0;
        &&& node_endpoints_fit(ns)
        &&& enc_compact_array(node_endpoint_encoder(), Some(ns)).len() <= 0xffff_ffff
    })
}

pub open spec fn node_endpoint_fits(n: NodeEndpointView) -> bool {
    n.host.len() < 0xffff_ffff && (n.rack is Some ==> n.rack->Some_0.len() < 0xffff_ffff)
}

pub open spec fn node_endpoints_fit(ns: Seq<NodeEndpointView>) -> bool {
    ns.len() < 0xffff_ffff && forall|i: int| 0 <= i < ns.len() ==> node_endpoint_fits(#[trigger] ns[i])
}

/// Writes the node endpoints as a compact array; fails, and only then, where a length does
/// not fit its field.
fn write_node_endpoints(out: &mut Vec<u8>, ns: &[NodeEndpoint]) -> (r: Result<(), Error>)
    ensures
        r is Ok <==> node_endpoints_fit(node_endpoint_views(ns@)),
        r is Ok ==> final(out)@ == old(out)@ + enc_compact_array(node_endpoint_encoder(), Some(node_endpoint_views(ns@))),
{
    let ghost vs = node_endpoint_views(ns@);
    if ns.len() >= 0xffff_ffff {
        return Err(Error::IllegalArgument("array too long"));
    }
    write_unsigned_varint(out, (ns.len() + 1) as u32);
    let ghost mid = out@;
    let mut i: usize = 0;
    while i < ns.len()
        invariant
            i <= ns@.len(),
            vs == node_endpoint_views(ns@),
            forall|j: int| 0 <= j < i ==> node_endpoint_fits(#[trigger] vs[j]),
            out@ == mid + enc_list(node_endpoint_encoder(), vs.subrange(0, i as int)),
        decreases ns@.len() - i,
    {
        let n = &ns[i];
        assert(vs[i as int] == n@);
        if n.host.len() >= 0xffff_ffff {
            assert(!node_endpoint_fits(vs[i as int]));
            return Err(Error::IllegalArgument("string too long"));
        }
        let rack: Option<&[u8]> = match &n.rack {
            Some(x) => {
                if x.len() >= 0xffff_ffff {
                    assert(!node_endpoint_fits(vs[i as int]));
                    return Err(Error::IllegalArgument("string too long"));
                }
                Some(x.as_slice())
            },
            None => None,
        };
        let ghost before = out@;
        write_i32(out, n.node_id);
        write_compact_nullable_string(out, Some(n.host.as_slice()));
        write_i32(out, n.port);
        write_compact_nullable_string(out, rack);
        write_no_tagged_fields(out);
        proof {
            assert(out@ =~= before + enc_node_endpoint(n@));
            lemma_enc_list_push(node_endpoint_encoder(), vs.subrange(0, i as int), n@);
            assert(vs.subrange(0, i as int).push(n@) =~= vs.subrange(0, i + 1));
        }
        i = i + 1;
    }
    assert(vs.subrange(0, vs.len() as int) =~= vs);
    assert(final(out)@ =~= old(out)@ + enc_compact_array(node_endpoint_encoder(), Some(vs)));
    Ok(())
}

/// Writes a response body at its own version; fails with `IllegalArgument`, and only then,
/// where a length does not fit its field.
#[verifier::rlimit(80)]
pub fn write_response(out: &mut Vec<u8>, r: &Response) -> (res: Result<(), Error>)
    ensures
        res is Ok <==> response_fits(r@),
        res is Ok ==> final(out)@ == old(out)@ + enc_response(r@),
{
    let ghost rv = r@;
    let v = r.version;
    if r.responses.len() >= 0x7fff_ffff {
        return Err(Error::IllegalArgument("array too long"));
    }
    write_i32(out, r.throttle_time_ms);
    if v >= 7 {
        write_i16(out, r.error_code);
        write_i32(out, r.session_id);
    }
    write_varray_count(out, r.responses.len(), v);
    let ghost mid = out@;
    let ghost ts = rv.responses;
    let mut i: usize = 0;
    while i < r.responses.len()
        invariant
            i <= r.responses@.len(),
            ts == topic_response_views(r.responses@),
            rv == r@,
            ts == rv.responses,
            v == rv.version,
            forall|j: int| 0 <= j < i ==> topic_response_fits(#[trigger] ts[j], v),
            out@ == mid + enc_list(topic_response_encoder(v), ts.subrange(0, i as int)),
        decreases r.responses@.len() - i,
    {
        let t = &r.responses[i];
        assert(ts[i as int] == t@);
        match write_topic_response(out, t, v) {
            Ok(()) => {},
            Err(e) => {
                assert(!topic_response_fits(ts[i as int], rv.version));
                assert(rv.responses[i as int] == ts[i as int]);
                assert(!response_fits(rv));
                assert(rv == r@);
                return Err(e);
            },
        }
        proof {
            lemma_enc_list_push(topic_response_encoder(v), ts.subrange(0, i as int), t@);
            assert(ts.subrange(0, i as int).push(t@) =~= ts.subrange(0, i + 1));
        }
        i = i + 1;
    }
    assert(ts.subrange(0, ts.len() as int) =~= ts);
    if v >= 12 {
        match &r.node_endpoints {
            Some(ns) => {
                let mut d: Vec<u8> = Vec::new();
                write_node_endpoints(&mut d, ns.as_slice())?;
                if d.len() > 0xffff_ffff {
                    return Err(Error::IllegalArgument("node endpoints too long"));
                }
                let ghost dv = d@;
                let mut tags: Vec<TaggedField> = Vec::new();
                tags.push(TaggedField { key: 0, data: d });
                assert(tf_views(tags@) =~= seq![(0u32, dv)]);
                assert(crate::tagged::tf_wf()(seq![(0u32, dv)][0]));
                write_tagged_fields(out, tags.as_slice());
            },
            None => {
                write_no_tagged_fields(out);
            },
        }
    }
    assert(final(out)@ =~= old(out)@ + enc_response(rv));
    Ok(())
}

} // verus!
