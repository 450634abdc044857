use vstd::prelude::*;
use vstd::string::StringSliceAdditionalSpecFns;
use vstd::utf8::encode_utf8;

use crate::arrays::opt_seq;
use crate::types::Uuid;

verus! {

/// A partition of a topic, as the metadata log describes it.
pub struct Partition {
    pub id: i32,
    pub leader: i32,
    pub leader_epoch: i32,
    pub replicas: Vec<i32>,
    pub isr: Vec<i32>,
    pub eligible_leader_replicas: Option<Vec<i32>>,
    pub last_known_elr: Option<Vec<i32>>,
}

pub struct PartitionView {
    pub id: i32,
    pub leader: i32,
    pub leader_epoch: i32,
    pub replicas: Seq<i32>,
    pub isr: Seq<i32>,
    pub eligible_leader_replicas: Option<Seq<i32>>,
    pub last_known_elr: Option<Seq<i32>>,
}

impl View for Partition {
    type V = PartitionView;

    open spec fn view(&self) -> PartitionView {
        PartitionView {
            id: self.id,
            leader: self.leader,
            leader_epoch: self.leader_epoch,
            replicas: self.replicas@,
            isr: self.isr@,
            eligible_leader_replicas: opt_seq(self.eligible_leader_replicas),
            last_known_elr: opt_seq(self.last_known_elr),
        }
    }
}

impl Partition {
    pub fn new(
        id: i32,
        leader: i32,
        leader_epoch: i32,
        replicas: Vec<i32>,
        isr: Vec<i32>,
        eligible_leader_replicas: Option<Vec<i32>>,
        last_known_elr: Option<Vec<i32>>,
    ) -> (r: Partition)
        ensures
            r.id == id,
            r.leader == leader,
            r.leader_epoch == leader_epoch,
            r.replicas == replicas,
            r.isr == isr,
            r.eligible_leader_replicas == eligible_leader_replicas,
            r.last_known_elr == last_known_elr,
    {
        Partition { id, leader, leader_epoch, replicas, isr, eligible_leader_replicas, last_known_elr }
    }

    pub fn id(&self) -> (r: i32)
        ensures
            r == self.id,
    {
        self.id
    }

    pub fn leader(&self) -> (r: i32)
        ensures
            r == self.leader,
    {
        self.leader
    }

    pub fn leader_epoch(&self) -> (r: i32)
        ensures
            r == self.leader_epoch,
    {
        self.leader_epoch
    }

    pub fn replicas(&self) -> (r: &[i32])
        ensures
            r@ == self.replicas@,
    {
        self.replicas.as_slice()
    }

    pub fn isr(&self) -> (r: &[i32])
        ensures
            r@ == self.isr@,
    {
        self.isr.as_slice()
    }

    pub fn eligible_leader_replicas(&self) -> (r: Option<&[i32]>)
        ensures
            r is Some <==> self.eligible_leader_replicas is Some,
            r is Some ==> r->Some_0@ == self.eligible_leader_replicas->Some_0@,
    {
        match &self.eligible_leader_replicas {
            Some(v) => Some(v.as_slice()),
            None => None,
        }
    }

    pub fn last_known_elr(&self) -> (r: Option<&[i32]>)
        ensures
            r is Some <==> self.last_known_elr is Some,
            r is Some ==> r->Some_0@ == self.last_known_elr->Some_0@,
    {
        match &self.last_known_elr {
            Some(v) => Some(v.as_slice()),
            None => None,
        }
    }
}

/// A topic: its identifier, its name, and its partitions in the order they were recorded.
pub struct Topic {
    pub id: Uuid,
    pub name: String,
    pub partitions: Vec<Partition>,
}

pub struct TopicView {
    pub id: Uuid,
    pub name: Seq<u8>,
    pub partitions: Seq<PartitionView>,
}

pub open spec fn partition_views(v: Seq<Partition>) -> Seq<PartitionView> {
    v.map_values(|p: Partition| p@)
}

impl View for Topic {
    type V = TopicView;

    open spec fn view(&self) -> TopicView {
        TopicView {
            id: self.id,
            name: encode_utf8(self.name@),
            partitions: partition_views(self.partitions@),
        }
    }
}

impl Topic {
    pub fn new(id: Uuid, name: String) -> (r: Topic)
        ensures
            r@ == (TopicView { id, name: encode_utf8(name@), partitions: Seq::empty() }),
    {
        let t = Topic { id, name, partitions: Vec::new() };
        assert(partition_views(t.partitions@) =~= Seq::<PartitionView>::empty());
        t
    }

    pub fn id(&self) -> (r: Uuid)
        ensures
            r == self.id,
    {
        self.id
    }

    pub fn name(&self) -> (r: &str)
        ensures
            r@ == self.name@,
    {
        self.name.as_str()
    }

    pub fn partitions(&self) -> (r: &[Partition])
        ensures
            r@ == self.partitions@,
    {
        self.partitions.as_slice()
    }

    pub fn add_partition(&mut self, partition: Partition)
        ensures
            final(self)@ == (TopicView {
                partitions: old(self)@.partitions.push(partition@),
                ..old(self)@
            }),
    {
        let ghost p = partition@;
        self.partitions.push(partition);
        assert(partition_views(self.partitions@) =~= partition_views(old(self).partitions@).push(p));
    }
}

pub open spec fn topic_views(v: Seq<Topic>) -> Seq<TopicView> {
    v.map_values(|t: Topic| t@)
}

/// The first topic at or after `i` whose name is `name`.
pub open spec fn index_of_name_from(ts: Seq<TopicView>, name: Seq<u8>, i: int) -> Option<int>
    decreases ts.len() - i,
{
    if i < 0 || i >= ts.len() {
        None
    } else if ts[i].name == name {
        Some(i)
    } else {
        index_of_name_from(ts, name, i + 1)
    }
}

/// The first topic at or after `i` whose identifier is `id`.
pub open spec fn index_of_id_from(ts: Seq<TopicView>, id: Uuid, i: int) -> Option<int>
    decreases ts.len() - i,
{
    if i < 0 || i >= ts.len() {
        None
    } else if ts[i].id == id {
        Some(i)
    } else {
        index_of_id_from(ts, id, i + 1)
    }
}

/// Identity of a topic is its identifier: no two topics share one.
pub open spec fn ids_unique(ts: Seq<TopicView>) -> bool {
    forall|i: int, j: int| 0 <= i < j < ts.len() ==> ts[i].id != ts[j].id
}

pub fn bytes_eq(a: &[u8], b: &[u8]) -> (r: bool)
    ensures
        r == (a@ == b@),
{
    if a.len() != b.len() {
        return false;
    }
    let mut i: usize = 0;
    while i < a.len()
        invariant
            a@.len() == b@.len(),
            i <= a@.len(),
            a@.subrange(0, i as int) == b@.subrange(0, i as int),
        decreases a@.len() - i,
    {
        if a[i] != b[i] {
            assert(a@[i as int] != b@[i as int]);
            return false;
        }
        i = i + 1;
        assert(a@.subrange(0, i as int) =~= a@.subrange(0, i - 1).push(a@[i - 1]));
        assert(b@.subrange(0, i as int) =~= b@.subrange(0, i - 1).push(b@[i - 1]));
    }
    assert(a@ =~= a@.subrange(0, i as int));
    assert(b@ =~= b@.subrange(0, i as int));
    true
}

/// The metadata catalog: topics keyed by identifier, kept in the order they were first added.
pub struct Catalog {
    pub topics: Vec<Topic>,
}

impl View for Catalog {
    type V = Seq<TopicView>;

    open spec fn view(&self) -> Seq<TopicView> {
        topic_views(self.topics@)
    }
}

impl Catalog {
    pub open spec fn wf(&self) -> bool {
        ids_unique(self@)
    }

    pub fn new() -> (r: Catalog)
        ensures
            r@ == Seq::<TopicView>::empty(),
            r.wf(),
    {
        let c = Catalog { topics: Vec::new() };
        assert(c@ =~= Seq::<TopicView>::empty());
        c
    }

    pub fn len(&self) -> (r: usize)
        ensures
            r == self@.len(),
    {
        self.topics.len()
    }

    /// The position of the topic with identifier `id`.
    pub fn index_of_id(&self, id: Uuid) -> (r: Option<usize>)
        ensures
            r == match index_of_id_from(self@, id, 0) {
                Some(i) => Some(i as usize),
                None => None::<usize>,
            },
    {
        let mut i: usize = 0;
        while i < self.topics.len()
            invariant
                i <= self@.len(),
                index_of_id_from(self@, id, 0) == index_of_id_from(self@, id, i as int),
            decreases self@.len() - i,
        {
            assert(self@[i as int] == self.topics@[i as int]@);
            if self.topics[i].id == id {
                return Some(i);
            }
            i = i + 1;
        }
        None
    }

    /// The position of the first topic named `name` (compared byte for byte).
    pub fn index_of_name(&self, name: &[u8]) -> (r: Option<usize>)
        ensures
            r == match index_of_name_from(self@, name@, 0) {
                Some(i) => Some(i as usize),
                None => None::<usize>,
            },
    {
        let mut i: usize = 0;
        while i < self.topics.len()
            invariant
                i <= self@.len(),
                index_of_name_from(self@, name@, 0) == index_of_name_from(self@, name@, i as int),
            decreases self@.len() - i,
        {
            assert(self@[i as int] == self.topics@[i as int]@);
            let t = &self.topics[i];
            let tn = t.name.as_str().as_bytes();
            if bytes_eq(tn, name) {
                return Some(i);
            }
            i = i + 1;
        }
        None
    }

    pub fn topic(&self, i: usize) -> (r: &Topic)
        requires
            i < self@.len(),
        ensures
            r@ == self@[i as int],
    {
        &self.topics[i]
    }

    /// Adds a topic, replacing the one that has the same identifier if there is one.
    pub fn insert(&mut self, topic: Topic)
        requires
            old(self).wf(),
        ensures
            final(self).wf(),
            final(self)@ == match index_of_id_from(old(self)@, topic.id, 0) {
                Some(i) => old(self)@.update(i, topic@),
                None => old(self)@.push(topic@),
            },
    {
        let ghost tv = topic@;
        let n = self.topics.len();
        assert(self@.len() == n);
        proof {
            if index_of_id_from(self@, tv.id, 0) is Some {
                lemma_index_of_id_found(self@, tv.id, 0);
            }
        }
        let found = self.index_of_id(topic.id);
        assert(found is Some ==> index_of_id_from(old(self)@, tv.id, 0) is Some);
        match found {
            Some(i) => {
                proof {
                    lemma_index_of_id_found(old(self)@, tv.id, 0);
                }
                assert(index_of_id_from(old(self)@, tv.id, 0) == Some(i as int));
                self.topics.set(i, topic);
                assert(self@ =~= old(self)@.update(i as int, tv));
                assert(ids_unique(self@)) by {
                    assert forall|a: int, b: int| 0 <= a < b < self@.len() implies self@[a].id
                        != self@[b].id by {
                        assert(old(self)@[i as int].id == tv.id);
                    }
                }
            },
            None => {
                proof {
                    lemma_index_of_id_absent(old(self)@, tv.id, 0);
                }
                self.topics.push(topic);
                assert(self@ =~= old(self)@.push(tv));
                assert(ids_unique(self@)) by {
                    assert forall|a: int, b: int| 0 <= a < b < self@.len() implies self@[a].id
                        != self@[b].id by {
                        if b == old(self)@.len() {
                            assert(old(self)@[a].id != tv.id);
                        }
                    }
                }
            },
        }
    }

    /// Appends a partition to the topic at position `i`.
    pub fn add_partition(&mut self, i: usize, partition: Partition)
        requires
            old(self).wf(),
            i < old(self)@.len(),
        ensures
            final(self).wf(),
            final(self)@ == old(self)@.update(
                i as int,
                TopicView {
                    partitions: old(self)@[i as int].partitions.push(partition@),
                    ..old(self)@[i as int]
                },
            ),
    {
        let ghost pv = partition@;
        let mut t = self.topics.remove(i);
        t.add_partition(partition);
        self.topics.insert(i, t);
        assert(self@ =~= old(self)@.update(
            i as int,
            TopicView { partitions: old(self)@[i as int].partitions.push(pv), ..old(self)@[i as int] },
        ));
    }
}

proof fn lemma_index_of_id_found(ts: Seq<TopicView>, id: Uuid, k: int)
    requires
        0 <= k,
        index_of_id_from(ts, id, k) is Some,
    ensures
        ts[index_of_id_from(ts, id, k)->Some_0].id == id,
        k <= index_of_id_from(ts, id, k)->Some_0 < ts.len(),
    decreases ts.len() - k,
{
    if k < ts.len() && ts[k].id != id {
        lemma_index_of_id_found(ts, id, k + 1);
    }
}

proof fn lemma_index_of_id_absent(ts: Seq<TopicView>, id: Uuid, k: int)
    requires
        0 <= k,
        index_of_id_from(ts, id, k) is None,
    ensures
        forall|j: int| k <= j < ts.len() ==> ts[j].id != id,
    decreases ts.len() - k,
{
    if k < ts.len() {
        lemma_index_of_id_absent(ts, id, k + 1);
    }
}

pub proof fn lemma_index_of_name_found(ts: Seq<TopicView>, name: Seq<u8>, k: int)
    requires
        0 <= k,
        index_of_name_from(ts, name, k) is Some,
    ensures
        ts[index_of_name_from(ts, name, k)->Some_0].name == name,
        k <= index_of_name_from(ts, name, k)->Some_0 < ts.len(),
    decreases ts.len() - k,
{
    if k < ts.len() && ts[k].name != name {
        lemma_index_of_name_found(ts, name, k + 1);
    }
}

pub proof fn lemma_index_of_id_found_pub(ts: Seq<TopicView>, id: Uuid, k: int)
    requires
        0 <= k,
        index_of_id_from(ts, id, k) is Some,
    ensures
        ts[index_of_id_from(ts, id, k)->Some_0].id == id,
        k <= index_of_id_from(ts, id, k)->Some_0 < ts.len(),
{
    lemma_index_of_id_found(ts, id, k);
}

} // verus!
