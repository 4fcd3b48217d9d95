//! The index that the server builds from the controller's metadata log:
//! what it knows of each topic, by name and by identifier.
use uuid::Uuid;
use vstd::prelude::*;

use crate::common_struct::{CompactArray, CompactString};
use crate::decode::{DecodeError, DecodeResult};
use crate::describe_topic_partitions::{
    TopicAuthorizedOperations, TopicInfo, TopicInfoModel, TopicPartition, TopicPartitionModel,
};
use crate::model::{models, Model};
use crate::record::{
    parse_batches, read_record_batches, ParitionRecord, ParitionRecordModel, Record, RecordBatch,
    RecordBatchModel, RecordModel, RecordValue, RecordValueModel,
};

verus! {

/// The record batches of a metadata log, in the order of the log.
#[derive(Debug, Clone, PartialEq, Eq)]
pub struct MetadataLog {
    record_batches: Vec<RecordBatch>,
}

impl MetadataLog {
    pub closed spec fn model(&self) -> Seq<RecordBatchModel> {
        models(self.record_batches@)
    }

    pub fn new(record_batches: Vec<RecordBatch>) -> (r: Self)
        ensures
            r.model() == models(record_batches@),
    {
        Self { record_batches }
    }

    pub fn get_record_batches(&self) -> (r: &Vec<RecordBatch>)
        ensures
            models(r@) == self.model(),
    {
        &self.record_batches
    }
}

/// The partition of a response that a partition record describes: its
/// index, leader and replicas, without an error and with no replica in any
/// of the other three lists.
pub open spec fn partition_of(record: ParitionRecordModel) -> TopicPartitionModel {
    TopicPartitionModel {
        error_code: 0,
        index: record.parition_id,
        leader_id: record.leader_id,
        leader_epoch: record.leader_epoch,
        repica_nodes: record.replica_nodes,
        isr_nodes: record.isr_nodes,
        eligible_leader_replicas: Some(Seq::empty()),
        last_known_elr: Some(Seq::empty()),
        offline_replicas: Some(Seq::empty()),
        tag_buffer: record.tag_buffers,
    }
}

/// The topic that a batch starts from: no name, the nil identifier, no
/// partition and the default operations.
pub open spec fn blank_topic() -> TopicInfoModel {
    TopicInfoModel {
        name: Seq::empty(),
        id: 0,
        is_internal: false,
        partitions_array: Some(Seq::empty()),
        topic_authorized_operations: 0x0df8,
    }
}

/// The partitions of a topic, none where the array is null.
pub open spec fn partitions_of(info: TopicInfoModel) -> Seq<TopicPartitionModel> {
    match info.partitions_array {
        Some(partitions) => partitions,
        None => Seq::empty(),
    }
}

/// What a record adds to the topic of its batch: a topic record gives the
/// name and the identifier, a partition record one more partition, any
/// other record nothing.
pub open spec fn with_record(info: TopicInfoModel, record: RecordModel) -> TopicInfoModel {
    match record.value {
        RecordValueModel::Topic(topic) => TopicInfoModel { name: topic.name, id: topic.id, ..info },
        RecordValueModel::Partition(partition) => TopicInfoModel {
            partitions_array: Some(partitions_of(info).push(partition_of(partition))),
            ..info
        },
        _ => info,
    }
}

/// A record that says something of a topic.
pub open spec fn mentions_topic(record: RecordModel) -> bool {
    record.value is Topic || record.value is Partition
}

/// The topic that a row of records describes.
pub open spec fn topic_of_records(records: Seq<RecordModel>) -> TopicInfoModel
    decreases records.len(),
{
    if records.len() == 0 {
        blank_topic()
    } else {
        with_record(topic_of_records(records.drop_last()), records.last())
    }
}

/// The records of a batch, none where the array is null.
pub open spec fn batch_records(batch: RecordBatchModel) -> Seq<RecordModel> {
    match batch.records {
        Some(records) => records,
        None => Seq::empty(),
    }
}

/// A batch with a record that says something of a topic.
pub open spec fn batch_mentions_topic(batch: RecordBatchModel) -> bool {
    exists|i: int|
        0 <= i < batch_records(batch).len() && mentions_topic(#[trigger] batch_records(batch)[i])
}

/// How many of the topics have the given name.
pub open spec fn count_named(topics: Seq<TopicInfoModel>, name: Seq<char>) -> nat
    decreases topics.len(),
{
    if topics.len() == 0 {
        0
    } else {
        count_named(topics.drop_last(), name) + if topics.last().name == name {
            1nat
        } else {
            0nat
        }
    }
}

/// The topic of the given name: the last one, where several have it.
pub open spec fn lookup_name(topics: Seq<TopicInfoModel>, name: Seq<char>) -> Option<
    TopicInfoModel,
>
    decreases topics.len(),
{
    if topics.len() == 0 {
        None
    } else if topics.last().name == name {
        Some(topics.last())
    } else {
        lookup_name(topics.drop_last(), name)
    }
}

/// The name of the topic with the given identifier: that of the last one,
/// where several have it.
pub open spec fn lookup_id(topics: Seq<TopicInfoModel>, id: u128) -> Option<Seq<char>>
    decreases topics.len(),
{
    if topics.len() == 0 {
        None
    } else if topics.last().id == id {
        Some(topics.last().name)
    } else {
        lookup_id(topics.drop_last(), id)
    }
}

/// What the index holds: for each batch of the log that mentions a topic,
/// in the order of the log, the topic that it describes and the batch itself.
pub struct TopicIndexModel {
    pub topics: Seq<TopicInfoModel>,
    pub batches: Seq<RecordBatchModel>,
}

/// The batches kept under the given name, in the order of the log.
pub open spec fn batches_named(index: TopicIndexModel, name: Seq<char>) -> Seq<RecordBatchModel>
    decreases index.topics.len(),
{
    if index.topics.len() == 0 || index.batches.len() != index.topics.len() {
        Seq::empty()
    } else {
        let front = batches_named(
            TopicIndexModel {
                topics: index.topics.drop_last(),
                batches: index.batches.drop_last(),
            },
            name,
        );
        if index.topics.last().name == name {
            front.push(index.batches.last())
        } else {
            front
        }
    }
}

/// The index of a log. A batch that mentions a topic adds the topic that
/// its records describe, and is kept with its base offset set to the number
/// of batches kept before it under the same name.
pub open spec fn index_of_log(log: Seq<RecordBatchModel>) -> TopicIndexModel
    decreases log.len(),
{
    if log.len() == 0 {
        TopicIndexModel { topics: Seq::empty(), batches: Seq::empty() }
    } else {
        let front = index_of_log(log.drop_last());
        let batch = log.last();
        if batch_mentions_topic(batch) {
            let info = topic_of_records(batch_records(batch));
            TopicIndexModel {
                topics: front.topics.push(info),
                batches: front.batches.push(
                    RecordBatchModel {
                        base_offset: count_named(front.topics, info.name) as i64,
                        ..batch
                    },
                ),
            }
        } else {
            front
        }
    }
}

pub proof fn lemma_index_of_log_len(log: Seq<RecordBatchModel>)
    ensures
        index_of_log(log).topics.len() == index_of_log(log).batches.len(),
        index_of_log(log).topics.len() <= log.len(),
    decreases log.len(),
{
    if log.len() > 0 {
        lemma_index_of_log_len(log.drop_last());
    }
}

pub proof fn lemma_count_named_bound(topics: Seq<TopicInfoModel>, name: Seq<char>)
    ensures
        count_named(topics, name) <= topics.len(),
    decreases topics.len(),
{
    if topics.len() > 0 {
        lemma_count_named_bound(topics.drop_last(), name);
    }
}

/// The index: topics and their batches, found by name or by identifier.
#[derive(Debug, PartialEq, Eq)]
pub struct TopicIndex {
    topics: Vec<TopicInfo>,
    batches: Vec<RecordBatch>,
}

impl TopicIndex {
    /// Every topic has its batch.
    #[verifier::type_invariant]
    spec fn paired(self) -> bool {
        self.topics@.len() == self.batches@.len()
    }

    pub closed spec fn model(&self) -> TopicIndexModel {
        TopicIndexModel { topics: models(self.topics@), batches: models(self.batches@) }
    }

    /// The index of an empty log.
    pub fn new() -> (r: Self)
        ensures
            r.model() == index_of_log(Seq::empty()),
    {
        let topics: Vec<TopicInfo> = Vec::new();
        let batches: Vec<RecordBatch> = Vec::new();
        proof {
            assert(models(topics@) =~= Seq::<TopicInfoModel>::empty());
            assert(models(batches@) =~= Seq::<RecordBatchModel>::empty());
        }
        TopicIndex { topics, batches }
    }

    /// What the index knows of the topic of the given name.
    pub fn topic_info(&self, name: &CompactString) -> (r: Option<&TopicInfo>)
        ensures
            match r {
                Some(info) => lookup_name(self.model().topics, name.model()) == Some(info.model()),
                None => lookup_name(self.model().topics, name.model()) is None,
            },
    {
        let ghost all = models(self.topics@);
        let mut i: usize = self.topics.len();
        proof {
            assert(all.take(i as int) =~= all);
        }
        while i > 0
            invariant
                i <= self.topics@.len(),
                all == models(self.topics@),
                lookup_name(all, name.model()) == lookup_name(all.take(i as int), name.model()),
            decreases i,
        {
            let info = &self.topics[i - 1];
            proof {
                assert(all.take(i as int).last() == info.model());
                assert(all.take(i as int).drop_last() =~= all.take(i - 1));
            }
            if info.name.same_text(name) {
                return Some(info);
            }
            i = i - 1;
        }
        None
    }

    /// The name of the topic with the given identifier.
    pub fn topic_name(&self, id: &Uuid) -> (r: Option<&CompactString>)
        ensures
            match r {
                Some(name) => lookup_id(self.model().topics, id.model()) == Some(name.model()),
                None => lookup_id(self.model().topics, id.model()) is None,
            },
    {
        let ghost all = models(self.topics@);
        let wanted: u128 = id.as_u128();
        let mut i: usize = self.topics.len();
        proof {
            assert(all.take(i as int) =~= all);
        }
        while i > 0
            invariant
                i <= self.topics@.len(),
                all == models(self.topics@),
                wanted == id.model(),
                lookup_id(all, wanted) == lookup_id(all.take(i as int), wanted),
            decreases i,
        {
            let info = &self.topics[i - 1];
            proof {
                assert(all.take(i as int).last() == info.model());
                assert(all.take(i as int).drop_last() =~= all.take(i - 1));
            }
            if info.id.as_u128() == wanted {
                return Some(&info.name);
            }
            i = i - 1;
        }
        None
    }

    /// Copies of the batches kept under the given name, in the order of the log.
    pub fn record_batches(&self, name: &CompactString) -> (r: Vec<RecordBatch>)
        ensures
            models(r@) == batches_named(self.model(), name.model()),
    {
        let ghost m = self.model();
        let mut out: Vec<RecordBatch> = Vec::new();
        let mut i: usize = 0;
        proof {
            use_type_invariant(self);
            assert(models(out@) =~= Seq::<RecordBatchModel>::empty());
            assert(m.topics.take(0) =~= Seq::<TopicInfoModel>::empty());
        }
        while i < self.topics.len()
            invariant
                i <= self.topics@.len(),
                self.topics@.len() == self.batches@.len(),
                m == self.model(),
                m.topics == models(self.topics@),
                m.batches == models(self.batches@),
                models(out@) == batches_named(
                    TopicIndexModel {
                        topics: m.topics.take(i as int),
                        batches: m.batches.take(i as int),
                    },
                    name.model(),
                ),
            decreases self.topics@.len() - i,
        {
            proof {
                assert(m.topics.take(i + 1).last() == self.topics@[i as int].model());
                assert(m.batches.take(i + 1).last() == self.batches@[i as int].model());
                assert(m.topics.take(i + 1).drop_last() =~= m.topics.take(i as int));
                assert(m.batches.take(i + 1).drop_last() =~= m.batches.take(i as int));
            }
            if self.topics[i].name.same_text(name) {
                let copy = self.batches[i].duplicate();
                proof {
                    assert(models(out@.push(copy)) =~= models(out@).push(copy.model()));
                }
                out.push(copy);
            }
            i = i + 1;
        }
        proof {
            assert(m.topics.take(self.topics@.len() as int) =~= m.topics);
            assert(m.batches.take(self.topics@.len() as int) =~= m.batches);
        }
        out
    }
}

/// The partition of a response that a partition record describes.
fn partition_from_record(partition: &ParitionRecord) -> (r: TopicPartition)
    ensures
        r.model() == partition_of(partition.model()),
{
    TopicPartition {
        error_code: 0,
        index: partition.parition_id,
        leader_id: partition.leader_id,
        leader_epoch: partition.leader_epoch,
        repica_nodes: partition.replica_nodes.duplicate(),
        isr_nodes: partition.isr_nodes.duplicate(),
        eligible_leader_replicas: CompactArray::empty(),
        last_known_elr: CompactArray::empty(),
        offline_replicas: CompactArray::empty(),
        tag_buffer: partition.tag_buffers.duplicate(),
    }
}

/// The topic that the records of a batch describe, and whether any record
/// mentions a topic at all.
fn topic_of_batch(record_batch: &RecordBatch) -> (r: (bool, TopicInfo))
    ensures
        r.0 == batch_mentions_topic(record_batch.model()),
        r.1.model() == topic_of_records(batch_records(record_batch.model())),
{
    let ghost all = batch_records(record_batch.model());
    let mut found = false;
    let mut name = CompactString::new(String::new());
    let mut id = Uuid::nil();
    let mut partitions: Vec<TopicPartition> = Vec::new();
    proof {
        assert(models(partitions@) =~= Seq::<TopicPartitionModel>::empty());
    }
    match record_batch.get_records().get_inner() {
        Some(records) => {
            let mut i: usize = 0;
            proof {
                assert(all.take(0) =~= Seq::<RecordModel>::empty());
            }
            while i < records.len()
                invariant
                    i <= records@.len(),
                    all == models(records@),
                    found == (exists|j: int| 0 <= j < i && mentions_topic(#[trigger] all[j])),
                    topic_of_records(all.take(i as int)) == (TopicInfoModel {
                        name: name.model(),
                        id: id.model(),
                        is_internal: false,
                        partitions_array: Some(models(partitions@)),
                        topic_authorized_operations: 0x0df8,
                    }),
                decreases records@.len() - i,
            {
                proof {
                    assert(all.take(i + 1).last() == records@[i as int].model());
                    assert(all.take(i + 1).drop_last() =~= all.take(i as int));
                    assert(all[i as int] == records@[i as int].model());
                }
                match records[i].get_value() {
                    RecordValue::Topic(topic) => {
                        found = true;
                        name = topic.name.duplicate();
                        id = topic.id;
                    },
                    RecordValue::Partition(partition) => {
                        found = true;
                        let topic_partition = partition_from_record(partition);
                        proof {
                            assert(models(partitions@.push(topic_partition)) =~= models(
                                partitions@,
                            ).push(topic_partition.model()));
                        }
                        partitions.push(topic_partition);
                    },
                    _ => {},
                }
                i = i + 1;
            }
            proof {
                assert(all.take(records@.len() as int) =~= all);
            }
        },
        None => {},
    }
    let info = TopicInfo {
        name,
        id,
        is_internal: false,
        partitions_array: CompactArray::new(Some(partitions)),
        topic_authorized_operations: TopicAuthorizedOperations::default(),
    };
    (found, info)
}

/// How many of the topics have the given name.
fn count_topics_named(topics: &Vec<TopicInfo>, name: &CompactString) -> (n: usize)
    ensures
        n == count_named(models(topics@), name.model()),
{
    let ghost all = models(topics@);
    let mut n: usize = 0;
    let mut i: usize = 0;
    proof {
        assert(all.take(0) =~= Seq::<TopicInfoModel>::empty());
    }
    while i < topics.len()
        invariant
            i <= topics@.len(),
            all == models(topics@),
            n <= i,
            n == count_named(all.take(i as int), name.model()),
        decreases topics@.len() - i,
    {
        proof {
            assert(all.take(i + 1).last() == topics@[i as int].model());
            assert(all.take(i + 1).drop_last() =~= all.take(i as int));
        }
        if topics[i].name.same_text(name) {
            n = n + 1;
        }
        i = i + 1;
    }
    proof {
        assert(all.take(topics@.len() as int) =~= all);
    }
    n
}

/// Builds the index of a metadata log.
pub fn init_internel_states(metadata_log: &MetadataLog) -> (index: TopicIndex)
    requires
        metadata_log.model().len() <= i64::MAX,
    ensures
        index.model() == index_of_log(metadata_log.model()),
{
    let log = metadata_log.get_record_batches();
    let ghost all = models(log@);
    let mut topics: Vec<TopicInfo> = Vec::new();
    let mut batches: Vec<RecordBatch> = Vec::new();
    let mut i: usize = 0;
    proof {
        assert(all.take(0) =~= Seq::<RecordBatchModel>::empty());
        assert(models(topics@) =~= Seq::<TopicInfoModel>::empty());
        assert(models(batches@) =~= Seq::<RecordBatchModel>::empty());
    }
    while i < log.len()
        invariant
            i <= log@.len(),
            log@.len() <= i64::MAX,
            all == models(log@),
            topics@.len() == batches@.len(),
            models(topics@) == index_of_log(all.take(i as int)).topics,
            models(batches@) == index_of_log(all.take(i as int)).batches,
        decreases log@.len() - i,
    {
        proof {
            assert(all.take(i + 1).last() == log@[i as int].model());
            assert(all.take(i + 1).drop_last() =~= all.take(i as int));
            lemma_index_of_log_len(all.take(i as int));
            lemma_count_named_bound(
                models(topics@),
                topic_of_records(batch_records(log@[i as int].model())).name,
            );
        }
        let (found, topic_info) = topic_of_batch(&log[i]);
        if found {
            let ordinal: usize = count_topics_named(&topics, &topic_info.name);
            let mut record_batch = log[i].duplicate();
            record_batch.base_offset = ordinal as i64;
            proof {
                assert(models(topics@.push(topic_info)) =~= models(topics@).push(
                    topic_info.model(),
                ));
                assert(models(batches@.push(record_batch)) =~= models(batches@).push(
                    record_batch.model(),
                ));
            }
            topics.push(topic_info);
            batches.push(record_batch);
        }
        i = i + 1;
    }
    proof {
        assert(all.take(log@.len() as int) =~= all);
    }
    TopicIndex { topics, batches }
}

/// Reads the bytes of a metadata log and builds its index. A log that does
/// not decode to its end gives no index.
pub fn init_read_metadata_log(content: &[u8]) -> (r: DecodeResult<TopicIndex>)
    requires
        content@.len() <= i64::MAX,
    ensures
        match r {
            Ok(index) => parse_batches(content@, 0) matches Ok((log, _)) && index.model()
                == index_of_log(log),
            Err(e) => parse_batches(content@, 0) == Err::<
                (Seq<RecordBatchModel>, int),
                DecodeError,
            >(e),
        },
{
    let record_batches = read_record_batches(content)?;
    proof {
        crate::record::lemma_parse_batches_len(content@, 0);
    }
    let metadata_log = MetadataLog::new(record_batches);
    Ok(init_internel_states(&metadata_log))
}

} // verus!
