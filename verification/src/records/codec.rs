//! Writing a collection of tags as records and reading it back.

use crate::proto::Tag as ProtoTag;
use crate::proto::ValTag;
use crate::records::names::{law_name_read_back, name_of, parse_shape, shape_name, shape_named};
use crate::records::value::{Shape, Value, ValueView};
use vstd::prelude::*;

verus! {

/// A payload with its type.
#[derive(Debug, Clone, PartialEq, Eq)]
pub struct Typed {
    pub shape: Shape,
    pub value: Value,
}

/// A tag of any payload type, as contracts speak of it.
pub ghost struct TaggedView {
    pub uuid: u128,
    pub parent: Option<u128>,
    pub shape: Shape,
    pub value: ValueView,
}

impl TaggedView {
    /// The payload is of the type that the tag says it has.
    pub open spec fn wf(self) -> bool {
        self.value.conforms(self.shape)
    }
}

impl View for ValTag<Typed> {
    type V = TaggedView;

    open spec fn view(&self) -> TaggedView {
        TaggedView { uuid: self.uuid, parent: self.parent, shape: self.val.shape, value: self.val.value@ }
    }
}

/// One record: the discriminator, and then the fields of the tag.
#[derive(Debug, Clone, PartialEq, Eq)]
pub struct TagRecord {
    pub kind: String,
    pub uuid: u128,
    pub parent: Option<u128>,
    pub payload: Value,
}

/// A record, as contracts speak of it.
pub ghost struct RecordView {
    pub kind: Seq<char>,
    pub uuid: u128,
    pub parent: Option<u128>,
    pub payload: ValueView,
}

impl View for TagRecord {
    type V = RecordView;

    open spec fn view(&self) -> RecordView {
        RecordView { kind: self.kind@, uuid: self.uuid, parent: self.parent, payload: self.payload@ }
    }
}

/// Why a record could not be read.
#[derive(Debug, Clone, Copy, PartialEq, Eq, Structural)]
pub enum Reason {
    /// The discriminator names no payload type.
    UnknownDiscriminator,
    /// The payload is not of the type that the discriminator names.
    PayloadMismatch,
}

/// A record could not be read: which one, counted from 0, and why.
#[derive(Debug, Clone, Copy, PartialEq, Eq, Structural)]
pub struct DeserializationError {
    pub record: usize,
    pub reason: Reason,
}

/// The record that holds a tag.
pub open spec fn encode(tag: TaggedView) -> RecordView {
    RecordView { kind: name_of(tag.shape), uuid: tag.uuid, parent: tag.parent, payload: tag.value }
}

/// The tag that a record holds, or why it holds none.
pub open spec fn decode(record: RecordView) -> Result<TaggedView, Reason> {
    match shape_named(record.kind) {
        None => Err(Reason::UnknownDiscriminator),
        Some(shape) => if record.payload.conforms(shape) {
            Ok(TaggedView { uuid: record.uuid, parent: record.parent, shape, value: record.payload })
        } else {
            Err(Reason::PayloadMismatch)
        },
    }
}

/// A tag whose payload is of its type is read back from its record as it
/// was: identifier, parent and payload.
pub proof fn law_round_trip(tag: TaggedView)
    requires
        tag.wf(),
    ensures
        decode(encode(tag)) == Ok::<TaggedView, Reason>(tag),
{
    law_name_read_back(tag.shape);
}

/// Whatever is read from a record is a tag whose payload is of its type, and
/// writing it gives the record back.
pub proof fn law_read_then_write(record: RecordView)
    requires
        decode(record) is Ok,
    ensures
        decode(record).unwrap().wf(),
        encode(decode(record).unwrap()) == record,
{
}

/// A tag that can be written as a record.
pub trait SerdeTag: ProtoTag {
    /// The record, as contracts speak of it.
    spec fn spec_record(&self) -> RecordView;

    /// The record that holds this tag.
    fn to_record(&self) -> (record: TagRecord)
        ensures
            record@ == self.spec_record(),
    ;
}

impl SerdeTag for ValTag<Typed> {
    open spec fn spec_record(&self) -> RecordView {
        encode(self@)
    }

    fn to_record(&self) -> (record: TagRecord) {
        TagRecord {
            kind: shape_name(self.val.shape),
            uuid: self.uuid,
            parent: self.parent,
            payload: self.val.value.copy(),
        }
    }
}

impl TagRecord {
    /// The tag that this record holds, or why it holds none.
    pub fn to_tag(&self) -> (tag: Result<ValTag<Typed>, Reason>)
        ensures
            match tag {
                Ok(t) => decode(self@) == Ok::<TaggedView, Reason>(t@),
                Err(reason) => decode(self@) == Err::<TaggedView, Reason>(reason),
            },
    {
        match parse_shape(self.kind.as_str()) {
            None => Err(Reason::UnknownDiscriminator),
            Some(shape) => {
                if self.payload.conforms(shape) {
                    Ok(
                        ValTag {
                            uuid: self.uuid,
                            parent: self.parent,
                            val: Typed { shape, value: self.payload.copy() },
                        },
                    )
                } else {
                    Err(Reason::PayloadMismatch)
                }
            },
        }
    }
}

/// A collection of tags of any payload types.
#[derive(Debug, Clone, PartialEq, Eq)]
pub struct SerdeTags(pub Vec<ValTag<Typed>>);

impl SerdeTags {
    /// The tags, as contracts speak of them.
    pub open spec fn tags(&self) -> Seq<TaggedView> {
        self.0@.map_values(|t: ValTag<Typed>| t@)
    }

    /// Every payload is of the type that its tag says it has.
    pub open spec fn wf(&self) -> bool {
        forall|k: int| 0 <= k < self.tags().len() ==> (#[trigger] self.tags()[k]).wf()
    }

    /// Writes the collection: one record for each tag, in order.
    pub fn serialize(&self) -> (records: Vec<TagRecord>)
        ensures
            records@.len() == self.tags().len(),
            forall|k: int| 0 <= k < records@.len() ==> (#[trigger] records@[k])@ == encode(self.tags()[k]),
    {
        let mut records: Vec<TagRecord> = Vec::new();
        let mut at: usize = 0;
        while at < self.0.len()
            invariant
                at <= self.0@.len(),
                records@.len() == at,
                forall|k: int| 0 <= k < at ==> (#[trigger] records@[k])@ == encode(self.tags()[k]),
            decreases self.0@.len() - at,
        {
            records.push(self.0[at].to_record());
            at = at + 1;
        }
        records
    }

    /// Reads a collection: the tag of each record, in order. The first
    /// record that cannot be read stops the reading and is reported with its
    /// position and the reason.
    pub fn deserialize(records: &Vec<TagRecord>) -> (read: Result<SerdeTags, DeserializationError>)
        ensures
            match read {
                Ok(collection) => {
                    &&& collection.wf()
                    &&& collection.tags().len() == records@.len()
                    &&& forall|k: int|
                        0 <= k < records@.len() ==> decode((#[trigger] records@[k])@) == Ok::<TaggedView, Reason>(
                            collection.tags()[k],
                        )
                },
                Err(e) => {
                    &&& e.record < records@.len()
                    &&& decode(records@[e.record as int]@) == Err::<TaggedView, Reason>(e.reason)
                    &&& forall|k: int| 0 <= k < e.record ==> decode((#[trigger] records@[k])@) is Ok
                },
            },
    {
        let mut tags: Vec<ValTag<Typed>> = Vec::new();
        let mut at: usize = 0;
        while at < records.len()
            invariant
                at <= records@.len(),
                tags@.len() == at,
                forall|k: int| 0 <= k < at ==> decode((#[trigger] records@[k])@) == Ok::<TaggedView, Reason>(tags@[k]@),
            decreases records@.len() - at,
        {
            match records[at].to_tag() {
                Ok(tag) => {
                    tags.push(tag);
                },
                Err(reason) => {
                    return Err(DeserializationError { record: at, reason });
                },
            }
            at = at + 1;
        }
        let collection = SerdeTags(tags);
        proof {
            assert forall|k: int| 0 <= k < collection.tags().len() implies (#[trigger] collection.tags()[k]).wf() by {
                assert(decode(records@[k]@) == Ok::<TaggedView, Reason>(tags@[k]@));
            }
        }
        Ok(collection)
    }
}

/// A collection in which every payload is of its type is read back from its
/// records as it was, tag by tag.
pub proof fn law_collection_round_trip(tags: Seq<TaggedView>, records: Seq<RecordView>)
    requires
        forall|k: int| 0 <= k < tags.len() ==> (#[trigger] tags[k]).wf(),
        records.len() == tags.len(),
        forall|k: int| 0 <= k < tags.len() ==> #[trigger] records[k] == encode(tags[k]),
    ensures
        forall|k: int| 0 <= k < tags.len() ==> decode(#[trigger] records[k]) == Ok::<TaggedView, Reason>(tags[k]),
{
    assert forall|k: int| 0 <= k < tags.len() implies decode(#[trigger] records[k]) == Ok::<TaggedView, Reason>(
        tags[k],
    ) by {
        law_round_trip(tags[k]);
    }
}

} // verus!
