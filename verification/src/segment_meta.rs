//! The metadata of a segment.
use vstd::prelude::*;

verus! {

/// Names a segment. No two segments of an index share an id.
pub type SegmentId = u128;

/// Numbers the operations of a writer, in the order in which they were issued.
pub type Opstamp = u64;

/// How many documents of a segment are deleted, and through which operation.
#[derive(Clone, Copy, Debug, PartialEq, Eq, Structural)]
pub struct DeleteMeta {
    pub num_deleted_docs: u32,
    pub opstamp: Opstamp,
}

/// Describes a segment: its id, how many documents it was written with, and how many of those
/// are deleted by now.
#[derive(Clone, Copy, Debug, PartialEq, Eq, Structural)]
pub struct SegmentMeta {
    pub segment_id: SegmentId,
    pub max_doc: u32,
    pub deletes: Option<DeleteMeta>,
}

impl SegmentMeta {
    /// No more documents are deleted than there are.
    pub open spec fn wf(self) -> bool {
        self.deleted() <= self.max_doc
    }

    /// The number of deleted documents.
    pub open spec fn deleted(self) -> u32 {
        match self.deletes {
            Some(deletes) => deletes.num_deleted_docs,
            None => 0,
        }
    }

    /// The number of documents that are not deleted.
    pub open spec fn alive(self) -> int {
        self.max_doc - self.deleted()
    }

    /// Describes a segment of `max_doc` documents, none of them deleted.
    pub fn new(segment_id: SegmentId, max_doc: u32) -> (meta: SegmentMeta)
        ensures
            meta == (SegmentMeta { segment_id, max_doc, deletes: None }),
            meta.wf(),
    {
        SegmentMeta { segment_id, max_doc, deletes: None }
    }

    /// The segment's id.
    pub fn id(&self) -> (id: SegmentId)
        ensures
            id == self.segment_id,
    {
        self.segment_id
    }

    /// How many documents the segment was written with.
    pub fn max_doc(&self) -> (max_doc: u32)
        ensures
            max_doc == self.max_doc,
    {
        self.max_doc
    }

    /// How many documents of the segment are deleted.
    pub fn num_deleted_docs(&self) -> (deleted: u32)
        ensures
            deleted == self.deleted(),
    {
        match self.deletes {
            Some(deletes) => deletes.num_deleted_docs,
            None => 0,
        }
    }

    /// How many documents of the segment are not deleted.
    pub fn num_docs(&self) -> (alive: u32)
        requires
            self.wf(),
        ensures
            alive == self.alive(),
    {
        self.max_doc - self.num_deleted_docs()
    }

    /// The same segment, with `num_deleted_docs` of its documents deleted through `opstamp`.
    pub fn with_delete_meta(self, num_deleted_docs: u32, opstamp: Opstamp) -> (meta: SegmentMeta)
        requires
            num_deleted_docs <= self.max_doc,
        ensures
            meta == (SegmentMeta {
                deletes: Some(DeleteMeta { num_deleted_docs, opstamp }),
                ..self
            }),
            meta.wf(),
    {
        SegmentMeta { deletes: Some(DeleteMeta { num_deleted_docs, opstamp }), ..self }
    }
}

/// What is alive in a segment is what it was written with, less what is deleted.
pub proof fn law_alive_is_what_is_not_deleted(meta: SegmentMeta)
    ensures
        meta.alive() == meta.max_doc - match meta.deletes {
            Some(deletes) => deletes.num_deleted_docs as int,
            None => 0,
        },
        meta.wf() <==> meta.alive() >= 0,
{
}

} // verus!
