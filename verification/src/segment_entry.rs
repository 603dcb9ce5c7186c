//! The state of one segment, as a writer sees it.
use crate::bit_set::BitSet;
use crate::delete_queue::DeleteCursor;
use crate::segment_meta::{SegmentId, SegmentMeta};
use vstd::prelude::*;

verus! {

/// Identifies the publication batch that produced an uncommitted segment.
///
/// A generation is local to one writer. It is not persisted: after a durable commit its segments
/// become part of the durable base and no longer need this label.
#[derive(Clone, Copy, Debug, PartialEq, Eq, PartialOrd, Ord, Structural)]
pub struct PublicationGeneration(pub u64);

impl PublicationGeneration {
    /// The generation numbered `value`.
    pub fn new(value: u64) -> (generation: Self)
        ensures
            generation.0 == value,
    {
        Self(value)
    }

    /// The generation after this one, or `None` where there is none left.
    pub fn next(self) -> (next: Option<Self>)
        ensures
            next is Some <==> self.0 < u64::MAX,
            next matches Some(generation) ==> generation.0 == self.0 + 1,
    {
        match self.0.checked_add(1) {
            Some(value) => Some(Self(value)),
            None => None,
        }
    }
}

/// Describes the state of a given segment, at a given instant.
///
/// In addition to the segment's `meta`, it contains a few transient states:
/// - `alive_bitset` tells the documents that were alive when the segment was written.
/// - `delete_cursor` is the position in the delete queue. Deletes before the cursor are reflected
///   in the segment already.
/// - `publication_generation` labels an uncommitted segment with the batch that produced it.
#[derive(Debug)]
pub struct SegmentEntry {
    meta: SegmentMeta,
    alive_bitset: Option<BitSet>,
    delete_cursor: DeleteCursor,
    publication_generation: Option<PublicationGeneration>,
}

/// What a [`SegmentEntry`] stands for.
#[verifier::ext_equal]
pub struct SegmentEntryView {
    pub meta: SegmentMeta,
    pub alive: Option<Seq<bool>>,
    pub cursor: DeleteCursor,
    pub generation: Option<PublicationGeneration>,
}

impl SegmentEntryView {
    /// The id of the segment described.
    pub open spec fn id(self) -> SegmentId {
        self.meta.segment_id
    }

    /// The same entry without a generation.
    pub open spec fn unlabeled(self) -> SegmentEntryView {
        SegmentEntryView { generation: None, ..self }
    }
}

/// The entry of a segment none of whose documents is known to be dead.
pub open spec fn entry_of(
    meta: SegmentMeta,
    cursor: DeleteCursor,
    generation: Option<PublicationGeneration>,
) -> SegmentEntryView {
    SegmentEntryView { meta, alive: None, cursor, generation }
}

/// The flags of an optional set.
pub open spec fn flags_of(alive_bitset: Option<BitSet>) -> Option<Seq<bool>> {
    match alive_bitset {
        Some(alive) => Some(alive@),
        None => None,
    }
}

impl View for SegmentEntry {
    type V = SegmentEntryView;

    closed spec fn view(&self) -> SegmentEntryView {
        SegmentEntryView {
            meta: self.meta,
            alive: flags_of(self.alive_bitset),
            cursor: self.delete_cursor,
            generation: self.publication_generation,
        }
    }
}

impl Clone for SegmentEntry {
    fn clone(&self) -> (copy: Self)
        ensures
            copy@ == self@,
    {
        let alive_bitset = match &self.alive_bitset {
            Some(alive) => Some(alive.clone()),
            None => None,
        };
        SegmentEntry {
            meta: self.meta,
            alive_bitset,
            delete_cursor: self.delete_cursor,
            publication_generation: self.publication_generation,
        }
    }
}

impl SegmentEntry {
    /// Creates an entry that belongs to no publication generation.
    pub fn new(
        segment_meta: SegmentMeta,
        delete_cursor: DeleteCursor,
        alive_bitset: Option<BitSet>,
    ) -> (entry: SegmentEntry)
        ensures
            entry@ == (SegmentEntryView {
                meta: segment_meta,
                alive: flags_of(alive_bitset),
                cursor: delete_cursor,
                generation: None,
            }),
    {
        SegmentEntry {
            meta: segment_meta,
            alive_bitset,
            delete_cursor,
            publication_generation: None,
        }
    }

    /// Creates an uncommitted segment entry owned by one publication generation.
    pub fn new_for_publication(
        segment_meta: SegmentMeta,
        delete_cursor: DeleteCursor,
        alive_bitset: Option<BitSet>,
        publication_generation: PublicationGeneration,
    ) -> (entry: SegmentEntry)
        ensures
            entry@ == (SegmentEntryView {
                meta: segment_meta,
                alive: flags_of(alive_bitset),
                cursor: delete_cursor,
                generation: Some(publication_generation),
            }),
    {
        SegmentEntry {
            meta: segment_meta,
            alive_bitset,
            delete_cursor,
            publication_generation: Some(publication_generation),
        }
    }

    /// The documents that were alive when the segment was written, where not all of them were.
    pub fn alive_bitset(&self) -> (alive: Option<&BitSet>)
        ensures
            match alive {
                Some(set) => self@.alive == Some(set@),
                None => self@.alive is None,
            },
    {
        self.alive_bitset.as_ref()
    }

    /// Sets the segment's metadata.
    pub fn set_meta(&mut self, segment_meta: SegmentMeta)
        ensures
            final(self)@ == (SegmentEntryView { meta: segment_meta, ..old(self)@ }),
    {
        self.meta = segment_meta;
    }

    /// The entry's position in the delete queue, to be moved in place.
    pub fn delete_cursor(&mut self) -> (cursor: &mut DeleteCursor)
        ensures
            *cursor == old(self)@.cursor,
            final(self)@ == (SegmentEntryView { cursor: *final(cursor), ..old(self)@ }),
    {
        &mut self.delete_cursor
    }

    /// The segment's id.
    pub fn segment_id(&self) -> (id: SegmentId)
        ensures
            id == self@.id(),
    {
        self.meta.id()
    }

    /// The segment's metadata.
    pub fn meta(&self) -> (meta: &SegmentMeta)
        ensures
            *meta == self@.meta,
    {
        &self.meta
    }

    /// The generation that owns the segment, while it is uncommitted and has one.
    pub fn publication_generation(&self) -> (generation: Option<PublicationGeneration>)
        ensures
            generation == self@.generation,
    {
        self.publication_generation
    }

    /// Takes the generation label off.
    pub fn clear_publication_generation(&mut self)
        ensures
            final(self)@ == old(self)@.unlabeled(),
    {
        self.publication_generation = None;
    }
}

/// Taking the label off an entry leaves everything else about it.
pub proof fn law_unlabeled_entry_is_otherwise_the_same(entry: SegmentEntryView)
    ensures
        entry.unlabeled().generation is None,
        entry.unlabeled().meta == entry.meta,
        entry.unlabeled().alive == entry.alive,
        entry.unlabeled().cursor == entry.cursor,
        entry.id() == entry.meta.segment_id,
{
}

/// The flags of an entry's set are the set's flags.
pub proof fn law_flags_are_those_of_the_set(alive_bitset: BitSet)
    ensures
        flags_of(Some(alive_bitset)) == Some(alive_bitset@),
        flags_of(None) is None,
{
}

} // verus!
