//! The two registers of a writer's segments, and what moves segments between them.
use crate::delete_queue::DeleteCursor;
use crate::error::{Result, TantivyError};
use crate::segment_entry::{PublicationGeneration, SegmentEntry, SegmentEntryView};
use crate::segment_meta::{SegmentId, SegmentMeta};
use crate::segment_register::{self, SegmentRegister, Segments};
use std::collections::HashSet;
use vstd::prelude::*;

verus! {

broadcast use vstd::std_specs::hash::group_hash_axioms;

/// Which register holds a group of segments.
#[derive(Clone, Copy, Debug, PartialEq, Eq, Structural)]
pub enum SegmentsStatus {
    Committed,
    Uncommitted,
}

/// The two registers.
#[derive(Debug)]
pub struct SegmentRegisters {
    pub uncommitted: SegmentRegister,
    pub committed: SegmentRegister,
}

/// What the two registers hold.
#[verifier::ext_equal]
pub struct RegistersView {
    pub uncommitted: Segments,
    pub committed: Segments,
}

impl View for SegmentRegisters {
    type V = RegistersView;

    open spec fn view(&self) -> RegistersView {
        RegistersView { uncommitted: self.uncommitted@, committed: self.committed@ }
    }
}

impl RegistersView {
    /// Both registers are sound.
    pub open spec fn wf(self) -> bool {
        &&& segment_register::segments_wf(self.uncommitted)
        &&& segment_register::segments_wf(self.committed)
    }

    /// Nothing is registered.
    pub open spec fn empty() -> RegistersView {
        RegistersView { uncommitted: Map::empty(), committed: Map::empty() }
    }

    /// The register that holds all of the segments: the uncommitted one, if it does, else the
    /// committed one, if it does.
    pub open spec fn status(self, ids: Seq<SegmentId>) -> Option<SegmentsStatus> {
        if segment_register::holds_all(self.uncommitted, ids) {
            Some(SegmentsStatus::Uncommitted)
        } else if segment_register::holds_all(self.committed, ids) {
            Some(SegmentsStatus::Committed)
        } else {
            None
        }
    }

    /// The segments of one of the registers.
    pub open spec fn register(self, status: SegmentsStatus) -> Segments {
        match status {
            SegmentsStatus::Committed => self.committed,
            SegmentsStatus::Uncommitted => self.uncommitted,
        }
    }

    /// The same registers, with one of them holding other segments.
    pub open spec fn with_register(
        self,
        status: SegmentsStatus,
        segments: Segments,
    ) -> RegistersView {
        match status {
            SegmentsStatus::Committed => RegistersView { committed: segments, ..self },
            SegmentsStatus::Uncommitted => RegistersView { uncommitted: segments, ..self },
        }
    }
}

/// The entries of the segments that `ids` name, in that order.
pub open spec fn picked(segments: Segments, ids: Seq<SegmentId>) -> Seq<SegmentEntryView> {
    ids.map_values(|id: SegmentId| segments[id])
}

/// All entries carry the same label, or all carry none.
pub open spec fn single_generation(entries: Seq<SegmentEntryView>) -> bool {
    forall|i: int, j: int|
        0 <= i < j < entries.len() ==> (#[trigger] entries[i]).generation == (
        #[trigger] entries[j]).generation
}

/// Every segment carries a label.
pub open spec fn all_labeled(segments: Segments) -> bool {
    forall|id: SegmentId| #[trigger]
        segments.contains_key(id) ==> segments[id].generation is Some
}

/// Whether the entry belongs to `generation` or to an earlier one.
pub open spec fn belongs_through(
    entry: SegmentEntryView,
    generation: PublicationGeneration,
) -> bool {
    entry.generation matches Some(label) && label.0 <= generation.0
}

/// The segments that belong to `generation` or to an earlier one.
pub open spec fn through_generation(
    segments: Segments,
    generation: PublicationGeneration,
) -> Segments {
    segments.restrict(
        Set::new(
            |id: SegmentId|
                segments.contains_key(id) && belongs_through(segments[id], generation),
        ),
    )
}

/// The segments that have a document left.
pub open spec fn nonempty(segments: Segments) -> Segments {
    segments.restrict(
        Set::new(|id: SegmentId| segments.contains_key(id) && segments[id].meta.alive() != 0),
    )
}

/// `entries` lists `first`, then `second`.
pub open spec fn lists_both(
    entries: Seq<SegmentEntryView>,
    first: Segments,
    second: Segments,
) -> bool {
    let split = first.dom().len() as int;
    &&& entries.len() == split + second.dom().len()
    &&& segment_register::lists(entries.take(split), first)
    &&& segment_register::lists(entries.skip(split), second)
}

/// The segments after those that `ids` name were merged into `merged`.
pub open spec fn replaced(
    segments: Segments,
    ids: Seq<SegmentId>,
    merged: Option<SegmentEntryView>,
) -> Segments {
    let rest = segments.remove_keys(ids.to_set());
    match merged {
        Some(entry) => rest.insert(entry.id(), entry),
        None => rest,
    }
}

/// What an optional entry stands for.
pub open spec fn entry_view(entry: Option<SegmentEntry>) -> Option<SegmentEntryView> {
    match entry {
        Some(entry) => Some(entry@),
        None => None,
    }
}

/// The entries without their labels.
pub open spec fn unlabeled(entries: Seq<SegmentEntryView>) -> Seq<SegmentEntryView> {
    entries.map_values(|entry: SegmentEntryView| entry.unlabeled())
}

/// The marks after the segments that `ids` name were marked as in merge.
pub open spec fn marked(marks: Set<SegmentId>, ids: Seq<SegmentId>) -> Set<SegmentId> {
    marks.union(ids.to_set())
}

/// The marks after those of the segments that `ids` name were taken off.
pub open spec fn unmarked(marks: Set<SegmentId>, ids: Seq<SegmentId>) -> Set<SegmentId> {
    marks.difference(ids.to_set())
}

/// Why a snapshot through a generation is refused.
pub open spec fn unlabeled_segments_message() -> Seq<char> {
    "cannot snapshot a publication generation while unlabeled uncommitted segments exist"@
}

/// Why a merge of scattered segments is refused.
pub open spec fn scattered_merge_message() -> Seq<char> {
    "Merge operation sent for segments that are not all uncommitted or committed."@
}

/// Why a merge across generations is refused.
pub open spec fn mixed_merge_message() -> Seq<char> {
    "cannot merge segments from different publication generations"@
}

/// Why the end of a merge is refused.
pub open spec fn lost_merge_message() -> Seq<char> {
    "The segments that were merged could not be found in the SegmentManager. This is not necessarily a bug, and can happen after a rollback for instance."@
}

impl Default for SegmentRegisters {
    fn default() -> (registers: Self)
        ensures
            registers@ == RegistersView::empty(),
    {
        SegmentRegisters {
            uncommitted: SegmentRegister::default(),
            committed: SegmentRegister::default(),
        }
    }
}

impl SegmentRegisters {
    /// Checks whether all the segments are committed or all are uncommitted.
    ///
    /// If some segment is missing, or the segments are in different states, returns `None`.
    pub fn segments_status(&self, segment_ids: &[SegmentId]) -> (status: Option<SegmentsStatus>)
        ensures
            status == self@.status(segment_ids@),
    {
        if self.uncommitted.contains_all(segment_ids) {
            Some(SegmentsStatus::Uncommitted)
        } else if self.committed.contains_all(segment_ids) {
            Some(SegmentsStatus::Committed)
        } else {
            None
        }
    }
}

/// Stores the list of segments as well as their state.
///
/// A change either takes place as a whole or leaves both registers as they were.
///
/// Segments that a merge is busy with are marked: from the start of the merge until it ends or is
/// cancelled they are not offered for another one.
#[derive(Debug)]
pub struct SegmentManager {
    registers: SegmentRegisters,
    marked_segment_ids: HashSet<SegmentId>,
}

impl View for SegmentManager {
    type V = RegistersView;

    closed spec fn view(&self) -> RegistersView {
        self.registers@
    }
}

impl Default for SegmentManager {
    fn default() -> (manager: Self)
        ensures
            manager@ == RegistersView::empty(),
            manager@.wf(),
            manager.in_merge() == Set::<SegmentId>::empty(),
    {
        SegmentManager {
            registers: SegmentRegisters::default(),
            marked_segment_ids: HashSet::new(),
        }
    }
}

impl SegmentManager {
    /// The ids that are marked as in merge.
    pub closed spec fn in_merge(&self) -> Set<SegmentId> {
        self.marked_segment_ids@
    }

    /// Manages the segments that the metadata of an index lists, all of them committed.
    pub fn from_segments(segment_metas: Vec<SegmentMeta>, delete_cursor: &DeleteCursor) -> (manager:
        SegmentManager)
        ensures
            manager@.uncommitted == Map::<SegmentId, SegmentEntryView>::empty(),
            manager@.committed == segment_register::filled_with(
                segment_register::fresh_entries(segment_metas@, *delete_cursor),
            ),
            manager@.wf(),
            manager.in_merge() == Set::<SegmentId>::empty(),
    {
        proof {
            lemma_filled_wf(segment_register::fresh_entries(segment_metas@, *delete_cursor));
        }
        SegmentManager {
            registers: SegmentRegisters {
                uncommitted: SegmentRegister::default(),
                committed: SegmentRegister::new(segment_metas, delete_cursor),
            },
            marked_segment_ids: HashSet::new(),
        }
    }

    /// The two registers, to look at.
    pub fn read(&self) -> (registers: &SegmentRegisters)
        ensures
            registers@ == self@,
    {
        &self.registers
    }

    /// The metadata of the segments that no merge is busy with: of the committed ones, then of
    /// the uncommitted ones, each in no particular order.
    ///
    /// The segments that are marked as in merge are left out, and those that the caller names.
    pub fn get_mergeable_segments(&self, in_merge_segment_ids: &HashSet<SegmentId>) -> (metas: (
        Vec<SegmentMeta>,
        Vec<SegmentMeta>,
    ))
        requires
            self@.wf(),
        ensures
            segment_register::lists_metas(
                metas.0@,
                self@.committed.remove_keys(in_merge_segment_ids@.union(self.in_merge())),
            ),
            segment_register::lists_metas(
                metas.1@,
                self@.uncommitted.remove_keys(in_merge_segment_ids@.union(self.in_merge())),
            ),
    {
        (
            self.registers.committed.get_mergeable_segments(
                in_merge_segment_ids,
                &self.marked_segment_ids,
            ),
            self.registers.uncommitted.get_mergeable_segments(
                in_merge_segment_ids,
                &self.marked_segment_ids,
            ),
        )
    }

    /// All of the segment entries: the uncommitted ones, then the committed ones, each in no
    /// particular order.
    pub fn segment_entries(&self) -> (entries: Vec<SegmentEntry>)
        requires
            self@.wf(),
        ensures
            lists_both(segment_register::entry_views(entries@), self@.uncommitted, self@.committed),
    {
        let mut segment_entries = self.registers.uncommitted.segment_entries();
        let mut committed = self.registers.committed.segment_entries();
        let ghost first = segment_entries@;
        let ghost second = committed@;
        segment_entries.append(&mut committed);
        proof {
            let split = first.len() as int;
            let views = segment_register::entry_views(segment_entries@);
            assert(views.take(split) =~= segment_register::entry_views(first));
            assert(views.skip(split) =~= segment_register::entry_views(second));
        }
        segment_entries
    }

    /// The durable base plus only the unpublished segments through `generation`: the committed
    /// entries, then those uncommitted ones, each in no particular order.
    ///
    /// An unlabeled uncommitted segment cannot be safely assigned to a publication boundary, so
    /// it is an error if there is one.
    pub fn segment_entries_through_generation(&self, generation: PublicationGeneration) -> (entries:
        Result<Vec<SegmentEntry>>)
        requires
            self@.wf(),
        ensures
            match entries {
                Ok(entries) => all_labeled(self@.uncommitted) && lists_both(
                    segment_register::entry_views(entries@),
                    self@.committed,
                    through_generation(self@.uncommitted, generation),
                ),
                Err(error) => !all_labeled(self@.uncommitted) && error.is_invalid_argument(
                    unlabeled_segments_message(),
                ),
            },
    {
        let mut segment_entries = self.registers.committed.segment_entries();
        let uncommitted = self.registers.uncommitted.segment_entries();
        let ghost base = segment_register::entry_views(segment_entries@);
        let ghost candidates = segment_register::entry_views(uncommitted@);
        let ghost mut kept: Seq<SegmentEntryView> = Seq::empty();
        let mut i: usize = 0;
        assert(base + kept =~= base);
        while i < uncommitted.len()
            invariant
                i <= uncommitted.len(),
                self@.wf(),
                candidates == segment_register::entry_views(uncommitted@),
                segment_register::lists(candidates, self@.uncommitted),
                segment_register::entry_views(segment_entries@) == base + kept,
                forall|j: int|
                    0 <= j < i ==> (#[trigger] candidates[j]).generation is Some,
                kept == candidates.take(i as int).filter(
                    |entry: SegmentEntryView| belongs_through(entry, generation),
                ),
            decreases uncommitted.len() - i,
        {
            let entry = uncommitted[i].clone();
            proof {
                let keep = |entry: SegmentEntryView| belongs_through(entry, generation);
                assert(candidates[i as int] == entry@);
                assert(candidates.take(i + 1).drop_last() =~= candidates.take(i as int));
                assert(candidates.take(i + 1).last() == entry@);
                reveal_with_fuel(Seq::filter, 2);
            }
            match entry.publication_generation() {
                Some(entry_generation) => {
                    if entry_generation.0 <= generation.0 {
                        let ghost before = segment_entries@;
                        segment_entries.push(entry);
                        proof {
                            kept = kept.push(entry@);
                            let views = segment_register::entry_views(segment_entries@);
                            assert(views =~= segment_register::entry_views(before).push(entry@));
                        }
                    }
                },
                None => {
                    assert(self@.uncommitted.contains_key(candidates[i as int].id()));
                    return Err(
                        TantivyError::InvalidArgument(
                            "cannot snapshot a publication generation while unlabeled uncommitted segments exist".to_string(),
                        ),
                    );
                },
            }
            i = i + 1;
        }
        proof {
            assert(candidates.take(i as int) =~= candidates);
            lemma_filter_lists(candidates, self@.uncommitted, generation);
            assert(all_labeled(self@.uncommitted)) by {
                assert forall|id: SegmentId| #[trigger] self@.uncommitted.contains_key(
                    id,
                ) implies self@.uncommitted[id].generation is Some by {
                    let j = choose|j: int|
                        0 <= j < candidates.len() && (#[trigger] candidates[j]).id() == id;
                    assert(candidates[j].generation is Some);
                }
            }
            assert((base + kept).take(base.len() as int) =~= base);
            assert((base + kept).skip(base.len() as int) =~= kept);
        }
        Ok(segment_entries)
    }

    /// Forgets the committed segments that have no document left.
    pub fn remove_empty_segments(&mut self)
        requires
            old(self)@.wf(),
            segment_register::metas_wf(old(self)@.committed),
        ensures
            final(self)@ == (RegistersView {
                committed: nonempty(old(self)@.committed),
                ..old(self)@
            }),
            final(self)@.wf(),
            final(self).in_merge() == old(self).in_merge(),
    {
        let entries = self.registers.committed.segment_entries();
        let ghost before = self@.committed;
        let ghost views = segment_register::entry_views(entries@);
        let mut i: usize = 0;
        while i < entries.len()
            invariant
                i <= entries.len(),
                views == segment_register::entry_views(entries@),
                segment_register::metas_wf(before),
                before == old(self)@.committed,
                segment_register::lists(views, before),
                self@.uncommitted == old(self)@.uncommitted,
                self@.committed == before.remove_keys(emptied(views.take(i as int))),
                self.in_merge() == old(self).in_merge(),
            decreases entries.len() - i,
        {
            let ghost view = views[i as int];
            proof {
                assert(view == entries@[i as int]@);
                assert(before.contains_key(view.id()));
                assert(views.take(i + 1) =~= views.take(i as int).push(view));
                lemma_emptied_push(views.take(i as int), view);
            }
            if entries[i].meta().num_docs() == 0 {
                let id = entries[i].segment_id();
                self.registers.committed.remove_segment(&id);
            }
            assert(self@.committed =~= before.remove_keys(emptied(views.take(i + 1))));
            i = i + 1;
        }
        proof {
            assert(views.take(i as int) =~= views);
            assert(self@.committed =~= nonempty(before)) by {
                assert forall|id: SegmentId| #[trigger] before.contains_key(id) implies (emptied(
                    views,
                ).contains(id) <==> before[id].meta.alive() == 0) by {
                    let j = choose|j: int|
                        0 <= j < views.len() && (#[trigger] views[j]).id() == id;
                    assert(views[j].id() == id);
                }
            }
            lemma_part_wf(before, nonempty(before));
        }
    }

    /// Forgets every segment, and with it which are in merge.
    pub fn remove_all_segments(&mut self)
        ensures
            final(self)@ == RegistersView::empty(),
            final(self)@.wf(),
            final(self).in_merge() == Set::<SegmentId>::empty(),
    {
        self.registers.committed.clear();
        self.registers.uncommitted.clear();
        self.marked_segment_ids.clear();
    }

    /// Makes `segment_entries` the committed segments, and leaves none uncommitted. A committed
    /// segment belongs to no generation any more. A segment that was in merge and is committed
    /// stays in merge.
    pub fn commit(&mut self, segment_entries: Vec<SegmentEntry>)
        ensures
            final(self)@.uncommitted == Map::<SegmentId, SegmentEntryView>::empty(),
            final(self)@.committed == segment_register::filled_with(
                unlabeled(segment_register::entry_views(segment_entries@)),
            ),
            final(self)@.wf(),
            final(self).in_merge() == old(self).in_merge().intersect(
                final(self)@.committed.dom(),
            ),
    {
        self.registers.committed.clear();
        self.registers.uncommitted.clear();
        let ghost labeled = segment_register::entry_views(segment_entries@);
        let ghost bare = unlabeled(labeled);
        proof {
            lemma_filled_wf(bare);
            assert(bare.take(0) =~= Seq::<SegmentEntryView>::empty());
        }
        let ghost all = segment_entries@;
        let ghost marks = self.in_merge();
        let mut kept_marks: HashSet<SegmentId> = HashSet::new();
        assert(kept_marks@ =~= marks.intersect(self@.committed.dom()));
        for segment_entry in iter: segment_entries
            invariant
                iter.seq() == all,
                self.in_merge() == marks,
                kept_marks@ == marks.intersect(self@.committed.dom()),
                bare == unlabeled(segment_register::entry_views(all)),
                self@.uncommitted == Map::<SegmentId, SegmentEntryView>::empty(),
                self@.committed == segment_register::filled_with(bare.take(iter.index())),
        {
            let mut segment_entry = segment_entry;
            segment_entry.clear_publication_generation();
            proof {
                let i = iter.index();
                assert(bare.take(i + 1).drop_last() =~= bare.take(i));
                assert(bare.take(i + 1).last() == segment_entry@);
            }
            let id = segment_entry.segment_id();
            let ghost before = self@.committed.dom();
            if self.marked_segment_ids.contains(&id) {
                kept_marks.insert(id);
            }
            self.registers.committed.add_segment_entry(segment_entry);
            proof {
                assert(self@.committed.dom() =~= before.insert(id));
                assert(kept_marks@ =~= marks.intersect(self@.committed.dom()));
            }
        }
        self.marked_segment_ids = kept_marks;
        assert(bare.take(bare.len() as int) =~= bare);
    }

    /// Marks a list of segments as in merge, and returns their entries in the order of
    /// `segment_ids`.
    ///
    /// Returns an error, and marks nothing, if some segments are missing, if the `segment_ids` are
    /// not either all committed or all uncommitted, or if the segments belong to different
    /// generations.
    pub fn start_merge(&mut self, segment_ids: &[SegmentId]) -> (entries: Result<
        Vec<SegmentEntry>,
    >)
        ensures
            final(self)@ == old(self)@,
            final(self).in_merge() == if entries is Ok {
                marked(old(self).in_merge(), segment_ids@)
            } else {
                old(self).in_merge()
            },
            match old(self)@.status(segment_ids@) {
                Some(status) => {
                    let chosen = picked(old(self)@.register(status), segment_ids@);
                    match entries {
                        Ok(entries) => single_generation(chosen) && segment_register::entry_views(
                            entries@,
                        ) == chosen,
                        Err(error) => !single_generation(chosen) && error.is_invalid_argument(
                            mixed_merge_message(),
                        ),
                    }
                },
                None => entries matches Err(error) && error.is_invalid_argument(
                    scattered_merge_message(),
                ),
            },
    {
        let segment_entries = if self.registers.uncommitted.contains_all(segment_ids) {
            pick(&self.registers.uncommitted, segment_ids)
        } else if self.registers.committed.contains_all(segment_ids) {
            pick(&self.registers.committed, segment_ids)
        } else {
            return Err(
                TantivyError::InvalidArgument(
                    "Merge operation sent for segments that are not all uncommitted or committed.".to_string(),
                ),
            );
        };
        let ghost chosen = segment_register::entry_views(segment_entries@);
        let mut i: usize = 1;
        while i < segment_entries.len()
            invariant
                1 <= i,
                chosen == segment_register::entry_views(segment_entries@),
                i <= segment_entries.len() || segment_entries.len() == 0,
                forall|j: int|
                    0 <= j < i && j < chosen.len() ==> (#[trigger] chosen[j]).generation
                        == chosen[0].generation,
                *self == *old(self),
                self@.status(segment_ids@) is Some,
                chosen == picked(
                    self@.register(self@.status(segment_ids@)->0),
                    segment_ids@,
                ),
            decreases segment_entries.len() - i,
        {
            assert(chosen[i as int] == segment_entries@[i as int]@);
            assert(chosen[i - 1] == segment_entries@[i - 1]@);
            if !same_generation(
                segment_entries[i - 1].publication_generation(),
                segment_entries[i].publication_generation(),
            ) {
                assert(!single_generation(chosen));
                return Err(
                    TantivyError::InvalidArgument(
                        "cannot merge segments from different publication generations".to_string(),
                    ),
                );
            }
            i = i + 1;
        }
        mark(&mut self.marked_segment_ids, segment_ids);
        Ok(segment_entries)
    }

    /// Gives up a merge: the segments are no longer marked as in merge.
    pub fn cancel_merge(&mut self, segment_ids: &[SegmentId])
        ensures
            final(self)@ == old(self)@,
            final(self).in_merge() == unmarked(old(self).in_merge(), segment_ids@),
    {
        unmark(&mut self.marked_segment_ids, segment_ids);
    }

    /// Registers a new segment as uncommitted.
    pub fn add_segment(&mut self, segment_entry: SegmentEntry)
        requires
            old(self)@.wf(),
        ensures
            final(self)@ == (RegistersView {
                uncommitted: old(self)@.uncommitted.insert(segment_entry@.id(), segment_entry@),
                ..old(self)@
            }),
            final(self)@.wf(),
            final(self).in_merge() == old(self).in_merge(),
    {
        self.registers.uncommitted.add_segment_entry(segment_entry);
    }

    /// Replaces a list of segments by the segment they were merged into, or by none where the
    /// merge left no document. The merge is over: the segments are no longer marked.
    ///
    /// Returns in which register that took place. It is an error, and nothing changes, if the
    /// segments are not all in one of the registers.
    pub fn end_merge(
        &mut self,
        before_merge_segment_ids: &[SegmentId],
        after_merge_segment_entry: Option<SegmentEntry>,
    ) -> (status: Result<SegmentsStatus>)
        requires
            old(self)@.wf(),
        ensures
            match old(self)@.status(before_merge_segment_ids@) {
                Some(register) => {
                    &&& status matches Ok(reported) && reported == register
                    &&& final(self)@ == old(self)@.with_register(
                        register,
                        replaced(
                            old(self)@.register(register),
                            before_merge_segment_ids@,
                            entry_view(after_merge_segment_entry),
                        ),
                    )
                },
                None => {
                    &&& status matches Err(error) && error.is_invalid_argument(
                        lost_merge_message(),
                    )
                    &&& final(self)@ == old(self)@
                },
            },
            final(self)@.wf(),
            final(self).in_merge() == if status is Ok {
                unmarked(old(self).in_merge(), before_merge_segment_ids@)
            } else {
                old(self).in_merge()
            },
    {
        let segments_status = match self.registers.segments_status(before_merge_segment_ids) {
            Some(segments_status) => segments_status,
            None => {
                return Err(
                    TantivyError::InvalidArgument(
                        "The segments that were merged could not be found in the SegmentManager. This is not necessarily a bug, and can happen after a rollback for instance.".to_string(),
                    ),
                );
            },
        };
        let target_register: &mut SegmentRegister = match segments_status {
            SegmentsStatus::Uncommitted => &mut self.registers.uncommitted,
            SegmentsStatus::Committed => &mut self.registers.committed,
        };
        replace(target_register, before_merge_segment_ids, after_merge_segment_entry);
        unmark(&mut self.marked_segment_ids, before_merge_segment_ids);
        Ok(segments_status)
    }

    /// The metadata of the committed segments that have a document left, by increasing id. The
    /// committed segments that have none are forgotten.
    pub fn committed_segment_metas(&mut self) -> (metas: Vec<SegmentMeta>)
        requires
            old(self)@.wf(),
            segment_register::metas_wf(old(self)@.committed),
        ensures
            final(self)@ == (RegistersView {
                committed: nonempty(old(self)@.committed),
                ..old(self)@
            }),
            final(self)@.wf(),
            final(self).in_merge() == old(self).in_merge(),
            segment_register::lists_metas(metas@, nonempty(old(self)@.committed)),
            segment_register::sorted_by_id(metas@),
    {
        self.remove_empty_segments();
        self.registers.committed.segment_metas()
    }
}

/// The ids of the entries that have no document left.
spec fn emptied(entries: Seq<SegmentEntryView>) -> Set<SegmentId> {
    Set::new(
        |id: SegmentId|
            exists|j: int|
                0 <= j < entries.len() && (#[trigger] entries[j]).id() == id
                    && entries[j].meta.alive() == 0,
    )
}

/// What one more entry adds to the emptied ones.
proof fn lemma_emptied_push(entries: Seq<SegmentEntryView>, entry: SegmentEntryView)
    ensures
        emptied(entries.push(entry)) == if entry.meta.alive() == 0 {
            emptied(entries).insert(entry.id())
        } else {
            emptied(entries)
        },
{
    let more = entries.push(entry);
    assert forall|id: SegmentId| emptied(more).contains(id) <==> emptied(entries).contains(id) || (
    entry.meta.alive() == 0 && id == entry.id()) by {
        if emptied(entries).contains(id) {
            let j = choose|j: int|
                0 <= j < entries.len() && (#[trigger] entries[j]).id() == id
                    && entries[j].meta.alive() == 0;
            assert(more[j] == entries[j]);
        }
        if emptied(more).contains(id) {
            let j = choose|j: int|
                0 <= j < more.len() && (#[trigger] more[j]).id() == id && more[j].meta.alive()
                    == 0;
            if j < entries.len() {
                assert(entries[j] == more[j]);
            }
        }
        assert(more[entries.len() as int] == entry);
    }
    assert(emptied(more) =~= if entry.meta.alive() == 0 {
        emptied(entries).insert(entry.id())
    } else {
        emptied(entries)
    });
}

/// Whether the two labels are the same.
fn same_generation(
    left: Option<PublicationGeneration>,
    right: Option<PublicationGeneration>,
) -> (same: bool)
    ensures
        same == (left == right),
{
    match (left, right) {
        (Some(left), Some(right)) => left == right,
        (None, None) => true,
        _ => false,
    }
}

/// The entries of the given segments, all of which are registered.
fn pick(register: &SegmentRegister, segment_ids: &[SegmentId]) -> (entries: Vec<SegmentEntry>)
    requires
        segment_register::holds_all(register@, segment_ids@),
    ensures
        segment_register::entry_views(entries@) == picked(register@, segment_ids@),
{
    let mut entries: Vec<SegmentEntry> = Vec::new();
    let mut i: usize = 0;
    while i < segment_ids.len()
        invariant
            i <= segment_ids.len(),
            entries@.len() == i,
            segment_register::holds_all(register@, segment_ids@),
            forall|j: int| 0 <= j < i ==> (#[trigger] entries@[j])@ == register@[segment_ids@[j]],
        decreases segment_ids.len() - i,
    {
        assert(register@.contains_key(segment_ids@[i as int]));
        match register.get(&segment_ids[i]) {
            Some(entry) => entries.push(entry),
            None => {},
        }
        i = i + 1;
    }
    assert(segment_register::entry_views(entries@) =~= picked(register@, segment_ids@));
    entries
}

/// Marks the given segments.
fn mark(marks: &mut HashSet<SegmentId>, segment_ids: &[SegmentId])
    ensures
        final(marks)@ == marked(old(marks)@, segment_ids@),
{
    let ghost before = marks@;
    let mut i: usize = 0;
    assert(marked(before, segment_ids@.take(0)) =~= before);
    while i < segment_ids.len()
        invariant
            i <= segment_ids.len(),
            marks@ == marked(before, segment_ids@.take(i as int)),
        decreases segment_ids.len() - i,
    {
        marks.insert(segment_ids[i]);
        proof {
            let done = segment_ids@.take(i as int);
            let id = segment_ids@[i as int];
            assert(segment_ids@.take(i + 1) =~= done.push(id));
            assert forall|other: SegmentId|
                done.push(id).contains(other) <==> done.contains(other) || other == id by {
                segment_register::lemma_push_contains(done, id, other);
            }
            assert(marks@ =~= marked(before, segment_ids@.take(i + 1)));
        }
        i = i + 1;
    }
    assert(segment_ids@.take(i as int) =~= segment_ids@);
}

/// Takes the marks of the given segments off.
fn unmark(marks: &mut HashSet<SegmentId>, segment_ids: &[SegmentId])
    ensures
        final(marks)@ == unmarked(old(marks)@, segment_ids@),
{
    let ghost before = marks@;
    let mut i: usize = 0;
    assert(unmarked(before, segment_ids@.take(0)) =~= before);
    while i < segment_ids.len()
        invariant
            i <= segment_ids.len(),
            marks@ == unmarked(before, segment_ids@.take(i as int)),
        decreases segment_ids.len() - i,
    {
        marks.remove(&segment_ids[i]);
        proof {
            let done = segment_ids@.take(i as int);
            let id = segment_ids@[i as int];
            assert(segment_ids@.take(i + 1) =~= done.push(id));
            assert forall|other: SegmentId|
                done.push(id).contains(other) <==> done.contains(other) || other == id by {
                segment_register::lemma_push_contains(done, id, other);
            }
            assert(marks@ =~= unmarked(before, segment_ids@.take(i + 1)));
        }
        i = i + 1;
    }
    assert(segment_ids@.take(i as int) =~= segment_ids@);
}

/// Takes the given segments out of a register, and puts in the one they were merged into.
fn replace(
    register: &mut SegmentRegister,
    segment_ids: &[SegmentId],
    merged: Option<SegmentEntry>,
)
    requires
        segment_register::segments_wf(old(register)@),
    ensures
        final(register)@ == replaced(old(register)@, segment_ids@, entry_view(merged)),
        segment_register::segments_wf(final(register)@),
{
    let ghost before = register@;
    let mut i: usize = 0;
    assert(before.remove_keys(segment_ids@.take(0).to_set()) =~= before);
    while i < segment_ids.len()
        invariant
            i <= segment_ids.len(),
            register@ == before.remove_keys(segment_ids@.take(i as int).to_set()),
        decreases segment_ids.len() - i,
    {
        register.remove_segment(&segment_ids[i]);
        proof {
            let done = segment_ids@.take(i as int);
            let id = segment_ids@[i as int];
            assert(segment_ids@.take(i + 1) =~= done.push(id));
            assert forall|other: SegmentId|
                done.push(id).contains(other) <==> done.contains(other) || other == id by {
                segment_register::lemma_push_contains(done, id, other);
            }
            assert(register@ =~= before.remove_keys(segment_ids@.take(i + 1).to_set()));
        }
        i = i + 1;
    }
    proof {
        assert(segment_ids@.take(i as int) =~= segment_ids@);
        lemma_part_wf(before, before.remove_keys(segment_ids@.to_set()));
    }
    if let Some(entry) = merged {
        register.add_segment_entry(entry);
    }
}

/// A part of a sound register is sound.
proof fn lemma_part_wf(segments: Segments, part: Segments)
    requires
        segment_register::segments_wf(segments),
        part.dom().subset_of(segments.dom()),
        forall|id: SegmentId| #[trigger] part.contains_key(id) ==> part[id] == segments[id],
    ensures
        segment_register::segments_wf(part),
{
    vstd::set_lib::lemma_len_subset(part.dom(), segments.dom());
    assert forall|id: SegmentId| #[trigger] part.contains_key(id) implies part[id].id() == id by {
        assert(segments.contains_key(id));
    }
}

/// The entries of a listing that belong to a generation or an earlier one list those segments.
proof fn lemma_filter_lists(
    entries: Seq<SegmentEntryView>,
    segments: Segments,
    generation: PublicationGeneration,
)
    requires
        segment_register::lists(entries, segments),
    ensures
        segment_register::lists(
            entries.filter(|entry: SegmentEntryView| belongs_through(entry, generation)),
            through_generation(segments, generation),
        ),
{
    let keep = |entry: SegmentEntryView| belongs_through(entry, generation);
    broadcast use vstd::seq_lib::group_filter_ensures;

    let kept = entries.filter(keep);
    let part = through_generation(segments, generation);
    lemma_filter_keeps_order(entries, keep);
    assert forall|i: int| 0 <= i < kept.len() implies part.contains_key(
        (#[trigger] kept[i]).id(),
    ) && part[kept[i].id()] == kept[i] by {
        let origin = choose|origin: Seq<int>| is_origin(entries, kept, origin);
        assert(entries[origin[i]] == kept[i]);
        assert(keep(kept[i]));
    }
    assert forall|i: int, j: int| 0 <= i < j < kept.len() implies (#[trigger] kept[i]).id() != (
    #[trigger] kept[j]).id() by {
        let origin = choose|origin: Seq<int>| is_origin(entries, kept, origin);
        assert(origin[i] < origin[j]);
        assert(entries[origin[i]].id() != entries[origin[j]].id());
    }
    assert forall|id: SegmentId| #[trigger] part.contains_key(id) implies exists|i: int|
        0 <= i < kept.len() && (#[trigger] kept[i]).id() == id by {
        let j = choose|j: int| 0 <= j < entries.len() && (#[trigger] entries[j]).id() == id;
        assert(keep(entries[j]));
        assert(kept.contains(entries[j]));
        let i = choose|i: int| 0 <= i < kept.len() && kept[i] == entries[j];
        assert(kept[i].id() == id);
    }
    segment_register::lemma_lists(kept, part);
}

/// `origin[i]` is the place in `all` from which `kept[i]` came, and the order was kept.
spec fn is_origin<T>(all: Seq<T>, kept: Seq<T>, origin: Seq<int>) -> bool {
    &&& origin.len() == kept.len()
    &&& forall|i: int|
        0 <= i < kept.len() ==> 0 <= #[trigger] origin[i] < all.len() && all[origin[i]] == kept[i]
    &&& forall|i: int, j: int|
        0 <= i < j < kept.len() ==> #[trigger] origin[i] < #[trigger] origin[j]
}

/// A filter keeps the order of what it keeps.
proof fn lemma_filter_keeps_order<T>(all: Seq<T>, keep: spec_fn(T) -> bool)
    ensures
        exists|origin: Seq<int>| is_origin(all, all.filter(keep), origin),
    decreases all.len(),
{
    reveal_with_fuel(Seq::filter, 2);
    if all.len() == 0 {
        assert(is_origin(all, all.filter(keep), Seq::<int>::empty()));
    } else {
        let rest = all.drop_last();
        lemma_filter_keeps_order(rest, keep);
        let origin = choose|origin: Seq<int>| is_origin(rest, rest.filter(keep), origin);
        if keep(all.last()) {
            let extended = origin.push(all.len() - 1);
            assert(is_origin(all, all.filter(keep), extended));
        } else {
            assert(is_origin(all, all.filter(keep), origin));
        }
    }
}

/// The register that entries fill is sound.
proof fn lemma_filled_wf(entries: Seq<SegmentEntryView>)
    ensures
        segment_register::segments_wf(segment_register::filled_with(entries)),
    decreases entries.len(),
{
    if entries.len() > 0 {
        lemma_filled_wf(entries.drop_last());
    }
}

/// A segment of a later generation does not enter a snapshot.
pub proof fn law_snapshot_ignores_later_segment(
    uncommitted: Segments,
    entry: SegmentEntryView,
    generation: PublicationGeneration,
)
    requires
        !uncommitted.contains_key(entry.id()),
        entry.generation matches Some(label) && label.0 > generation.0,
    ensures
        through_generation(uncommitted.insert(entry.id(), entry), generation)
            == through_generation(uncommitted, generation),
        all_labeled(uncommitted.insert(entry.id(), entry)) == all_labeled(uncommitted),
{
    let more = uncommitted.insert(entry.id(), entry);
    assert(through_generation(more, generation) =~= through_generation(uncommitted, generation));
    if all_labeled(more) {
        assert forall|id: SegmentId| #[trigger] uncommitted.contains_key(
            id,
        ) implies uncommitted[id].generation is Some by {
            assert(more.contains_key(id));
        }
    }
}

/// A snapshot through a later generation holds whatever one through an earlier generation holds.
pub proof fn law_snapshots_grow(
    uncommitted: Segments,
    earlier: PublicationGeneration,
    later: PublicationGeneration,
)
    requires
        earlier.0 <= later.0,
    ensures
        through_generation(uncommitted, earlier).submap_of(
            through_generation(uncommitted, later),
        ),
{
}

/// What is committed belongs to no generation, and what is left uncommitted keeps no snapshot
/// from being taken: a snapshot right after a commit is the durable base, whatever its generation.
pub proof fn law_commit_clears_generations(
    entries: Seq<SegmentEntryView>,
    generation: PublicationGeneration,
)
    ensures
        forall|id: SegmentId| #[trigger]
            segment_register::filled_with(unlabeled(entries)).contains_key(id)
                ==> segment_register::filled_with(unlabeled(entries))[id].generation is None,
        all_labeled(RegistersView::empty().uncommitted),
        through_generation(RegistersView::empty().uncommitted, generation)
            == RegistersView::empty().uncommitted,
    decreases entries.len(),
{
    assert(through_generation(RegistersView::empty().uncommitted, generation)
        =~= RegistersView::empty().uncommitted);
    if entries.len() > 0 {
        law_commit_clears_generations(entries.drop_last(), generation);
        assert(unlabeled(entries).drop_last() =~= unlabeled(entries.drop_last()));
    }
}

/// A merge can end after a commit that kept its segments, wherever it began. It then takes place
/// among the committed segments.
pub proof fn law_merge_survives_commit(
    ids: Seq<SegmentId>,
    entries: Seq<SegmentEntryView>,
)
    requires
        ids.len() > 0,
        forall|i: int|
            0 <= i < ids.len() ==> exists|j: int|
                0 <= j < entries.len() && (#[trigger] entries[j]).id() == #[trigger] ids[i],
    ensures
        (RegistersView {
            uncommitted: Map::empty(),
            committed: segment_register::filled_with(unlabeled(entries)),
        }).status(ids) == Some(SegmentsStatus::Committed),
{
    let committed = segment_register::filled_with(unlabeled(entries));
    assert forall|i: int| 0 <= i < ids.len() implies committed.contains_key(#[trigger] ids[i]) by {
        let j = choose|j: int| 0 <= j < entries.len() && (#[trigger] entries[j]).id() == ids[i];
        assert(unlabeled(entries)[j].id() == ids[i]);
        lemma_filled_holds(unlabeled(entries), j);
    }
    let uncommitted = Segments::empty();
    assert(!uncommitted.contains_key(ids[0]));
}

/// The register that entries fill holds each of their ids.
proof fn lemma_filled_holds(entries: Seq<SegmentEntryView>, j: int)
    requires
        0 <= j < entries.len(),
    ensures
        segment_register::filled_with(entries).contains_key(entries[j].id()),
    decreases entries.len(),
{
    if j < entries.len() - 1 {
        lemma_filled_holds(entries.drop_last(), j);
    }
}

/// Once every segment was forgotten, no merge of some segments can end, and none can start.
pub proof fn law_merge_is_lost_after_removal(ids: Seq<SegmentId>)
    requires
        ids.len() > 0,
    ensures
        RegistersView::empty().status(ids) is None,
{
    assert(!RegistersView::empty().uncommitted.contains_key(ids[0]));
    assert(!RegistersView::empty().committed.contains_key(ids[0]));
}

/// The end of a merge touches one register, and there only the merged segments and the one they
/// were merged into.
pub proof fn law_merge_touches_only_its_segments(
    registers: RegistersView,
    ids: Seq<SegmentId>,
    merged: Option<SegmentEntryView>,
    status: SegmentsStatus,
    other: SegmentId,
)
    requires
        registers.status(ids) == Some(status),
        !ids.contains(other),
        merged matches Some(entry) ==> entry.id() != other,
    ensures
        ({
            let after = registers.with_register(
                status,
                replaced(registers.register(status), ids, merged),
            );
            &&& status == SegmentsStatus::Committed ==> after.uncommitted == registers.uncommitted
            &&& status == SegmentsStatus::Uncommitted ==> after.committed == registers.committed
            &&& after.register(status).contains_key(other) == registers.register(
                status,
            ).contains_key(other)
            &&& after.register(status).contains_key(other) ==> after.register(status)[other]
                == registers.register(status)[other]
        }),
{
}

/// The end of a merge takes the merged segments out, and puts in the one they were merged into.
pub proof fn law_merge_replaces_its_segments(
    segments: Segments,
    ids: Seq<SegmentId>,
    merged: Option<SegmentEntryView>,
    id: SegmentId,
)
    requires
        ids.contains(id),
    ensures
        match merged {
            Some(entry) => {
                let after = replaced(segments, ids, merged);
                &&& after.contains_key(entry.id())
                &&& after[entry.id()] == entry
                &&& after.contains_key(id) ==> id == entry.id()
            },
            None => !replaced(segments, ids, merged).contains_key(id),
        },
{
}

/// A merge that was let start does not move documents across a publication boundary: a merged
/// segment that keeps the label of its sources enters just the snapshots that held all of them.
pub proof fn law_merge_keeps_publication_boundaries(
    uncommitted: Segments,
    ids: Seq<SegmentId>,
    merged: SegmentEntryView,
    generation: PublicationGeneration,
)
    requires
        ids.len() > 0,
        segment_register::holds_all(uncommitted, ids),
        single_generation(picked(uncommitted, ids)),
        merged.generation == uncommitted[ids[0]].generation,
    ensures
        through_generation(
            replaced(uncommitted, ids, Some(merged)),
            generation,
        ).contains_key(merged.id()) == segment_register::holds_all(
            through_generation(uncommitted, generation),
            ids,
        ),
        through_generation(
            replaced(uncommitted, ids, Some(merged)),
            generation,
        ).contains_key(merged.id()) == exists|i: int|
            0 <= i < ids.len() && through_generation(uncommitted, generation).contains_key(
                #[trigger] ids[i],
            ),
{
    let chosen = picked(uncommitted, ids);
    let part = through_generation(uncommitted, generation);
    assert forall|i: int| 0 <= i < ids.len() implies part.contains_key(#[trigger] ids[i])
        == belongs_through(merged, generation) by {
        assert(uncommitted.contains_key(ids[i]));
        assert(chosen[0].generation == chosen[i].generation);
    }
    assert(part.contains_key(ids[0]) == belongs_through(merged, generation));
}

/// The segments of a merge that was started are not offered for another one, whatever further ids
/// the caller names, and however many merges start after it.
pub proof fn law_started_merge_is_not_offered_again(
    segments: Segments,
    named: Set<SegmentId>,
    marks: Set<SegmentId>,
    ids: Seq<SegmentId>,
    later_ids: Seq<SegmentId>,
    offered: Seq<SegmentMeta>,
    i: int,
)
    requires
        segment_register::lists_metas(
            offered,
            segments.remove_keys(named.union(marked(marked(marks, ids), later_ids))),
        ),
        0 <= i < offered.len(),
    ensures
        !ids.contains(offered[i].segment_id),
        !later_ids.contains(offered[i].segment_id),
{
}

/// A segment that is in merge and is committed is not offered after the commit either.
pub proof fn law_commit_keeps_segments_in_merge(
    committed: Segments,
    named: Set<SegmentId>,
    marks: Set<SegmentId>,
    offered: Seq<SegmentMeta>,
    i: int,
)
    requires
        segment_register::lists_metas(
            offered,
            committed.remove_keys(named.union(marks.intersect(committed.dom()))),
        ),
        0 <= i < offered.len(),
    ensures
        !marks.contains(offered[i].segment_id),
{
}

/// Once a merge ended or was cancelled, its segments are free again: those still registered are
/// offered, unless the caller names them.
pub proof fn law_finished_merge_frees_its_segments(
    segments: Segments,
    named: Set<SegmentId>,
    marks: Set<SegmentId>,
    ids: Seq<SegmentId>,
    offered: Seq<SegmentMeta>,
    id: SegmentId,
)
    requires
        segment_register::lists_metas(
            offered,
            segments.remove_keys(named.union(unmarked(marked(marks, ids), ids))),
        ),
        ids.contains(id),
        segments.contains_key(id),
        !named.contains(id),
    ensures
        exists|i: int| 0 <= i < offered.len() && (#[trigger] offered[i]).segment_id == id,
{
    assert(segments.remove_keys(
        named.union(unmarked(marked(marks, ids), ids)),
    ).contains_key(id));
}

/// Forgetting the empty segments a second time changes nothing.
pub proof fn law_removing_empty_segments_twice(segments: Segments)
    ensures
        nonempty(nonempty(segments)) == nonempty(segments),
{
    assert(nonempty(nonempty(segments)) =~= nonempty(segments));
}

/// A merge is let start just if its segments are all uncommitted, or all committed, and carry the
/// same label or none: nothing else about them matters. It is then handed the entry of each, in the
/// order asked for.
pub proof fn law_merge_starts_within_one_generation(registers: RegistersView, ids: Seq<SegmentId>)
    ensures
        ({
            let all_uncommitted = forall|i: int|
                0 <= i < ids.len() ==> registers.uncommitted.contains_key(#[trigger] ids[i]);
            let all_committed = forall|i: int|
                0 <= i < ids.len() ==> registers.committed.contains_key(#[trigger] ids[i]);
            let found = if all_uncommitted {
                registers.uncommitted
            } else {
                registers.committed
            };
            let chosen = picked(registers.register(registers.status(ids)->0), ids);
            let alike = forall|i: int, j: int|
                0 <= i < ids.len() && 0 <= j < ids.len() ==> found[#[trigger] ids[i]].generation
                    == found[#[trigger] ids[j]].generation;
            &&& registers.status(ids) is Some <==> all_uncommitted || all_committed
            &&& all_uncommitted || all_committed ==> {
                &&& single_generation(chosen) <==> alike
                &&& chosen.len() == ids.len()
                &&& forall|i: int| 0 <= i < ids.len() ==> #[trigger] chosen[i] == found[ids[i]]
            }
        }),
{
    let all_uncommitted = forall|i: int|
        0 <= i < ids.len() ==> registers.uncommitted.contains_key(#[trigger] ids[i]);
    let all_committed = forall|i: int|
        0 <= i < ids.len() ==> registers.committed.contains_key(#[trigger] ids[i]);
    let found = if all_uncommitted {
        registers.uncommitted
    } else {
        registers.committed
    };
    if all_uncommitted || all_committed {
        let chosen = picked(registers.register(registers.status(ids)->0), ids);
        assert(chosen =~= Seq::new(ids.len(), |i: int| found[ids[i]]));
        if single_generation(chosen) {
            assert forall|i: int, j: int| 0 <= i < ids.len() && 0 <= j < ids.len() implies found[
            #[trigger] ids[i]].generation == found[#[trigger] ids[j]].generation by {
                assert(chosen[i] == found[ids[i]] && chosen[j] == found[ids[j]]);
                if i < j {
                    assert(chosen[i].generation == chosen[j].generation);
                } else if j < i {
                    assert(chosen[j].generation == chosen[i].generation);
                }
            }
        }
        if forall|i: int, j: int|
            0 <= i < ids.len() && 0 <= j < ids.len() ==> found[#[trigger] ids[i]].generation
                == found[#[trigger] ids[j]].generation {
            assert forall|i: int, j: int| 0 <= i < j < chosen.len() implies (
            #[trigger] chosen[i]).generation == (#[trigger] chosen[j]).generation by {
                assert(found[ids[i]].generation == found[ids[j]].generation);
            }
        }
    }
}

/// Where a merge takes place: among the uncommitted segments if they are all there, else among the
/// committed ones if they are all there, else nowhere.
pub proof fn law_merge_finds_its_register(registers: RegistersView, ids: Seq<SegmentId>)
    ensures
        registers.status(ids) == Some(SegmentsStatus::Uncommitted) <==> forall|i: int|
            0 <= i < ids.len() ==> registers.uncommitted.contains_key(#[trigger] ids[i]),
        registers.status(ids) == Some(SegmentsStatus::Committed) <==> (exists|i: int|
            0 <= i < ids.len() && !registers.uncommitted.contains_key(#[trigger] ids[i])) && (
        forall|i: int|
            0 <= i < ids.len() ==> registers.committed.contains_key(#[trigger] ids[i])),
        registers.status(ids) is None <==> (exists|i: int|
            0 <= i < ids.len() && !registers.uncommitted.contains_key(#[trigger] ids[i])) && (
        exists|i: int|
            0 <= i < ids.len() && !registers.committed.contains_key(#[trigger] ids[i])),
        registers.register(SegmentsStatus::Uncommitted) == registers.uncommitted,
        registers.register(SegmentsStatus::Committed) == registers.committed,
{
}

/// What the end of a merge leaves: in the register where it took place the merged segment stands
/// under its id, the others that were merged are gone, and every further segment is as it was. The
/// other register is as it was altogether.
pub proof fn law_merge_ends_in_one_register(
    registers: RegistersView,
    ids: Seq<SegmentId>,
    merged: Option<SegmentEntryView>,
    status: SegmentsStatus,
    id: SegmentId,
)
    ensures
        ({
            let after = registers.with_register(
                status,
                replaced(registers.register(status), ids, merged),
            );
            let (before_here, after_here, before_there, after_there) = match status {
                SegmentsStatus::Committed => (
                    registers.committed,
                    after.committed,
                    registers.uncommitted,
                    after.uncommitted,
                ),
                SegmentsStatus::Uncommitted => (
                    registers.uncommitted,
                    after.uncommitted,
                    registers.committed,
                    after.committed,
                ),
            };
            let is_merged = merged is Some && merged->0.meta.segment_id == id;
            &&& after_there == before_there
            &&& after_here.contains_key(id) <==> is_merged || (before_here.contains_key(id)
                && !(exists|i: int| 0 <= i < ids.len() && #[trigger] ids[i] == id))
            &&& is_merged ==> after_here[id] == merged->0
            &&& after_here.contains_key(id) && !is_merged ==> after_here[id] == before_here[id]
        }),
{
    assert(ids.to_set().contains(id) <==> exists|i: int| 0 <= i < ids.len() && #[trigger] ids[i]
        == id);
}

/// A committed segment is forgotten if and only if all of its documents are deleted, whatever its
/// label, its place in the delete queue or its set of documents. What is kept is kept as it is.
pub proof fn law_only_segments_without_documents_are_forgotten(segments: Segments, id: SegmentId)
    requires
        segments[id].meta.deletes matches Some(deletes) ==> deletes.num_deleted_docs
            <= segments[id].meta.max_doc,
    ensures
        ({
            let meta = segments[id].meta;
            let deleted = match meta.deletes {
                Some(deletes) => deletes.num_deleted_docs as int,
                None => 0,
            };
            &&& nonempty(segments).contains_key(id) <==> segments.contains_key(id) && meta.max_doc
                - deleted > 0
            &&& nonempty(segments).contains_key(id) ==> nonempty(segments)[id] == segments[id]
        }),
{
}

/// Whether a segment is forgotten depends on nothing but its numbers of documents: an entry with
/// the same metadata, in the same place, has the same fate.
pub proof fn law_forgetting_depends_on_metadata_only(
    segments: Segments,
    entry: SegmentEntryView,
    other: SegmentEntryView,
)
    requires
        entry.meta == other.meta,
    ensures
        nonempty(segments.insert(entry.id(), entry)).contains_key(entry.id()) == nonempty(
            segments.insert(entry.id(), other),
        ).contains_key(entry.id()),
{
}

/// A snapshot through a generation holds just those uncommitted segments whose label is that
/// generation or an earlier one, as they are. It is refused just if one of them has no label.
pub proof fn law_snapshot_goes_by_label(
    uncommitted: Segments,
    generation: PublicationGeneration,
    id: SegmentId,
)
    ensures
        through_generation(uncommitted, generation).contains_key(id) <==> uncommitted.contains_key(
            id,
        ) && (uncommitted[id].generation matches Some(label) && label.0 <= generation.0),
        through_generation(uncommitted, generation).contains_key(id) ==> through_generation(
            uncommitted,
            generation,
        )[id] == uncommitted[id],
        !all_labeled(uncommitted) <==> exists|unlabeled: SegmentId| #[trigger]
            uncommitted.contains_key(unlabeled) && uncommitted[unlabeled].generation is None,
{
}

/// A listing of two groups of segments holds each segment of the first group at one place, then
/// each of the second at one place, and nothing else.
pub proof fn law_listing_holds_each_segment_once(
    entries: Seq<SegmentEntryView>,
    first: Segments,
    second: Segments,
)
    requires
        lists_both(entries, first, second),
    ensures
        ({
            let split = first.dom().len() as int;
            &&& entries.len() == split + second.dom().len()
            &&& forall|i: int|
                0 <= i < split ==> first.contains_key((#[trigger] entries[i]).meta.segment_id)
                    && first[entries[i].meta.segment_id] == entries[i]
            &&& forall|i: int|
                split <= i < entries.len() ==> second.contains_key(
                    (#[trigger] entries[i]).meta.segment_id,
                ) && second[entries[i].meta.segment_id] == entries[i]
            &&& forall|i: int, j: int|
                (0 <= i < j < split || split <= i < j < entries.len()) ==> (
                #[trigger] entries[i]).meta.segment_id != (#[trigger] entries[j]).meta.segment_id
            &&& forall|id: SegmentId| #[trigger]
                first.contains_key(id) ==> exists|i: int|
                    0 <= i < split && (#[trigger] entries[i]).meta.segment_id == id
            &&& forall|id: SegmentId| #[trigger]
                second.contains_key(id) ==> exists|i: int|
                    split <= i < entries.len() && (#[trigger] entries[i]).meta.segment_id == id
        }),
{
    let split = first.dom().len() as int;
    let head = entries.take(split);
    let tail = entries.skip(split);
    segment_register::law_listing_is_complete(head, first);
    segment_register::law_listing_is_complete(tail, second);
    assert forall|i: int| 0 <= i < split implies first.contains_key(
        (#[trigger] entries[i]).meta.segment_id,
    ) && first[entries[i].meta.segment_id] == entries[i] by {
        assert(head[i] == entries[i]);
    }
    assert forall|i: int| split <= i < entries.len() implies second.contains_key(
        (#[trigger] entries[i]).meta.segment_id,
    ) && second[entries[i].meta.segment_id] == entries[i] by {
        assert(tail[i - split] == entries[i]);
    }
    assert forall|i: int, j: int|
        (0 <= i < j < split || split <= i < j < entries.len()) implies (
    #[trigger] entries[i]).meta.segment_id != (#[trigger] entries[j]).meta.segment_id by {
        if j < split {
            assert(head[i] == entries[i] && head[j] == entries[j]);
        } else {
            assert(tail[i - split] == entries[i] && tail[j - split] == entries[j]);
        }
    }
    assert forall|id: SegmentId| #[trigger] first.contains_key(id) implies exists|i: int|
        0 <= i < split && (#[trigger] entries[i]).meta.segment_id == id by {
        let i = choose|i: int|
            0 <= i < head.len() && (#[trigger] head[i]).meta.segment_id == id;
        assert(entries[i].meta.segment_id == id);
    }
    assert forall|id: SegmentId| #[trigger] second.contains_key(id) implies exists|i: int|
        split <= i < entries.len() && (#[trigger] entries[i]).meta.segment_id == id by {
        let i = choose|i: int|
            0 <= i < tail.len() && (#[trigger] tail[i]).meta.segment_id == id;
        assert(entries[i + split].meta.segment_id == id);
    }
}

/// What a commit leaves committed: the segments of the given entries and no others, each as the
/// last entry under its id has it, but without a label.
pub proof fn law_commit_takes_entries_as_they_are(entries: Seq<SegmentEntryView>, id: SegmentId)
    ensures
        ({
            let committed = segment_register::filled_with(unlabeled(entries));
            &&& committed.contains_key(id) <==> exists|i: int|
                0 <= i < entries.len() && (#[trigger] entries[i]).meta.segment_id == id
            &&& forall|i: int|
                0 <= i < entries.len() && (#[trigger] entries[i]).meta.segment_id == id && (
                forall|j: int|
                    i < j < entries.len() ==> (#[trigger] entries[j]).meta.segment_id != id)
                    ==> committed[id].meta == entries[i].meta && committed[id].alive
                    == entries[i].alive && committed[id].cursor == entries[i].cursor
                    && committed[id].generation is None
        }),
{
    let bare = unlabeled(entries);
    let committed = segment_register::filled_with(bare);
    segment_register::law_later_entry_stays(bare, id);
    assert forall|i: int| 0 <= i < entries.len() implies (#[trigger] bare[i]).meta
        == entries[i].meta && bare[i].alive == entries[i].alive && bare[i].cursor
        == entries[i].cursor && bare[i].generation is None by {}
    if committed.contains_key(id) {
        let i = choose|i: int| 0 <= i < bare.len() && (#[trigger] bare[i]).meta.segment_id == id;
        assert(entries[i].meta.segment_id == id);
    }
    if exists|i: int| 0 <= i < entries.len() && (#[trigger] entries[i]).meta.segment_id == id {
        let i = choose|i: int|
            0 <= i < entries.len() && (#[trigger] entries[i]).meta.segment_id == id;
        assert(bare[i].meta.segment_id == id);
    }
    assert forall|i: int|
        0 <= i < entries.len() && (#[trigger] entries[i]).meta.segment_id == id && (forall|j: int|
            i < j < entries.len() ==> (#[trigger] entries[j]).meta.segment_id
                != id) implies committed[id] == bare[i] && bare[i].meta == entries[i].meta
        && bare[i].alive == entries[i].alive && bare[i].cursor == entries[i].cursor
        && bare[i].generation is None by {
        assert(bare[i].meta.segment_id == id);
        assert forall|j: int| i < j < bare.len() implies (#[trigger] bare[j]).meta.segment_id
            != id by {
            assert(entries[j].meta.segment_id != id);
        }
    }
}

/// Marking adds just the listed segments to those in merge, and taking marks off removes just the
/// listed ones.
pub proof fn law_marks_are_those_listed(marks: Set<SegmentId>, ids: Seq<SegmentId>, id: SegmentId)
    ensures
        marked(marks, ids).contains(id) <==> marks.contains(id) || exists|i: int|
            0 <= i < ids.len() && #[trigger] ids[i] == id,
        unmarked(marks, ids).contains(id) <==> marks.contains(id) && forall|i: int|
            0 <= i < ids.len() ==> #[trigger] ids[i] != id,
{
    assert(ids.to_set().contains(id) <==> exists|i: int| 0 <= i < ids.len() && #[trigger] ids[i]
        == id);
}

/// Nothing is registered in registers that are empty.
pub proof fn law_empty_registers_hold_nothing(id: SegmentId)
    ensures
        !RegistersView::empty().committed.contains_key(id),
        !RegistersView::empty().uncommitted.contains_key(id),
{
}

/// What a list of entries stands for is what each of them stands for, in the same order.
pub proof fn law_entries_keep_their_order(entries: Seq<SegmentEntry>, i: int)
    requires
        0 <= i < entries.len(),
    ensures
        segment_register::entry_views(entries).len() == entries.len(),
        segment_register::entry_views(entries)[i] == entries[i]@,
        entry_view(Some(entries[i])) == Some(entries[i]@),
        entry_view(None) is None,
{
}

} // verus!
