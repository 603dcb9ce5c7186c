//! Carries out the changes to the segments of an index, one after the other.
use crate::bit_set::{self, BitSet};
use crate::delete_queue::{self, DeleteCursor, DeleteOperation, DeleteOperationView, DeleteQueue};
use crate::error::{Result, TantivyError};
use crate::future_result::FutureResult;
use crate::index::{self, Index, IndexMeta, IndexView};
use crate::reader::{self, Contents, SegmentContent, SegmentReader};
use crate::schema::{self, StoredDocument, StoredDocumentView};
use crate::segment_entry::{
    self, PublicationGeneration, SegmentEntry, SegmentEntryView,
};
use crate::segment_manager::{self, RegistersView, SegmentManager};
use crate::segment_meta::{DeleteMeta, Opstamp, SegmentId, SegmentMeta};
use crate::segment_register::{self, Segments};
use std::collections::HashMap;
use std::sync::Arc;
use vstd::prelude::*;

verus! {

broadcast use vstd::std_specs::hash::group_hash_axioms;

/// The documents of a segment that neither its files nor its entry hold for dead.
pub open spec fn standing(entry: SegmentEntryView, files: SegmentContent) -> Seq<bool> {
    Seq::new(
        files.documents.len(),
        |doc: int| files.alive[doc] && (entry.alive matches Some(alive) ==> alive[doc]),
    )
}

/// What a segment holds once the deletes through `opstamp` are applied to it.
pub open spec fn content_at(
    entry: SegmentEntryView,
    files: SegmentContent,
    deletes: Seq<DeleteOperationView>,
    opstamp: Opstamp,
) -> SegmentContent {
    SegmentContent {
        documents: files.documents,
        alive: Seq::new(
            files.documents.len(),
            |doc: int|
                standing(entry, files)[doc] && !delete_queue::killed_from(
                    deletes,
                    entry.cursor.position as int,
                    opstamp,
                    files.documents[doc],
                ),
        ),
    }
}

/// The metadata of a segment once only the flagged documents are alive: new deletes are counted.
pub open spec fn meta_with(meta: SegmentMeta, alive: Seq<bool>, opstamp: Opstamp) -> SegmentMeta {
    let dead = meta.max_doc - bit_set::count_set(alive);
    if dead > meta.deleted() {
        SegmentMeta {
            deletes: Some(DeleteMeta { num_deleted_docs: dead as u32, opstamp }),
            ..meta
        }
    } else {
        meta
    }
}

/// The entry of a segment once the deletes through `opstamp` are applied to it.
pub open spec fn entry_at(
    entry: SegmentEntryView,
    files: SegmentContent,
    deletes: Seq<DeleteOperationView>,
    opstamp: Opstamp,
) -> SegmentEntryView {
    SegmentEntryView {
        meta: meta_with(entry.meta, content_at(entry, files, deletes, opstamp).alive, opstamp),
        cursor: DeleteCursor {
            position: delete_queue::reached(
                deletes,
                entry.cursor.position as int,
                opstamp,
            ) as usize,
        },
        ..entry
    }
}

/// The state of a [`SegmentUpdater`].
#[verifier::ext_equal]
pub struct UpdaterView {
    /// The last durable commit.
    pub index: IndexView,
    /// The segments known to the writer.
    pub registers: RegistersView,
    /// What was written to the files of each segment.
    pub files: Contents,
    /// The deletes issued so far, oldest first.
    pub deletes: Seq<DeleteOperationView>,
    /// The id of the next segment.
    pub next_segment_id: SegmentId,
    /// Whether tasks are still carried out.
    pub is_alive: bool,
}

impl UpdaterView {
    /// A registered segment has its files, its metadata counts its documents as they are, and
    /// the deletes before its cursor are applied to it.
    pub open spec fn entry_wf(self, entry: SegmentEntryView) -> bool {
        let files = self.files[entry.id()];
        &&& entry.id() < self.next_segment_id
        &&& self.files.contains_key(entry.id())
        &&& files.wf()
        &&& files.documents.len() == entry.meta.max_doc
        &&& entry.alive matches Some(alive) ==> alive.len() == files.documents.len()
        &&& entry.meta.wf()
        &&& entry.meta.alive() == bit_set::count_set(standing(entry, files))
        &&& entry.cursor.position <= self.deletes.len()
        &&& forall|i: int, doc: int|
            0 <= i < entry.cursor.position && 0 <= doc < files.documents.len() && (
            #[trigger] self.deletes[i]).kills(#[trigger] files.documents[doc]) ==> !standing(
                entry,
                files,
            )[doc]
    }

    /// The state is sound.
    pub open spec fn wf(self) -> bool {
        &&& self.registers.wf()
        &&& self.registers.uncommitted.dom().disjoint(self.registers.committed.dom())
        &&& delete_queue::in_order(self.deletes)
        &&& self.deletes.len() <= usize::MAX
        &&& forall|i: int|
            0 <= i < self.index.metas.len() ==> (#[trigger] self.index.metas[i]).segment_id
                < self.next_segment_id
        &&& forall|id: SegmentId| #[trigger]
            self.registers.uncommitted.contains_key(id) ==> self.entry_wf(
                self.registers.uncommitted[id],
            )
        &&& forall|id: SegmentId| #[trigger]
            self.registers.committed.contains_key(id) ==> self.entry_wf(
                self.registers.committed[id],
            )
    }

    /// Every document was added, and every delete issued, before `opstamp`.
    pub open spec fn stamped_before(self, opstamp: Opstamp) -> bool {
        &&& reader::stamped_before(self.files, opstamp)
        &&& forall|i: int|
            0 <= i < self.deletes.len() ==> (#[trigger] self.deletes[i]).opstamp < opstamp
    }

    /// All registered segments.
    pub open spec fn all_segments(self) -> Segments {
        self.registers.uncommitted.union_prefer_right(self.registers.committed)
    }

    /// The committed segments, and the uncommitted ones through `generation`.
    pub open spec fn segments_through(self, generation: PublicationGeneration) -> Segments {
        segment_manager::through_generation(
            self.registers.uncommitted,
            generation,
        ).union_prefer_right(self.registers.committed)
    }

    /// What the given segments hold once the deletes through `opstamp` are applied.
    pub open spec fn contents_at(self, segments: Segments, opstamp: Opstamp) -> Contents {
        Map::new(
            |id: SegmentId| segments.contains_key(id),
            |id: SegmentId| content_at(segments[id], self.files[id], self.deletes, opstamp),
        )
    }

    /// The given segments once the deletes through `opstamp` are applied, without labels.
    pub open spec fn entries_at(self, segments: Segments, opstamp: Opstamp) -> Segments {
        Map::new(
            |id: SegmentId| segments.contains_key(id),
            |id: SegmentId|
                entry_at(segments[id], self.files[id], self.deletes, opstamp).unlabeled(),
        )
    }

    /// The segments that a commit through `opstamp` leaves: those that have a document left.
    pub open spec fn committed_at(self, opstamp: Opstamp) -> Segments {
        segment_manager::nonempty(self.entries_at(self.all_segments(), opstamp))
    }

    /// `after` is the state that a commit through `opstamp` leads to.
    pub open spec fn committed_to(
        self,
        after: UpdaterView,
        opstamp: Opstamp,
        payload: Option<Seq<char>>,
    ) -> bool {
        let kept = self.committed_at(opstamp);
        let contents = self.contents_at(self.all_segments(), opstamp);
        &&& after.registers == (RegistersView { uncommitted: Map::empty(), committed: kept })
        &&& after.files == self.files.union_prefer_right(contents)
        &&& after.deletes == self.deletes
        &&& after.next_segment_id == self.next_segment_id
        &&& after.is_alive
        &&& after.index.opstamp == opstamp
        &&& after.index.payload == payload
        &&& after.index.contents == contents.restrict(kept.dom())
        &&& segment_register::lists_metas(after.index.metas, kept)
        &&& segment_register::sorted_by_id(after.index.metas)
    }

    /// A commit through `opstamp` has the given outcome and leads to the state `after`. If the
    /// updater was killed, it fails and changes nothing.
    pub open spec fn commits_to(
        self,
        after: UpdaterView,
        opstamp: Opstamp,
        payload: Option<Seq<char>>,
        outcome: Result<Opstamp>,
    ) -> bool {
        if self.is_alive {
            &&& outcome matches Ok(committed) && committed == opstamp
            &&& self.committed_to(after, opstamp, payload)
        } else {
            &&& outcome matches Err(error) && error.is_system_error(killed_message())
            &&& after == self
        }
    }
}

/// A commit that the updater has taken in.
#[must_use]
pub struct ScheduledCommit<'a> {
    /// The updater, which carries out nothing else before the commit.
    pub updater: &'a mut SegmentUpdater,
    /// The operation through which the commit is complete.
    pub opstamp: Opstamp,
    /// What is attached to the commit.
    pub payload: Option<String>,
}

impl<'a> ScheduledCommit<'a> {
    /// Waits until the commit is durable, and returns its opstamp.
    ///
    /// It is an error, and nothing changes, if the updater was killed.
    pub fn wait(self) -> (commit: Result<Opstamp>)
        requires
            self.updater@.wf(),
            self.updater@.stamped_before(self.opstamp),
        ensures
            final(self.updater)@.wf(),
            old(self.updater)@.commits_to(
                final(self.updater)@,
                self.opstamp,
                index::payload_view(self.payload),
                commit,
            ),
    {
        self.updater.carry_out_commit(self.opstamp, self.payload)
    }
}

/// The segments of a snapshot, opened.
#[derive(Debug)]
pub struct SegmentSnapshot {
    pub readers: Vec<SegmentReader>,
}

/// Keeps the segments of an index, and carries out the tasks that change them.
#[derive(Debug)]
pub struct SegmentUpdater {
    index: Index,
    segment_manager: SegmentManager,
    segment_files: HashMap<SegmentId, SegmentReader>,
    delete_queue: DeleteQueue,
    next_segment_id: SegmentId,
    is_alive: bool,
}

impl View for SegmentUpdater {
    type V = UpdaterView;

    closed spec fn view(&self) -> UpdaterView {
        UpdaterView {
            index: self.index@,
            registers: self.segment_manager@,
            files: self.segment_files@.map_values(|files: SegmentReader| files@),
            deletes: self.delete_queue@,
            next_segment_id: self.next_segment_id,
            is_alive: self.is_alive,
        }
    }
}

/// Why a task is refused once the updater was killed.
pub open spec fn killed_message() -> Seq<char> {
    "Segment updater killed"@
}

/// Why a segment is refused that is too large, or for which there is no id.
pub open spec fn full_message() -> Seq<char> {
    "No room is left for the segment"@
}

/// The state of an updater that was just created on an index.
pub open spec fn created(index: IndexView, next_segment_id: SegmentId) -> UpdaterView {
    UpdaterView {
        index,
        registers: RegistersView {
            uncommitted: Map::empty(),
            committed: segment_register::filled_with(
                segment_register::fresh_entries(index.metas, DeleteCursor { position: 0 }),
            ),
        },
        files: index.contents,
        deletes: Seq::empty(),
        next_segment_id,
        is_alive: true,
    }
}

/// `next` is the first id beyond those of `metas`.
pub open spec fn first_free_id(metas: Seq<SegmentMeta>, next: int) -> bool {
    &&& 0 <= next
    &&& forall|i: int| 0 <= i < metas.len() ==> (#[trigger] metas[i]).segment_id < next
    &&& next > 0 ==> exists|i: int|
        0 <= i < metas.len() && (#[trigger] metas[i]).segment_id == next - 1
}

impl UpdaterView {
    /// Whether a segment of `len` documents can be added.
    pub open spec fn has_room_for(self, len: nat) -> bool {
        len <= u32::MAX && self.next_segment_id < u128::MAX
    }

    /// The state after a segment was added.
    pub open spec fn with_segment(
        self,
        documents: Seq<StoredDocumentView>,
        cursor: DeleteCursor,
        generation: Option<PublicationGeneration>,
    ) -> UpdaterView {
        let id = self.next_segment_id;
        let meta = SegmentMeta { segment_id: id, max_doc: documents.len() as u32, deletes: None };
        UpdaterView {
            registers: RegistersView {
                uncommitted: self.registers.uncommitted.insert(
                    id,
                    segment_entry::entry_of(meta, cursor, generation),
                ),
                ..self.registers
            },
            files: self.files.insert(
                id,
                SegmentContent {
                    documents,
                    alive: Seq::new(documents.len(), |doc: int| true),
                },
            ),
            next_segment_id: (id + 1) as u128,
            ..self
        }
    }
}

impl SegmentUpdater {
    /// Starts from the last durable commit of an index.
    ///
    /// It is an error if no id beyond those of its segments is left.
    pub fn create(index: Index) -> (updater: Result<SegmentUpdater>)
        ensures
            match updater {
                Ok(updater) => {
                    &&& updater@ == created(index@, updater@.next_segment_id)
                    &&& first_free_id(index@.metas, updater@.next_segment_id as int)
                    &&& updater@.wf()
                    &&& updater@.stamped_before(index@.opstamp)
                },
                Err(error) => {
                    &&& first_free_id(index@.metas, u128::MAX + 1)
                    &&& error.is_system_error(full_message())
                },
            },
    {
        let metas = index.load_metas().segments.clone();
        assert(metas@ =~= index@.metas);
        let mut next_segment_id: SegmentId = 0;
        let mut i: usize = 0;
        while i < metas.len()
            invariant
                i <= metas.len(),
                metas@ == index@.metas,
                first_free_id(metas@.take(i as int), next_segment_id as int),
            decreases metas.len() - i,
        {
            let id = metas[i].id();
            let ghost done = metas@.take(i as int);
            let ghost more = metas@.take(i + 1);
            proof {
                assert(more =~= done.push(metas@[i as int]));
                assert(more[i as int].segment_id == id);
            }
            if id >= next_segment_id {
                if id == u128::MAX {
                    proof {
                        assert(metas@[i as int].segment_id == u128::MAX);
                    }
                    return Err(
                        TantivyError::SystemError("No room is left for the segment".to_string()),
                    );
                }
                next_segment_id = id + 1;
            } else {
                proof {
                    let j = choose|j: int|
                        0 <= j < done.len() && (#[trigger] done[j]).segment_id == next_segment_id
                            - 1;
                    assert(more[j].segment_id == next_segment_id - 1);
                }
            }
            i = i + 1;
        }
        assert(metas@.take(i as int) =~= metas@);
        let delete_queue = DeleteQueue::default();
        let readers = index.segment_readers();
        let segment_manager = SegmentManager::from_segments(metas, &delete_queue.cursor());
        let mut updater = SegmentUpdater {
            index,
            segment_manager,
            segment_files: HashMap::new(),
            delete_queue,
            next_segment_id,
            is_alive: true,
        };
        updater.write_files(readers);
        proof {
            assert(Contents::empty().union_prefer_right(index@.contents) =~= index@.contents);
            assert(updater@ =~= created(index@, next_segment_id));
            lemma_created_wf(index@, next_segment_id);
        }
        Ok(updater)
    }

    /// The last durable commit.
    pub fn index(&self) -> (index: &Index)
        ensures
            index@ == self@.index,
    {
        &self.index
    }

    /// Stops carrying out tasks.
    pub fn kill(&mut self)
        ensures
            final(self)@ == (UpdaterView { is_alive: false, ..old(self)@ }),
    {
        self.is_alive = false;
    }

    /// The position behind all deletes issued so far.
    pub fn delete_cursor(&self) -> (cursor: DeleteCursor)
        ensures
            cursor.position == self@.deletes.len(),
    {
        self.delete_queue.cursor()
    }

    /// Appends a delete, which was issued after all before it.
    pub fn push_delete(&mut self, operation: DeleteOperation)
        requires
            old(self)@.wf(),
            old(self)@.deletes.len() > 0 ==> old(self)@.deletes.last().opstamp < operation.opstamp,
        ensures
            final(self)@ == (UpdaterView {
                deletes: old(self)@.deletes.push(operation@),
                ..old(self)@
            }),
            final(self)@.wf(),
    {
        self.delete_queue.push(operation);
        proof {
            lemma_push_delete_wf(old(self)@, operation@);
        }
    }

    /// Checks that a segment of `len` documents can be added.
    pub fn check_room(&self, len: usize) -> (room: Result<()>)
        ensures
            match room {
                Ok(()) => self@.is_alive && self@.has_room_for(len as nat),
                Err(error) => if self@.is_alive {
                    !self@.has_room_for(len as nat) && error.is_system_error(full_message())
                } else {
                    error.is_system_error(killed_message())
                },
            },
    {
        if !self.is_alive {
            return Err(TantivyError::SystemError("Segment updater killed".to_string()));
        }
        if len > u32::MAX as usize || self.next_segment_id == u128::MAX {
            return Err(TantivyError::SystemError("No room is left for the segment".to_string()));
        }
        Ok(())
    }

    /// Adds a segment with the given documents, uncommitted, at a position of the delete queue
    /// before which no delete concerns them.
    ///
    /// It is an error, and nothing changes, if the updater was killed, if the documents are too
    /// many for one segment or if no segment id is left.
    pub fn schedule_add_segment(
        &mut self,
        documents: Vec<StoredDocument>,
        cursor: DeleteCursor,
        generation: Option<PublicationGeneration>,
    ) -> (added: FutureResult<SegmentId>)
        requires
            old(self)@.wf(),
            cursor.position <= old(self)@.deletes.len(),
            forall|i: int, doc: int|
                0 <= i < cursor.position && 0 <= doc < documents@.len() ==> !(
                #[trigger] old(self)@.deletes[i]).kills((#[trigger] documents@[doc])@),
        ensures
            final(self)@.wf(),
            if old(self)@.is_alive && old(self)@.has_room_for(documents@.len()) {
                &&& added@ matches Ok(id) && id == old(self)@.next_segment_id
                &&& final(self)@ == old(self)@.with_segment(
                    schema::document_views(documents@),
                    cursor,
                    generation,
                )
            } else {
                &&& added@ matches Err(error) && error.is_system_error(
                    if old(self)@.is_alive {
                        full_message()
                    } else {
                        killed_message()
                    },
                )
                &&& final(self)@ == old(self)@
            },
    {
        match self.check_room(documents.len()) {
            Ok(()) => {},
            Err(error) => {
                return FutureResult::new(Err(error));
            },
        }
        let ghost before = self@;
        let ghost views = schema::document_views(documents@);
        let max_doc = documents.len() as u32;
        let id = self.next_segment_id;
        let meta = SegmentMeta::new(id, max_doc);
        let entry = match generation {
            Some(label) => SegmentEntry::new_for_publication(meta, cursor, None, label),
            None => SegmentEntry::new(meta, cursor, None),
        };
        let files = SegmentReader {
            segment_id: id,
            documents: Arc::new(documents),
            alive: BitSet::with_max_value_and_full(max_doc),
        };
        self.segment_manager.add_segment(entry);
        self.segment_files.insert(id, files);
        self.next_segment_id = id + 1;
        proof {
            assert(files@ =~= SegmentContent {
                documents: views,
                alive: Seq::new(views.len(), |doc: int| true),
            });
            assert(self@.files =~= before.files.insert(id, files@));
            assert(self@ =~= before.with_segment(views, cursor, generation));
            lemma_with_segment_wf(before, views, cursor, generation);
        }
        FutureResult::new(Ok(id))
    }

    /// Applies the deletes through `opstamp` to a segment, without changing anything: returns the
    /// entry and the open segment they lead to.
    fn advance_deletes(&self, entry: &SegmentEntry, opstamp: Opstamp) -> (advanced: (
        SegmentEntry,
        SegmentReader,
    ))
        requires
            self@.wf(),
            self@.entry_wf(entry@),
        ensures
            advanced.0@ == entry_at(
                entry@,
                self@.files[entry@.id()],
                self@.deletes,
                opstamp,
            ),
            advanced.1.segment_id == entry@.id(),
            advanced.1@ == content_at(
                entry@,
                self@.files[entry@.id()],
                self@.deletes,
                opstamp,
            ),
    {
        let ghost files = self@.files[entry@.id()];
        let ghost target = content_at(entry@, files, self@.deletes, opstamp);
        let id = entry.segment_id();
        let mut advanced = entry.clone();
        let from: DeleteCursor = *advanced.delete_cursor();
        let to: DeleteCursor = self.delete_queue.skip_to(from, opstamp);
        assert(self.segment_files@.contains_key(id));
        let source: &SegmentReader = self.segment_files.get(&id).unwrap();
        assert(source@ == files);
        let mut flags: Vec<bool> = Vec::new();
        let mut doc: usize = 0;
        while doc < source.documents.len()
            invariant
                doc <= source.documents@.len(),
                self@.wf(),
                self@.entry_wf(entry@),
                source@ == files,
                files == self@.files[entry@.id()],
                target == content_at(entry@, files, self@.deletes, opstamp),
                from == entry@.cursor,
                from.position <= to.position <= self.delete_queue@.len(),
                to.position == delete_queue::reached(
                    self@.deletes,
                    from.position as int,
                    opstamp,
                ),
                flags@ == target.alive.take(doc as int),
            decreases source.documents.len() - doc,
        {
            assert(files.documents[doc as int] == source.documents@[doc as int]@);
            let held = match entry.alive_bitset() {
                Some(alive) => alive.contains(doc),
                None => true,
            };
            let standing_flag = held && source.alive.contains(doc);
            let flag = standing_flag && !self.delete_queue.kills_between(
                from,
                to,
                &source.documents[doc],
            );
            proof {
                delete_queue::lemma_reached(self@.deletes, from.position as int, opstamp);
                assert(standing_flag == standing(entry@, files)[doc as int]);
                assert(flag == target.alive[doc as int]);
            }
            flags.push(flag);
            assert(flags@ =~= target.alive.take(doc + 1));
            doc = doc + 1;
        }
        assert(flags@ =~= target.alive);
        let alive = BitSet::from_flags(flags);
        let num_alive = alive.len();
        proof {
            bit_set::lemma_count_le_len(target.alive);
        }
        let meta = *advanced.meta();
        let num_deleted: u32 = meta.max_doc() - num_alive as u32;
        if num_deleted > meta.num_deleted_docs() {
            advanced.set_meta(meta.with_delete_meta(num_deleted, opstamp));
        }
        let cursor = advanced.delete_cursor();
        *cursor = to;
        let opened = SegmentReader { segment_id: id, documents: source.documents.clone(), alive };
        (advanced, opened)
    }

    /// Applies the deletes through `opstamp` to each of the segments, without changing anything.
    fn advance_all(&self, entries: &Vec<SegmentEntry>, opstamp: Opstamp) -> (advanced: (
        Vec<SegmentEntry>,
        Vec<SegmentReader>,
    ))
        requires
            self@.wf(),
            forall|i: int| 0 <= i < entries@.len() ==> self@.entry_wf((#[trigger] entries@[i])@),
        ensures
            advanced.0@.len() == entries@.len(),
            advanced.1@.len() == entries@.len(),
            forall|i: int|
                0 <= i < entries@.len() ==> (#[trigger] advanced.0@[i])@ == entry_at(
                    entries@[i]@,
                    self@.files[entries@[i]@.id()],
                    self@.deletes,
                    opstamp,
                ),
            forall|i: int|
                0 <= i < entries@.len() ==> (#[trigger] advanced.1@[i]).segment_id
                    == entries@[i]@.id() && advanced.1@[i]@ == content_at(
                    entries@[i]@,
                    self@.files[entries@[i]@.id()],
                    self@.deletes,
                    opstamp,
                ),
    {
        let mut advanced: Vec<SegmentEntry> = Vec::new();
        let mut readers: Vec<SegmentReader> = Vec::new();
        let mut i: usize = 0;
        while i < entries.len()
            invariant
                i <= entries.len(),
                self@.wf(),
                forall|i: int|
                    0 <= i < entries@.len() ==> self@.entry_wf((#[trigger] entries@[i])@),
                advanced@.len() == i,
                readers@.len() == i,
                forall|j: int|
                    0 <= j < i ==> (#[trigger] advanced@[j])@ == entry_at(
                        entries@[j]@,
                        self@.files[entries@[j]@.id()],
                        self@.deletes,
                        opstamp,
                    ),
                forall|j: int|
                    0 <= j < i ==> (#[trigger] readers@[j]).segment_id == entries@[j]@.id()
                        && readers@[j]@ == content_at(
                        entries@[j]@,
                        self@.files[entries@[j]@.id()],
                        self@.deletes,
                        opstamp,
                    ),
            decreases entries.len() - i,
        {
            let (entry, reader) = self.advance_deletes(&entries[i], opstamp);
            advanced.push(entry);
            readers.push(reader);
            i = i + 1;
        }
        (advanced, readers)
    }

    /// Opens the committed segments and the uncommitted ones through `generation`, with the
    /// deletes through `opstamp` applied. Nothing is written.
    ///
    /// It is an error if an uncommitted segment has no generation, or if the updater was killed.
    pub fn schedule_snapshot_segment_readers_through_generation(
        &self,
        opstamp: Opstamp,
        generation: PublicationGeneration,
    ) -> (snapshot: FutureResult<SegmentSnapshot>)
        requires
            self@.wf(),
        ensures
            match snapshot@ {
                Ok(snapshot) => {
                    &&& self@.is_alive
                    &&& segment_manager::all_labeled(self@.registers.uncommitted)
                    &&& reader::distinct(snapshot.readers@)
                    &&& reader::contents_of(snapshot.readers@) == self@.contents_at(
                        self@.segments_through(generation),
                        opstamp,
                    )
                },
                Err(error) => if self@.is_alive {
                    &&& !segment_manager::all_labeled(self@.registers.uncommitted)
                    &&& error.is_invalid_argument(segment_manager::unlabeled_segments_message())
                } else {
                    error.is_system_error(killed_message())
                },
            },
    {
        if !self.is_alive {
            return FutureResult::new(
                Err(TantivyError::SystemError("Segment updater killed".to_string())),
            );
        }
        let entries = match self.segment_manager.segment_entries_through_generation(generation) {
            Ok(entries) => entries,
            Err(error) => {
                return FutureResult::new(Err(error));
            },
        };
        let ghost views = segment_register::entry_views(entries@);
        let ghost segments = self@.segments_through(generation);
        proof {
            lemma_lists_both(
                views,
                self@.registers.committed,
                segment_manager::through_generation(self@.registers.uncommitted, generation),
                segments,
            );
            assert forall|i: int| 0 <= i < entries@.len() implies self@.entry_wf(
                (#[trigger] entries@[i])@,
            ) by {
                assert(views[i] == entries@[i]@);
                assert(segments.contains_key(views[i].id()));
            }
        }
        let (_, readers) = self.advance_all(&entries, opstamp);
        proof {
            let contents = self@.contents_at(segments, opstamp);
            assert forall|i: int| 0 <= i < readers@.len() implies (
            #[trigger] readers@[i]).segment_id == views[i].id() && readers@[i]@
                == contents[views[i].id()] by {
                assert(views[i] == entries@[i]@);
                assert(segments.contains_key(views[i].id()));
            }
            assert(contents.dom() =~= segments.dom());
            lemma_readers(views, segments, readers@, contents);
        }
        FutureResult::new(Ok(SegmentSnapshot { readers }))
    }

    /// Takes a commit in, to be carried out when it is waited for.
    pub fn accept_commit(&mut self, opstamp: Opstamp, payload: Option<String>) -> (commit:
        ScheduledCommit<'_>)
        ensures
            commit.updater@ == old(self)@,
            *final(commit.updater) == *final(self),
            commit.opstamp == opstamp,
            commit.payload == payload,
    {
        ScheduledCommit { updater: self, opstamp, payload }
    }

    /// Takes a commit in and carries it out, whether or not it is waited for.
    ///
    /// It is an error, and nothing changes, if the updater was killed.
    pub fn schedule_commit(&mut self, opstamp: Opstamp, payload: Option<String>) -> (commit:
        FutureResult<Opstamp>)
        requires
            old(self)@.wf(),
            old(self)@.stamped_before(opstamp),
        ensures
            final(self)@.wf(),
            old(self)@.commits_to(
                final(self)@,
                opstamp,
                index::payload_view(payload),
                commit@,
            ),
    {
        FutureResult::new(self.accept_commit(opstamp, payload).wait())
    }

    /// Makes everything through `opstamp` durable: applies the deletes to every segment, commits
    /// the segments, forgets those that have no document left, and stores the metadata.
    ///
    /// It is an error, and nothing changes, if the updater was killed.
    fn carry_out_commit(&mut self, opstamp: Opstamp, payload: Option<String>) -> (commit: Result<
        Opstamp,
    >)
        requires
            old(self)@.wf(),
            old(self)@.stamped_before(opstamp),
        ensures
            final(self)@.wf(),
            old(self)@.commits_to(final(self)@, opstamp, index::payload_view(payload), commit),
    {
        if !self.is_alive {
            return Err(TantivyError::SystemError("Segment updater killed".to_string()));
        }
        let ghost before = self@;
        let ghost segments = before.all_segments();
        let ghost contents = before.contents_at(segments, opstamp);
        let ghost advanced = before.entries_at(segments, opstamp);
        let entries = self.segment_manager.segment_entries();
        let ghost views = segment_register::entry_views(entries@);
        proof {
            lemma_lists_both(
                views,
                before.registers.uncommitted,
                before.registers.committed,
                segments,
            );
            assert forall|i: int| 0 <= i < entries@.len() implies before.entry_wf(
                (#[trigger] entries@[i])@,
            ) by {
                assert(views[i] == entries@[i]@);
                assert(segments.contains_key(views[i].id()));
            }
        }
        let (purged, readers) = self.advance_all(&entries, opstamp);
        proof {
            assert forall|i: int| 0 <= i < purged@.len() implies (
            #[trigger] purged@[i])@.meta.wf() by {
                lemma_advanced_meta(before, entries@[i]@, opstamp);
            }
            assert(contents.dom() =~= segments.dom());
            assert forall|i: int| 0 <= i < readers@.len() implies (
            #[trigger] readers@[i]).segment_id == views[i].id() && readers@[i]@
                == contents[views[i].id()] by {
                assert(views[i] == entries@[i]@);
                assert(segments.contains_key(views[i].id()));
            }
            lemma_readers(views, segments, readers@, contents);
            let bare = segment_manager::unlabeled(segment_register::entry_views(purged@));
            assert forall|i: int| 0 <= i < bare.len() implies (#[trigger] bare[i]).id()
                == views[i].id() && bare[i] == advanced[views[i].id()] by {
                assert(views[i] == entries@[i]@);
                assert(segments.contains_key(views[i].id()));
                assert(purged@[i]@.unlabeled() == bare[i]);
            }
            lemma_relisted(views, segments, bare, advanced);
            segment_register::lemma_filled(bare, advanced);
        }
        self.write_files(readers);
        self.segment_manager.commit(purged);
        let metas = self.segment_manager.committed_segment_metas();
        let ghost kept = before.committed_at(opstamp);
        let durable = self.open_segments(&metas);
        let ghost after = contents.restrict(kept.dom());
        let ghost state = UpdaterView {
            index: IndexView {
                metas: metas@,
                opstamp,
                payload: index::payload_view(payload),
                contents: after,
            },
            ..self@
        };
        proof {
            lemma_commit_wf(before, state, opstamp);
            assert(reader::contents_of(durable@) =~= after);
            assert forall|i: int| 0 <= i < metas@.len() implies index::describes(
                #[trigger] metas@[i],
                after,
            ) by {
                let id = metas@[i].segment_id;
                assert(kept.contains_key(id));
                assert(state.entry_wf(kept[id]));
                lemma_standing_after(before, segments[id], opstamp);
            }
            assert forall|id: SegmentId| #[trigger] after.contains_key(id) implies exists|i: int|
                0 <= i < metas@.len() && (#[trigger] metas@[i]).segment_id == id by {
                assert(kept.contains_key(id));
            }
            assert forall|id: SegmentId, doc: int|
                after.contains_key(id) && 0 <= doc < after[id].documents.len() implies (
            #[trigger] after[id].documents[doc]).opstamp < opstamp by {
                assert(before.entry_wf(segments[id]));
                assert(after[id].documents == before.files[id].documents);
            }
        }
        self.index = Index::new(IndexMeta { segments: metas, opstamp, payload }, durable);
        assert(self@ == state);
        Ok(opstamp)
    }

    /// Replaces the files of the given segments.
    fn write_files(&mut self, readers: Vec<SegmentReader>)
        ensures
            final(self)@ == (UpdaterView {
                files: old(self)@.files.union_prefer_right(reader::contents_of(readers@)),
                ..old(self)@
            }),
    {
        let ghost before = self@;
        let ghost all = readers@;
        proof {
            assert(all.take(0) =~= Seq::<SegmentReader>::empty());
            assert(before.files.union_prefer_right(reader::contents_of(all.take(0)))
                =~= before.files);
        }
        for files in iter: readers
            invariant
                iter.seq() == all,
                self@ == (UpdaterView {
                    files: before.files.union_prefer_right(
                        reader::contents_of(all.take(iter.index())),
                    ),
                    ..before
                }),
        {
            let ghost middle = self@;
            let id = files.segment_id;
            self.segment_files.insert(id, files);
            proof {
                let i = iter.index();
                assert(self@.files =~= middle.files.insert(id, files@));
                assert(all.take(i + 1).drop_last() =~= all.take(i));
                assert(all.take(i + 1).last() == files);
                assert(self@.files =~= before.files.union_prefer_right(
                    reader::contents_of(all.take(i + 1)),
                ));
            }
        }
        assert(all.take(all.len() as int) =~= all);
    }

    /// Opens the files of the given segments.
    fn open_segments(&self, metas: &Vec<SegmentMeta>) -> (readers: Vec<SegmentReader>)
        requires
            forall|i: int|
                0 <= i < metas@.len() ==> self@.files.contains_key(
                    (#[trigger] metas@[i]).segment_id,
                ),
            forall|i: int, j: int|
                0 <= i < j < metas@.len() ==> (#[trigger] metas@[i]).segment_id != (
                #[trigger] metas@[j]).segment_id,
        ensures
            reader::distinct(readers@),
            forall|id: SegmentId| #[trigger]
                reader::contents_of(readers@).contains_key(id) <==> exists|i: int|
                    0 <= i < metas@.len() && (#[trigger] metas@[i]).segment_id == id,
            forall|id: SegmentId| #[trigger]
                reader::contents_of(readers@).contains_key(id) ==> reader::contents_of(readers@)[id]
                    == self@.files[id],
    {
        let mut readers: Vec<SegmentReader> = Vec::new();
        let mut i: usize = 0;
        while i < metas.len()
            invariant
                i <= metas.len(),
                readers@.len() == i,
                forall|i: int|
                    0 <= i < metas@.len() ==> self@.files.contains_key(
                        (#[trigger] metas@[i]).segment_id,
                    ),
                forall|j: int|
                    0 <= j < i ==> (#[trigger] readers@[j]).segment_id == metas@[j].segment_id
                        && readers@[j]@ == self@.files[metas@[j].segment_id],
            decreases metas.len() - i,
        {
            let id = metas[i].id();
            assert(self@.files.contains_key(metas@[i as int].segment_id));
            assert(self.segment_files@.contains_key(id));
            let files: &SegmentReader = self.segment_files.get(&id).unwrap();
            readers.push(
                SegmentReader {
                    segment_id: id,
                    documents: files.documents.clone(),
                    alive: files.alive.clone(),
                },
            );
            i = i + 1;
        }
        proof {
            assert forall|i: int, j: int| 0 <= i < j < readers@.len() implies (
            #[trigger] readers@[i]).segment_id != (#[trigger] readers@[j]).segment_id by {
                assert(metas@[i].segment_id != metas@[j].segment_id);
            }
            reader::lemma_contents(readers@);
            let gathered = reader::contents_of(readers@);
            assert forall|id: SegmentId| #[trigger] gathered.contains_key(id) <==> exists|i: int|
                0 <= i < metas@.len() && (#[trigger] metas@[i]).segment_id == id by {
                if gathered.contains_key(id) {
                    let i = choose|i: int|
                        0 <= i < readers@.len() && (#[trigger] readers@[i]).segment_id == id;
                    assert(metas@[i].segment_id == id);
                }
                if exists|i: int|
                    0 <= i < metas@.len() && (#[trigger] metas@[i]).segment_id == id {
                    let i = choose|i: int|
                        0 <= i < metas@.len() && (#[trigger] metas@[i]).segment_id == id;
                    assert(readers@[i].segment_id == id);
                }
            }
            assert forall|id: SegmentId| #[trigger] gathered.contains_key(id) implies gathered[id]
                == self@.files[id] by {
                let i = choose|i: int|
                    0 <= i < readers@.len() && (#[trigger] readers@[i]).segment_id == id;
                assert(readers@[i]@ == self@.files[id]);
            }
        }
        readers
    }
}

/// A listing whose entries were replaced one by one, under the same ids, lists the replacements.
proof fn lemma_relisted(
    entries: Seq<SegmentEntryView>,
    segments: Segments,
    replaced: Seq<SegmentEntryView>,
    after: Segments,
)
    requires
        segment_register::lists(entries, segments),
        replaced.len() == entries.len(),
        after.dom() == segments.dom(),
        forall|i: int|
            0 <= i < replaced.len() ==> (#[trigger] replaced[i]).id() == entries[i].id()
                && replaced[i] == after[entries[i].id()],
    ensures
        segment_register::lists(replaced, after),
{
    assert forall|i: int| 0 <= i < replaced.len() implies after.contains_key(
        (#[trigger] replaced[i]).id(),
    ) && after[replaced[i].id()] == replaced[i] by {
        assert(segments.contains_key(entries[i].id()));
    }
    assert forall|i: int, j: int| 0 <= i < j < replaced.len() implies (
    #[trigger] replaced[i]).id() != (#[trigger] replaced[j]).id() by {
        assert(entries[i].id() != entries[j].id());
    }
    assert forall|id: SegmentId| #[trigger] after.contains_key(id) implies exists|i: int|
        0 <= i < replaced.len() && (#[trigger] replaced[i]).id() == id by {
        assert(segments.contains_key(id));
        let i = choose|i: int| 0 <= i < entries.len() && (#[trigger] entries[i]).id() == id;
        assert(replaced[i].id() == id);
    }
}

/// Applying deletes keeps the metadata sound, and it counts the documents left alive.
pub proof fn lemma_advanced_meta(state: UpdaterView, entry: SegmentEntryView, opstamp: Opstamp)
    requires
        state.wf(),
        state.entry_wf(entry),
    ensures
        ({
            let files = state.files[entry.id()];
            let meta = entry_at(entry, files, state.deletes, opstamp).meta;
            &&& meta.wf()
            &&& meta.segment_id == entry.meta.segment_id
            &&& meta.max_doc == entry.meta.max_doc
            &&& meta.alive() == bit_set::count_set(
                content_at(entry, files, state.deletes, opstamp).alive,
            )
        }),
{
    let files = state.files[entry.id()];
    let content = content_at(entry, files, state.deletes, opstamp);
    bit_set::lemma_count_le_len(content.alive);
    bit_set::lemma_count_monotone(content.alive, standing(entry, files));
}

/// Once the deletes were written to the files of a segment, its entry adds nothing to them.
pub proof fn lemma_standing_after(state: UpdaterView, entry: SegmentEntryView, opstamp: Opstamp)
    requires
        state.wf(),
        state.entry_wf(entry),
    ensures
        ({
            let files = state.files[entry.id()];
            let content = content_at(entry, files, state.deletes, opstamp);
            let advanced = entry_at(entry, files, state.deletes, opstamp).unlabeled();
            standing(advanced, content) == content.alive
        }),
{
    let files = state.files[entry.id()];
    let content = content_at(entry, files, state.deletes, opstamp);
    let advanced = entry_at(entry, files, state.deletes, opstamp).unlabeled();
    assert(standing(advanced, content) =~= content.alive);
}

/// The entry of a segment whose deletes were applied and written is sound.
proof fn lemma_advanced_entry_wf(
    before: UpdaterView,
    after: UpdaterView,
    entry: SegmentEntryView,
    opstamp: Opstamp,
)
    requires
        before.wf(),
        before.entry_wf(entry),
        after.deletes == before.deletes,
        after.next_segment_id == before.next_segment_id,
        after.files.contains_key(entry.id()),
        after.files[entry.id()] == content_at(
            entry,
            before.files[entry.id()],
            before.deletes,
            opstamp,
        ),
    ensures
        after.entry_wf(
            entry_at(entry, before.files[entry.id()], before.deletes, opstamp).unlabeled(),
        ),
{
    let files = before.files[entry.id()];
    let content = content_at(entry, files, before.deletes, opstamp);
    let advanced = entry_at(entry, files, before.deletes, opstamp).unlabeled();
    lemma_advanced_meta(before, entry, opstamp);
    lemma_standing_after(before, entry, opstamp);
    delete_queue::lemma_reached(before.deletes, entry.cursor.position as int, opstamp);
    assert forall|i: int, doc: int|
        0 <= i < advanced.cursor.position && 0 <= doc < content.documents.len() && (
        #[trigger] after.deletes[i]).kills(#[trigger] content.documents[doc]) implies !standing(
        advanced,
        content,
    )[doc] by {
        assert(before.deletes[i].kills(files.documents[doc]));
        if i < entry.cursor.position {
            assert(!standing(entry, files)[doc]);
        } else {
            assert(delete_queue::killed_from(
                before.deletes,
                entry.cursor.position as int,
                opstamp,
                files.documents[doc],
            ));
        }
    }
}

/// A commit keeps the state sound.
proof fn lemma_commit_wf(before: UpdaterView, after: UpdaterView, opstamp: Opstamp)
    requires
        before.wf(),
        after.registers.wf(),
        after.registers.uncommitted == Segments::empty(),
        after.registers.committed == before.committed_at(opstamp),
        after.files == before.files.union_prefer_right(
            before.contents_at(before.all_segments(), opstamp),
        ),
        after.deletes == before.deletes,
        after.next_segment_id == before.next_segment_id,
        segment_register::lists_metas(after.index.metas, after.registers.committed),
    ensures
        after.wf(),
{
    assert forall|id: SegmentId| #[trigger] after.registers.committed.contains_key(
        id,
    ) implies after.entry_wf(after.registers.committed[id]) by {
        let entry = before.all_segments()[id];
        assert(before.entry_wf(entry));
        assert(entry.id() == id);
        lemma_advanced_entry_wf(before, after, entry, opstamp);
    }
    assert forall|i: int| 0 <= i < after.index.metas.len() implies (
    #[trigger] after.index.metas[i]).segment_id < after.next_segment_id by {
        let id = after.index.metas[i].segment_id;
        assert(after.registers.committed.contains_key(id));
        assert(after.entry_wf(after.registers.committed[id]));
    }
}

/// The parts of a listing list the whole.
proof fn lemma_lists_both(
    entries: Seq<SegmentEntryView>,
    first: Segments,
    second: Segments,
    whole: Segments,
)
    requires
        segment_manager::lists_both(entries, first, second),
        first.dom().disjoint(second.dom()),
        forall|id: SegmentId| #[trigger]
            whole.contains_key(id) <==> first.contains_key(id) || second.contains_key(id),
        forall|id: SegmentId| #[trigger] first.contains_key(id) ==> whole[id] == first[id],
        forall|id: SegmentId| #[trigger] second.contains_key(id) ==> whole[id] == second[id],
    ensures
        segment_register::lists(entries, whole),
{
    let split = first.dom().len() as int;
    let head = entries.take(split);
    let tail = entries.skip(split);
    assert forall|i: int| 0 <= i < entries.len() implies whole.contains_key(
        (#[trigger] entries[i]).id(),
    ) && whole[entries[i].id()] == entries[i] && (if i < split {
        first.contains_key(entries[i].id())
    } else {
        second.contains_key(entries[i].id())
    }) by {
        if i < split {
            assert(head[i] == entries[i]);
            assert(first.contains_key(head[i].id()));
        } else {
            assert(tail[i - split] == entries[i]);
            assert(second.contains_key(tail[i - split].id()));
        }
    }
    assert forall|i: int, j: int| 0 <= i < j < entries.len() implies (
    #[trigger] entries[i]).id() != (#[trigger] entries[j]).id() by {
        if j < split {
            assert(head[i].id() != head[j].id());
        } else if i >= split {
            assert(tail[i - split].id() != tail[j - split].id());
        } else {
            assert(first.dom().contains(entries[i].id()));
            assert(second.dom().contains(entries[j].id()));
        }
    }
    assert forall|id: SegmentId| #[trigger] whole.contains_key(id) implies exists|i: int|
        0 <= i < entries.len() && (#[trigger] entries[i]).id() == id by {
        if first.contains_key(id) {
            let i = choose|i: int| 0 <= i < head.len() && (#[trigger] head[i]).id() == id;
            assert(entries[i].id() == id);
        } else {
            assert(second.contains_key(id));
            let i = choose|i: int| 0 <= i < tail.len() && (#[trigger] tail[i]).id() == id;
            assert(entries[i + split].id() == id);
        }
    }
    segment_register::lemma_lists(entries, whole);
}

/// Segments that were opened one by one from a listing hold what the listed segments hold.
proof fn lemma_readers(
    entries: Seq<SegmentEntryView>,
    segments: Segments,
    readers: Seq<SegmentReader>,
    contents: Contents,
)
    requires
        segment_register::lists(entries, segments),
        readers.len() == entries.len(),
        contents.dom() == segments.dom(),
        forall|i: int|
            0 <= i < readers.len() ==> (#[trigger] readers[i]).segment_id == entries[i].id()
                && readers[i]@ == contents[entries[i].id()],
    ensures
        reader::distinct(readers),
        reader::contents_of(readers) == contents,
{
    assert forall|i: int, j: int| 0 <= i < j < readers.len() implies (
    #[trigger] readers[i]).segment_id != (#[trigger] readers[j]).segment_id by {
        assert(entries[i].id() != entries[j].id());
    }
    reader::lemma_contents(readers);
    let gathered = reader::contents_of(readers);
    assert forall|id: SegmentId| #[trigger] gathered.contains_key(id) <==> contents.contains_key(
        id,
    ) by {
        if gathered.contains_key(id) {
            let i = choose|i: int|
                0 <= i < readers.len() && (#[trigger] readers[i]).segment_id == id;
            assert(segments.contains_key(entries[i].id()));
        }
        if contents.contains_key(id) {
            assert(segments.contains_key(id));
            let i = choose|i: int| 0 <= i < entries.len() && (#[trigger] entries[i]).id() == id;
            assert(readers[i].segment_id == id);
        }
    }
    assert forall|id: SegmentId| #[trigger] gathered.contains_key(id) implies gathered[id]
        == contents[id] by {
        let i = choose|i: int| 0 <= i < readers.len() && (#[trigger] readers[i]).segment_id == id;
        assert(readers[i]@ == contents[id]);
    }
    assert(gathered =~= contents);
}

/// An updater that was just created is in a sound state.
proof fn lemma_created_wf(index: IndexView, next_segment_id: SegmentId)
    requires
        index.wf(),
        first_free_id(index.metas, next_segment_id as int),
    ensures
        created(index, next_segment_id).wf(),
{
    let state = created(index, next_segment_id);
    let fresh = segment_register::fresh_entries(index.metas, DeleteCursor { position: 0 });
    assert forall|i: int, j: int| 0 <= i < j < fresh.len() implies (#[trigger] fresh[i]).id() != (
    #[trigger] fresh[j]).id() by {
        assert(index.metas[i].segment_id != index.metas[j].segment_id);
    }
    segment_register::lemma_filled_with(fresh);
    segment_register::lemma_filled_finite(fresh);
    assert forall|id: SegmentId| #[trigger] state.registers.committed.contains_key(
        id,
    ) implies state.entry_wf(state.registers.committed[id])
        && state.registers.committed[id].id() == id by {
        let i = choose|i: int| 0 <= i < fresh.len() && (#[trigger] fresh[i]).id() == id;
        let entry = state.registers.committed[id];
        assert(entry == fresh[i]);
        assert(index::describes(index.metas[i], index.contents));
        assert(standing(entry, state.files[id]) =~= state.files[id].alive);
    }
}

/// An updater that was just created knows the segments of the index, and nothing of their
/// documents but what the index says.
pub proof fn lemma_created_segments(index: IndexView, next_segment_id: SegmentId)
    requires
        index.wf(),
    ensures
        ({
            let committed = created(index, next_segment_id).registers.committed;
            &&& committed.dom() == index.contents.dom()
            &&& forall|id: SegmentId| #[trigger]
                committed.contains_key(id) ==> committed[id].alive is None
                    && index.contents[id].wf()
        }),
{
    let committed = created(index, next_segment_id).registers.committed;
    let fresh = segment_register::fresh_entries(index.metas, DeleteCursor { position: 0 });
    assert forall|i: int, j: int| 0 <= i < j < fresh.len() implies (#[trigger] fresh[i]).id() != (
    #[trigger] fresh[j]).id() by {
        assert(index.metas[i].segment_id != index.metas[j].segment_id);
    }
    segment_register::lemma_filled_with(fresh);
    assert forall|id: SegmentId| #[trigger] committed.contains_key(id) implies committed[id].alive
        is None && index.contents[id].wf() && index.contents.contains_key(id) by {
        let i = choose|i: int| 0 <= i < fresh.len() && (#[trigger] fresh[i]).id() == id;
        assert(committed[id] == fresh[i]);
        assert(index::describes(index.metas[i], index.contents));
    }
    assert forall|id: SegmentId| #[trigger] index.contents.contains_key(
        id,
    ) implies committed.contains_key(id) by {
        let i = choose|i: int|
            0 <= i < index.metas.len() && (#[trigger] index.metas[i]).segment_id == id;
        assert(fresh[i].id() == id);
    }
    assert(committed.dom() =~= index.contents.dom());
}

/// Issuing one more delete keeps the state sound.
proof fn lemma_push_delete_wf(state: UpdaterView, operation: DeleteOperationView)
    requires
        state.wf(),
        state.deletes.len() < usize::MAX,
        state.deletes.len() > 0 ==> state.deletes.last().opstamp < operation.opstamp,
    ensures
        (UpdaterView { deletes: state.deletes.push(operation), ..state }).wf(),
{
    let after = UpdaterView { deletes: state.deletes.push(operation), ..state };
    assert forall|entry: SegmentEntryView| #[trigger] state.entry_wf(entry) implies after.entry_wf(
        entry,
    ) by {
        let files = state.files[entry.id()];
        assert forall|i: int, doc: int|
            0 <= i < entry.cursor.position && 0 <= doc < files.documents.len() && (
            #[trigger] after.deletes[i]).kills(#[trigger] files.documents[doc]) implies !standing(
            entry,
            files,
        )[doc] by {
            assert(state.deletes[i].kills(files.documents[doc]));
        }
    }
    assert forall|i: int, j: int| 0 <= i < j < after.deletes.len() implies (
    #[trigger] after.deletes[i]).opstamp < (#[trigger] after.deletes[j]).opstamp by {
        if j < state.deletes.len() {
            assert(state.deletes[i].opstamp < state.deletes[j].opstamp);
        } else if i < state.deletes.len() - 1 {
            assert(state.deletes[i].opstamp < state.deletes[state.deletes.len() - 1].opstamp);
        }
    }
}

/// Adding a segment keeps the state sound.
proof fn lemma_with_segment_wf(
    state: UpdaterView,
    documents: Seq<StoredDocumentView>,
    cursor: DeleteCursor,
    generation: Option<PublicationGeneration>,
)
    requires
        state.wf(),
        state.has_room_for(documents.len()),
        cursor.position <= state.deletes.len(),
        forall|i: int, doc: int|
            0 <= i < cursor.position && 0 <= doc < documents.len() ==> !(
            #[trigger] state.deletes[i]).kills(#[trigger] documents[doc]),
    ensures
        state.with_segment(documents, cursor, generation).wf(),
{
    let after = state.with_segment(documents, cursor, generation);
    let new = state.next_segment_id;
    assert forall|entry: SegmentEntryView| #[trigger] state.entry_wf(entry) implies after.entry_wf(
        entry,
    ) by {
        assert(entry.id() != new);
        assert(after.files[entry.id()] == state.files[entry.id()]);
    }
    let entry = after.registers.uncommitted[new];
    assert(standing(entry, after.files[new]) =~= Seq::new(documents.len(), |doc: int| true));
    bit_set::lemma_count_full(documents.len());
    assert(after.entry_wf(entry));
    assert forall|id: SegmentId| #[trigger] after.registers.committed.contains_key(id) implies id
        != new by {
        assert(state.entry_wf(state.registers.committed[id]));
        assert(state.registers.committed[id].id() == id);
    }
    assert forall|id: SegmentId| #[trigger] after.registers.uncommitted.contains_key(
        id,
    ) implies after.entry_wf(after.registers.uncommitted[id]) by {
        if id != new {
            assert(state.registers.uncommitted.contains_key(id));
        }
    }
}

/// What a segment holds at an opstamp: its documents, of which one is alive just if neither the
/// files nor the entry hold it for dead, and no delete from the entry's cursor on and through the
/// opstamp was issued after it was added and names one of its terms.
pub proof fn law_segment_content(
    entry: SegmentEntryView,
    files: SegmentContent,
    deletes: Seq<DeleteOperationView>,
    opstamp: Opstamp,
    doc: int,
)
    requires
        0 <= doc < files.documents.len(),
    ensures
        ({
            let content = content_at(entry, files, deletes, opstamp);
            let document = files.documents[doc];
            &&& content.documents == files.documents
            &&& content.alive.len() == files.documents.len()
            &&& content.alive[doc] <==> {
                &&& files.alive[doc]
                &&& entry.alive is Some ==> entry.alive->0[doc]
                &&& forall|i: int|
                    entry.cursor.position <= i < deletes.len() && (
                    #[trigger] deletes[i]).opstamp <= opstamp && document.opstamp
                        < deletes[i].opstamp ==> !document.terms.contains(deletes[i].term)
            }
        }),
{
    let content = content_at(entry, files, deletes, opstamp);
    let document = files.documents[doc];
    let from = entry.cursor.position as int;
    assert(content.alive[doc] == (standing(entry, files)[doc] && !delete_queue::killed_from(
        deletes,
        from,
        opstamp,
        document,
    )));
    assert forall|i: int| 0 <= i < deletes.len() implies (#[trigger] deletes[i]).kills(document)
        == (document.opstamp < deletes[i].opstamp && document.terms.contains(deletes[i].term)) by {}
    if delete_queue::killed_from(deletes, from, opstamp, document) {
        let i = choose|i: int|
            from <= i < deletes.len() && (#[trigger] deletes[i]).opstamp <= opstamp
                && deletes[i].kills(document);
        assert(document.terms.contains(deletes[i].term));
    }
    if !delete_queue::killed_from(deletes, from, opstamp, document) {
        assert forall|i: int|
            from <= i < deletes.len() && (#[trigger] deletes[i]).opstamp <= opstamp
                && document.opstamp < deletes[i].opstamp implies !document.terms.contains(
            deletes[i].term,
        ) by {
            assert(!deletes[i].kills(document));
        }
    }
}

/// When a commit succeeds, and what it leads to then. It succeeds just if the updater was not
/// killed, and returns its opstamp; if it fails, nothing changes. If it succeeds, the index is
/// complete through its opstamp and carries its payload, whatever segments it is left with. They
/// are committed, without a label, and none is left uncommitted; each was registered before. The
/// metadata lists them by increasing id.
pub proof fn law_commit_makes_everything_durable(
    before: UpdaterView,
    after: UpdaterView,
    opstamp: Opstamp,
    payload: Option<Seq<char>>,
    outcome: Result<Opstamp>,
    id: SegmentId,
)
    requires
        before.wf(),
        before.commits_to(after, opstamp, payload, outcome),
    ensures
        outcome is Ok <==> before.is_alive,
        outcome is Err ==> after == before,
        outcome matches Ok(committed) ==> {
            &&& committed == opstamp
            &&& after.index.opstamp == opstamp
            &&& after.index.payload == payload
            &&& after.is_alive
            &&& after.deletes == before.deletes
            &&& after.next_segment_id == before.next_segment_id
            &&& !after.registers.uncommitted.contains_key(id)
            &&& after.index.contents.contains_key(id) ==> before.registers.committed.contains_key(
                id,
            ) || before.registers.uncommitted.contains_key(id)
            &&& after.registers.committed.contains_key(id) <==> after.index.contents.contains_key(
                id,
            )
            &&& after.registers.committed.contains_key(id)
                ==> after.registers.committed[id].generation is None
            &&& (exists|i: int|
                0 <= i < after.index.metas.len() && (#[trigger] after.index.metas[i]).segment_id
                    == id) <==> after.index.contents.contains_key(id)
            &&& forall|i: int|
                0 <= i < after.index.metas.len() && (#[trigger] after.index.metas[i]).segment_id
                    == id ==> after.index.metas[i] == after.registers.committed[id].meta
            &&& forall|i: int, j: int|
                0 <= i < j < after.index.metas.len() ==> (
                #[trigger] after.index.metas[i]).segment_id < (
                #[trigger] after.index.metas[j]).segment_id
        },
{
    if outcome is Ok {
        let segments = before.all_segments();
        let kept = before.committed_at(opstamp);
        segment_register::law_metadata_listing_is_complete(after.index.metas, kept);
        assert(after.index.contents.contains_key(id) ==> segments.contains_key(id));
        if kept.contains_key(id) {
            assert(segments.contains_key(id));
        }
        if exists|i: int|
            0 <= i < after.index.metas.len() && (#[trigger] after.index.metas[i]).segment_id
                == id {
            assert(kept.contains_key(id));
        }
    }
}

/// What a commit keeps of a segment that was registered under `entry`: a document is alive in the
/// index just if neither the files nor the entry held it for dead, and no delete was issued after
/// it was added and names one of its terms. The segment is in the index just if some document is.
/// Its metadata counts its documents, and those alive.
pub proof fn law_commit_keeps_living_documents(
    before: UpdaterView,
    after: UpdaterView,
    opstamp: Opstamp,
    payload: Option<Seq<char>>,
    entry: SegmentEntryView,
    doc: int,
)
    requires
        before.wf(),
        before.stamped_before(opstamp),
        before.commits_to(after, opstamp, payload, Ok(opstamp)),
        ({
            let id = entry.meta.segment_id;
            ||| before.registers.committed.contains_key(id) && before.registers.committed[id]
                == entry
            ||| before.registers.uncommitted.contains_key(id) && before.registers.uncommitted[id]
                == entry
        }),
        0 <= doc < before.files[entry.meta.segment_id].documents.len(),
    ensures
        ({
            let id = entry.meta.segment_id;
            let files = before.files[id];
            let document = files.documents[doc];
            let durable = after.index.contents;
            &&& durable.contains_key(id) && durable[id].alive[doc] <==> {
                &&& files.alive[doc]
                &&& entry.alive is Some ==> entry.alive->0[doc]
                &&& forall|i: int|
                    0 <= i < before.deletes.len() && document.opstamp < (
                    #[trigger] before.deletes[i]).opstamp ==> !document.terms.contains(
                        before.deletes[i].term,
                    )
            }
            &&& durable.contains_key(id) ==> {
                &&& durable[id].documents == files.documents
                &&& durable[id].alive.len() == files.documents.len()
                &&& exists|other: int|
                    0 <= other < files.documents.len() && #[trigger] durable[id].alive[other]
                &&& after.registers.committed[id].meta.segment_id == id
                &&& after.registers.committed[id].meta.max_doc == files.documents.len()
                &&& after.registers.committed[id].meta.alive() == Set::new(
                    |other: int| 0 <= other < files.documents.len() && durable[id].alive[other],
                ).len()
            }
        }),
{
    let id = entry.meta.segment_id;
    let segments = before.all_segments();
    let files = before.files[id];
    let document = files.documents[doc];
    let durable = after.index.contents;
    let kept = before.committed_at(opstamp);
    let deletes = before.deletes;
    let content = content_at(entry, files, deletes, opstamp);
    if before.registers.committed.contains_key(id) {
        assert(!before.registers.uncommitted.contains_key(id)) by {
            assert(before.registers.committed.dom().contains(id));
            assert(!before.registers.uncommitted.dom().contains(id));
        }
    }
    assert(segments.contains_key(id) && segments[id] == entry);
    assert(before.entry_wf(entry));
    lemma_advanced_meta(before, entry, opstamp);
    law_segment_content(entry, files, deletes, opstamp, doc);
    bit_set::law_count_is_number_of_places(content.alive);
    let places = Set::new(|i: int| 0 <= i < content.alive.len() && content.alive[i]);
    if content.alive[doc] {
        bit_set::lemma_count_positive(content.alive, doc);
        assert forall|i: int|
            0 <= i < deletes.len() && document.opstamp < (
            #[trigger] deletes[i]).opstamp implies !document.terms.contains(deletes[i].term) by {
            if i < entry.cursor.position {
                if document.terms.contains(deletes[i].term) {
                    assert(deletes[i].kills(document));
                    assert(!standing(entry, files)[doc]);
                }
            } else {
                assert(deletes[i].opstamp < opstamp);
            }
        }
    }
    assert(kept.contains_key(id) <==> entry_at(entry, files, deletes, opstamp).meta.alive() != 0);
    if durable.contains_key(id) {
        assert(durable[id] == content);
        assert(Set::new(
            |other: int| 0 <= other < files.documents.len() && durable[id].alive[other],
        ) =~= places);
        if forall|other: int|
            0 <= other < files.documents.len() ==> !#[trigger] durable[id].alive[other] {
            assert(places =~= Set::empty());
        }
    }
}

/// A segment that is added stands among the uncommitted ones, under an id of its own, with all its
/// documents alive. Nothing else changes but the next id.
pub proof fn law_added_segment_stands_alone(
    state: UpdaterView,
    documents: Seq<StoredDocumentView>,
    cursor: DeleteCursor,
    generation: Option<PublicationGeneration>,
    id: SegmentId,
)
    requires
        state.wf(),
        documents.len() <= u32::MAX,
        state.next_segment_id < u128::MAX,
    ensures
        ({
            let after = state.with_segment(documents, cursor, generation);
            let new = state.next_segment_id;
            let entry = after.registers.uncommitted[new];
            &&& !state.registers.uncommitted.contains_key(new)
            &&& !state.registers.committed.contains_key(new)
            &&& after.registers.uncommitted.contains_key(new)
            &&& entry.meta.segment_id == new && entry.meta.max_doc == documents.len()
                && entry.meta.deletes is None
            &&& entry.alive is None && entry.cursor == cursor && entry.generation == generation
            &&& after.files.contains_key(new) && after.files[new].documents == documents
            &&& after.files[new].alive.len() == documents.len()
            &&& forall|doc: int|
                0 <= doc < documents.len() ==> #[trigger] after.files[new].alive[doc]
            &&& id != new ==> {
                &&& after.registers.uncommitted.contains_key(id)
                    == state.registers.uncommitted.contains_key(id)
                &&& after.registers.uncommitted[id] == state.registers.uncommitted[id]
                &&& after.files.contains_key(id) == state.files.contains_key(id)
                &&& after.files[id] == state.files[id]
            }
            &&& after.registers.committed == state.registers.committed
            &&& after.index == state.index
            &&& after.deletes == state.deletes
            &&& after.is_alive == state.is_alive
            &&& after.next_segment_id == new + 1
            &&& state.has_room_for(documents.len())
        }),
{
    let new = state.next_segment_id;
    if state.registers.uncommitted.contains_key(new) {
        assert(state.entry_wf(state.registers.uncommitted[new]));
    }
    if state.registers.committed.contains_key(new) {
        assert(state.entry_wf(state.registers.committed[new]));
    }
}

/// There is room for a segment just if its documents can be numbered and an id is left.
pub proof fn law_room_is_a_matter_of_numbers(state: UpdaterView, len: nat)
    ensures
        state.has_room_for(len) <==> len <= u32::MAX && state.next_segment_id < u128::MAX,
{
}

/// The metadata of a segment after a commit: it counts the documents that are dead by then, through
/// the opstamp of the commit, or is as it was if no more are dead than before.
pub proof fn law_metadata_counts_new_deletes(
    state: UpdaterView,
    entry: SegmentEntryView,
    opstamp: Opstamp,
)
    requires
        state.wf(),
        state.entry_wf(entry),
    ensures
        ({
            let files = state.files[entry.meta.segment_id];
            let content = content_at(entry, files, state.deletes, opstamp);
            let meta = entry_at(entry, files, state.deletes, opstamp).meta;
            let dead = files.documents.len() - Set::new(
                |doc: int| 0 <= doc < content.alive.len() && content.alive[doc],
            ).len();
            let known = match entry.meta.deletes {
                Some(deletes) => deletes.num_deleted_docs as int,
                None => 0,
            };
            &&& meta.segment_id == entry.meta.segment_id
            &&& meta.max_doc == entry.meta.max_doc
            &&& dead > known ==> (meta.deletes matches Some(deletes) && deletes.num_deleted_docs
                == dead && deletes.opstamp == opstamp)
            &&& dead <= known ==> meta.deletes == entry.meta.deletes
        }),
{
    let files = state.files[entry.meta.segment_id];
    let content = content_at(entry, files, state.deletes, opstamp);
    bit_set::law_count_is_number_of_places(content.alive);
    bit_set::lemma_count_le_len(content.alive);
}

/// The first id that is free is the one behind the largest id in use, or zero where none is.
pub proof fn law_first_free_id_follows_the_largest(metas: Seq<SegmentMeta>, next: int, other: int)
    requires
        first_free_id(metas, next),
    ensures
        metas.len() == 0 ==> next == 0,
        forall|i: int| 0 <= i < metas.len() ==> (#[trigger] metas[i]).segment_id < next,
        0 < next ==> exists|i: int|
            0 <= i < metas.len() && (#[trigger] metas[i]).segment_id == next - 1,
        first_free_id(metas, other) ==> other == next,
{
    if first_free_id(metas, other) && other != next {
        if next > 0 {
            let i = choose|i: int|
                0 <= i < metas.len() && (#[trigger] metas[i]).segment_id == next - 1;
            assert(metas[i].segment_id < other);
        }
        if other > 0 {
            let i = choose|i: int|
                0 <= i < metas.len() && (#[trigger] metas[i]).segment_id == other - 1;
            assert(metas[i].segment_id < next);
        }
    }
}

} // verus!
