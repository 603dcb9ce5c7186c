//! The writer of an index: adds documents, deletes them, and prepares commits.
use crate::delete_queue::{DeleteCursor, DeleteOperation, DeleteOperationView};
use crate::error::{Result, TantivyError};
use crate::index::{Index, IndexView};
use crate::prepared_commit::PreparedCommit;
use crate::reader::Contents;
use crate::schema::{self, Document, StoredDocument, StoredDocumentView, TantivyDocument, Term};
use crate::segment_entry::PublicationGeneration;
use crate::segment_manager;
use crate::segment_meta::{Opstamp, SegmentId};
use crate::segment_updater::{self, SegmentUpdater, UpdaterView};
use std::marker::PhantomData;
use vstd::prelude::*;

verus! {

/// The writer of an index.
///
/// Every operation gets an opstamp of its own, in the order in which the operations are issued.
/// Added documents wait in a buffer until they are flushed into a segment, which is labeled with
/// the publication generation the writer is at.
#[verifier::reject_recursive_types(D)]
#[derive(Debug)]
pub struct IndexWriter<D: Document = TantivyDocument> {
    segment_updater: SegmentUpdater,
    next_opstamp: Opstamp,
    generation: PublicationGeneration,
    buffer: Vec<StoredDocument>,
    buffer_start: DeleteCursor,
    documents: PhantomData<D>,
}

/// The state of an [`IndexWriter`].
#[verifier::ext_equal]
pub struct WriterView {
    /// The segments of the writer, the deletes, and the last durable commit.
    pub updater: UpdaterView,
    /// The opstamp of the next operation.
    pub next_opstamp: Opstamp,
    /// The label of the next segment.
    pub generation: PublicationGeneration,
    /// The documents that are in no segment yet.
    pub buffer: Seq<StoredDocumentView>,
    /// Where the deletes begin that may concern the buffered documents.
    pub buffer_start: DeleteCursor,
}

impl<D: Document> View for IndexWriter<D> {
    type V = WriterView;

    closed spec fn view(&self) -> WriterView {
        WriterView {
            updater: self.segment_updater@,
            next_opstamp: self.next_opstamp,
            generation: self.generation,
            buffer: schema::document_views(self.buffer@),
            buffer_start: self.buffer_start,
        }
    }
}

/// Why an operation is refused when the opstamps are used up.
pub open spec fn no_opstamp_message() -> Seq<char> {
    "No opstamp is left"@
}

/// Why a commit is refused when the publication generations are used up.
pub open spec fn no_generation_message() -> Seq<char> {
    "No publication generation is left"@
}

impl WriterView {
    /// The state is sound: everything was issued before the next opstamp, and the uncommitted
    /// segments that are labeled belong to earlier generations than the next segment.
    pub open spec fn wf(self) -> bool {
        &&& self.updater.wf()
        &&& self.updater.stamped_before(self.next_opstamp)
        &&& self.updater.index.opstamp <= self.next_opstamp
        &&& self.buffer_start.position <= self.updater.deletes.len()
        &&& forall|doc: int|
            0 <= doc < self.buffer.len() ==> (#[trigger] self.buffer[doc]).opstamp
                < self.next_opstamp
        &&& forall|i: int, doc: int|
            0 <= i < self.buffer_start.position && 0 <= doc < self.buffer.len() ==> !(
            #[trigger] self.updater.deletes[i]).kills(#[trigger] self.buffer[doc])
        &&& forall|id: SegmentId|
            self.updater.registers.uncommitted.contains_key(id) ==> ((
            #[trigger] self.updater.registers.uncommitted[id]).generation matches Some(label)
                ==> label.0 < self.generation.0)
    }

    /// The state after a document was added that is found by the given terms.
    pub open spec fn with_document(self, terms: Seq<schema::TermView>) -> WriterView {
        WriterView {
            buffer: self.buffer.push(StoredDocumentView { opstamp: self.next_opstamp, terms }),
            next_opstamp: (self.next_opstamp + 1) as u64,
            ..self
        }
    }

    /// The state after a delete was issued.
    pub open spec fn with_delete(self, term: schema::TermView) -> WriterView {
        WriterView {
            updater: UpdaterView {
                deletes: self.updater.deletes.push(
                    DeleteOperationView { opstamp: self.next_opstamp, term },
                ),
                ..self.updater
            },
            next_opstamp: (self.next_opstamp + 1) as u64,
            ..self
        }
    }

    /// The state after a segment with one document was added past the buffer, without a label.
    pub open spec fn with_unlabeled(self, terms: Seq<schema::TermView>) -> WriterView {
        WriterView {
            updater: self.updater.with_segment(
                seq![StoredDocumentView { opstamp: self.next_opstamp, terms }],
                DeleteCursor { position: self.updater.deletes.len() as usize },
                None,
            ),
            next_opstamp: (self.next_opstamp + 1) as u64,
            ..self
        }
    }

    /// Whether the buffered documents, if there are any, can be flushed into a segment.
    pub open spec fn can_flush(self) -> bool {
        self.buffer.len() > 0 ==> self.updater.is_alive && self.updater.has_room_for(
            self.buffer.len(),
        )
    }

    /// Whether a commit can be prepared.
    pub open spec fn can_prepare(self) -> bool {
        self.next_opstamp < u64::MAX && self.generation.0 < u64::MAX && self.can_flush()
    }

    /// The state after a commit was prepared: the buffered documents stand in a segment, the
    /// commit has an opstamp, and a new generation begins.
    pub open spec fn prepared(self) -> WriterView {
        WriterView {
            updater: if self.buffer.len() > 0 {
                self.updater.with_segment(self.buffer, self.buffer_start, Some(self.generation))
            } else {
                self.updater
            },
            next_opstamp: (self.next_opstamp + 1) as u64,
            generation: PublicationGeneration((self.generation.0 + 1) as u64),
            buffer: Seq::empty(),
            buffer_start: DeleteCursor { position: self.updater.deletes.len() as usize },
        }
    }

    /// `error` says why no commit can be prepared.
    pub open spec fn refuses_to_prepare(self, error: TantivyError) -> bool {
        if self.next_opstamp == u64::MAX {
            error.is_system_error(no_opstamp_message())
        } else if self.generation.0 == u64::MAX {
            error.is_system_error(no_generation_message())
        } else {
            &&& !self.can_flush()
            &&& error.is_system_error(
                if self.updater.is_alive {
                    segment_updater::full_message()
                } else {
                    segment_updater::killed_message()
                },
            )
        }
    }

    /// Whether the segments can be parted by generation and opened.
    pub open spec fn can_search(self) -> bool {
        self.updater.is_alive && segment_manager::all_labeled(self.updater.registers.uncommitted)
    }

    /// `error` says why the segments cannot be parted by generation and opened.
    pub open spec fn refuses_to_search(self, error: TantivyError) -> bool {
        if self.updater.is_alive {
            &&& !segment_manager::all_labeled(self.updater.registers.uncommitted)
            &&& error.is_invalid_argument(segment_manager::unlabeled_segments_message())
        } else {
            error.is_system_error(segment_updater::killed_message())
        }
    }

    /// What a searcher over a prepared commit sees: the committed segments and those through
    /// `generation`, with the deletes through `opstamp` applied.
    pub open spec fn snapshot(
        self,
        opstamp: Opstamp,
        generation: PublicationGeneration,
    ) -> Contents {
        self.updater.contents_at(self.updater.segments_through(generation), opstamp)
    }

    /// A commit through `opstamp` has the given outcome and leads to the state `after`: it changes
    /// nothing but what the updater keeps, and nothing at all if the updater was killed.
    pub open spec fn commits_to(
        self,
        after: WriterView,
        opstamp: Opstamp,
        payload: Option<Seq<char>>,
        outcome: Result<Opstamp>,
    ) -> bool {
        &&& self.updater.commits_to(after.updater, opstamp, payload, outcome)
        &&& after == (WriterView { updater: after.updater, ..self })
    }

    /// `after` is the state of a writer that starts from the last durable commit of an index.
    pub open spec fn started_on(index: IndexView, after: WriterView) -> bool {
        &&& segment_updater::first_free_id(index.metas, after.updater.next_segment_id as int)
        &&& after == (WriterView {
            updater: segment_updater::created(index, after.updater.next_segment_id),
            next_opstamp: index.opstamp,
            generation: PublicationGeneration(0),
            buffer: Seq::empty(),
            buffer_start: DeleteCursor { position: 0 },
        })
    }
}

impl<D: Document> IndexWriter<D> {
    /// Starts writing behind the last durable commit of an index.
    ///
    /// It is an error if no id beyond those of its segments is left.
    pub fn new(index: Index) -> (writer: Result<IndexWriter<D>>)
        ensures
            match writer {
                Ok(writer) => writer@.wf() && WriterView::started_on(index@, writer@),
                Err(error) => {
                    &&& segment_updater::first_free_id(index@.metas, u128::MAX + 1)
                    &&& error.is_system_error(segment_updater::full_message())
                },
            },
    {
        let next_opstamp = index.load_metas().opstamp;
        match SegmentUpdater::create(index) {
            Ok(segment_updater) => {
                let writer = IndexWriter {
                    segment_updater,
                    next_opstamp,
                    generation: PublicationGeneration::new(0),
                    buffer: Vec::new(),
                    buffer_start: DeleteCursor { position: 0 },
                    documents: PhantomData,
                };
                assert(writer@.buffer =~= Seq::empty());
                Ok(writer)
            },
            Err(error) => Err(error),
        }
    }

    /// The last durable commit.
    pub fn index(&self) -> (index: &Index)
        ensures
            index@ == self@.updater.index,
    {
        self.segment_updater.index()
    }

    /// The segment updater of the writer.
    pub fn segment_updater(&self) -> (updater: &SegmentUpdater)
        ensures
            updater@ == self@.updater,
    {
        &self.segment_updater
    }

    /// The segment updater of the writer, to schedule tasks that change the segments.
    pub(crate) fn segment_updater_mut(&mut self) -> (updater: &mut SegmentUpdater)
        ensures
            updater@ == old(self)@.updater,
            final(self)@ == (WriterView { updater: final(updater)@, ..old(self)@ }),
    {
        &mut self.segment_updater
    }

    /// Stops the segment updater. From now on tasks fail.
    pub fn kill(&mut self)
        requires
            old(self)@.wf(),
        ensures
            final(self)@.wf(),
            final(self)@ == (WriterView {
                updater: UpdaterView { is_alive: false, ..old(self)@.updater },
                ..old(self)@
            }),
    {
        self.segment_updater.kill();
    }

    /// Takes the next opstamp.
    fn stamp(&mut self) -> (opstamp: Result<Opstamp>)
        ensures
            match opstamp {
                Ok(opstamp) => {
                    &&& opstamp == old(self)@.next_opstamp < u64::MAX
                    &&& final(self)@ == (WriterView {
                        next_opstamp: (old(self)@.next_opstamp + 1) as u64,
                        ..old(self)@
                    })
                },
                Err(error) => {
                    &&& old(self)@.next_opstamp == u64::MAX
                    &&& error.is_system_error(no_opstamp_message())
                    &&& final(self)@ == old(self)@
                },
            },
    {
        if self.next_opstamp == u64::MAX {
            return Err(TantivyError::SystemError("No opstamp is left".to_string()));
        }
        let opstamp = self.next_opstamp;
        self.next_opstamp = opstamp + 1;
        Ok(opstamp)
    }

    /// Adds a document, and returns the opstamp of the operation.
    pub fn add_document(&mut self, document: D) -> (added: Result<Opstamp>)
        requires
            old(self)@.wf(),
        ensures
            final(self)@.wf(),
            match added {
                Ok(opstamp) => {
                    &&& opstamp == old(self)@.next_opstamp < u64::MAX
                    &&& final(self)@ == old(self)@.with_document(document.indexed_terms())
                },
                Err(error) => {
                    &&& old(self)@.next_opstamp == u64::MAX
                    &&& error.is_system_error(no_opstamp_message())
                    &&& final(self)@ == old(self)@
                },
            },
    {
        let opstamp = match self.stamp() {
            Ok(opstamp) => opstamp,
            Err(error) => {
                return Err(error);
            },
        };
        let stored = StoredDocument { opstamp, terms: document.terms() };
        self.buffer.push(stored);
        proof {
            assert(self@.buffer =~= old(self)@.buffer.push(stored@));
            assert(self@ =~= old(self)@.with_document(document.indexed_terms()));
        }
        Ok(opstamp)
    }

    /// Deletes the documents that are found by `term` and were added so far, and returns the
    /// opstamp of the operation.
    pub fn delete_term(&mut self, term: Term) -> (deleted: Result<Opstamp>)
        requires
            old(self)@.wf(),
        ensures
            final(self)@.wf(),
            match deleted {
                Ok(opstamp) => {
                    &&& opstamp == old(self)@.next_opstamp < u64::MAX
                    &&& final(self)@ == old(self)@.with_delete(term@)
                },
                Err(error) => {
                    &&& old(self)@.next_opstamp == u64::MAX
                    &&& error.is_system_error(no_opstamp_message())
                    &&& final(self)@ == old(self)@
                },
            },
    {
        let opstamp = match self.stamp() {
            Ok(opstamp) => opstamp,
            Err(error) => {
                return Err(error);
            },
        };
        self.segment_updater.push_delete(DeleteOperation { opstamp, term });
        assert(self@ =~= old(self)@.with_delete(term@));
        Ok(opstamp)
    }

    /// Adds a document in a segment of its own, past the buffer and without a publication
    /// generation.
    ///
    /// As long as the segment is uncommitted, no prepared commit can be searched.
    pub fn add_unlabeled(&mut self, document: D) -> (added: Result<Opstamp>)
        requires
            old(self)@.wf(),
        ensures
            final(self)@.wf(),
            match added {
                Ok(opstamp) => {
                    &&& opstamp == old(self)@.next_opstamp < u64::MAX
                    &&& old(self)@.updater.is_alive
                    &&& old(self)@.updater.has_room_for(1)
                    &&& final(self)@ == old(self)@.with_unlabeled(document.indexed_terms())
                },
                Err(error) => {
                    &&& final(self)@ == old(self)@
                    &&& if !old(self)@.updater.is_alive {
                        error.is_system_error(segment_updater::killed_message())
                    } else if !old(self)@.updater.has_room_for(1) {
                        error.is_system_error(segment_updater::full_message())
                    } else {
                        &&& old(self)@.next_opstamp == u64::MAX
                        &&& error.is_system_error(no_opstamp_message())
                    }
                },
            },
    {
        match self.segment_updater.check_room(1) {
            Ok(()) => {},
            Err(error) => {
                return Err(error);
            },
        }
        let opstamp = match self.stamp() {
            Ok(opstamp) => opstamp,
            Err(error) => {
                return Err(error);
            },
        };
        let mut documents: Vec<StoredDocument> = Vec::new();
        documents.push(StoredDocument { opstamp, terms: document.terms() });
        let cursor = self.segment_updater.delete_cursor();
        let ghost stored = StoredDocumentView { opstamp, terms: document.indexed_terms() };
        assert(schema::document_views(documents@) =~= seq![stored]);
        let _ = self.segment_updater.schedule_add_segment(documents, cursor, None);
        assert(self@ =~= old(self)@.with_unlabeled(document.indexed_terms()));
        Ok(opstamp)
    }

    /// Prepares a commit: flushes the buffered documents into a segment of the current generation,
    /// takes an opstamp for the commit, and begins a new generation.
    ///
    /// On an error nothing changes.
    pub fn prepare_commit(&mut self) -> (prepared: Result<PreparedCommit<'_, D>>)
        requires
            old(self)@.wf(),
        ensures
            match prepared {
                Ok(prepared) => {
                    &&& old(self)@.can_prepare()
                    &&& prepared.wf()
                    &&& prepared.opstamp == old(self)@.next_opstamp
                    &&& prepared.publication_generation == old(self)@.generation
                    &&& prepared.payload is None
                    &&& prepared.index_writer@ == old(self)@.prepared()
                    &&& *final(self) == *final(prepared.index_writer)
                },
                Err(error) => {
                    &&& old(self)@.refuses_to_prepare(error)
                    &&& final(self)@ == old(self)@
                },
            },
    {
        let generation = self.generation;
        if self.next_opstamp == u64::MAX {
            return Err(TantivyError::SystemError("No opstamp is left".to_string()));
        }
        let next_generation = match generation.next() {
            Some(next_generation) => next_generation,
            None => {
                return Err(
                    TantivyError::SystemError("No publication generation is left".to_string()),
                );
            },
        };
        let cursor = self.segment_updater.delete_cursor();
        if self.buffer.len() > 0 {
            match self.segment_updater.check_room(self.buffer.len()) {
                Ok(()) => {},
                Err(error) => {
                    return Err(error);
                },
            }
            let mut documents: Vec<StoredDocument> = Vec::new();
            std::mem::swap(&mut documents, &mut self.buffer);
            proof {
                let deletes = self@.updater.deletes;
                assert forall|i: int, doc: int|
                    0 <= i < self.buffer_start.position && 0 <= doc < documents@.len() implies !(
                #[trigger] deletes[i]).kills((#[trigger] documents@[doc])@) by {
                    assert(old(self)@.buffer[doc] == documents@[doc]@);
                }
            }
            let _ = self.segment_updater.schedule_add_segment(
                documents,
                self.buffer_start,
                Some(generation),
            );
        }
        let opstamp = self.next_opstamp;
        self.next_opstamp = opstamp + 1;
        self.generation = next_generation;
        self.buffer_start = cursor;
        assert(self@ =~= old(self)@.prepared());
        Ok(PreparedCommit::new(self, opstamp, generation))
    }

    /// Prepares a commit and carries it out.
    pub fn commit(&mut self) -> (committed: Result<Opstamp>)
        requires
            old(self)@.wf(),
        ensures
            final(self)@.wf(),
            if old(self)@.can_prepare() {
                old(self)@.prepared().commits_to(
                    final(self)@,
                    old(self)@.next_opstamp,
                    None,
                    committed,
                )
            } else {
                &&& committed matches Err(error) && old(self)@.refuses_to_prepare(error)
                &&& final(self)@ == old(self)@
            },
    {
        match self.prepare_commit() {
            Ok(prepared) => prepared.commit(),
            Err(error) => Err(error),
        }
    }

    /// Forgets everything since the last durable commit, and returns its opstamp.
    pub fn rollback(&mut self) -> (rolled_back: Result<Opstamp>)
        requires
            old(self)@.wf(),
        ensures
            final(self)@.wf(),
            rolled_back matches Ok(opstamp) && opstamp == old(self)@.updater.index.opstamp,
            WriterView::started_on(old(self)@.updater.index, final(self)@),
    {
        let index = self.segment_updater.index().clone();
        let opstamp = index.load_metas().opstamp;
        match IndexWriter::new(index) {
            Ok(writer) => {
                *self = writer;
                Ok(opstamp)
            },
            Err(error) => Err(error),
        }
    }
}

/// What adding a document, deleting and preparing a commit record: each takes one opstamp; a
/// document joins the buffer behind those in it, a delete the queue behind those in it; preparing
/// empties the buffer and begins a new generation.
pub proof fn law_operations_are_recorded(writer: WriterView, term: schema::TermView, terms: Seq<
    schema::TermView,
>)
    requires
        writer.next_opstamp < u64::MAX,
        writer.generation.0 < u64::MAX,
        writer.updater.deletes.len() <= usize::MAX,
    ensures
        ({
            let after = writer.with_document(terms);
            &&& after.next_opstamp == writer.next_opstamp + 1
            &&& after.buffer.len() == writer.buffer.len() + 1
            &&& after.buffer.take(writer.buffer.len() as int) == writer.buffer
            &&& after.buffer[writer.buffer.len() as int].opstamp == writer.next_opstamp
            &&& after.buffer[writer.buffer.len() as int].terms == terms
            &&& after.updater == writer.updater
            &&& after.generation == writer.generation
            &&& after.buffer_start == writer.buffer_start
        }),
        ({
            let after = writer.with_delete(term);
            let issued = writer.updater.deletes.len();
            &&& after.next_opstamp == writer.next_opstamp + 1
            &&& after.updater.deletes.len() == issued + 1
            &&& after.updater.deletes.take(issued as int) == writer.updater.deletes
            &&& after.updater.deletes[issued as int].opstamp == writer.next_opstamp
            &&& after.updater.deletes[issued as int].term == term
            &&& after.updater.registers == writer.updater.registers
            &&& after.updater.files == writer.updater.files
            &&& after.updater.index == writer.updater.index
            &&& after.updater.next_segment_id == writer.updater.next_segment_id
            &&& after.updater.is_alive == writer.updater.is_alive
            &&& after.buffer == writer.buffer
            &&& after.generation == writer.generation
            &&& after.buffer_start == writer.buffer_start
        }),
        ({
            let after = writer.prepared();
            &&& after.next_opstamp == writer.next_opstamp + 1
            &&& after.generation.0 == writer.generation.0 + 1
            &&& after.buffer.len() == 0
            &&& after.buffer_start.position == writer.updater.deletes.len()
            &&& after.updater.deletes == writer.updater.deletes
            &&& after.updater.index == writer.updater.index
            &&& after.updater.is_alive == writer.updater.is_alive
            &&& after.updater.registers.committed == writer.updater.registers.committed
            &&& writer.buffer.len() == 0 ==> after.updater == writer.updater
            &&& writer.buffer.len() > 0 ==> after.updater == writer.updater.with_segment(
                writer.buffer,
                writer.buffer_start,
                Some(writer.generation),
            )
        }),
{
    assert(writer.with_document(terms).buffer.take(writer.buffer.len() as int) =~= writer.buffer);
    assert(writer.with_delete(term).updater.deletes.take(writer.updater.deletes.len() as int)
        =~= writer.updater.deletes);
}

/// When a commit can be prepared, and when it can be searched: the numbers must not be used up and
/// what waits must fit a segment of a writer that lives; to be searched, the writer must live and
/// every uncommitted segment must carry a label.
pub proof fn law_what_is_asked_of_a_commit(writer: WriterView)
    ensures
        writer.can_prepare() <==> {
            &&& writer.next_opstamp < u64::MAX
            &&& writer.generation.0 < u64::MAX
            &&& writer.buffer.len() == 0 || (writer.updater.is_alive && writer.buffer.len()
                <= u32::MAX && writer.updater.next_segment_id < u128::MAX)
        },
        writer.can_search() <==> {
            &&& writer.updater.is_alive
            &&& forall|id: SegmentId| #[trigger]
                writer.updater.registers.uncommitted.contains_key(id)
                    ==> writer.updater.registers.uncommitted[id].generation is Some
        },
{
}

/// A commit changes nothing about a writer but what its updater keeps. Its payload is durable where
/// it succeeds, and where it fails nothing changes.
pub proof fn law_commit_carries_its_payload(
    writer: WriterView,
    after: WriterView,
    opstamp: Opstamp,
    payload: Option<Seq<char>>,
    outcome: Result<Opstamp>,
)
    requires
        writer.commits_to(after, opstamp, payload, outcome),
    ensures
        outcome is Ok <==> writer.updater.is_alive,
        outcome is Ok ==> after.updater.index.payload == payload,
        outcome is Ok ==> after.updater.index.opstamp == opstamp,
        outcome is Err ==> after == writer,
        after.next_opstamp == writer.next_opstamp,
        after.generation == writer.generation,
        after.buffer == writer.buffer,
        after.buffer_start == writer.buffer_start,
{
}

/// A writer starts behind the durable commit, alive and with nothing of its own.
pub proof fn law_writer_starts_behind_durable_commit(index: IndexView, after: WriterView)
    requires
        WriterView::started_on(index, after),
    ensures
        after.updater.index == index,
        after.updater.is_alive,
        after.updater.files == index.contents,
        after.updater.deletes.len() == 0,
        after.next_opstamp == index.opstamp,
        after.generation.0 == 0,
        after.buffer.len() == 0,
        after.buffer_start.position == 0,
        forall|id: SegmentId| !#[trigger] after.updater.registers.uncommitted.contains_key(id),
        forall|i: int|
            0 <= i < index.metas.len() ==> (#[trigger] index.metas[i]).segment_id
                < after.updater.next_segment_id,
{
}

/// A document that is added past the buffer stands in a segment of its own, without a label, behind
/// all deletes issued so far. It takes one opstamp, and nothing else changes.
pub proof fn law_unlabeled_document_stands_alone(writer: WriterView, terms: Seq<schema::TermView>)
    requires
        writer.next_opstamp < u64::MAX,
        writer.updater.deletes.len() <= usize::MAX,
    ensures
        ({
            let after = writer.with_unlabeled(terms);
            let id = writer.updater.next_segment_id;
            let entry = after.updater.registers.uncommitted[id];
            &&& after.next_opstamp == writer.next_opstamp + 1
            &&& after.buffer == writer.buffer
            &&& after.buffer_start == writer.buffer_start
            &&& after.generation == writer.generation
            &&& after.updater.registers.uncommitted.contains_key(id)
            &&& entry.generation is None
            &&& entry.alive is None
            &&& entry.cursor.position == writer.updater.deletes.len()
            &&& entry.meta.segment_id == id && entry.meta.max_doc == 1
                && entry.meta.deletes is None
            &&& after.updater.files[id].documents.len() == 1
            &&& after.updater.files[id].documents[0].opstamp == writer.next_opstamp
            &&& after.updater.files[id].documents[0].terms == terms
            &&& after.updater.files[id].alive[0]
            &&& after.updater.registers.committed == writer.updater.registers.committed
            &&& after.updater.deletes == writer.updater.deletes
            &&& after.updater.index == writer.updater.index
        }),
{
}

/// Why a commit is not prepared, or not searched: the first of the reasons that apply.
pub proof fn law_refusals_give_the_reason(writer: WriterView, error: TantivyError)
    ensures
        writer.next_opstamp == u64::MAX ==> (writer.refuses_to_prepare(error) <==> (error matches
            TantivyError::SystemError(text) && text@ == "No opstamp is left"@)),
        writer.next_opstamp < u64::MAX && writer.generation.0 == u64::MAX ==> (
        writer.refuses_to_prepare(error) <==> (error matches TantivyError::SystemError(text)
            && text@ == "No publication generation is left"@)),
        writer.next_opstamp < u64::MAX && writer.generation.0 < u64::MAX
            && !writer.updater.is_alive && writer.buffer.len() > 0 ==> (
        writer.refuses_to_prepare(error) <==> (error matches TantivyError::SystemError(text)
            && text@ == "Segment updater killed"@)),
        writer.next_opstamp < u64::MAX && writer.generation.0 < u64::MAX && writer.updater.is_alive
            && (writer.buffer.len() > u32::MAX || (writer.buffer.len() > 0
            && writer.updater.next_segment_id == u128::MAX)) ==> (writer.refuses_to_prepare(error)
            <==> (error matches TantivyError::SystemError(text) && text@
            == "No room is left for the segment"@)),
        writer.can_prepare() ==> !writer.refuses_to_prepare(error),
        !writer.updater.is_alive ==> (writer.refuses_to_search(error) <==> (error matches
            TantivyError::SystemError(text) && text@ == "Segment updater killed"@)),
        writer.can_search() ==> !writer.refuses_to_search(error),
        writer.updater.is_alive && !writer.can_search() ==> (writer.refuses_to_search(error) <==> (
        error matches TantivyError::InvalidArgument(text) && text@
            == "cannot snapshot a publication generation while unlabeled uncommitted segments exist"@)),
{
}

} // verus!
