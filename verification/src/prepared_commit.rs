//! A commit that is complete but not yet durable.
use crate::bit_set;
use crate::clock;
use crate::commit_timer;
use crate::delete_queue::{self, DeleteOperationView};
use crate::error::Result;
use crate::future_result::FutureResult;
use crate::index::{self, IndexView};
use crate::index_writer::{IndexWriter, WriterView};
use crate::reader::{self, DocAddress, IndexReader, Searcher};
use crate::schema::{Document, StoredDocumentView, TantivyDocument, TermView};
use crate::segment_entry::{PublicationGeneration, SegmentEntryView};
use crate::segment_manager::{self, RegistersView};
use crate::segment_meta::{Opstamp, SegmentId};
use crate::segment_updater;
use std::time::{Duration, Instant};
use vstd::prelude::*;

verus! {

/// A prepared commit.
#[verifier::reject_recursive_types(D)]
pub struct PreparedCommit<'a, D: Document = TantivyDocument> {
    /// The writer, which can do nothing else until the commit is carried out or aborted.
    pub index_writer: &'a mut IndexWriter<D>,
    /// What is attached to the commit.
    pub payload: Option<String>,
    /// The operation through which the commit is complete.
    pub opstamp: Opstamp,
    /// The last generation of the segments of the commit.
    pub publication_generation: PublicationGeneration,
}

/// Breakdown of the durable half of a prepared commit.
#[derive(Clone, Copy, Debug)]
pub struct CommitStats {
    /// Time to hand the commit over to the segment updater.
    pub schedule: Duration,
    /// Time waiting for the scheduled commit to persist its metadata.
    pub wait: Duration,
}

impl Default for CommitStats {
    fn default() -> (stats: Self)
        ensures
            stats.schedule == clock::zero_duration(),
            stats.wait == clock::zero_duration(),
    {
        CommitStats { schedule: Duration::new(0, 0), wait: Duration::new(0, 0) }
    }
}

impl CommitStats {
    /// What is reported of a commit with the given outcome: where it succeeded, its opstamp with
    /// the time it took to hand it over and the time it took to wait for it, each in its place.
    pub fn report(outcome: Result<Opstamp>, schedule: Duration, wait: Duration) -> (reported:
        Result<(Opstamp, CommitStats)>)
        ensures
            match (outcome, reported) {
                (Ok(opstamp), Ok((same, stats))) => same == opstamp && stats == (CommitStats {
                    schedule,
                    wait,
                }),
                (Err(error), Err(same)) => same == error,
                _ => false,
            },
    {
        match outcome {
            Ok(opstamp) => Ok((opstamp, CommitStats { schedule, wait })),
            Err(error) => Err(error),
        }
    }
}

/// The writer stands at the boundary of a prepared commit: everything was issued before its
/// opstamp, nothing waits in the buffer, and no segment belongs to a later generation.
pub open spec fn at_boundary(
    writer: WriterView,
    opstamp: Opstamp,
    generation: PublicationGeneration,
) -> bool {
    &&& writer.wf()
    &&& writer.buffer.len() == 0
    &&& writer.updater.stamped_before(opstamp)
    &&& writer.updater.index.opstamp <= opstamp < writer.next_opstamp
    &&& forall|id: SegmentId|
        writer.updater.registers.uncommitted.contains_key(id) ==> ((
        #[trigger] writer.updater.registers.uncommitted[id]).generation matches Some(label)
            ==> label.0 <= generation.0)
}

impl<'a, D: Document> PreparedCommit<'a, D> {
    /// The state of the writer.
    pub open spec fn writer(self) -> WriterView {
        self.index_writer@
    }

    /// The writer stands at the boundary of this commit.
    pub open spec fn wf(self) -> bool {
        at_boundary(self.writer(), self.opstamp, self.publication_generation)
    }

    /// Prepares the commit of everything the writer did through `opstamp`.
    pub fn new(
        index_writer: &'a mut IndexWriter<D>,
        opstamp: Opstamp,
        publication_generation: PublicationGeneration,
    ) -> (prepared: Self)
        ensures
            prepared.index_writer@ == old(index_writer)@,
            *final(prepared.index_writer) == *final(index_writer),
            prepared.payload is None,
            prepared.opstamp == opstamp,
            prepared.publication_generation == publication_generation,
    {
        PreparedCommit { index_writer, payload: None, opstamp, publication_generation }
    }

    /// Returns the opstamp associated with the prepared commit.
    pub fn opstamp(&self) -> (opstamp: Opstamp)
        ensures
            opstamp == self.opstamp,
    {
        self.opstamp
    }

    /// Adds an arbitrary payload to the commit.
    pub fn set_payload(&mut self, payload: &str)
        ensures
            index::payload_view(final(self).payload) == Some(payload@),
            final(self).opstamp == old(self).opstamp,
            final(self).publication_generation == old(self).publication_generation,
            *final(self).index_writer == *old(self).index_writer,
            *final(final(self).index_writer) == *final(old(self).index_writer),
    {
        self.payload = Some(payload.to_string())
    }

    /// Opens an immutable searcher for this prepared commit without persisting it.
    ///
    /// The searcher holds all documents added through the commit's opstamp, and no later one.
    /// Deletes through the same opstamp are applied before the searcher is opened. The searcher is
    /// independent of `reader`'s current searcher, and opening it neither writes metadata nor
    /// makes the commit durable.
    ///
    /// It is an error if an uncommitted segment has no generation, or if the writer was killed.
    ///
    /// Calling [`Self::abort`] after publishing such a searcher is invalid: it would discard the
    /// logical writer state represented by the published view.
    pub fn open_searcher(&self, reader: &IndexReader) -> (searcher: Result<Searcher>)
        requires
            self.writer().updater.wf(),
        ensures
            match searcher {
                Ok(searcher) => {
                    &&& self.writer().can_search()
                    &&& searcher@ == self.writer().snapshot(
                        self.opstamp,
                        self.publication_generation,
                    )
                },
                Err(error) => self.writer().refuses_to_search(error),
            },
    {
        let snapshot = self.index_writer.segment_updater()
            .schedule_snapshot_segment_readers_through_generation(
            self.opstamp,
            self.publication_generation,
        ).wait();
        match snapshot {
            Ok(snapshot) => reader.searcher_for_segment_readers(snapshot.readers),
            Err(error) => Err(error),
        }
    }

    /// Rolls back any change since the last durable commit, and returns its opstamp.
    pub fn abort(self) -> (aborted: Result<Opstamp>)
        requires
            self.writer().wf(),
        ensures
            aborted matches Ok(opstamp) && opstamp == self.writer().updater.index.opstamp,
            final(self.index_writer)@.wf(),
            WriterView::started_on(
                self.writer().updater.index,
                final(self.index_writer)@,
            ),
    {
        self.index_writer.rollback()
    }

    /// Proceeds to commit.
    /// See `.commit_future()`.
    pub fn commit(self) -> (committed: Result<Opstamp>)
        requires
            self.writer().updater.wf(),
            self.writer().updater.stamped_before(self.opstamp),
        ensures
            final(self.index_writer)@.updater.wf(),
            self.wf() ==> final(self.index_writer)@.wf(),
            self.writer().commits_to(
                final(self.index_writer)@,
                self.opstamp,
                index::payload_view(self.payload),
                committed,
            ),
    {
        match self.commit_with_stats() {
            Ok((opstamp, _stats)) => Ok(opstamp),
            Err(error) => Err(error),
        }
    }

    /// Commits, and reports the time to hand the commit over to the segment updater separately
    /// from the time waiting for it to become durable.
    ///
    /// Both times are read off the clock: the one from before the hand-over until the commit was
    /// handed over, the other from then until the wait for it was over.
    pub fn commit_with_stats(self) -> (committed: Result<(Opstamp, CommitStats)>)
        requires
            self.writer().updater.wf(),
            self.writer().updater.stamped_before(self.opstamp),
        ensures
            final(self.index_writer)@.updater.wf(),
            self.wf() ==> final(self.index_writer)@.wf(),
            self.writer().commits_to(
                final(self.index_writer)@,
                self.opstamp,
                index::payload_view(self.payload),
                match committed {
                    Ok((opstamp, _)) => Ok(opstamp),
                    Err(error) => Err(error),
                },
            ),
            committed matches Ok((_, stats)) ==> exists|started: Instant, since: Instant|
                {
                    &&& #[trigger] commit_timer::begun_at(self.writer().updater, started)
                    &&& commit_timer::handed_over_in(started, self.opstamp, stats.schedule)
                    &&& #[trigger] commit_timer::waiting_since(self.writer().updater, since)
                    &&& commit_timer::waited_until(
                        since,
                        final(self.index_writer)@.updater,
                        stats.wait,
                    )
                },
    {
        let started = commit_timer::start(self.index_writer.segment_updater());
        let commit = self.index_writer.segment_updater_mut().accept_commit(
            self.opstamp,
            self.payload,
        );
        let (schedule, since) = commit_timer::handed_over(started, &commit);
        let outcome = commit.wait();
        let wait = commit_timer::waited(since, self.index_writer.segment_updater());
        CommitStats::report(outcome, schedule, wait)
    }

    /// Proceeds to commit.
    ///
    /// The deletes have not been flushed yet at this point, so this operation is not light.
    pub fn commit_future(self) -> (commit: FutureResult<Opstamp>)
        requires
            self.writer().updater.wf(),
            self.writer().updater.stamped_before(self.opstamp),
        ensures
            final(self.index_writer)@.updater.wf(),
            self.wf() ==> final(self.index_writer)@.wf(),
            self.writer().commits_to(
                final(self.index_writer)@,
                self.opstamp,
                index::payload_view(self.payload),
                commit@,
            ),
    {
        self.index_writer.segment_updater_mut().schedule_commit(self.opstamp, self.payload)
    }
}

/// At the boundary every segment belongs to the commit.
proof fn lemma_boundary_segments(
    writer: WriterView,
    opstamp: Opstamp,
    generation: PublicationGeneration,
)
    requires
        at_boundary(writer, opstamp, generation),
        segment_manager::all_labeled(writer.updater.registers.uncommitted),
    ensures
        writer.updater.segments_through(generation) == writer.updater.all_segments(),
{
    let uncommitted = writer.updater.registers.uncommitted;
    assert(segment_manager::through_generation(uncommitted, generation) =~= uncommitted) by {
        assert forall|id: SegmentId| uncommitted.contains_key(
            id,
        ) implies segment_manager::belongs_through(#[trigger] uncommitted[id], generation) by {}
    }
}

/// A searcher over a prepared commit sees just what becomes durable if the commit is carried out:
/// the same documents are alive, and every search finds the same of them.
pub proof fn law_snapshot_is_what_becomes_durable(
    writer: WriterView,
    opstamp: Opstamp,
    generation: PublicationGeneration,
    payload: Option<Seq<char>>,
    after: WriterView,
    term: TermView,
)
    requires
        at_boundary(writer, opstamp, generation),
        writer.can_search(),
        writer.commits_to(after, opstamp, payload, Ok(opstamp)),
    ensures
        reader::alive_documents(writer.snapshot(opstamp, generation)) == reader::alive_documents(
            after.updater.index.contents,
        ),
        reader::matching(writer.snapshot(opstamp, generation), term) == reader::matching(
            after.updater.index.contents,
            term,
        ),
{
    let updater = writer.updater;
    let snapshot = writer.snapshot(opstamp, generation);
    let durable = after.updater.index.contents;
    let segments = updater.all_segments();
    lemma_boundary_segments(writer, opstamp, generation);
    assert forall|address: DocAddress| #[trigger]
        reader::alive_documents(snapshot).contains(address) implies durable.contains_key(
        address.0,
    ) by {
        let entry = segments[address.0];
        assert(updater.entry_wf(entry));
        segment_updater::lemma_advanced_meta(updater, entry, opstamp);
        bit_set::lemma_count_positive(snapshot[address.0].alive, address.1);
    }
    assert(reader::alive_documents(snapshot) =~= reader::alive_documents(durable));
    assert(reader::matching(snapshot, term) =~= reader::matching(durable, term));
}

/// Every delete issued before a prepared commit is applied in its searcher: no document that is
/// alive there was added before one of them and holds its term.
pub proof fn law_snapshot_applies_deletes(
    writer: WriterView,
    opstamp: Opstamp,
    generation: PublicationGeneration,
    address: DocAddress,
    i: int,
)
    requires
        at_boundary(writer, opstamp, generation),
        0 <= i < writer.updater.deletes.len(),
        reader::alive_documents(writer.snapshot(opstamp, generation)).contains(address),
    ensures
        ({
            let document = writer.snapshot(opstamp, generation)[address.0].documents[address.1];
            document.opstamp < writer.updater.deletes[i].opstamp ==> !document.terms.contains(
                writer.updater.deletes[i].term,
            )
        }),
{
    let updater = writer.updater;
    let entry = updater.segments_through(generation)[address.0];
    assert(updater.entry_wf(entry));
    assert(updater.deletes[i].opstamp <= opstamp);
    let files = updater.files[address.0];
    if updater.deletes[i].kills(files.documents[address.1]) {
        if i < entry.cursor.position {
            assert(!segment_updater::standing(entry, files)[address.1]);
        } else {
            assert(delete_queue::killed_from(
                updater.deletes,
                entry.cursor.position as int,
                opstamp,
                files.documents[address.1],
            ));
        }
    }
}

/// No operation after the boundary is seen: every document of the searcher was added before the
/// opstamp of the commit.
pub proof fn law_snapshot_ends_at_opstamp(
    writer: WriterView,
    opstamp: Opstamp,
    generation: PublicationGeneration,
)
    requires
        at_boundary(writer, opstamp, generation),
    ensures
        reader::stamped_before(writer.snapshot(opstamp, generation), opstamp),
{
    let updater = writer.updater;
    let snapshot = writer.snapshot(opstamp, generation);
    assert forall|id: SegmentId, doc: int|
        snapshot.contains_key(id) && 0 <= doc < snapshot[id].documents.len() implies (
    #[trigger] snapshot[id].documents[doc]).opstamp < opstamp by {
        assert(updater.entry_wf(updater.segments_through(generation)[id]));
        assert(snapshot[id].documents[doc] == updater.files[id].documents[doc]);
    }
}

/// Every document that waited when the commit was prepared is seen, unless a delete concerns it.
pub proof fn law_snapshot_holds_buffered_documents(writer: WriterView, doc: int)
    requires
        writer.wf(),
        writer.can_prepare(),
        0 <= doc < writer.buffer.len(),
    ensures
        ({
            let snapshot = writer.prepared().snapshot(writer.next_opstamp, writer.generation);
            let id = writer.updater.next_segment_id;
            &&& snapshot.contains_key(id)
            &&& snapshot[id].documents == writer.buffer
            &&& reader::alive_documents(snapshot).contains((id, doc)) <==> forall|i: int|
                0 <= i < writer.updater.deletes.len() && writer.buffer[doc].opstamp < (
                #[trigger] writer.updater.deletes[i]).opstamp
                    ==> !writer.buffer[doc].terms.contains(writer.updater.deletes[i].term)
        }),
{
    let prepared = writer.prepared();
    let id = writer.updater.next_segment_id;
    let opstamp = writer.next_opstamp;
    let snapshot = prepared.snapshot(opstamp, writer.generation);
    let deletes = writer.updater.deletes;
    let from = writer.buffer_start.position as int;
    let entry = prepared.updater.registers.uncommitted[id];
    if writer.updater.registers.committed.contains_key(id) {
        assert(writer.updater.entry_wf(writer.updater.registers.committed[id]));
    }
    assert(segment_manager::belongs_through(entry, writer.generation));
    assert(prepared.updater.segments_through(writer.generation)[id] == entry);
    assert(snapshot[id].alive[doc] == !delete_queue::killed_from(
        deletes,
        from,
        opstamp,
        writer.buffer[doc],
    ));
    if forall|i: int|
        0 <= i < deletes.len() && writer.buffer[doc].opstamp < (#[trigger] deletes[i]).opstamp
            ==> !writer.buffer[doc].terms.contains(deletes[i].term) {
        assert(!delete_queue::killed_from(deletes, from, opstamp, writer.buffer[doc]));
    }
    if !delete_queue::killed_from(deletes, from, opstamp, writer.buffer[doc]) {
        assert forall|i: int|
            0 <= i < deletes.len() && writer.buffer[doc].opstamp < (
            #[trigger] deletes[i]).opstamp implies !writer.buffer[doc].terms.contains(
            deletes[i].term,
        ) by {
            assert(deletes[i].opstamp < opstamp);
            assert(!deletes[i].kills(writer.buffer[doc]));
        }
    }
}

/// A document of the commit is seen just if it was still standing and no delete concerns it.
pub proof fn law_snapshot_holds_standing_documents(
    writer: WriterView,
    opstamp: Opstamp,
    generation: PublicationGeneration,
    id: SegmentId,
    doc: int,
)
    requires
        at_boundary(writer, opstamp, generation),
        writer.updater.segments_through(generation).contains_key(id),
        0 <= doc < writer.updater.files[id].documents.len(),
    ensures
        ({
            let document = writer.updater.files[id].documents[doc];
            let snapshot = writer.snapshot(opstamp, generation);
            let entry = writer.updater.segments_through(generation)[id];
            &&& reader::alive_documents(snapshot).contains((id, doc)) <==> {
                &&& writer.updater.files[id].alive[doc]
                &&& entry.alive is Some ==> entry.alive->0[doc]
                &&& forall|i: int|
                    0 <= i < writer.updater.deletes.len() && document.opstamp < (
                    #[trigger] writer.updater.deletes[i]).opstamp ==> !document.terms.contains(
                        writer.updater.deletes[i].term,
                    )
            }
            &&& snapshot[id].documents[doc] == document
        }),
{
    let updater = writer.updater;
    let deletes = updater.deletes;
    let entry = updater.segments_through(generation)[id];
    let files = updater.files[id];
    let document = files.documents[doc];
    let from = entry.cursor.position as int;
    assert(updater.entry_wf(entry));
    if segment_updater::standing(entry, files)[doc] && !delete_queue::killed_from(
        deletes,
        from,
        opstamp,
        document,
    ) {
        assert forall|i: int|
            0 <= i < deletes.len() && document.opstamp < (
            #[trigger] deletes[i]).opstamp implies !document.terms.contains(deletes[i].term) by {
            assert(deletes[i].opstamp < opstamp);
            assert(!deletes[i].kills(document));
        }
    }
}

/// A delete issued later does not show in a searcher that was prepared before it.
pub proof fn law_later_delete_leaves_snapshot(
    writer: WriterView,
    opstamp: Opstamp,
    generation: PublicationGeneration,
    term: TermView,
)
    requires
        at_boundary(writer, opstamp, generation),
        writer.next_opstamp < u64::MAX,
    ensures
        writer.with_delete(term).snapshot(opstamp, generation) == writer.snapshot(
            opstamp,
            generation,
        ),
{
    let before = writer.snapshot(opstamp, generation);
    let after = writer.with_delete(term).snapshot(opstamp, generation);
    let deletes = writer.updater.deletes;
    let more = writer.with_delete(term).updater.deletes;
    assert forall|id: SegmentId| #[trigger] before.contains_key(id) implies before[id]
        == after[id] by {
        let entry = writer.updater.segments_through(generation)[id];
        let from = entry.cursor.position as int;
        let documents = writer.updater.files[id].documents;
        assert(writer.updater.entry_wf(entry));
        assert forall|doc: int| 0 <= doc < documents.len() implies delete_queue::killed_from(
            deletes,
            from,
            opstamp,
            #[trigger] documents[doc],
        ) == delete_queue::killed_from(more, from, opstamp, documents[doc]) by {
            let document = documents[doc];
            if delete_queue::killed_from(deletes, from, opstamp, document) {
                let i = choose|i: int|
                    from <= i < deletes.len() && (#[trigger] deletes[i]).opstamp <= opstamp
                        && deletes[i].kills(document);
                assert(more[i] == deletes[i]);
            }
            if delete_queue::killed_from(more, from, opstamp, document) {
                let i = choose|i: int|
                    from <= i < more.len() && (#[trigger] more[i]).opstamp <= opstamp
                        && more[i].kills(document);
                assert(deletes[i] == more[i]);
            }
        }
        assert(before[id].alive =~= after[id].alive);
    }
    assert(before =~= after);
}

/// Documents added later do not enter a searcher that was prepared before, not even once they
/// stand in a segment.
pub proof fn law_later_documents_leave_snapshot(
    writer: WriterView,
    opstamp: Opstamp,
    generation: PublicationGeneration,
    later: WriterView,
)
    requires
        at_boundary(writer, opstamp, generation),
        later.wf(),
        later.can_prepare(),
        later.updater == writer.updater,
        later.generation.0 > generation.0,
    ensures
        later.prepared().snapshot(opstamp, generation) == writer.snapshot(opstamp, generation),
{
    let before = writer.updater;
    let after = later.prepared().updater;
    let id = before.next_segment_id;
    if before.registers.uncommitted.contains_key(id) {
        assert(before.entry_wf(before.registers.uncommitted[id]));
    }
    if before.registers.committed.contains_key(id) {
        assert(before.entry_wf(before.registers.committed[id]));
    }
    assert(after.segments_through(generation) =~= before.segments_through(generation));
    assert(later.prepared().snapshot(opstamp, generation) =~= writer.snapshot(
        opstamp,
        generation,
    ));
}

/// A commit makes all segments part of the durable base, and leaves no generation behind: right
/// after it, a searcher through any generation sees what the commit made durable.
pub proof fn law_commit_becomes_durable_base(
    writer: WriterView,
    opstamp: Opstamp,
    generation: PublicationGeneration,
    payload: Option<Seq<char>>,
    after: WriterView,
    later_opstamp: Opstamp,
    any_generation: PublicationGeneration,
)
    requires
        at_boundary(writer, opstamp, generation),
        writer.commits_to(after, opstamp, payload, Ok(opstamp)),
    ensures
        after.can_search(),
        forall|id: SegmentId| #[trigger]
            after.updater.registers.committed.contains_key(id)
                ==> after.updater.registers.committed[id].generation is None,
        after.snapshot(later_opstamp, any_generation) == after.updater.index.contents,
{
    let before = writer.updater;
    let deletes = before.deletes;
    let segments = before.all_segments();
    let kept = after.updater.registers.committed;
    let durable = after.updater.index.contents;
    let snapshot = after.snapshot(later_opstamp, any_generation);
    assert(segment_manager::through_generation(
        after.updater.registers.uncommitted,
        any_generation,
    ) =~= after.updater.registers.uncommitted);
    assert(after.updater.segments_through(any_generation) =~= kept);
    assert forall|id: SegmentId| #[trigger] kept.contains_key(id) implies snapshot[id]
        == durable[id] by {
        let entry = segments[id];
        assert(before.entry_wf(entry));
        let files = before.files[id];
        let content = segment_updater::content_at(entry, files, deletes, opstamp);
        delete_queue::lemma_reached(deletes, entry.cursor.position as int, opstamp);
        segment_updater::lemma_standing_after(before, entry, opstamp);
        assert(after.updater.files[id] == content);
        assert(kept[id].cursor.position == deletes.len()) by {
            let end = kept[id].cursor.position as int;
            if end < deletes.len() {
                assert(deletes[end].opstamp < opstamp);
            }
        }
        assert(snapshot[id].alive =~= content.alive);
    }
    assert(snapshot =~= durable);
}

/// The opstamp of the durable commit never decreases.
pub proof fn law_durable_opstamp_never_decreases(
    writer: WriterView,
    opstamp: Opstamp,
    generation: PublicationGeneration,
    payload: Option<Seq<char>>,
    after: WriterView,
    outcome: Result<Opstamp>,
)
    requires
        at_boundary(writer, opstamp, generation),
        writer.commits_to(after, opstamp, payload, outcome),
    ensures
        writer.updater.index.opstamp <= after.updater.index.opstamp,
{
}

/// An aborted commit leaves the index as it is, and a writer that knows only the last durable
/// commit: whatever is searched next is what that commit made durable.
pub proof fn law_abort_returns_to_durable_commit(
    index: IndexView,
    after: WriterView,
    opstamp: Opstamp,
    generation: PublicationGeneration,
)
    requires
        index.wf(),
        WriterView::started_on(index, after),
    ensures
        after.updater.index == index,
        after.updater.registers.uncommitted == RegistersView::empty().uncommitted,
        after.updater.deletes.len() == 0,
        after.buffer.len() == 0,
        after.can_search(),
        after.snapshot(opstamp, generation) == index.contents,
{
    let updater = after.updater;
    segment_updater::lemma_created_segments(index, updater.next_segment_id);
    assert(segment_manager::through_generation(updater.registers.uncommitted, generation)
        =~= updater.registers.uncommitted);
    assert(updater.segments_through(generation) =~= updater.registers.committed);
    let snapshot = after.snapshot(opstamp, generation);
    assert(snapshot.dom() =~= index.contents.dom());
    assert forall|id: SegmentId| #[trigger] snapshot.contains_key(id) implies snapshot[id]
        == index.contents[id] by {
        assert(snapshot[id].alive =~= index.contents[id].alive);
    }
    assert(snapshot =~= index.contents);
}

/// Deletes are the same through an opstamp and through a later one, if none was issued in between.
proof fn lemma_killed_through_later(
    deletes: Seq<DeleteOperationView>,
    from: int,
    opstamp: Opstamp,
    later: Opstamp,
    document: StoredDocumentView,
)
    requires
        0 <= from,
        opstamp <= later,
        forall|i: int| 0 <= i < deletes.len() ==> (#[trigger] deletes[i]).opstamp < opstamp,
    ensures
        delete_queue::killed_from(deletes, from, opstamp, document) == delete_queue::killed_from(
            deletes,
            from,
            later,
            document,
        ),
{
    if delete_queue::killed_from(deletes, from, later, document) {
        let i = choose|i: int|
            from <= i < deletes.len() && (#[trigger] deletes[i]).opstamp <= later
                && deletes[i].kills(document);
        assert(deletes[i].opstamp <= opstamp);
    }
    if delete_queue::killed_from(deletes, from, opstamp, document) {
        let i = choose|i: int|
            from <= i < deletes.len() && (#[trigger] deletes[i]).opstamp <= opstamp
                && deletes[i].kills(document);
        assert(deletes[i].opstamp <= later);
    }
}

/// A delete takes out of the next searcher just the documents that hold its term, at whatever place
/// among their terms: every other document is there, or is not, as it would be without the delete.
pub proof fn law_delete_takes_out_documents_with_its_term(
    writer: WriterView,
    term: TermView,
    id: SegmentId,
    doc: int,
)
    requires
        writer.wf(),
        writer.can_prepare(),
        writer.with_delete(term).can_prepare(),
    ensures
        ({
            let without = writer.prepared().snapshot(writer.next_opstamp, writer.generation);
            let deleted = writer.with_delete(term);
            let with = deleted.prepared().snapshot(deleted.next_opstamp, deleted.generation);
            &&& with.contains_key(id) == without.contains_key(id)
            &&& with.contains_key(id) ==> {
                &&& with[id].documents == without[id].documents
                &&& with[id].alive.len() == without[id].alive.len()
                &&& with[id].alive.len() == with[id].documents.len()
                &&& 0 <= doc < with[id].documents.len() ==> (with[id].alive[doc] <==>
                without[id].alive[doc] && !(exists|place: int|
                    0 <= place < with[id].documents[doc].terms.len() && (
                    #[trigger] with[id].documents[doc].terms[place]) == term))
            }
        }),
{
    let deleted = writer.with_delete(term);
    let first = writer.prepared();
    let second = deleted.prepared();
    let opstamp = writer.next_opstamp;
    let later = deleted.next_opstamp;
    let deletes = writer.updater.deletes;
    let more = deleted.updater.deletes;
    assert(second.updater.segments_through(writer.generation)
        =~= first.updater.segments_through(writer.generation));
    assert(second.updater.files =~= first.updater.files);
    let segments = first.updater.segments_through(writer.generation);
    if segments.contains_key(id) && 0 <= doc < first.updater.files[id].documents.len() {
        let entry = segments[id];
        let from = entry.cursor.position as int;
        let document = first.updater.files[id].documents[doc];
        lemma_prepared_entry(writer, id, doc);
        lemma_killed_through_later(deletes, from, opstamp, later, document);
        let last = more[deletes.len() as int];
        assert(last.opstamp == opstamp && last.term == term);
        assert(last.kills(document) == document.terms.contains(term));
        assert(delete_queue::killed_from(more, from, later, document)
            == (delete_queue::killed_from(deletes, from, later, document)
            || document.terms.contains(term))) by {
            if delete_queue::killed_from(more, from, later, document) {
                let i = choose|i: int|
                    from <= i < more.len() && (#[trigger] more[i]).opstamp <= later
                        && more[i].kills(document);
                if i < deletes.len() {
                    assert(deletes[i] == more[i]);
                }
            }
            if delete_queue::killed_from(deletes, from, later, document) {
                let i = choose|i: int|
                    from <= i < deletes.len() && (#[trigger] deletes[i]).opstamp <= later
                        && deletes[i].kills(document);
                assert(more[i] == deletes[i]);
            }
            if document.terms.contains(term) {
                assert(more[deletes.len() as int].kills(document));
            }
        }
    }
}

/// The segments of a prepared commit: their documents were added before the commit, and their
/// cursors lie within the deletes.
proof fn lemma_prepared_entry(writer: WriterView, id: SegmentId, doc: int)
    requires
        writer.wf(),
        writer.can_prepare(),
        writer.prepared().updater.segments_through(writer.generation).contains_key(id),
        0 <= doc < writer.prepared().updater.files[id].documents.len(),
    ensures
        writer.prepared().updater.files[id].documents[doc].opstamp < writer.next_opstamp,
        writer.prepared().updater.segments_through(writer.generation)[id].cursor.position
            <= writer.updater.deletes.len(),
{
    let before = writer.updater;
    if before.registers.uncommitted.contains_key(id) {
        assert(before.entry_wf(before.registers.uncommitted[id]));
    }
    if before.registers.committed.contains_key(id) {
        assert(before.entry_wf(before.registers.committed[id]));
    }
    if id == before.next_segment_id {
        assert(writer.buffer[doc].opstamp < writer.next_opstamp);
    } else {
        assert(before.files[id].documents[doc].opstamp < writer.next_opstamp);
    }
}

/// An added document is in the next searcher, alive and as it was added, and every other document
/// is there, or is not, as it would be without it.
pub proof fn law_added_document_joins_the_next_searcher(
    writer: WriterView,
    terms: Seq<TermView>,
    id: SegmentId,
    doc: int,
)
    requires
        writer.wf(),
        writer.can_prepare(),
        writer.with_document(terms).can_prepare(),
    ensures
        ({
            let without = writer.prepared().snapshot(writer.next_opstamp, writer.generation);
            let added = writer.with_document(terms);
            let with = added.prepared().snapshot(added.next_opstamp, added.generation);
            let new_id = writer.updater.next_segment_id;
            let new_doc = writer.buffer.len() as int;
            &&& with.contains_key(new_id)
            &&& with[new_id].documents.len() == new_doc + 1
            &&& with[new_id].alive.len() == new_doc + 1
            &&& with[new_id].documents[new_doc].terms == terms
            &&& with[new_id].documents[new_doc].opstamp == writer.next_opstamp
            &&& with[new_id].alive[new_doc]
            &&& id != new_id ==> with.contains_key(id) == without.contains_key(id)
            &&& without.contains_key(id) ==> with.contains_key(id)
            &&& without.contains_key(id) && 0 <= doc < without[id].documents.len() ==> {
                &&& with[id].documents[doc] == without[id].documents[doc]
                &&& with[id].alive[doc] == without[id].alive[doc]
            }
            &&& without.contains_key(id) && id != new_id ==> with[id].documents.len()
                == without[id].documents.len()
            &&& new_doc > 0 ==> without.contains_key(new_id) && without[new_id].documents.len()
                == new_doc
        }),
{
    let added = writer.with_document(terms);
    let first = writer.prepared();
    let second = added.prepared();
    let opstamp = writer.next_opstamp;
    let later = added.next_opstamp;
    let deletes = writer.updater.deletes;
    let new_id = writer.updater.next_segment_id;
    let new_doc = writer.buffer.len() as int;
    let before = writer.updater;
    if before.registers.uncommitted.contains_key(new_id) {
        assert(before.entry_wf(before.registers.uncommitted[new_id]));
    }
    if before.registers.committed.contains_key(new_id) {
        assert(before.entry_wf(before.registers.committed[new_id]));
    }
    let with = second.snapshot(later, writer.generation);
    let without = first.snapshot(opstamp, writer.generation);
    let entry = second.updater.registers.uncommitted[new_id];
    assert(segment_manager::belongs_through(entry, writer.generation));
    assert(second.updater.segments_through(writer.generation)[new_id] == entry);
    let document = added.buffer[new_doc];
    assert(!delete_queue::killed_from(
        deletes,
        writer.buffer_start.position as int,
        later,
        document,
    )) by {
        if delete_queue::killed_from(
            deletes,
            writer.buffer_start.position as int,
            later,
            document,
        ) {
            let i = choose|i: int|
                writer.buffer_start.position <= i < deletes.len() && (
                #[trigger] deletes[i]).opstamp <= later && deletes[i].kills(document);
            assert(deletes[i].opstamp < opstamp);
        }
    }
    if new_doc > 0 {
        let old_entry = first.updater.registers.uncommitted[new_id];
        assert(segment_manager::belongs_through(old_entry, writer.generation));
        assert(first.updater.segments_through(writer.generation)[new_id] == old_entry);
    }
    if without.contains_key(id) && 0 <= doc < without[id].documents.len() {
        let from = first.updater.segments_through(writer.generation)[id].cursor.position as int;
        lemma_killed_through_later(deletes, from, opstamp, later, without[id].documents[doc]);
        if id == new_id {
            assert(added.buffer[doc] == writer.buffer[doc]);
        } else {
            assert(second.updater.segments_through(writer.generation)[id]
                == first.updater.segments_through(writer.generation)[id]);
        }
    }
}

/// What a searcher through a generation and an opstamp sees, boundary or not: the committed
/// segments, and the uncommitted ones of that generation and earlier ones. A document is alive there
/// just if neither the files nor the entry hold it for dead, and no delete through the opstamp was
/// issued after it was added and names one of its terms.
pub proof fn law_snapshot_is_exact(
    writer: WriterView,
    opstamp: Opstamp,
    generation: PublicationGeneration,
    entry: SegmentEntryView,
    doc: int,
)
    requires
        writer.updater.wf(),
        ({
            let id = entry.meta.segment_id;
            let registers = writer.updater.registers;
            ||| registers.committed.contains_key(id) && registers.committed[id] == entry
            ||| registers.uncommitted.contains_key(id) && registers.uncommitted[id] == entry
        }),
        0 <= doc < writer.updater.files[entry.meta.segment_id].documents.len(),
    ensures
        ({
            let id = entry.meta.segment_id;
            let files = writer.updater.files[id];
            let document = files.documents[doc];
            let deletes = writer.updater.deletes;
            let snapshot = writer.snapshot(opstamp, generation);
            &&& snapshot.contains_key(id) <==> writer.updater.registers.committed.contains_key(id)
                || (entry.generation matches Some(label) && label.0 <= generation.0)
            &&& snapshot.contains_key(id) ==> {
                &&& snapshot[id].documents == files.documents
                &&& snapshot[id].alive.len() == files.documents.len()
                &&& snapshot[id].alive[doc] <==> {
                    &&& files.alive[doc]
                    &&& entry.alive is Some ==> entry.alive->0[doc]
                    &&& forall|i: int|
                        entry.cursor.position <= i < deletes.len() && (
                        #[trigger] deletes[i]).opstamp <= opstamp && document.opstamp
                            < deletes[i].opstamp ==> !document.terms.contains(deletes[i].term)
                }
                &&& snapshot[id].alive[doc] ==> forall|i: int|
                    0 <= i < deletes.len() && (#[trigger] deletes[i]).opstamp <= opstamp
                        && document.opstamp < deletes[i].opstamp ==> !document.terms.contains(
                        deletes[i].term,
                    )
            }
        }),
{
    let id = entry.meta.segment_id;
    let updater = writer.updater;
    let files = updater.files[id];
    let document = files.documents[doc];
    let deletes = updater.deletes;
    let snapshot = writer.snapshot(opstamp, generation);
    if updater.registers.committed.contains_key(id) {
        assert(!updater.registers.uncommitted.contains_key(id)) by {
            assert(updater.registers.committed.dom().contains(id));
            assert(!updater.registers.uncommitted.dom().contains(id));
        }
    }
    assert(updater.entry_wf(entry));
    if snapshot.contains_key(id) {
        assert(updater.segments_through(generation)[id] == entry);
        segment_updater::law_segment_content(entry, files, deletes, opstamp, doc);
        if snapshot[id].alive[doc] {
            assert forall|i: int|
                0 <= i < deletes.len() && (#[trigger] deletes[i]).opstamp <= opstamp
                    && document.opstamp < deletes[i].opstamp implies !document.terms.contains(
                deletes[i].term,
            ) by {
                if i < entry.cursor.position && document.terms.contains(deletes[i].term) {
                    assert(deletes[i].kills(document));
                    assert(!segment_updater::standing(entry, files)[doc]);
                }
            }
        }
    }
}

/// A searcher sees no segment that is not registered.
pub proof fn law_snapshot_sees_registered_segments_only(
    writer: WriterView,
    opstamp: Opstamp,
    generation: PublicationGeneration,
    id: SegmentId,
)
    requires
        writer.snapshot(opstamp, generation).contains_key(id),
    ensures
        writer.updater.registers.committed.contains_key(id)
            || writer.updater.registers.uncommitted.contains_key(id),
{
}

} // verus!
