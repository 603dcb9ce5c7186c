//! The deletes of a writer, in the order in which they were issued.
use crate::schema::{StoredDocument, StoredDocumentView, Term, TermView};
use crate::segment_meta::Opstamp;
use vstd::prelude::*;

verus! {

/// Deletes the documents that are found by `term` and were added before.
#[derive(Debug)]
pub struct DeleteOperation {
    pub opstamp: Opstamp,
    pub term: Term,
}

/// What a [`DeleteOperation`] stands for.
#[verifier::ext_equal]
pub struct DeleteOperationView {
    pub opstamp: Opstamp,
    pub term: TermView,
}

impl View for DeleteOperation {
    type V = DeleteOperationView;

    open spec fn view(&self) -> DeleteOperationView {
        DeleteOperationView { opstamp: self.opstamp, term: self.term@ }
    }
}

impl DeleteOperationView {
    /// Whether the operation deletes the document.
    pub open spec fn kills(self, document: StoredDocumentView) -> bool {
        document.opstamp < self.opstamp && document.terms.contains(self.term)
    }
}

impl DeleteOperation {
    /// Whether the operation deletes the document.
    pub fn kills(&self, document: &StoredDocument) -> (killed: bool)
        ensures
            killed == self@.kills(document@),
    {
        document.opstamp < self.opstamp && document.has_term(&self.term)
    }
}

/// A position in the delete queue: how many of its operations lie behind.
#[derive(Clone, Copy, Debug, PartialEq, Eq, Structural)]
pub struct DeleteCursor {
    pub position: usize,
}

/// The deletes that were issued, oldest first.
#[derive(Debug)]
pub struct DeleteQueue {
    operations: Vec<DeleteOperation>,
}

impl View for DeleteQueue {
    type V = Seq<DeleteOperationView>;

    closed spec fn view(&self) -> Seq<DeleteOperationView> {
        self.operations@.map_values(|operation: DeleteOperation| operation@)
    }
}

/// Each operation was issued after the one before it.
pub open spec fn in_order(operations: Seq<DeleteOperationView>) -> bool {
    forall|i: int, j: int|
        0 <= i < j < operations.len() ==> (#[trigger] operations[i]).opstamp < (
        #[trigger] operations[j]).opstamp
}

/// The position behind the operations, from `from` on, that were issued through `opstamp`.
pub open spec fn reached(
    operations: Seq<DeleteOperationView>,
    from: int,
    opstamp: Opstamp,
) -> int
    decreases operations.len() - from,
{
    if 0 <= from < operations.len() && operations[from].opstamp <= opstamp {
        reached(operations, from + 1, opstamp)
    } else {
        from
    }
}

/// The position parts the operations issued through `opstamp` from the later ones.
pub proof fn lemma_reached(operations: Seq<DeleteOperationView>, from: int, opstamp: Opstamp)
    requires
        in_order(operations),
        0 <= from <= operations.len(),
    ensures
        from <= reached(operations, from, opstamp) <= operations.len(),
        forall|i: int|
            from <= i < reached(operations, from, opstamp) ==> (#[trigger] operations[i]).opstamp
                <= opstamp,
        forall|i: int|
            reached(operations, from, opstamp) <= i < operations.len() ==> (
            #[trigger] operations[i]).opstamp > opstamp,
    decreases operations.len() - from,
{
    if from < operations.len() && operations[from].opstamp <= opstamp {
        lemma_reached(operations, from + 1, opstamp);
    }
}

/// Some operation at `from` or behind it, issued through `opstamp`, deletes the document.
pub open spec fn killed_from(
    operations: Seq<DeleteOperationView>,
    from: int,
    opstamp: Opstamp,
    document: StoredDocumentView,
) -> bool {
    exists|i: int|
        from <= i < operations.len() && (#[trigger] operations[i]).opstamp <= opstamp
            && operations[i].kills(document)
}

impl Default for DeleteQueue {
    fn default() -> (queue: Self)
        ensures
            queue@ == Seq::<DeleteOperationView>::empty(),
    {
        let queue = DeleteQueue { operations: Vec::new() };
        assert(queue@ =~= Seq::<DeleteOperationView>::empty());
        queue
    }
}

impl DeleteQueue {
    /// The position behind all operations issued so far.
    pub fn cursor(&self) -> (cursor: DeleteCursor)
        ensures
            cursor.position == self@.len(),
    {
        DeleteCursor { position: self.operations.len() }
    }

    /// Appends an operation.
    pub fn push(&mut self, operation: DeleteOperation)
        ensures
            final(self)@ == old(self)@.push(operation@),
            final(self)@.len() <= usize::MAX,
    {
        self.operations.push(operation);
        assert(self@ =~= old(self)@.push(operation@));
        assert(self@.len() == self.operations.len());
    }

    /// The position behind the operations, from `cursor` on, that were issued through `opstamp`.
    pub fn skip_to(&self, cursor: DeleteCursor, opstamp: Opstamp) -> (skipped: DeleteCursor)
        requires
            cursor.position <= self@.len(),
        ensures
            skipped.position == reached(self@, cursor.position as int, opstamp),
            cursor.position <= skipped.position <= self@.len(),
    {
        let mut position: usize = cursor.position;
        while position < self.operations.len() && self.operations[position].opstamp <= opstamp
            invariant
                cursor.position <= position <= self.operations.len(),
                reached(self@, cursor.position as int, opstamp) == reached(
                    self@,
                    position as int,
                    opstamp,
                ),
            decreases self.operations.len() - position,
        {
            assert(self@[position as int] == self.operations@[position as int]@);
            position = position + 1;
        }
        if position < self.operations.len() {
            assert(self@[position as int] == self.operations@[position as int]@);
        }
        DeleteCursor { position }
    }

    /// Whether an operation between the two positions deletes the document.
    pub fn kills_between(
        &self,
        from: DeleteCursor,
        to: DeleteCursor,
        document: &StoredDocument,
    ) -> (killed: bool)
        requires
            from.position <= to.position <= self@.len(),
        ensures
            killed == exists|i: int|
                from.position <= i < to.position && (#[trigger] self@[i]).kills(document@),
    {
        let mut position: usize = from.position;
        while position < to.position
            invariant
                from.position <= position <= to.position <= self@.len(),
                forall|i: int|
                    from.position <= i < position ==> !(#[trigger] self@[i]).kills(document@),
            decreases to.position - position,
        {
            assert(self@[position as int] == self.operations@[position as int]@);
            if self.operations[position].kills(document) {
                return true;
            }
            position = position + 1;
        }
        false
    }
}

/// A delete concerns just the documents that were added before it and hold its term, at whatever
/// place among their terms.
pub proof fn law_delete_concerns_earlier_documents_with_its_term(
    operation: DeleteOperationView,
    document: StoredDocumentView,
)
    ensures
        operation.kills(document) <==> document.opstamp < operation.opstamp && exists|place: int|
            0 <= place < document.terms.len() && #[trigger] document.terms[place]
                == operation.term,
{
}

/// A document is dead by the operations at `from` and behind it, through `opstamp`, just if one of
/// those was issued after the document was added and names one of its terms.
pub proof fn law_document_dies_by_a_later_delete(
    operations: Seq<DeleteOperationView>,
    from: int,
    opstamp: Opstamp,
    document: StoredDocumentView,
)
    ensures
        killed_from(operations, from, opstamp, document) <==> exists|i: int, place: int|
            from <= i < operations.len() && (#[trigger] operations[i]).opstamp <= opstamp
                && document.opstamp < operations[i].opstamp && 0 <= place < document.terms.len()
                && (#[trigger] document.terms[place]) == operations[i].term,
{
    if killed_from(operations, from, opstamp, document) {
        let i = choose|i: int|
            from <= i < operations.len() && (#[trigger] operations[i]).opstamp <= opstamp
                && operations[i].kills(document);
        let place = choose|place: int|
            0 <= place < document.terms.len() && #[trigger] document.terms[place]
                == operations[i].term;
        assert(operations[i].opstamp <= opstamp && document.terms[place] == operations[i].term);
    }
    if exists|i: int, place: int|
        from <= i < operations.len() && (#[trigger] operations[i]).opstamp <= opstamp
            && document.opstamp < operations[i].opstamp && 0 <= place < document.terms.len() && (
        #[trigger] document.terms[place]) == operations[i].term {
        let (i, place) = choose|i: int, place: int|
            from <= i < operations.len() && (#[trigger] operations[i]).opstamp <= opstamp
                && document.opstamp < operations[i].opstamp && 0 <= place < document.terms.len()
                && (#[trigger] document.terms[place]) == operations[i].term;
        assert(document.terms.contains(operations[i].term));
        assert(operations[i].kills(document));
    }
}

/// The queue is walked up to the first operation behind `opstamp`: all before that place were
/// issued through `opstamp`, all from there on behind it.
pub proof fn law_queue_is_walked_through_opstamp(
    operations: Seq<DeleteOperationView>,
    from: int,
    opstamp: Opstamp,
)
    requires
        forall|i: int, j: int|
            0 <= i < j < operations.len() ==> (#[trigger] operations[i]).opstamp < (
            #[trigger] operations[j]).opstamp,
        0 <= from <= operations.len(),
    ensures
        from <= reached(operations, from, opstamp) <= operations.len(),
        forall|i: int|
            from <= i < operations.len() ==> ((#[trigger] operations[i]).opstamp <= opstamp <==> i
                < reached(operations, from, opstamp)),
{
    lemma_reached(operations, from, opstamp);
}

} // verus!
