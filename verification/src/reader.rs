//! Reading an index: its segments, and searchers over them.
use crate::bit_set::BitSet;
use crate::error::Result;
use crate::index::Index;
use crate::schema::{self, StoredDocument, StoredDocumentView, Term, TermView};
use crate::segment_meta::{Opstamp, SegmentId};
use std::sync::Arc;
use vstd::prelude::*;

verus! {

/// The documents of a segment, and which of them are alive.
#[verifier::ext_equal]
pub struct SegmentContent {
    pub documents: Seq<StoredDocumentView>,
    pub alive: Seq<bool>,
}

impl SegmentContent {
    /// There is a flag for every document.
    pub open spec fn wf(self) -> bool {
        self.alive.len() == self.documents.len()
    }

    /// Whether the document at `doc` is there and alive.
    pub open spec fn has_alive(self, doc: int) -> bool {
        &&& 0 <= doc < self.documents.len()
        &&& doc < self.alive.len()
        &&& self.alive[doc]
    }
}

/// What a group of segments holds, by segment.
pub type Contents = Map<SegmentId, SegmentContent>;

/// Names a document: its segment, and its place there.
pub type DocAddress = (SegmentId, int);

/// The documents that are alive.
pub open spec fn alive_documents(contents: Contents) -> Set<DocAddress> {
    Set::new(
        |address: DocAddress|
            contents.contains_key(address.0) && contents[address.0].has_alive(address.1),
    )
}

/// The documents that are alive and found by `term`.
pub open spec fn matching(contents: Contents, term: TermView) -> Set<DocAddress> {
    Set::new(
        |address: DocAddress|
            alive_documents(contents).contains(address)
                && contents[address.0].documents[address.1].terms.contains(term),
    )
}

/// Every document was added before `opstamp`.
pub open spec fn stamped_before(contents: Contents, opstamp: Opstamp) -> bool {
    forall|id: SegmentId, doc: int|
        contents.contains_key(id) && 0 <= doc < contents[id].documents.len() ==> (
        #[trigger] contents[id].documents[doc]).opstamp < opstamp
}

/// An open segment.
#[derive(Debug)]
pub struct SegmentReader {
    pub segment_id: SegmentId,
    pub documents: Arc<Vec<StoredDocument>>,
    pub alive: BitSet,
}

impl View for SegmentReader {
    type V = SegmentContent;

    open spec fn view(&self) -> SegmentContent {
        SegmentContent { documents: schema::document_views(self.documents@), alive: self.alive@ }
    }
}

impl Clone for SegmentReader {
    fn clone(&self) -> (copy: Self)
        ensures
            copy.segment_id == self.segment_id,
            copy@ == self@,
    {
        SegmentReader {
            segment_id: self.segment_id,
            documents: self.documents.clone(),
            alive: self.alive.clone(),
        }
    }
}

impl SegmentReader {
    /// Whether the document at `doc` is there, alive and found by `term`.
    fn matches(&self, doc: usize, term: &Term) -> (found: bool)
        requires
            doc < self.documents@.len(),
        ensures
            found == (self@.has_alive(doc as int) && self@.documents[doc as int].terms.contains(
                term@,
            )),
    {
        self.alive.contains(doc) && self.documents[doc].has_term(term)
    }
}

/// No two of the segments share an id.
pub open spec fn distinct(readers: Seq<SegmentReader>) -> bool {
    forall|i: int, j: int|
        0 <= i < j < readers.len() ==> (#[trigger] readers[i]).segment_id != (
        #[trigger] readers[j]).segment_id
}

/// What the segments hold, by segment.
pub open spec fn contents_of(readers: Seq<SegmentReader>) -> Contents
    decreases readers.len(),
{
    if readers.len() == 0 {
        Map::empty()
    } else {
        contents_of(readers.drop_last()).insert(readers.last().segment_id, readers.last()@)
    }
}

/// Distinct segments are found under their ids, and nothing else is.
pub proof fn lemma_contents(readers: Seq<SegmentReader>)
    requires
        distinct(readers),
    ensures
        forall|i: int|
            0 <= i < readers.len() ==> contents_of(readers).contains_key(
                (#[trigger] readers[i]).segment_id,
            ) && contents_of(readers)[readers[i].segment_id] == readers[i]@,
        forall|id: SegmentId| #[trigger]
            contents_of(readers).contains_key(id) ==> exists|i: int|
                0 <= i < readers.len() && (#[trigger] readers[i]).segment_id == id,
    decreases readers.len(),
{
    if readers.len() > 0 {
        let rest = readers.drop_last();
        lemma_contents(rest);
        assert forall|i: int| 0 <= i < readers.len() implies contents_of(readers).contains_key(
            (#[trigger] readers[i]).segment_id,
        ) && contents_of(readers)[readers[i].segment_id] == readers[i]@ by {
            if i < rest.len() {
                assert(rest[i] == readers[i]);
                assert(readers[i].segment_id != readers[readers.len() - 1].segment_id);
            }
        }
        assert forall|id: SegmentId| #[trigger] contents_of(readers).contains_key(
            id,
        ) implies exists|i: int|
            0 <= i < readers.len() && (#[trigger] readers[i]).segment_id == id by {
            if id == readers.last().segment_id {
                assert(readers[readers.len() - 1].segment_id == id);
            } else {
                assert(contents_of(rest).contains_key(id));
                let i = choose|i: int| 0 <= i < rest.len() && (#[trigger] rest[i]).segment_id == id;
                assert(readers[i].segment_id == id);
            }
        }
    }
}

/// Copies a list of segments.
pub fn copy_readers(readers: &Vec<SegmentReader>) -> (copy: Vec<SegmentReader>)
    ensures
        contents_of(copy@) == contents_of(readers@),
        distinct(readers@) ==> distinct(copy@),
{
    let mut copy: Vec<SegmentReader> = Vec::new();
    let mut i: usize = 0;
    assert(readers@.take(0) =~= Seq::<SegmentReader>::empty());
    while i < readers.len()
        invariant
            i <= readers.len(),
            copy@.len() == i,
            forall|j: int|
                0 <= j < i ==> (#[trigger] copy@[j]).segment_id == readers@[j].segment_id,
            contents_of(copy@) == contents_of(readers@.take(i as int)),
        decreases readers.len() - i,
    {
        let ghost before = copy@;
        copy.push(readers[i].clone());
        proof {
            assert(copy@.drop_last() =~= before);
            assert(readers@.take(i + 1).drop_last() =~= readers@.take(i as int));
        }
        i = i + 1;
    }
    assert(readers@.take(i as int) =~= readers@);
    copy
}

/// An immutable view of an index, fixed when it was opened.
#[derive(Debug)]
pub struct Searcher {
    segment_readers: Vec<SegmentReader>,
}

impl View for Searcher {
    type V = Contents;

    closed spec fn view(&self) -> Contents {
        contents_of(self.segment_readers@)
    }
}

impl Clone for Searcher {
    fn clone(&self) -> (copy: Self)
        ensures
            copy@ == self@,
    {
        proof {
            use_type_invariant(self);
        }
        Searcher { segment_readers: copy_readers(&self.segment_readers) }
    }
}

impl Searcher {
    #[verifier::type_invariant]
    spec fn inv(self) -> bool {
        distinct(self.segment_readers@)
    }

    /// Searches the given segments.
    pub fn new(segment_readers: Vec<SegmentReader>) -> (searcher: Searcher)
        requires
            distinct(segment_readers@),
        ensures
            searcher@ == contents_of(segment_readers@),
    {
        Searcher { segment_readers }
    }

    /// How many documents are alive and found by `term`.
    pub fn count(&self, term: &Term) -> (count: u128)
        ensures
            count == matching(self@, term@).len(),
            matching(self@, term@).finite(),
    {
        proof {
            use_type_invariant(self);
        }
        let ghost readers = self.segment_readers@;
        let mut count: u128 = 0;
        let mut ord: usize = 0;
        proof {
            lemma_contents(readers);
            assert(matching_before(readers, 0, term@) =~= Set::empty());
        }
        while ord < self.segment_readers.len()
            invariant
                ord <= self.segment_readers.len(),
                readers == self.segment_readers@,
                distinct(readers),
                count == matching_before(readers, ord as int, term@).len(),
                matching_before(readers, ord as int, term@).finite(),
                count <= ord * usize::MAX,
            decreases self.segment_readers.len() - ord,
        {
            let reader = &self.segment_readers[ord];
            let ghost before = matching_before(readers, ord as int, term@);
            let ghost mut found: Set<DocAddress> = Set::empty();
            let start: u128 = count;
            let mut doc: usize = 0;
            assert(before + found =~= before);
            while doc < reader.documents.len()
                invariant
                    doc <= reader.documents@.len(),
                    ord < readers.len(),
                    distinct(readers),
                    reader == readers[ord as int],
                    before == matching_before(readers, ord as int, term@),
                    before.finite(),
                    found == matching_in(*reader, doc as int, term@),
                    found.finite(),
                    (before + found).finite(),
                    count == (before + found).len(),
                    count <= start + doc,
                    start <= ord * usize::MAX,
                decreases reader.documents.len() - doc,
            {
                let ghost address: DocAddress = (reader.segment_id, doc as int);
                let ghost more = matching_in(*reader, doc + 1, term@);
                assert(ord * usize::MAX <= usize::MAX * usize::MAX) by (nonlinear_arith)
                    requires
                        ord <= usize::MAX,
                ;
                assert(usize::MAX * usize::MAX + usize::MAX < u128::MAX) by (nonlinear_arith)
                    requires
                        usize::MAX <= 0xffff_ffff_ffff_ffff,
                ;
                if reader.matches(doc, term) {
                    count = count + 1;
                    proof {
                        assert(more =~= found.insert(address));
                        assert(!(before + found).contains(address));
                        assert(before + more =~= (before + found).insert(address));
                    }
                } else {
                    assert(more =~= found);
                }
                proof {
                    found = more;
                }
                doc = doc + 1;
            }
            proof {
                assert(before + found =~= matching_before(readers, ord + 1, term@));
                assert((ord + 1) * usize::MAX == ord * usize::MAX + usize::MAX)
                    by (nonlinear_arith);
            }
            ord = ord + 1;
        }
        proof {
            assert(matching_before(readers, ord as int, term@) =~= matching(self@, term@)) by {
                assert forall|address: DocAddress| matching(self@, term@).contains(
                    address,
                ) implies matching_before(readers, ord as int, term@).contains(address) by {
                    let i = choose|i: int|
                        0 <= i < readers.len() && (#[trigger] readers[i]).segment_id == address.0;
                    assert(matching_in(
                        readers[i],
                        readers[i].documents@.len() as int,
                        term@,
                    ).contains(address));
                }
            }
        }
        count
    }
}

/// The documents before `doc` of a segment that are alive and found by `term`.
spec fn matching_in(reader: SegmentReader, doc: int, term: TermView) -> Set<DocAddress> {
    Set::new(
        |address: DocAddress|
            address.0 == reader.segment_id && address.1 < doc && reader@.has_alive(address.1)
                && reader@.documents[address.1].terms.contains(term),
    )
}

/// The documents of the segments before `ord` that are alive and found by `term`.
spec fn matching_before(readers: Seq<SegmentReader>, ord: int, term: TermView) -> Set<DocAddress> {
    Set::new(
        |address: DocAddress|
            exists|i: int|
                0 <= i < ord && i < readers.len() && #[trigger] matching_in(
                    readers[i],
                    readers[i].documents@.len() as int,
                    term,
                ).contains(address),
    )
}

/// Gives out searchers over the last durable commit it was told of.
#[derive(Debug)]
pub struct IndexReader {
    current: Searcher,
}

impl View for IndexReader {
    type V = Contents;

    closed spec fn view(&self) -> Contents {
        self.current@
    }
}

impl IndexReader {
    /// Reads the last durable commit of an index.
    pub fn open(index: &Index) -> (reader: IndexReader)
        ensures
            reader@ == index@.contents,
    {
        IndexReader { current: index.open_searcher() }
    }

    /// Moves on to the last durable commit of an index. Searchers given out before stay as they
    /// are.
    pub fn reload(&mut self, index: &Index)
        ensures
            final(self)@ == index@.contents,
    {
        self.current = index.open_searcher();
    }

    /// A searcher over the commit the reader is at.
    pub fn searcher(&self) -> (searcher: Searcher)
        ensures
            searcher@ == self@,
    {
        self.current.clone()
    }

    /// A searcher over the given segments. The commit the reader is at plays no part in it.
    pub fn searcher_for_segment_readers(&self, segment_readers: Vec<SegmentReader>) -> (searcher:
        Result<Searcher>)
        requires
            distinct(segment_readers@),
        ensures
            searcher matches Ok(searcher) && searcher@ == contents_of(segment_readers@),
    {
        Ok(Searcher::new(segment_readers))
    }
}

/// A search finds just the documents of its segments that are alive and hold the term, at whatever
/// place among their terms.
pub proof fn law_search_finds_living_documents_with_the_term(
    contents: Contents,
    term: TermView,
    id: SegmentId,
    doc: int,
)
    ensures
        alive_documents(contents).contains((id, doc)) <==> contents.contains_key(id) && 0 <= doc
            < contents[id].documents.len() && doc < contents[id].alive.len()
            && contents[id].alive[doc],
        matching(contents, term).contains((id, doc)) <==> contents.contains_key(id) && 0 <= doc
            < contents[id].documents.len() && doc < contents[id].alive.len()
            && contents[id].alive[doc] && exists|place: int|
            0 <= place < contents[id].documents[doc].terms.len() && (
            #[trigger] contents[id].documents[doc].terms[place]) == term,
{
}

/// What a group of segments with ids of their own holds: each under its id, with its documents in
/// their order and its flags, and nothing else.
pub proof fn law_contents_are_those_of_the_segments(readers: Seq<SegmentReader>, id: SegmentId)
    requires
        forall|i: int, j: int|
            0 <= i < j < readers.len() ==> (#[trigger] readers[i]).segment_id != (
            #[trigger] readers[j]).segment_id,
    ensures
        contents_of(readers).contains_key(id) <==> exists|i: int|
            0 <= i < readers.len() && (#[trigger] readers[i]).segment_id == id,
        forall|i: int|
            0 <= i < readers.len() && (#[trigger] readers[i]).segment_id == id ==> {
                let content = contents_of(readers)[id];
                &&& content.alive == readers[i].alive@
                &&& content.documents.len() == readers[i].documents@.len()
                &&& forall|doc: int|
                    0 <= doc < content.documents.len() ==> (#[trigger] content.documents[doc])
                        == readers[i].documents@[doc]@
            },
{
    lemma_contents(readers);
}

} // verus!
