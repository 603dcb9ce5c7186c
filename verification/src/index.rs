//! The durable state of an index.
use crate::bit_set;
use crate::reader::{self, Contents, Searcher, SegmentReader};
use crate::segment_meta::{Opstamp, SegmentId, SegmentMeta};
use vstd::prelude::*;

verus! {

/// The metadata of the last durable commit.
#[derive(Debug)]
pub struct IndexMeta {
    /// The segments of the index.
    pub segments: Vec<SegmentMeta>,
    /// The operation through which the index is complete.
    pub opstamp: Opstamp,
    /// What the writer attached to the commit.
    pub payload: Option<String>,
}

/// The text of an optional payload.
pub open spec fn payload_view(payload: Option<String>) -> Option<Seq<char>> {
    match payload {
        Some(payload) => Some(payload@),
        None => None,
    }
}

/// The last durable commit: its metadata, and the segments it lists.
#[derive(Debug)]
pub struct Index {
    meta: IndexMeta,
    segments: Vec<SegmentReader>,
}

/// What the last durable commit of an [`Index`] is.
#[verifier::ext_equal]
pub struct IndexView {
    /// The metadata of the segments, by increasing id.
    pub metas: Seq<SegmentMeta>,
    /// The operation through which the index is complete.
    pub opstamp: Opstamp,
    /// What the writer attached to the commit.
    pub payload: Option<Seq<char>>,
    /// What the segments hold.
    pub contents: Contents,
}

impl View for Index {
    type V = IndexView;

    closed spec fn view(&self) -> IndexView {
        IndexView {
            metas: self.meta.segments@,
            opstamp: self.meta.opstamp,
            payload: payload_view(self.meta.payload),
            contents: reader::contents_of(self.segments@),
        }
    }
}

/// The metadata counts the documents of its segment, and those alive, as they are.
pub open spec fn describes(meta: SegmentMeta, contents: Contents) -> bool {
    let content = contents[meta.segment_id];
    &&& contents.contains_key(meta.segment_id)
    &&& content.wf()
    &&& meta.wf()
    &&& meta.max_doc == content.documents.len()
    &&& meta.alive() == bit_set::count_set(content.alive)
}

impl IndexView {
    /// The index before its first commit.
    pub open spec fn empty() -> IndexView {
        IndexView { metas: Seq::empty(), opstamp: 0, payload: None, contents: Map::empty() }
    }

    /// The metadata describes the segments, and describes no other. Every document was added
    /// before the commit.
    pub open spec fn wf(self) -> bool {
        &&& forall|i: int|
            0 <= i < self.metas.len() ==> describes(#[trigger] self.metas[i], self.contents)
        &&& forall|i: int, j: int|
            0 <= i < j < self.metas.len() ==> (#[trigger] self.metas[i]).segment_id != (
            #[trigger] self.metas[j]).segment_id
        &&& forall|id: SegmentId| #[trigger]
            self.contents.contains_key(id) ==> exists|i: int|
                0 <= i < self.metas.len() && (#[trigger] self.metas[i]).segment_id == id
        &&& reader::stamped_before(self.contents, self.opstamp)
    }
}

impl Clone for IndexMeta {
    fn clone(&self) -> (copy: Self)
        ensures
            copy.segments@ == self.segments@,
            copy.opstamp == self.opstamp,
            payload_view(copy.payload) == payload_view(self.payload),
    {
        let segments = self.segments.clone();
        assert(segments@ =~= self.segments@);
        let payload = match &self.payload {
            Some(payload) => Some(payload.clone()),
            None => None,
        };
        IndexMeta { segments, opstamp: self.opstamp, payload }
    }
}

impl Clone for Index {
    fn clone(&self) -> (copy: Self)
        ensures
            copy@ == self@,
    {
        proof {
            use_type_invariant(self);
        }
        Index { meta: self.meta.clone(), segments: reader::copy_readers(&self.segments) }
    }
}

impl Index {
    #[verifier::type_invariant]
    spec fn inv(self) -> bool {
        reader::distinct(self.segments@) && self@.wf()
    }

    /// An index that holds nothing.
    pub fn create_in_ram() -> (index: Index)
        ensures
            index@ == IndexView::empty(),
    {
        assert(reader::contents_of(Seq::<SegmentReader>::empty()) == Contents::empty());
        let index = Index {
            meta: IndexMeta { segments: Vec::new(), opstamp: 0, payload: None },
            segments: Vec::new(),
        };
        assert(index@ =~= IndexView::empty());
        index
    }

    /// An index whose last durable commit is the given one.
    pub fn new(meta: IndexMeta, segments: Vec<SegmentReader>) -> (index: Index)
        requires
            reader::distinct(segments@),
            (IndexView {
                metas: meta.segments@,
                opstamp: meta.opstamp,
                payload: payload_view(meta.payload),
                contents: reader::contents_of(segments@),
            }).wf(),
        ensures
            index@ == (IndexView {
                metas: meta.segments@,
                opstamp: meta.opstamp,
                payload: payload_view(meta.payload),
                contents: reader::contents_of(segments@),
            }),
    {
        Index { meta, segments }
    }

    /// The metadata of the last durable commit.
    pub fn load_metas(&self) -> (meta: &IndexMeta)
        ensures
            meta.segments@ == self@.metas,
            meta.opstamp == self@.opstamp,
            payload_view(meta.payload) == self@.payload,
            self@.wf(),
    {
        proof {
            use_type_invariant(self);
        }
        &self.meta
    }

    /// The segments of the last durable commit.
    pub fn segment_readers(&self) -> (readers: Vec<SegmentReader>)
        ensures
            reader::distinct(readers@),
            reader::contents_of(readers@) == self@.contents,
    {
        proof {
            use_type_invariant(self);
        }
        reader::copy_readers(&self.segments)
    }

    /// A searcher over the last durable commit.
    pub fn open_searcher(&self) -> (searcher: Searcher)
        ensures
            searcher@ == self@.contents,
    {
        Searcher::new(self.segment_readers())
    }
}

/// A payload is kept as its text.
pub proof fn law_payload_is_its_text(text: String)
    ensures
        payload_view(Some(text)) == Some(text@),
        payload_view(None) is None,
{
}

} // verus!
