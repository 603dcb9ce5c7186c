//! Terms and documents.
use crate::segment_meta::Opstamp;
use vstd::prelude::*;

verus! {

/// A word of a field: what is searched for, and what a document is found by.
#[derive(Debug)]
pub struct Term {
    pub field: String,
    pub text: String,
}

/// What a [`Term`] stands for.
#[verifier::ext_equal]
pub struct TermView {
    pub field: Seq<char>,
    pub text: Seq<char>,
}

impl View for Term {
    type V = TermView;

    open spec fn view(&self) -> TermView {
        TermView { field: self.field@, text: self.text@ }
    }
}

impl Clone for Term {
    fn clone(&self) -> (copy: Self)
        ensures
            copy@ == self@,
    {
        Term { field: self.field.clone(), text: self.text.clone() }
    }
}

impl Term {
    /// The word `text` of the field named `field`.
    pub fn from_field_text(field: &str, text: &str) -> (term: Term)
        ensures
            term@ == (TermView { field: field@, text: text@ }),
    {
        Term { field: field.to_string(), text: text.to_string() }
    }

    /// Whether this is the same word of the same field.
    pub fn same(&self, other: &Term) -> (same: bool)
        ensures
            same == (self@ == other@),
    {
        self.field == other.field && self.text == other.text
    }
}

/// What each of the terms stands for.
pub open spec fn term_views(terms: Seq<Term>) -> Seq<TermView> {
    terms.map_values(|term: Term| term@)
}

/// What can be indexed: anything that is found by a list of terms.
pub trait Document {
    /// The terms the document is found by.
    spec fn indexed_terms(&self) -> Seq<TermView>;

    /// Lists the terms the document is found by.
    fn terms(&self) -> (terms: Vec<Term>)
        ensures
            term_views(terms@) == self.indexed_terms(),
    ;
}

/// A document that is found by the words that were added to it.
#[derive(Debug)]
pub struct TantivyDocument {
    words: Vec<Term>,
}

impl View for TantivyDocument {
    type V = Seq<TermView>;

    closed spec fn view(&self) -> Seq<TermView> {
        term_views(self.words@)
    }
}

/// Copies a list of terms.
fn copy_terms(terms: &Vec<Term>) -> (copy: Vec<Term>)
    ensures
        term_views(copy@) == term_views(terms@),
{
    let mut copy: Vec<Term> = Vec::new();
    let mut i: usize = 0;
    while i < terms.len()
        invariant
            i <= terms.len(),
            copy@.len() == i,
            forall|j: int| 0 <= j < i ==> (#[trigger] copy@[j])@ == terms@[j]@,
        decreases terms.len() - i,
    {
        copy.push(terms[i].clone());
        i = i + 1;
    }
    assert(term_views(copy@) =~= term_views(terms@));
    copy
}

impl Document for TantivyDocument {
    open spec fn indexed_terms(&self) -> Seq<TermView> {
        self@
    }

    fn terms(&self) -> (terms: Vec<Term>) {
        copy_terms(&self.words)
    }
}

impl TantivyDocument {
    /// A document without words.
    pub fn new() -> (document: TantivyDocument)
        ensures
            document@ == Seq::<TermView>::empty(),
    {
        let document = TantivyDocument { words: Vec::new() };
        assert(document@ =~= Seq::<TermView>::empty());
        document
    }

    /// Adds the word `text` to the field named `field`.
    pub fn add_text(&mut self, field: &str, text: &str)
        ensures
            final(self)@ == old(self)@.push(TermView { field: field@, text: text@ }),
    {
        self.words.push(Term::from_field_text(field, text));
        assert(self@ =~= old(self)@.push(TermView { field: field@, text: text@ }));
    }
}

/// A document of a segment, with the operation that added it.
#[derive(Debug)]
pub struct StoredDocument {
    pub opstamp: Opstamp,
    pub terms: Vec<Term>,
}

/// What a [`StoredDocument`] stands for.
#[verifier::ext_equal]
pub struct StoredDocumentView {
    pub opstamp: Opstamp,
    pub terms: Seq<TermView>,
}

impl View for StoredDocument {
    type V = StoredDocumentView;

    open spec fn view(&self) -> StoredDocumentView {
        StoredDocumentView { opstamp: self.opstamp, terms: term_views(self.terms@) }
    }
}

impl StoredDocument {
    /// Whether the document is found by `term`.
    pub fn has_term(&self, term: &Term) -> (found: bool)
        ensures
            found == self@.terms.contains(term@),
    {
        let mut i: usize = 0;
        while i < self.terms.len()
            invariant
                i <= self.terms.len(),
                forall|j: int| 0 <= j < i ==> (#[trigger] self@.terms[j]) != term@,
            decreases self.terms.len() - i,
        {
            assert(self@.terms[i as int] == self.terms@[i as int]@);
            if self.terms[i].same(term) {
                return true;
            }
            i = i + 1;
        }
        false
    }
}

/// What each of the documents stands for.
pub open spec fn document_views(documents: Seq<StoredDocument>) -> Seq<StoredDocumentView> {
    documents.map_values(|document: StoredDocument| document@)
}

/// What lists of terms and of documents stand for is what each member stands for, in the same
/// order; of a document, its opstamp and its terms.
pub proof fn law_lists_keep_their_order(terms: Seq<Term>, documents: Seq<StoredDocument>)
    ensures
        term_views(terms).len() == terms.len(),
        forall|i: int|
            0 <= i < terms.len() ==> (#[trigger] term_views(terms)[i]).field == terms[i].field@
                && term_views(terms)[i].text == terms[i].text@,
        document_views(documents).len() == documents.len(),
        forall|i: int|
            0 <= i < documents.len() ==> (#[trigger] document_views(documents)[i]).opstamp
                == documents[i].opstamp && document_views(documents)[i].terms == term_views(
                documents[i].terms@,
            ),
{
}

} // verus!
