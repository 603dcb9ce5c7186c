use std::sync::Arc;

use tantivy_indexer::bit_set::BitSet;
use tantivy_indexer::error::TantivyError;
use tantivy_indexer::index::{Index, IndexMeta};
use tantivy_indexer::index_writer::IndexWriter;
use tantivy_indexer::reader::{IndexReader, SegmentReader};
use tantivy_indexer::schema::{StoredDocument, TantivyDocument, Term};
use tantivy_indexer::segment_meta::{Opstamp, SegmentId, SegmentMeta};

fn word() -> Term {
    Term::from_field_text("title", "a")
}

fn document() -> TantivyDocument {
    let mut document = TantivyDocument::new();
    document.add_text("title", "a");
    document
}

fn index_with_segment(segment_id: SegmentId, opstamp: Opstamp) -> Index {
    let documents = vec![
        StoredDocument { opstamp: 0, terms: vec![word()] },
        StoredDocument { opstamp: 1, terms: vec![word()] },
    ];
    let segment = SegmentReader {
        segment_id,
        documents: Arc::new(documents),
        alive: BitSet::from_flags(vec![true, false]),
    };
    let meta = IndexMeta {
        segments: vec![SegmentMeta::new(segment_id, 2).with_delete_meta(1, opstamp)],
        opstamp,
        payload: Some("loaded".to_string()),
    };
    Index::new(meta, vec![segment])
}

fn message(error: TantivyError) -> String {
    match error {
        TantivyError::SystemError(text) => text,
        TantivyError::InvalidArgument(text) => panic!("unexpected argument error {text}"),
    }
}

#[test]
fn an_index_can_be_loaded() {
    let index = index_with_segment(7, 5);
    assert_eq!(index.open_searcher().count(&word()), 1);
    let mut writer: IndexWriter = IndexWriter::new(index).unwrap();
    assert_eq!(writer.add_document(document()).unwrap(), 5);
    writer.commit().unwrap();
    let meta = writer.index().load_metas();
    let ids: Vec<SegmentId> = meta.segments.iter().map(|meta| meta.id()).collect();
    assert_eq!(ids, vec![7, 8]);
    assert_eq!(meta.payload, None);
    assert_eq!(writer.index().open_searcher().count(&word()), 2);
}

#[test]
fn operations_fail_once_the_opstamps_are_used_up() {
    let index = index_with_segment(7, u64::MAX);
    let mut writer: IndexWriter = IndexWriter::new(index).unwrap();
    let expected = "No opstamp is left";
    assert_eq!(message(writer.add_document(document()).unwrap_err()), expected);
    assert_eq!(message(writer.delete_term(word()).unwrap_err()), expected);
    assert_eq!(message(writer.add_unlabeled(document()).unwrap_err()), expected);
    assert_eq!(message(writer.commit().unwrap_err()), expected);
    assert_eq!(writer.rollback().unwrap(), u64::MAX);
}

#[test]
fn the_last_opstamp_can_be_used() {
    let index = index_with_segment(7, u64::MAX - 1);
    let mut writer: IndexWriter = IndexWriter::new(index).unwrap();
    assert_eq!(writer.delete_term(word()).unwrap(), u64::MAX - 1);
    assert!(writer.commit().is_err());
}

#[test]
fn no_writer_starts_without_a_segment_id() {
    let result: Result<IndexWriter, TantivyError> =
        IndexWriter::new(index_with_segment(u128::MAX, 5));
    assert_eq!(message(result.unwrap_err()), "No room is left for the segment");
}

#[test]
fn documents_stay_buffered_without_a_segment_id() {
    let mut writer: IndexWriter =
        IndexWriter::new(index_with_segment(u128::MAX - 1, 5)).unwrap();
    let expected = "No room is left for the segment";
    assert_eq!(message(writer.add_unlabeled(document()).unwrap_err()), expected);
    writer.add_document(document()).unwrap();
    assert_eq!(message(writer.commit().unwrap_err()), expected);
    assert_eq!(writer.rollback().unwrap(), 5);
    writer.delete_term(word()).unwrap();
    writer.commit().unwrap();
    assert_eq!(writer.index().load_metas().segments.len(), 0);
}

#[test]
fn a_reader_stays_at_its_commit_until_it_is_reloaded() {
    let mut writer: IndexWriter = IndexWriter::new(index_with_segment(7, 5)).unwrap();
    let mut reader = IndexReader::open(writer.index());
    writer.delete_term(word()).unwrap();
    writer.commit().unwrap();
    let held = reader.searcher();
    assert_eq!(held.count(&word()), 1);
    reader.reload(writer.index());
    assert_eq!(reader.searcher().count(&word()), 0);
    assert_eq!(held.count(&word()), 1);
}
