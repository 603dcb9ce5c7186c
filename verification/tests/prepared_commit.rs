use std::time::Duration;

use tantivy_indexer::error::{Result, TantivyError};
use tantivy_indexer::index::Index;
use tantivy_indexer::index_writer::IndexWriter;
use tantivy_indexer::prepared_commit::{CommitStats, PreparedCommit};
use tantivy_indexer::reader::{IndexReader, Searcher};
use tantivy_indexer::schema::{TantivyDocument, Term};
use tantivy_indexer::segment_entry::PublicationGeneration;

fn doc(field: &str, text: &str) -> TantivyDocument {
    let mut document = TantivyDocument::new();
    document.add_text(field, text);
    document
}

fn term(text: &str) -> Term {
    Term::from_field_text("title", text)
}

fn title(text: &str) -> TantivyDocument {
    doc("title", text)
}

fn writer() -> IndexWriter {
    IndexWriter::new(Index::create_in_ram()).unwrap()
}

fn durable(writer: &IndexWriter) -> Searcher {
    writer.index().open_searcher()
}

fn text_of(error: TantivyError) -> String {
    error.to_string()
}

#[test]
fn open_searcher_applies_replacement_before_durable_commit() -> Result<()> {
    let title = "title";
    let index = Index::create_in_ram();
    let mut writer: IndexWriter = IndexWriter::new(index)?;

    writer.add_document(doc(title, "before"))?;
    writer.commit()?;

    let mut reader = IndexReader::open(writer.index());

    writer.delete_term(Term::from_field_text(title, "before"))?;
    writer.add_document(doc(title, "after"))?;

    let prepared_commit = writer.prepare_commit()?;
    let prepared_searcher = prepared_commit.open_searcher(&reader)?;

    let before_query = Term::from_field_text(title, "before");
    let after_query = Term::from_field_text(title, "after");

    assert_eq!(prepared_searcher.count(&before_query), 0);
    assert_eq!(prepared_searcher.count(&after_query), 1);
    assert_eq!(reader.searcher().count(&before_query), 1);
    assert_eq!(reader.searcher().count(&after_query), 0);

    prepared_commit.commit()?;
    reader.reload(writer.index());
    assert_eq!(reader.searcher().count(&before_query), 0);
    assert_eq!(reader.searcher().count(&after_query), 1);

    Ok(())
}

#[test]
fn prepared_searcher_is_what_becomes_durable() -> Result<()> {
    let mut writer = writer();
    for text in ["a", "b", "a", "c"] {
        writer.add_document(title(text))?;
    }
    writer.delete_term(term("b"))?;
    writer.add_document(title("b"))?;
    let reader = IndexReader::open(writer.index());
    let prepared = writer.prepare_commit()?;
    let searcher = prepared.open_searcher(&reader)?;
    prepared.commit()?;
    for (text, count) in [("a", 2), ("b", 1), ("c", 1), ("d", 0)] {
        assert_eq!(searcher.count(&term(text)), count);
        assert_eq!(durable(&writer).count(&term(text)), count);
    }
    Ok(())
}

#[test]
fn a_delete_spares_what_is_added_behind_it() -> Result<()> {
    let mut writer = writer();
    writer.delete_term(term("a"))?;
    writer.add_document(title("a"))?;
    writer.commit()?;
    assert_eq!(durable(&writer).count(&term("a")), 1);
    writer.delete_term(term("a"))?;
    writer.commit()?;
    assert_eq!(durable(&writer).count(&term("a")), 0);
    Ok(())
}

#[test]
fn opening_a_searcher_makes_nothing_durable() -> Result<()> {
    let mut writer = writer();
    writer.add_document(title("a"))?;
    let reader = IndexReader::open(writer.index());
    let prepared = writer.prepare_commit()?;
    let searcher = prepared.open_searcher(&reader)?;
    assert_eq!(searcher.count(&term("a")), 1);
    assert_eq!(prepared.index_writer.index().load_metas().segments.len(), 0);
    assert_eq!(prepared.index_writer.index().load_metas().opstamp, 0);
    assert_eq!(reader.searcher().count(&term("a")), 0);
    Ok(())
}

#[test]
fn a_prepared_searcher_outlives_later_operations() -> Result<()> {
    let mut writer = writer();
    writer.add_document(title("a"))?;
    let reader = IndexReader::open(writer.index());
    let searcher = writer.prepare_commit()?.open_searcher(&reader)?;
    writer.delete_term(term("a"))?;
    writer.add_document(title("b"))?;
    writer.commit()?;
    assert_eq!(searcher.count(&term("a")), 1);
    assert_eq!(searcher.count(&term("b")), 0);
    assert_eq!(durable(&writer).count(&term("a")), 0);
    assert_eq!(durable(&writer).count(&term("b")), 1);
    Ok(())
}

#[test]
fn a_dropped_commit_is_part_of_the_next_one() -> Result<()> {
    let mut writer = writer();
    writer.add_document(title("a"))?;
    let first = writer.prepare_commit()?.opstamp();
    writer.add_document(title("b"))?;
    let reader = IndexReader::open(writer.index());
    let prepared = writer.prepare_commit()?;
    assert!(prepared.opstamp() > first);
    let searcher = prepared.open_searcher(&reader)?;
    assert_eq!(searcher.count(&term("a")), 1);
    assert_eq!(searcher.count(&term("b")), 1);
    Ok(())
}

#[test]
fn the_opstamp_of_a_commit_follows_its_operations() -> Result<()> {
    let mut writer = writer();
    assert_eq!(writer.add_document(title("a"))?, 0);
    assert_eq!(writer.delete_term(term("b"))?, 1);
    let prepared = writer.prepare_commit()?;
    assert_eq!(prepared.opstamp(), 2);
    assert_eq!(prepared.commit()?, 2);
    assert_eq!(writer.index().load_metas().opstamp, 2);
    assert_eq!(writer.add_document(title("c"))?, 3);
    Ok(())
}

#[test]
fn the_payload_becomes_durable() -> Result<()> {
    let mut writer = writer();
    writer.commit()?;
    assert_eq!(writer.index().load_metas().payload, None);
    let mut prepared = writer.prepare_commit()?;
    prepared.set_payload("first");
    prepared.set_payload("second");
    prepared.commit()?;
    assert_eq!(writer.index().load_metas().payload, Some("second".to_string()));
    Ok(())
}

#[test]
fn abort_returns_to_the_durable_commit() -> Result<()> {
    let mut writer = writer();
    writer.add_document(title("a"))?;
    let committed = writer.commit()?;
    writer.delete_term(term("a"))?;
    writer.add_document(title("b"))?;
    let prepared = writer.prepare_commit()?;
    assert_eq!(prepared.abort()?, committed);
    assert_eq!(writer.index().load_metas().opstamp, committed);
    let reader = IndexReader::open(writer.index());
    let prepared = writer.prepare_commit()?;
    let searcher = prepared.open_searcher(&reader)?;
    assert_eq!(searcher.count(&term("a")), 1);
    assert_eq!(searcher.count(&term("b")), 0);
    Ok(())
}

#[test]
fn rollback_forgets_the_buffer() -> Result<()> {
    let mut writer = writer();
    writer.add_document(title("a"))?;
    assert_eq!(writer.rollback()?, 0);
    writer.commit()?;
    assert_eq!(durable(&writer).count(&term("a")), 0);
    assert_eq!(writer.index().load_metas().segments.len(), 0);
    Ok(())
}

#[test]
fn a_segment_without_documents_left_is_forgotten() -> Result<()> {
    let mut writer = writer();
    writer.add_document(title("a"))?;
    writer.commit()?;
    assert_eq!(writer.index().load_metas().segments.len(), 1);
    writer.delete_term(term("a"))?;
    writer.add_document(title("b"))?;
    writer.commit()?;
    let metas = &writer.index().load_metas().segments;
    assert_eq!(metas.len(), 1);
    assert_eq!(metas[0].num_docs(), 1);
    Ok(())
}

#[test]
fn the_metadata_counts_deleted_documents() -> Result<()> {
    let mut writer = writer();
    writer.add_document(title("a"))?;
    writer.add_document(title("b"))?;
    writer.commit()?;
    writer.delete_term(term("a"))?;
    let opstamp = writer.commit()?;
    let metas = &writer.index().load_metas().segments;
    assert_eq!(metas.len(), 1);
    assert_eq!(metas[0].max_doc(), 2);
    assert_eq!(metas[0].num_deleted_docs(), 1);
    assert_eq!(metas[0].num_docs(), 1);
    assert_eq!(metas[0].deletes.unwrap().opstamp, opstamp);
    Ok(())
}

#[test]
fn an_unlabeled_segment_keeps_a_commit_from_being_searched() -> Result<()> {
    let mut writer = writer();
    writer.add_unlabeled(title("a"))?;
    let reader = IndexReader::open(writer.index());
    let prepared = writer.prepare_commit()?;
    let error = prepared.open_searcher(&reader).unwrap_err();
    assert!(matches!(error, TantivyError::InvalidArgument(_)));
    assert_eq!(
        text_of(error),
        "An invalid argument was passed: 'cannot snapshot a publication generation while \
         unlabeled uncommitted segments exist'"
    );
    prepared.commit()?;
    assert_eq!(durable(&writer).count(&term("a")), 1);
    let prepared = writer.prepare_commit()?;
    assert_eq!(prepared.open_searcher(&reader)?.count(&term("a")), 1);
    Ok(())
}

#[test]
fn a_killed_writer_refuses_tasks() -> Result<()> {
    let mut writer = writer();
    writer.add_document(title("a"))?;
    writer.commit()?;
    writer.kill();
    let reader = IndexReader::open(writer.index());
    let prepared = writer.prepare_commit()?;
    let error = prepared.open_searcher(&reader).unwrap_err();
    assert_eq!(text_of(error), "System error.'Segment updater killed'");
    let error = prepared.commit().unwrap_err();
    assert!(matches!(error, TantivyError::SystemError(_)));
    assert_eq!(text_of(error), "System error.'Segment updater killed'");
    assert!(writer.add_unlabeled(title("b")).is_err());
    writer.add_document(title("b"))?;
    assert!(writer.prepare_commit().is_err());
    assert!(writer.commit().is_err());
    assert_eq!(durable(&writer).count(&term("a")), 1);
    let opstamp = writer.index().load_metas().opstamp;
    assert_eq!(writer.rollback()?, opstamp);
    writer.add_document(title("c"))?;
    writer.commit()?;
    assert_eq!(durable(&writer).count(&term("c")), 1);
    Ok(())
}

#[test]
fn commit_with_stats_reports_times() -> Result<()> {
    let mut writer = writer();
    writer.add_document(title("a"))?;
    let prepared = writer.prepare_commit()?;
    let expected = prepared.opstamp();
    let (opstamp, stats) = prepared.commit_with_stats()?;
    assert_eq!(opstamp, expected);
    assert!(stats.schedule < Duration::from_secs(60));
    assert!(stats.wait < Duration::from_secs(60));
    assert_eq!(durable(&writer).count(&term("a")), 1);
    Ok(())
}

#[test]
fn the_reported_times_keep_their_places() {
    let schedule = Duration::from_millis(3);
    let wait = Duration::from_millis(8);
    let (opstamp, stats) = CommitStats::report(Ok(5), schedule, wait).unwrap();
    assert_eq!(opstamp, 5);
    assert_eq!(stats.schedule, Duration::from_millis(3));
    assert_eq!(stats.wait, Duration::from_millis(8));
}

#[test]
fn no_times_are_reported_of_a_failed_commit() {
    let failed = Err(TantivyError::SystemError("full".to_string()));
    let error = CommitStats::report(failed, Duration::ZERO, Duration::ZERO).unwrap_err();
    assert_eq!(text_of(error), "System error.'full'");
}

#[test]
fn the_durable_work_is_waited_for() -> Result<()> {
    let mut writer = writer();
    for _ in 0..20_000 {
        writer.add_document(title("a"))?;
    }
    for _ in 0..20 {
        writer.delete_term(term("b"))?;
    }
    let (_, stats) = writer.prepare_commit()?.commit_with_stats()?;
    assert!(stats.wait > stats.schedule);
    Ok(())
}

#[test]
fn a_commit_can_be_prepared_at_a_given_opstamp() -> Result<()> {
    let mut writer = writer();
    let mut prepared = PreparedCommit::new(&mut writer, 7, PublicationGeneration::new(1));
    assert_eq!(prepared.opstamp(), 7);
    prepared.set_payload("a");
    prepared.set_payload("b");
    assert_eq!(prepared.commit_future().wait()?, 7);
    assert_eq!(writer.index().load_metas().opstamp, 7);
    assert_eq!(writer.index().load_metas().payload, Some("b".to_string()));
    Ok(())
}

#[test]
fn commit_future_hands_the_opstamp_over() -> Result<()> {
    let mut writer = writer();
    writer.add_document(title("a"))?;
    let future = writer.prepare_commit()?.commit_future();
    assert_eq!(future.wait()?, 1);
    assert_eq!(durable(&writer).count(&term("a")), 1);
    Ok(())
}

#[test]
fn default_commit_stats_are_zero() {
    let stats = CommitStats::default();
    assert_eq!(stats.schedule, Duration::ZERO);
    assert_eq!(stats.wait, Duration::ZERO);
}

#[test]
fn a_writer_goes_on_behind_an_existing_index() -> Result<()> {
    let mut first = writer();
    first.add_document(title("a"))?;
    let committed = first.commit()?;
    let mut second: IndexWriter = IndexWriter::new(first.index().clone())?;
    second.delete_term(term("a"))?;
    second.add_document(title("b"))?;
    assert!(second.commit()? > committed);
    assert_eq!(durable(&second).count(&term("a")), 0);
    assert_eq!(durable(&second).count(&term("b")), 1);
    assert_eq!(durable(&first).count(&term("a")), 1);
    Ok(())
}

#[test]
fn terms_of_other_fields_are_not_found() -> Result<()> {
    let mut writer = writer();
    writer.add_document(doc("body", "a"))?;
    writer.commit()?;
    assert_eq!(durable(&writer).count(&term("a")), 0);
    assert_eq!(durable(&writer).count(&Term::from_field_text("body", "a")), 1);
    Ok(())
}

#[test]
fn a_document_with_a_repeated_word_counts_once() -> Result<()> {
    let mut writer = writer();
    let mut document = title("a");
    document.add_text("title", "a");
    document.add_text("title", "b");
    writer.add_document(document)?;
    writer.commit()?;
    assert_eq!(durable(&writer).count(&term("a")), 1);
    assert_eq!(durable(&writer).count(&term("b")), 1);
    Ok(())
}
