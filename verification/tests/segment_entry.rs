use tantivy_indexer::bit_set::BitSet;
use tantivy_indexer::delete_queue::{DeleteCursor, DeleteOperation, DeleteQueue};
use tantivy_indexer::schema::{StoredDocument, Term};
use tantivy_indexer::segment_entry::{PublicationGeneration, SegmentEntry};
use tantivy_indexer::segment_meta::SegmentMeta;

#[test]
fn generations_are_ordered_and_end() {
    let first = PublicationGeneration::new(1);
    assert_eq!(first.next(), Some(PublicationGeneration::new(2)));
    assert!(first < first.next().unwrap());
    assert_eq!(PublicationGeneration::new(u64::MAX).next(), None);
}

#[test]
fn an_entry_gives_back_what_it_was_made_of() {
    let meta = SegmentMeta::new(7, 3);
    let alive = BitSet::from_flags(vec![true, false, true]);
    let cursor = DeleteCursor { position: 4 };
    let mut entry = SegmentEntry::new(meta, cursor, Some(alive));
    assert_eq!(entry.segment_id(), 7);
    assert_eq!(*entry.meta(), meta);
    assert_eq!(*entry.delete_cursor(), cursor);
    assert_eq!(entry.alive_bitset().unwrap().len(), 2);
    assert!(!entry.alive_bitset().unwrap().contains(1));
    assert_eq!(entry.publication_generation(), None);
}

#[test]
fn a_label_can_be_taken_off() {
    let generation = PublicationGeneration::new(9);
    let cursor = DeleteQueue::default().cursor();
    let mut entry =
        SegmentEntry::new_for_publication(SegmentMeta::new(7, 3), cursor, None, generation);
    assert_eq!(entry.publication_generation(), Some(generation));
    assert!(entry.alive_bitset().is_none());
    let copy = entry.clone();
    entry.clear_publication_generation();
    assert_eq!(entry.publication_generation(), None);
    assert_eq!(copy.publication_generation(), Some(generation));
}

#[test]
fn metadata_and_cursor_can_be_changed_in_place() {
    let cursor = DeleteQueue::default().cursor();
    let mut entry = SegmentEntry::new(SegmentMeta::new(7, 3), cursor, None);
    entry.set_meta(SegmentMeta::new(8, 4).with_delete_meta(1, 12));
    assert_eq!(entry.segment_id(), 8);
    assert_eq!(entry.meta().num_docs(), 3);
    entry.delete_cursor().position = 5;
    assert_eq!(*entry.delete_cursor(), DeleteCursor { position: 5 });
}

#[test]
fn a_bit_set_counts_its_flags() {
    let full = BitSet::with_max_value_and_full(4);
    assert_eq!(full.len(), 4);
    assert_eq!(full.max_value(), 4);
    assert!(full.contains(3));
    assert!(!full.contains(4));
    assert_eq!(BitSet::from_flags(vec![false, false]).len(), 0);
}

#[test]
fn the_delete_queue_stops_behind_an_opstamp() {
    let mut queue = DeleteQueue::default();
    for opstamp in [2, 5, 8] {
        queue.push(DeleteOperation { opstamp, term: Term::from_field_text("title", "a") });
    }
    let start = DeleteCursor { position: 0 };
    assert_eq!(queue.cursor().position, 3);
    assert_eq!(queue.skip_to(start, 1).position, 0);
    assert_eq!(queue.skip_to(start, 5).position, 2);
    assert_eq!(queue.skip_to(start, 9).position, 3);
    let document =
        StoredDocument { opstamp: 4, terms: vec![Term::from_field_text("title", "a")] };
    assert!(!queue.kills_between(start, DeleteCursor { position: 1 }, &document));
    assert!(queue.kills_between(start, DeleteCursor { position: 2 }, &document));
}
