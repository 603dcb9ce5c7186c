use std::collections::HashSet;

use tantivy_indexer::delete_queue::DeleteQueue;
use tantivy_indexer::error::{Result, TantivyError};
use tantivy_indexer::segment_entry::{PublicationGeneration, SegmentEntry};
use tantivy_indexer::segment_manager::{SegmentManager, SegmentRegisters, SegmentsStatus};
use tantivy_indexer::segment_meta::{SegmentId, SegmentMeta};

fn segment_entry(id: SegmentId, generation: Option<PublicationGeneration>) -> SegmentEntry {
    let meta = SegmentMeta::new(id, 1);
    let delete_cursor = DeleteQueue::default().cursor();
    match generation {
        Some(generation) => {
            SegmentEntry::new_for_publication(meta, delete_cursor, None, generation)
        }
        None => SegmentEntry::new(meta, delete_cursor, None),
    }
}

fn labeled(id: SegmentId, generation: u64) -> SegmentEntry {
    segment_entry(id, Some(PublicationGeneration::new(generation)))
}

fn committed_manager(ids: &[SegmentId]) -> SegmentManager {
    let metas = ids.iter().map(|id| SegmentMeta::new(*id, 1)).collect();
    SegmentManager::from_segments(metas, &DeleteQueue::default().cursor())
}

fn ids_of(entries: &[SegmentEntry]) -> Vec<SegmentId> {
    entries.iter().map(|entry| entry.segment_id()).collect()
}

fn meta_ids(metas: &[SegmentMeta]) -> HashSet<SegmentId> {
    metas.iter().map(|meta| meta.id()).collect()
}

fn set(ids: &[SegmentId]) -> HashSet<SegmentId> {
    ids.iter().copied().collect()
}

fn message(error: TantivyError) -> String {
    match error {
        TantivyError::InvalidArgument(text) => text,
        TantivyError::SystemError(text) => panic!("unexpected system error {text}"),
    }
}

#[test]
fn snapshot_through_generation_excludes_later_uncommitted_segments() -> Result<()> {
    let delete_queue = DeleteQueue::default();
    let durable = SegmentMeta::new(10, 1);
    let mut manager = SegmentManager::from_segments(vec![durable.clone()], &delete_queue.cursor());
    let first = segment_entry(11, Some(PublicationGeneration::new(1)));
    let second = segment_entry(12, Some(PublicationGeneration::new(2)));
    let expected_ids: HashSet<_> = [durable.id(), first.segment_id()].into_iter().collect();

    manager.add_segment(first);
    manager.add_segment(second);

    let actual_ids: HashSet<_> = manager
        .segment_entries_through_generation(PublicationGeneration::new(1))?
        .into_iter()
        .map(|entry| entry.segment_id())
        .collect();

    assert_eq!(actual_ids, expected_ids);
    Ok(())
}

#[test]
fn snapshot_through_generation_rejects_unlabeled_uncommitted_segments() {
    let mut manager = SegmentManager::default();
    manager.add_segment(segment_entry(1, None));

    let error = manager
        .segment_entries_through_generation(PublicationGeneration::new(1))
        .unwrap_err();
    assert!(error.to_string().contains("unlabeled uncommitted"));
}

#[test]
fn merging_different_publication_generations_is_rejected() {
    let mut manager = SegmentManager::default();
    let first = segment_entry(1, Some(PublicationGeneration::new(1)));
    let second = segment_entry(2, Some(PublicationGeneration::new(2)));
    let ids = [first.segment_id(), second.segment_id()];

    manager.add_segment(first);
    manager.add_segment(second);

    let error = manager.start_merge(&ids).unwrap_err();
    assert!(error.to_string().contains("different publication generations"));
}

#[test]
fn snapshots_list_the_committed_segments_first_and_grow() -> Result<()> {
    let mut manager = committed_manager(&[1]);
    manager.add_segment(labeled(2, 5));
    manager.add_segment(labeled(3, 7));
    let generation = PublicationGeneration::new;
    assert_eq!(ids_of(&manager.segment_entries_through_generation(generation(4))?), vec![1]);
    assert_eq!(ids_of(&manager.segment_entries_through_generation(generation(5))?), vec![1, 2]);
    assert_eq!(ids_of(&manager.segment_entries_through_generation(generation(6))?), vec![1, 2]);
    let all = manager.segment_entries_through_generation(generation(7))?;
    assert_eq!(all.len(), 3);
    assert_eq!(set(&ids_of(&all)), set(&[1, 2, 3]));
    Ok(())
}

#[test]
fn segment_entries_lists_the_uncommitted_segments_first() {
    let mut manager = committed_manager(&[1]);
    manager.add_segment(labeled(2, 5));
    assert_eq!(ids_of(&manager.segment_entries()), vec![2, 1]);
    assert!(SegmentManager::default().segment_entries().is_empty());
}

#[test]
fn an_added_segment_replaces_the_entry_under_its_id() {
    let mut manager = SegmentManager::default();
    manager.add_segment(labeled(2, 5));
    manager.add_segment(labeled(2, 6));
    let entries = manager.segment_entries();
    assert_eq!(entries.len(), 1);
    assert_eq!(entries[0].publication_generation(), Some(PublicationGeneration::new(6)));
}

#[test]
fn commit_replaces_everything_and_clears_labels() -> Result<()> {
    let mut manager = committed_manager(&[1, 4]);
    manager.add_segment(labeled(2, 5));
    manager.add_segment(segment_entry(3, None));
    manager.commit(vec![labeled(1, 8), labeled(2, 5)]);
    let entries = manager.segment_entries_through_generation(PublicationGeneration::new(0))?;
    assert_eq!(set(&ids_of(&entries)), set(&[1, 2]));
    assert!(entries.iter().all(|entry| entry.publication_generation().is_none()));
    assert_eq!(meta_ids(&manager.committed_segment_metas()), set(&[1, 2]));
    Ok(())
}

#[test]
fn committed_metas_are_sorted_and_skip_empty_segments() {
    let cursor = DeleteQueue::default().cursor();
    let metas = vec![
        SegmentMeta::new(30, 1),
        SegmentMeta::new(10, 2).with_delete_meta(2, 7),
        SegmentMeta::new(20, 2).with_delete_meta(1, 7),
        SegmentMeta::new(5, 0),
    ];
    let mut manager = SegmentManager::from_segments(metas, &cursor);
    manager.add_segment(SegmentEntry::new(SegmentMeta::new(40, 0), cursor, None));
    assert_eq!(manager.segment_entries().len(), 5);
    let kept = manager.committed_segment_metas();
    assert_eq!(kept.iter().map(|meta| meta.id()).collect::<Vec<_>>(), vec![20, 30]);
    assert_eq!(kept[0].num_docs(), 1);
    assert_eq!(set(&ids_of(&manager.segment_entries())), set(&[20, 30, 40]));
    manager.remove_empty_segments();
    assert_eq!(set(&ids_of(&manager.segment_entries())), set(&[20, 30, 40]));
    assert_eq!(manager.committed_segment_metas().len(), 2);
}

#[test]
fn mergeable_segments_leave_out_those_in_merge() {
    let mut manager = committed_manager(&[1, 2, 3]);
    manager.add_segment(labeled(4, 1));
    manager.add_segment(labeled(5, 1));
    let (committed, uncommitted) = manager.get_mergeable_segments(&set(&[2, 5]));
    assert_eq!(meta_ids(&committed), set(&[1, 3]));
    assert_eq!(meta_ids(&uncommitted), set(&[4]));
    let (committed, uncommitted) = manager.get_mergeable_segments(&set(&[]));
    assert_eq!(committed.len(), 3);
    assert_eq!(uncommitted.len(), 2);
}

#[test]
fn start_merge_hands_the_entries_out_in_order() -> Result<()> {
    let mut manager = committed_manager(&[1, 2, 3]);
    manager.add_segment(labeled(4, 1));
    manager.add_segment(labeled(5, 1));
    assert_eq!(ids_of(&manager.start_merge(&[3, 1])?), vec![3, 1]);
    assert_eq!(ids_of(&manager.start_merge(&[5, 4])?), vec![5, 4]);
    assert!(manager.start_merge(&[])?.is_empty());
    Ok(())
}

#[test]
fn start_merge_refuses_scattered_segments() {
    let mut manager = committed_manager(&[1]);
    manager.add_segment(labeled(2, 1));
    let expected = "Merge operation sent for segments that are not all uncommitted or committed.";
    assert_eq!(message(manager.start_merge(&[1, 2]).unwrap_err()), expected);
    assert_eq!(message(manager.start_merge(&[9]).unwrap_err()), expected);
}

#[test]
fn start_merge_refuses_labeled_beside_unlabeled() {
    let mut manager = SegmentManager::default();
    manager.add_segment(labeled(1, 1));
    manager.add_segment(segment_entry(2, None));
    manager.add_segment(segment_entry(3, None));
    assert_eq!(
        message(manager.start_merge(&[1, 2]).unwrap_err()),
        "cannot merge segments from different publication generations"
    );
    assert!(manager.start_merge(&[2, 3]).is_ok());
}

#[test]
fn end_merge_replaces_uncommitted_segments() -> Result<()> {
    let mut manager = committed_manager(&[1]);
    manager.add_segment(labeled(2, 5));
    manager.add_segment(labeled(3, 5));
    manager.add_segment(labeled(4, 6));
    assert_eq!(manager.start_merge(&[2, 3])?.len(), 2);
    let status = manager.end_merge(&[2, 3], Some(labeled(9, 5)))?;
    assert_eq!(status, SegmentsStatus::Uncommitted);
    let through = manager.segment_entries_through_generation(PublicationGeneration::new(5))?;
    assert_eq!(ids_of(&through), vec![1, 9]);
    assert_eq!(set(&ids_of(&manager.segment_entries())), set(&[1, 4, 9]));
    Ok(())
}

#[test]
fn end_merge_without_documents_left_removes_segments() -> Result<()> {
    let mut manager = committed_manager(&[1, 2, 3]);
    assert_eq!(manager.end_merge(&[1, 3], None)?, SegmentsStatus::Committed);
    assert_eq!(ids_of(&manager.segment_entries()), vec![2]);
    Ok(())
}

#[test]
fn a_merge_survives_a_commit() -> Result<()> {
    let mut manager = SegmentManager::default();
    manager.add_segment(labeled(1, 5));
    manager.add_segment(labeled(2, 5));
    manager.start_merge(&[1, 2])?;
    let entries = manager.segment_entries();
    manager.commit(entries);
    let status = manager.end_merge(&[1, 2], Some(segment_entry(3, None)))?;
    assert_eq!(status, SegmentsStatus::Committed);
    assert_eq!(ids_of(&manager.segment_entries()), vec![3]);
    Ok(())
}

#[test]
fn a_merge_is_lost_once_all_segments_are_removed() -> Result<()> {
    let mut manager = committed_manager(&[1, 2]);
    manager.start_merge(&[1, 2])?;
    manager.remove_all_segments();
    let error = manager.end_merge(&[1, 2], Some(segment_entry(3, None))).unwrap_err();
    assert_eq!(
        message(error),
        "The segments that were merged could not be found in the SegmentManager. This is not \
         necessarily a bug, and can happen after a rollback for instance."
    );
    assert!(manager.segment_entries().is_empty());
    Ok(())
}

#[test]
fn a_refused_end_of_a_merge_changes_nothing() {
    let mut manager = committed_manager(&[1]);
    manager.add_segment(labeled(2, 5));
    assert!(manager.end_merge(&[1, 2], Some(labeled(3, 5))).is_err());
    assert_eq!(ids_of(&manager.segment_entries()), vec![2, 1]);
}

#[test]
fn an_empty_merge_takes_place_among_the_uncommitted() -> Result<()> {
    let mut manager = SegmentManager::default();
    assert_eq!(manager.end_merge(&[], Some(labeled(3, 5)))?, SegmentsStatus::Uncommitted);
    assert_eq!(ids_of(&manager.segment_entries()), vec![3]);
    Ok(())
}

#[test]
fn a_started_merge_is_not_offered_again() -> Result<()> {
    let mut manager = committed_manager(&[1, 2, 3]);
    manager.add_segment(labeled(4, 1));
    manager.add_segment(labeled(5, 1));
    manager.start_merge(&[1, 3])?;
    let (committed, uncommitted) = manager.get_mergeable_segments(&set(&[]));
    assert_eq!(meta_ids(&committed), set(&[2]));
    assert_eq!(meta_ids(&uncommitted), set(&[4, 5]));
    manager.start_merge(&[5])?;
    let (committed, uncommitted) = manager.get_mergeable_segments(&set(&[2]));
    assert!(committed.is_empty());
    assert_eq!(meta_ids(&uncommitted), set(&[4]));
    assert_eq!(manager.segment_entries().len(), 5);
    Ok(())
}

#[test]
fn a_refused_merge_marks_nothing() {
    let mut manager = committed_manager(&[1]);
    manager.add_segment(labeled(2, 1));
    manager.add_segment(labeled(3, 2));
    assert!(manager.start_merge(&[1, 2]).is_err());
    assert!(manager.start_merge(&[2, 3]).is_err());
    let (committed, uncommitted) = manager.get_mergeable_segments(&set(&[]));
    assert_eq!(meta_ids(&committed), set(&[1]));
    assert_eq!(meta_ids(&uncommitted), set(&[2, 3]));
}

#[test]
fn a_finished_merge_frees_its_segments() -> Result<()> {
    let mut manager = committed_manager(&[1, 2, 3]);
    manager.start_merge(&[1, 2])?;
    manager.end_merge(&[1, 2], Some(segment_entry(2, None)))?;
    let (committed, _) = manager.get_mergeable_segments(&set(&[]));
    assert_eq!(meta_ids(&committed), set(&[2, 3]));
    manager.start_merge(&[2, 3])?;
    manager.cancel_merge(&[3]);
    let (committed, _) = manager.get_mergeable_segments(&set(&[]));
    assert_eq!(meta_ids(&committed), set(&[3]));
    Ok(())
}

#[test]
fn a_commit_keeps_the_marks_of_what_it_keeps() -> Result<()> {
    let mut manager = SegmentManager::default();
    manager.add_segment(labeled(1, 5));
    manager.add_segment(labeled(2, 5));
    manager.add_segment(labeled(3, 5));
    manager.start_merge(&[1, 2])?;
    manager.commit(vec![labeled(1, 5), labeled(3, 5)]);
    let (committed, _) = manager.get_mergeable_segments(&set(&[]));
    assert_eq!(meta_ids(&committed), set(&[3]));
    manager.add_segment(labeled(2, 6));
    let (_, uncommitted) = manager.get_mergeable_segments(&set(&[]));
    assert_eq!(meta_ids(&uncommitted), set(&[2]));
    Ok(())
}

#[test]
fn removing_all_segments_clears_the_marks() -> Result<()> {
    let mut manager = committed_manager(&[1]);
    manager.start_merge(&[1])?;
    manager.remove_all_segments();
    manager.add_segment(labeled(1, 1));
    let (_, uncommitted) = manager.get_mergeable_segments(&set(&[]));
    assert_eq!(meta_ids(&uncommitted), set(&[1]));
    Ok(())
}

#[test]
fn default_registers_are_empty() {
    let registers = SegmentRegisters::default();
    assert!(registers.uncommitted.segment_ids().is_empty());
    assert!(registers.committed.segment_ids().is_empty());
    assert!(registers.segments_status(&[1]).is_none());
}
