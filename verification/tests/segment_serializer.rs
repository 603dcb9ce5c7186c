use std::time::Duration;

use tantivy_indexer::segment_serializer::{
    total_mem_usage, CloseProgress, CloseRequest, Compressor, IndexSettings, MemUsage,
    OpenProgress, OpenReply, OpenRequest, SegmentComponent, SegmentSerializer,
    SegmentSerializerCloseStats, SegmentSerializerClosing, SegmentSerializerCreationStats,
    SegmentSerializerOpening,
};

#[derive(Debug, PartialEq)]
struct Store(usize);

impl MemUsage for Store {
    fn mem_usage(&self) -> usize {
        self.0
    }
}

#[derive(Debug, PartialEq)]
struct Output(&'static str, usize);

impl MemUsage for Output {
    fn mem_usage(&self) -> usize {
        self.1
    }
}

type Segment = &'static str;
type Write = Output;
type Norms = Output;
type Postings = Output;
type Serializer = SegmentSerializer<Segment, Store, Write, Norms, Postings>;
type Opening = SegmentSerializerOpening<Segment, Store, Write, Norms>;
type Reply = OpenReply<Store, Write, Norms, Postings>;
type Closing = SegmentSerializerClosing<Store, Write, Postings>;

fn settings() -> IndexSettings {
    IndexSettings {
        docstore_compression: Compressor::Zstd(Some(3)),
        docstore_blocksize: 16_384,
        docstore_compress_dedicated_thread: true,
    }
}

fn millis(count: u64) -> Duration {
    Duration::from_millis(count)
}

fn begin() -> (Opening, OpenRequest<Write>, bool) {
    match Serializer::for_segment::<String>("segment", settings()) {
        OpenProgress::Request { opening, request, restart_clock } => {
            (opening, request, restart_clock)
        }
        _ => panic!("nothing is requested"),
    }
}

fn next(opening: Opening, reply: Reply, elapsed: u64) -> (Opening, OpenRequest<Write>, bool) {
    match opening.step::<Postings, String>(Ok(reply), millis(elapsed)) {
        OpenProgress::Request { opening, request, restart_clock } => {
            (opening, request, restart_clock)
        }
        _ => panic!("nothing is requested"),
    }
}

fn replies() -> Vec<Reply> {
    vec![
        OpenReply::Write(Output("store file", 1)),
        OpenReply::StoreWriter(Store(42)),
        OpenReply::Write(Output("fast fields file", 100)),
        OpenReply::Write(Output("field norms file", 10)),
        OpenReply::FieldNormsSerializer(Output("field norms", 1_000)),
    ]
}

fn open() -> Serializer {
    let (mut opening, _, _) = begin();
    for (i, reply) in replies().into_iter().enumerate() {
        opening = next(opening, reply, i as u64 + 1).0;
    }
    let postings = OpenReply::Postings(Output("postings", 10_000));
    match opening.step::<Postings, String>(Ok(postings), millis(6)) {
        OpenProgress::Opened(serializer) => serializer,
        _ => panic!("the serializer is not open"),
    }
}

#[test]
fn opening_asks_for_the_outputs_in_order() {
    let (opening, request, restart) = begin();
    assert!(matches!(request, OpenRequest::OpenWrite(SegmentComponent::Store)));
    assert!(restart);

    let (opening, request, restart) = next(opening, OpenReply::Write(Output("store file", 1)), 1);
    match request {
        OpenRequest::CreateStoreWriter { write, settings: used } => {
            assert_eq!(write, Output("store file", 1));
            assert_eq!(used, settings());
        }
        _ => panic!("no store writer is requested"),
    }
    assert!(restart);

    let (opening, request, restart) = next(opening, OpenReply::StoreWriter(Store(1)), 2);
    assert!(matches!(request, OpenRequest::OpenWrite(SegmentComponent::FastFields)));
    assert!(restart);

    let reply = OpenReply::Write(Output("fast fields file", 100));
    let (opening, request, restart) = next(opening, reply, 3);
    assert!(matches!(request, OpenRequest::OpenWrite(SegmentComponent::FieldNorms)));
    assert!(restart);

    let reply = OpenReply::Write(Output("field norms file", 10));
    let (opening, request, restart) = next(opening, reply, 4);
    match request {
        OpenRequest::CreateFieldNormsSerializer { write } => {
            assert_eq!(write, Output("field norms file", 10))
        }
        _ => panic!("no field norms serializer is requested"),
    }
    assert!(!restart);

    let reply = OpenReply::FieldNormsSerializer(Output("field norms", 1_000));
    let (_, request, restart) = next(opening, reply, 5);
    assert!(matches!(request, OpenRequest::OpenPostings));
    assert!(restart);
}

#[test]
fn an_open_serializer_holds_its_parts() {
    let mut serializer = open();
    assert_eq!(*serializer.segment(), "segment");
    assert_eq!(serializer.mem_usage(), 11_142);
    assert_eq!(*serializer.get_store_writer(), Store(42));
    assert_eq!(*serializer.get_fast_field_write(), Output("fast fields file", 100));
    assert_eq!(*serializer.get_postings_serializer(), Output("postings", 10_000));
    let stats = serializer.creation_stats();
    assert_eq!(stats.store_open_duration(), millis(1));
    assert_eq!(stats.store_writer_create_duration(), millis(2));
    assert_eq!(stats.fast_fields_open_duration(), millis(3));
    assert_eq!(stats.fieldnorms_output_open_duration(), millis(5));
    assert_eq!(stats.postings_open_duration(), millis(6));
}

#[test]
fn the_parts_can_be_changed_in_place() {
    let mut serializer = open();
    *serializer.get_store_writer() = Store(7);
    *serializer.get_postings_serializer() = Output("other postings", 30_000);
    *serializer.get_fast_field_write() = Output("other file", 300);
    assert_eq!(serializer.mem_usage(), 31_307);
    assert_eq!(*serializer.get_postings_serializer(), Output("other postings", 30_000));
    assert_eq!(*serializer.get_fast_field_write(), Output("other file", 300));
    assert_eq!(serializer.extract_fieldnorms_serializer(), Some(Output("field norms", 1_000)));
}

#[test]
fn a_failed_step_ends_the_opening() {
    for failing in 0..6 {
        let (mut opening, _, _) = begin();
        for reply in replies().into_iter().take(failing) {
            opening = next(opening, reply, 1).0;
        }
        let failure: Result<Reply, String> = Err(format!("step {failing}"));
        match opening.step(failure, millis(1)) {
            OpenProgress::Failed(error) => assert_eq!(error, format!("step {failing}")),
            _ => panic!("the opening went on"),
        }
    }
}

#[test]
fn extracted_field_norms_are_not_counted() {
    let mut serializer = open();
    serializer.extract_fieldnorms_serializer();
    assert_eq!(serializer.mem_usage(), 10_142);
}

#[test]
fn the_memory_of_the_parts_is_added_up() {
    assert_eq!(total_mem_usage(1, 20, Some(300), 4_000), 4_321);
    assert_eq!(total_mem_usage(1, 20, None, 4_000), 4_021);
    assert_eq!(total_mem_usage(usize::MAX, 1, None, 1), usize::MAX);
    assert_eq!(total_mem_usage(usize::MAX - 1, 0, Some(1), 0), usize::MAX);
}

#[test]
fn field_norms_are_extracted_once() {
    let mut serializer = open();
    assert_eq!(serializer.extract_fieldnorms_serializer(), Some(Output("field norms", 1_000)));
    assert_eq!(serializer.extract_fieldnorms_serializer(), None);
}

fn close_all(serializer: Serializer) -> (Vec<String>, SegmentSerializerCloseStats) {
    let mut done = Vec::new();
    let mut progress: CloseProgress<Store, Write, Norms, Postings, String> =
        serializer.close_with_stats();
    loop {
        match progress {
            CloseProgress::Request { closing, request } => {
                done.push(match request {
                    CloseRequest::CloseFieldNorms(norms) => norms.0.to_string(),
                    CloseRequest::TerminateFastFields(write) => write.0.to_string(),
                    CloseRequest::ClosePostings(postings) => postings.0.to_string(),
                    CloseRequest::CloseStore(store) => format!("store {}", store.0),
                });
                let elapsed = millis(done.len() as u64);
                progress = closing.step(Ok(()), elapsed);
            }
            CloseProgress::Closed(stats) => return (done, stats),
            CloseProgress::Failed(error) => panic!("{error}"),
        }
    }
}

#[test]
fn closing_runs_through_the_outputs_in_order() {
    let (done, stats) = close_all(open());
    assert_eq!(done, vec!["field norms", "fast fields file", "postings", "store 42"]);
    assert_eq!(stats.fieldnorms_close_duration(), millis(1));
    assert_eq!(stats.fast_fields_close_duration(), millis(2));
    assert_eq!(stats.postings_close_duration(), millis(3));
    assert_eq!(stats.store_writer_close_duration(), millis(4));
}

#[test]
fn closing_passes_extracted_field_norms_over() {
    let mut serializer = open();
    serializer.extract_fieldnorms_serializer();
    let (done, stats) = close_all(serializer);
    assert_eq!(done, vec!["fast fields file", "postings", "store 42"]);
    assert_eq!(stats.fieldnorms_close_duration(), Duration::ZERO);
    assert_eq!(stats.fast_fields_close_duration(), millis(1));
    assert_eq!(stats.store_writer_close_duration(), millis(3));
}

#[test]
fn a_failed_step_ends_the_closing() {
    for failing in 0..4 {
        let mut progress: CloseProgress<Store, Write, Norms, Postings, String> = open().close();
        for step in 0..=failing {
            let closing: Closing = match progress {
                CloseProgress::Request { closing, .. } => closing,
                _ => panic!("nothing is requested"),
            };
            let reply = if step == failing { Err(format!("step {step}")) } else { Ok(()) };
            progress = closing.step(reply, millis(1));
        }
        assert_eq!(progress.outcome(), Some(Err(format!("step {failing}"))));
    }
}

#[test]
fn the_outcome_of_closing_leaves_the_times_out() {
    type Progress = CloseProgress<Store, Write, Norms, Postings, String>;
    let begun: Progress = open().close();
    assert_eq!(begun.outcome(), None);
    let closed: Progress = CloseProgress::Closed(SegmentSerializerCloseStats::default());
    assert_eq!(closed.outcome(), Some(Ok(())));
}

#[test]
fn default_stats_are_zero() {
    let creation = SegmentSerializerCreationStats::default();
    assert_eq!(creation.store_open_duration(), Duration::ZERO);
    assert_eq!(creation.store_writer_create_duration(), Duration::ZERO);
    assert_eq!(creation.fast_fields_open_duration(), Duration::ZERO);
    assert_eq!(creation.fieldnorms_output_open_duration(), Duration::ZERO);
    assert_eq!(creation.postings_open_duration(), Duration::ZERO);
    let close = SegmentSerializerCloseStats::default();
    assert_eq!(close.fieldnorms_close_duration(), Duration::ZERO);
    assert_eq!(close.fast_fields_close_duration(), Duration::ZERO);
    assert_eq!(close.postings_close_duration(), Duration::ZERO);
    assert_eq!(close.store_writer_close_duration(), Duration::ZERO);
}
