//! The protocol that lays a segment out on disk.
//!
//! A segment goes to disk through a document store, a fast field output, a field norms serializer
//! and a postings serializer. Opening and closing these is the work of the directory that holds
//! the index, so it is done elsewhere: this module says what has to be done next, takes in what
//! came of it, and goes on from there or gives up. The segment and its outputs are carried along
//! unread: `S` is the segment, `T` its store writer, `W` a raw output, `F` the field norms
//! serializer and `P` the postings serializer. `E` is the error a directory reports.
use crate::clock;
use std::time::Duration;
use vstd::prelude::*;

verus! {

/// How long the steps of opening a serializer took.
#[derive(Debug, Clone, Copy)]
pub struct SegmentSerializerCreationStats {
    pub store_open: Duration,
    pub store_writer_create: Duration,
    pub fast_fields_open: Duration,
    pub fieldnorms_output_open: Duration,
    pub postings_open: Duration,
}

impl Default for SegmentSerializerCreationStats {
    fn default() -> (stats: Self)
        ensures
            stats == SegmentSerializerCreationStats::zero(),
    {
        SegmentSerializerCreationStats {
            store_open: Duration::new(0, 0),
            store_writer_create: Duration::new(0, 0),
            fast_fields_open: Duration::new(0, 0),
            fieldnorms_output_open: Duration::new(0, 0),
            postings_open: Duration::new(0, 0),
        }
    }
}

impl SegmentSerializerCreationStats {
    /// No step took any time.
    pub open spec fn zero() -> SegmentSerializerCreationStats {
        SegmentSerializerCreationStats {
            store_open: clock::zero_duration(),
            store_writer_create: clock::zero_duration(),
            fast_fields_open: clock::zero_duration(),
            fieldnorms_output_open: clock::zero_duration(),
            postings_open: clock::zero_duration(),
        }
    }

    /// How long opening the output of the store took.
    pub fn store_open_duration(&self) -> (span: Duration)
        ensures
            span == self.store_open,
    {
        self.store_open
    }

    /// How long creating the store writer took.
    pub fn store_writer_create_duration(&self) -> (span: Duration)
        ensures
            span == self.store_writer_create,
    {
        self.store_writer_create
    }

    /// How long opening the output of the fast fields took.
    pub fn fast_fields_open_duration(&self) -> (span: Duration)
        ensures
            span == self.fast_fields_open,
    {
        self.fast_fields_open
    }

    /// How long opening the output of the field norms and creating their serializer took.
    pub fn fieldnorms_output_open_duration(&self) -> (span: Duration)
        ensures
            span == self.fieldnorms_output_open,
    {
        self.fieldnorms_output_open
    }

    /// How long opening the postings serializer took.
    pub fn postings_open_duration(&self) -> (span: Duration)
        ensures
            span == self.postings_open,
    {
        self.postings_open
    }
}

/// How long the steps of closing a serializer took.
#[derive(Debug, Clone, Copy)]
pub struct SegmentSerializerCloseStats {
    pub fieldnorms_close: Duration,
    pub fast_fields_close: Duration,
    pub postings_close: Duration,
    pub store_writer_close: Duration,
}

impl Default for SegmentSerializerCloseStats {
    fn default() -> (stats: Self)
        ensures
            stats == SegmentSerializerCloseStats::zero(),
    {
        SegmentSerializerCloseStats {
            fieldnorms_close: Duration::new(0, 0),
            fast_fields_close: Duration::new(0, 0),
            postings_close: Duration::new(0, 0),
            store_writer_close: Duration::new(0, 0),
        }
    }
}

impl SegmentSerializerCloseStats {
    /// No step took any time.
    pub open spec fn zero() -> SegmentSerializerCloseStats {
        SegmentSerializerCloseStats {
            fieldnorms_close: clock::zero_duration(),
            fast_fields_close: clock::zero_duration(),
            postings_close: clock::zero_duration(),
            store_writer_close: clock::zero_duration(),
        }
    }

    /// How long closing the field norms serializer took.
    pub fn fieldnorms_close_duration(&self) -> (span: Duration)
        ensures
            span == self.fieldnorms_close,
    {
        self.fieldnorms_close
    }

    /// How long terminating the output of the fast fields took.
    pub fn fast_fields_close_duration(&self) -> (span: Duration)
        ensures
            span == self.fast_fields_close,
    {
        self.fast_fields_close
    }

    /// How long closing the postings serializer took.
    pub fn postings_close_duration(&self) -> (span: Duration)
        ensures
            span == self.postings_close,
    {
        self.postings_close
    }

    /// How long closing the store writer took.
    pub fn store_writer_close_duration(&self) -> (span: Duration)
        ensures
            span == self.store_writer_close,
    {
        self.store_writer_close
    }
}

/// The parts of a segment that are opened for writing one by one.
#[derive(Clone, Copy, Debug, PartialEq, Eq, Structural)]
pub enum SegmentComponent {
    Store,
    FastFields,
    FieldNorms,
}

/// How the blocks of the document store are compressed.
#[derive(Clone, Copy, Debug, PartialEq, Eq, Structural)]
pub enum Compressor {
    Uncompressed,
    Lz4,
    Zstd(Option<i32>),
}

/// The settings of an index that its document store depends on.
#[derive(Clone, Copy, Debug, PartialEq, Eq, Structural)]
pub struct IndexSettings {
    pub docstore_compression: Compressor,
    pub docstore_blocksize: usize,
    pub docstore_compress_dedicated_thread: bool,
}

/// A part of a serializer, as far as its memory use is concerned.
pub trait MemUsage {
    /// How many bytes the part holds, with whatever it is made of.
    fn mem_usage(&self) -> usize;
}

/// How many bytes the parts of a serializer hold together. A sum beyond what a `usize` can count
/// stays at the largest one. A field norms serializer that was extracted holds nothing here.
pub open spec fn total_usage(
    store: usize,
    fast_fields: usize,
    fieldnorms: Option<usize>,
    postings: usize,
) -> usize {
    let sum = store + fast_fields + postings + match fieldnorms {
        Some(fieldnorms) => fieldnorms as int,
        None => 0,
    };
    if sum <= usize::MAX {
        sum as usize
    } else {
        usize::MAX
    }
}

/// Adds up what the parts of a serializer hold.
pub fn total_mem_usage(
    store: usize,
    fast_fields: usize,
    fieldnorms: Option<usize>,
    postings: usize,
) -> (total: usize)
    ensures
        total == total_usage(store, fast_fields, fieldnorms, postings),
{
    let total = store.saturating_add(fast_fields).saturating_add(postings);
    match fieldnorms {
        Some(fieldnorms) => total.saturating_add(fieldnorms),
        None => total,
    }
}

/// Segment serializer is in charge of laying out on disk the data accumulated and sorted for a
/// segment.
pub struct SegmentSerializer<S, T, W, F, P> {
    segment: S,
    pub store_writer: T,
    fast_field_write: W,
    fieldnorms_serializer: Option<F>,
    postings_serializer: P,
    creation_stats: SegmentSerializerCreationStats,
}

/// What a [`SegmentSerializer`] is made of.
pub struct SegmentSerializerView<S, T, W, F, P> {
    pub segment: S,
    pub store_writer: T,
    pub fast_field_write: W,
    pub fieldnorms_serializer: Option<F>,
    pub postings_serializer: P,
    pub creation_stats: SegmentSerializerCreationStats,
}

impl<S, T, W, F, P> View for SegmentSerializer<S, T, W, F, P> {
    type V = SegmentSerializerView<S, T, W, F, P>;

    closed spec fn view(&self) -> SegmentSerializerView<S, T, W, F, P> {
        SegmentSerializerView {
            segment: self.segment,
            store_writer: self.store_writer,
            fast_field_write: self.fast_field_write,
            fieldnorms_serializer: self.fieldnorms_serializer,
            postings_serializer: self.postings_serializer,
            creation_stats: self.creation_stats,
        }
    }
}

/// What has to be done next to open a serializer.
pub enum OpenRequest<W> {
    /// Open a component of the segment for writing.
    OpenWrite(SegmentComponent),
    /// Create the store writer on the output of the store.
    CreateStoreWriter { write: W, settings: IndexSettings },
    /// Create the field norms serializer on the output of the field norms.
    CreateFieldNormsSerializer { write: W },
    /// Open the postings serializer of the segment.
    OpenPostings,
}

/// What was done, in reply to an [`OpenRequest`].
pub enum OpenReply<T, W, F, P> {
    Write(W),
    StoreWriter(T),
    FieldNormsSerializer(F),
    Postings(P),
}

/// What is waited for while a serializer is being opened.
#[derive(Clone, Copy, Debug, PartialEq, Eq, Structural)]
pub enum OpenStep {
    OpenStore,
    CreateStoreWriter,
    OpenFastFields,
    OpenFieldNorms,
    CreateFieldNormsSerializer,
    OpenPostings,
}

/// A serializer that is being opened: what is at hand, and what is waited for.
pub struct SegmentSerializerOpening<S, T, W, F> {
    /// The segment whose outputs are being opened.
    pub segment: S,
    /// The settings of the segment's index.
    pub settings: IndexSettings,
    pub store_writer: Option<T>,
    pub fast_field_write: Option<W>,
    pub fieldnorms_serializer: Option<F>,
    /// How long the steps so far took.
    pub creation_stats: SegmentSerializerCreationStats,
    pub step: OpenStep,
}

/// Where opening a serializer stands.
pub enum OpenProgress<S, T, W, F, P, E> {
    /// Something has to be done. With `restart_clock` the time that is reported with the reply
    /// starts here; otherwise it still counts from the request before.
    Request {
        opening: SegmentSerializerOpening<S, T, W, F>,
        request: OpenRequest<W>,
        restart_clock: bool,
    },
    /// The serializer is open.
    Opened(SegmentSerializer<S, T, W, F, P>),
    /// A step failed, and with it the whole.
    Failed(E),
}

impl<S, T, W, F> SegmentSerializerOpening<S, T, W, F> {
    /// Nothing is at hand yet, and the output of the store is waited for.
    pub open spec fn begun(segment: S, settings: IndexSettings) -> Self {
        SegmentSerializerOpening {
            segment,
            settings,
            store_writer: None,
            fast_field_write: None,
            fieldnorms_serializer: None,
            creation_stats: SegmentSerializerCreationStats::zero(),
            step: OpenStep::OpenStore,
        }
    }

    /// What the steps before the current one provided is at hand.
    pub open spec fn wf(self) -> bool {
        match self.step {
            OpenStep::OpenStore | OpenStep::CreateStoreWriter => true,
            OpenStep::OpenFastFields => self.store_writer is Some,
            OpenStep::OpenFieldNorms
            | OpenStep::CreateFieldNormsSerializer => self.store_writer is Some
                && self.fast_field_write is Some,
            OpenStep::OpenPostings => self.store_writer is Some && self.fast_field_write is Some
                && self.fieldnorms_serializer is Some,
        }
    }

    /// Whether `reply` is of the kind that is waited for.
    pub open spec fn awaits<P>(self, reply: OpenReply<T, W, F, P>) -> bool {
        match self.step {
            OpenStep::OpenStore | OpenStep::OpenFastFields | OpenStep::OpenFieldNorms => reply
                is Write,
            OpenStep::CreateStoreWriter => reply is StoreWriter,
            OpenStep::CreateFieldNormsSerializer => reply is FieldNormsSerializer,
            OpenStep::OpenPostings => reply is Postings,
        }
    }

    /// What is at hand once the awaited `reply` has come in.
    pub open spec fn with_reply<P>(self, reply: OpenReply<T, W, F, P>, elapsed: Duration) -> Self {
        let stats = self.creation_stats;
        match (self.step, reply) {
            (OpenStep::OpenStore, _) => SegmentSerializerOpening {
                creation_stats: SegmentSerializerCreationStats { store_open: elapsed, ..stats },
                step: OpenStep::CreateStoreWriter,
                ..self
            },
            (
                OpenStep::CreateStoreWriter,
                OpenReply::StoreWriter(store_writer),
            ) => SegmentSerializerOpening {
                store_writer: Some(store_writer),
                creation_stats: SegmentSerializerCreationStats {
                    store_writer_create: elapsed,
                    ..stats
                },
                step: OpenStep::OpenFastFields,
                ..self
            },
            (OpenStep::OpenFastFields, OpenReply::Write(write)) => SegmentSerializerOpening {
                fast_field_write: Some(write),
                creation_stats: SegmentSerializerCreationStats {
                    fast_fields_open: elapsed,
                    ..stats
                },
                step: OpenStep::OpenFieldNorms,
                ..self
            },
            (OpenStep::OpenFieldNorms, _) => SegmentSerializerOpening {
                step: OpenStep::CreateFieldNormsSerializer,
                ..self
            },
            (
                OpenStep::CreateFieldNormsSerializer,
                OpenReply::FieldNormsSerializer(serializer),
            ) => SegmentSerializerOpening {
                fieldnorms_serializer: Some(serializer),
                creation_stats: SegmentSerializerCreationStats {
                    fieldnorms_output_open: elapsed,
                    ..stats
                },
                step: OpenStep::OpenPostings,
                ..self
            },
            _ => self,
        }
    }

    /// What has to be done after the awaited `reply`, while something has.
    pub open spec fn request_after<P>(self, reply: OpenReply<T, W, F, P>) -> OpenRequest<W> {
        match (self.step, reply) {
            (OpenStep::OpenStore, OpenReply::Write(write)) => OpenRequest::CreateStoreWriter {
                write,
                settings: self.settings,
            },
            (OpenStep::CreateStoreWriter, _) => OpenRequest::OpenWrite(
                SegmentComponent::FastFields,
            ),
            (OpenStep::OpenFastFields, _) => OpenRequest::OpenWrite(SegmentComponent::FieldNorms),
            (
                OpenStep::OpenFieldNorms,
                OpenReply::Write(write),
            ) => OpenRequest::CreateFieldNormsSerializer { write },
            _ => OpenRequest::OpenPostings,
        }
    }

    /// The serializer that is open once the postings serializer has come in.
    pub open spec fn opened_with<P>(
        self,
        postings_serializer: P,
        elapsed: Duration,
    ) -> SegmentSerializerView<S, T, W, F, P> {
        SegmentSerializerView {
            segment: self.segment,
            store_writer: self.store_writer->0,
            fast_field_write: self.fast_field_write->0,
            fieldnorms_serializer: self.fieldnorms_serializer,
            postings_serializer,
            creation_stats: SegmentSerializerCreationStats {
                postings_open: elapsed,
                ..self.creation_stats
            },
        }
    }

    /// Takes in what came of the last request, and how long it took.
    ///
    /// An error ends the attempt. Otherwise the next request is made, until the postings
    /// serializer is there and the whole is open.
    pub fn step<P, E>(
        self,
        reply: Result<OpenReply<T, W, F, P>, E>,
        elapsed: Duration,
    ) -> (progress: OpenProgress<S, T, W, F, P, E>)
        requires
            self.wf(),
            reply matches Ok(reply) ==> self.awaits(reply),
        ensures
            match (reply, progress) {
                (Err(error), OpenProgress::Failed(reported)) => reported == error,
                (
                    Ok(OpenReply::Postings(postings_serializer)),
                    OpenProgress::Opened(serializer),
                ) => self.step == OpenStep::OpenPostings && serializer@ == self.opened_with(
                    postings_serializer,
                    elapsed,
                ),
                (Ok(reply), OpenProgress::Request { opening, request, restart_clock }) => {
                    &&& self.step != OpenStep::OpenPostings
                    &&& opening == self.with_reply(reply, elapsed)
                    &&& opening.wf()
                    &&& request == self.request_after(reply)
                    &&& restart_clock == (self.step != OpenStep::OpenFieldNorms)
                },
                _ => false,
            },
    {
        let reply = match reply {
            Ok(reply) => reply,
            Err(error) => {
                return OpenProgress::Failed(error);
            },
        };
        let mut opening = self;
        match reply {
            OpenReply::Write(write) => match opening.step {
                OpenStep::OpenStore => {
                    opening.creation_stats.store_open = elapsed;
                    opening.step = OpenStep::CreateStoreWriter;
                    let settings = opening.settings;
                    OpenProgress::Request {
                        opening,
                        request: OpenRequest::CreateStoreWriter { write, settings },
                        restart_clock: true,
                    }
                },
                OpenStep::OpenFastFields => {
                    opening.fast_field_write = Some(write);
                    opening.creation_stats.fast_fields_open = elapsed;
                    opening.step = OpenStep::OpenFieldNorms;
                    OpenProgress::Request {
                        opening,
                        request: OpenRequest::OpenWrite(SegmentComponent::FieldNorms),
                        restart_clock: true,
                    }
                },
                _ => {
                    opening.step = OpenStep::CreateFieldNormsSerializer;
                    OpenProgress::Request {
                        opening,
                        request: OpenRequest::CreateFieldNormsSerializer { write },
                        restart_clock: false,
                    }
                },
            },
            OpenReply::StoreWriter(store_writer) => {
                opening.store_writer = Some(store_writer);
                opening.creation_stats.store_writer_create = elapsed;
                opening.step = OpenStep::OpenFastFields;
                OpenProgress::Request {
                    opening,
                    request: OpenRequest::OpenWrite(SegmentComponent::FastFields),
                    restart_clock: true,
                }
            },
            OpenReply::FieldNormsSerializer(fieldnorms_serializer) => {
                opening.fieldnorms_serializer = Some(fieldnorms_serializer);
                opening.creation_stats.fieldnorms_output_open = elapsed;
                opening.step = OpenStep::OpenPostings;
                OpenProgress::Request {
                    opening,
                    request: OpenRequest::OpenPostings,
                    restart_clock: true,
                }
            },
            OpenReply::Postings(postings_serializer) => {
                let mut creation_stats = opening.creation_stats;
                creation_stats.postings_open = elapsed;
                OpenProgress::Opened(
                    SegmentSerializer {
                        segment: opening.segment,
                        store_writer: opening.store_writer.unwrap(),
                        fast_field_write: opening.fast_field_write.unwrap(),
                        fieldnorms_serializer: opening.fieldnorms_serializer,
                        postings_serializer,
                        creation_stats,
                    },
                )
            },
        }
    }
}

/// What has to be done next to close a serializer.
pub enum CloseRequest<T, W, F, P> {
    /// Close the field norms serializer.
    CloseFieldNorms(F),
    /// Terminate the output of the fast fields.
    TerminateFastFields(W),
    /// Close the postings serializer.
    ClosePostings(P),
    /// Close the store writer.
    CloseStore(T),
}

/// A serializer that is being closed: which outputs are still open once the last request is
/// answered, and what that request was.
pub enum SegmentSerializerClosing<T, W, P> {
    /// The field norms serializer is being closed.
    FieldNorms {
        fast_field_write: W,
        postings_serializer: P,
        store_writer: T,
        stats: SegmentSerializerCloseStats,
    },
    /// The output of the fast fields is being terminated.
    FastFields { postings_serializer: P, store_writer: T, stats: SegmentSerializerCloseStats },
    /// The postings serializer is being closed.
    Postings { store_writer: T, stats: SegmentSerializerCloseStats },
    /// The store writer is being closed.
    Store { stats: SegmentSerializerCloseStats },
}

/// Where closing a serializer stands.
pub enum CloseProgress<T, W, F, P, E> {
    /// Something has to be done. The time it takes is measured from here.
    Request { closing: SegmentSerializerClosing<T, W, P>, request: CloseRequest<T, W, F, P> },
    /// Everything is closed.
    Closed(SegmentSerializerCloseStats),
    /// A step failed, and with it the whole. The outputs that were still open are dropped.
    Failed(E),
}

impl<S, T, W, F, P> SegmentSerializer<S, T, W, F, P> {
    /// Begins to open a serializer for a segment: the output of the store comes first.
    pub fn for_segment<E>(segment: S, settings: IndexSettings) -> (progress: OpenProgress<
        S,
        T,
        W,
        F,
        P,
        E,
    >)
        ensures
            progress == (OpenProgress::<S, T, W, F, P, E>::Request {
                opening: SegmentSerializerOpening::begun(segment, settings),
                request: OpenRequest::OpenWrite(SegmentComponent::Store),
                restart_clock: true,
            }),
    {
        OpenProgress::Request {
            opening: SegmentSerializerOpening {
                segment,
                settings,
                store_writer: None,
                fast_field_write: None,
                fieldnorms_serializer: None,
                creation_stats: SegmentSerializerCreationStats::default(),
                step: OpenStep::OpenStore,
            },
            request: OpenRequest::OpenWrite(SegmentComponent::Store),
            restart_clock: true,
        }
    }

    /// How long the steps of opening the serializer took.
    pub fn creation_stats(&self) -> (stats: SegmentSerializerCreationStats)
        ensures
            stats == self@.creation_stats,
    {
        self.creation_stats
    }

    /// The memory used, with all parts of the serializer: the sum of what they say of themselves.
    pub fn mem_usage(&self) -> (usage: usize) where
        T: MemUsage,
        W: MemUsage,
        F: MemUsage,
        P: MemUsage,

        ensures
            exists|store: usize, fast_fields: usize, fieldnorms: Option<usize>, postings: usize|
                #[trigger] self@.parts_report(store, fast_fields, fieldnorms, postings) && usage
                    == total_usage(store, fast_fields, fieldnorms, postings),
    {
        let store = self.store_writer.mem_usage();
        let fast_fields = self.fast_field_write.mem_usage();
        let fieldnorms = match &self.fieldnorms_serializer {
            Some(fieldnorms_serializer) => Some(fieldnorms_serializer.mem_usage()),
            None => None,
        };
        let postings = self.postings_serializer.mem_usage();
        assert(self@.parts_report(store, fast_fields, fieldnorms, postings));
        total_mem_usage(store, fast_fields, fieldnorms, postings)
    }

    /// The segment being serialized.
    pub fn segment(&self) -> (segment: &S)
        ensures
            *segment == self@.segment,
    {
        &self.segment
    }

    /// Accessor to the postings serializer.
    pub fn get_postings_serializer(&mut self) -> (postings_serializer: &mut P)
        ensures
            *postings_serializer == old(self)@.postings_serializer,
            final(self)@ == (SegmentSerializerView {
                postings_serializer: *final(postings_serializer),
                ..old(self)@
            }),
    {
        &mut self.postings_serializer
    }

    /// Accessor to the output of the fast fields.
    pub fn get_fast_field_write(&mut self) -> (fast_field_write: &mut W)
        ensures
            *fast_field_write == old(self)@.fast_field_write,
            final(self)@ == (SegmentSerializerView {
                fast_field_write: *final(fast_field_write),
                ..old(self)@
            }),
    {
        &mut self.fast_field_write
    }

    /// Extracts the field norms serializer.
    ///
    /// Note the field norms serializer can only be extracted once.
    pub fn extract_fieldnorms_serializer(&mut self) -> (fieldnorms_serializer: Option<F>)
        ensures
            fieldnorms_serializer == old(self)@.fieldnorms_serializer,
            final(self)@ == old(self)@.extracted(),
    {
        self.fieldnorms_serializer.take()
    }

    /// Accessor to the store writer.
    pub fn get_store_writer(&mut self) -> (store_writer: &mut T)
        ensures
            *store_writer == old(self)@.store_writer,
            final(self)@ == (SegmentSerializerView {
                store_writer: *final(store_writer),
                ..old(self)@
            }),
    {
        &mut self.store_writer
    }

    /// Begins to finalize the segment serialization.
    pub fn close<E>(self) -> (progress: CloseProgress<T, W, F, P, E>)
        ensures
            progress == self@.closing::<E>(),
    {
        self.close_with_stats()
    }

    /// Begins to finalize the segment serialization: the field norms serializer comes first,
    /// where it was not extracted, else the output of the fast fields.
    pub fn close_with_stats<E>(self) -> (progress: CloseProgress<T, W, F, P, E>)
        ensures
            progress == self@.closing::<E>(),
    {
        let mut serializer = self;
        let stats = SegmentSerializerCloseStats::default();
        match serializer.extract_fieldnorms_serializer() {
            Some(fieldnorms_serializer) => CloseProgress::Request {
                closing: SegmentSerializerClosing::FieldNorms {
                    fast_field_write: serializer.fast_field_write,
                    postings_serializer: serializer.postings_serializer,
                    store_writer: serializer.store_writer,
                    stats,
                },
                request: CloseRequest::CloseFieldNorms(fieldnorms_serializer),
            },
            None => CloseProgress::Request {
                closing: SegmentSerializerClosing::FastFields {
                    postings_serializer: serializer.postings_serializer,
                    store_writer: serializer.store_writer,
                    stats,
                },
                request: CloseRequest::TerminateFastFields(serializer.fast_field_write),
            },
        }
    }
}

impl<S, T: MemUsage, W: MemUsage, F: MemUsage, P: MemUsage> SegmentSerializerView<S, T, W, F, P> {
    /// Each part can say of itself that it holds the given number of bytes.
    pub open spec fn parts_report(
        self,
        store: usize,
        fast_fields: usize,
        fieldnorms: Option<usize>,
        postings: usize,
    ) -> bool {
        &&& call_ensures(T::mem_usage, (&self.store_writer,), store)
        &&& call_ensures(W::mem_usage, (&self.fast_field_write,), fast_fields)
        &&& call_ensures(P::mem_usage, (&self.postings_serializer,), postings)
        &&& match (self.fieldnorms_serializer, fieldnorms) {
            (Some(serializer), Some(usage)) => call_ensures(F::mem_usage, (&serializer,), usage),
            (None, None) => true,
            _ => false,
        }
    }
}

impl<S, T, W, F, P> SegmentSerializerView<S, T, W, F, P> {
    /// The serializer without its field norms serializer.
    pub open spec fn extracted(self) -> Self {
        SegmentSerializerView { fieldnorms_serializer: None, ..self }
    }

    /// How closing the serializer begins.
    pub open spec fn closing<E>(self) -> CloseProgress<T, W, F, P, E> {
        match self.fieldnorms_serializer {
            Some(fieldnorms_serializer) => CloseProgress::Request {
                closing: SegmentSerializerClosing::FieldNorms {
                    fast_field_write: self.fast_field_write,
                    postings_serializer: self.postings_serializer,
                    store_writer: self.store_writer,
                    stats: SegmentSerializerCloseStats::zero(),
                },
                request: CloseRequest::CloseFieldNorms(fieldnorms_serializer),
            },
            None => CloseProgress::Request {
                closing: SegmentSerializerClosing::FastFields {
                    postings_serializer: self.postings_serializer,
                    store_writer: self.store_writer,
                    stats: SegmentSerializerCloseStats::zero(),
                },
                request: CloseRequest::TerminateFastFields(self.fast_field_write),
            },
        }
    }
}

impl<T, W, P> SegmentSerializerClosing<T, W, P> {
    /// Where things stand once the last request was carried out in `elapsed` time.
    pub open spec fn closed_step<F, E>(self, elapsed: Duration) -> CloseProgress<T, W, F, P, E> {
        match self {
            SegmentSerializerClosing::FieldNorms {
                fast_field_write,
                postings_serializer,
                store_writer,
                stats,
            } => CloseProgress::Request {
                closing: SegmentSerializerClosing::FastFields {
                    postings_serializer,
                    store_writer,
                    stats: SegmentSerializerCloseStats { fieldnorms_close: elapsed, ..stats },
                },
                request: CloseRequest::TerminateFastFields(fast_field_write),
            },
            SegmentSerializerClosing::FastFields {
                postings_serializer,
                store_writer,
                stats,
            } => CloseProgress::Request {
                closing: SegmentSerializerClosing::Postings {
                    store_writer,
                    stats: SegmentSerializerCloseStats { fast_fields_close: elapsed, ..stats },
                },
                request: CloseRequest::ClosePostings(postings_serializer),
            },
            SegmentSerializerClosing::Postings { store_writer, stats } => CloseProgress::Request {
                closing: SegmentSerializerClosing::Store {
                    stats: SegmentSerializerCloseStats { postings_close: elapsed, ..stats },
                },
                request: CloseRequest::CloseStore(store_writer),
            },
            SegmentSerializerClosing::Store { stats } => CloseProgress::Closed(
                SegmentSerializerCloseStats { store_writer_close: elapsed, ..stats },
            ),
        }
    }

    /// Takes in what came of the last request, and how long it took. An error ends the attempt.
    pub fn step<F, E>(self, reply: Result<(), E>, elapsed: Duration) -> (progress: CloseProgress<
        T,
        W,
        F,
        P,
        E,
    >)
        ensures
            progress == match reply {
                Ok(()) => self.closed_step::<F, E>(elapsed),
                Err(error) => CloseProgress::Failed(error),
            },
    {
        match reply {
            Ok(()) => {},
            Err(error) => {
                return CloseProgress::Failed(error);
            },
        }
        match self {
            SegmentSerializerClosing::FieldNorms {
                fast_field_write,
                postings_serializer,
                store_writer,
                stats,
            } => {
                let mut stats = stats;
                stats.fieldnorms_close = elapsed;
                CloseProgress::Request {
                    closing: SegmentSerializerClosing::FastFields {
                        postings_serializer,
                        store_writer,
                        stats,
                    },
                    request: CloseRequest::TerminateFastFields(fast_field_write),
                }
            },
            SegmentSerializerClosing::FastFields { postings_serializer, store_writer, stats } => {
                let mut stats = stats;
                stats.fast_fields_close = elapsed;
                CloseProgress::Request {
                    closing: SegmentSerializerClosing::Postings { store_writer, stats },
                    request: CloseRequest::ClosePostings(postings_serializer),
                }
            },
            SegmentSerializerClosing::Postings { store_writer, stats } => {
                let mut stats = stats;
                stats.postings_close = elapsed;
                CloseProgress::Request {
                    closing: SegmentSerializerClosing::Store { stats },
                    request: CloseRequest::CloseStore(store_writer),
                }
            },
            SegmentSerializerClosing::Store { stats } => {
                let mut stats = stats;
                stats.store_writer_close = elapsed;
                CloseProgress::Closed(stats)
            },
        }
    }
}

impl<T, W, F, P, E> CloseProgress<T, W, F, P, E> {
    /// What came of closing a serializer, without the times, or `None` while something is left to
    /// be done.
    pub fn outcome(self) -> (outcome: Option<Result<(), E>>)
        ensures
            outcome == match self {
                CloseProgress::Request { .. } => None,
                CloseProgress::Closed(_) => Some(Ok(())),
                CloseProgress::Failed(error) => Some(Err(error)),
            },
    {
        match self {
            CloseProgress::Request { .. } => None,
            CloseProgress::Closed(_) => Some(Ok(())),
            CloseProgress::Failed(error) => Some(Err(error)),
        }
    }
}

/// Opening runs through the outputs in a fixed order: the store, its writer, the fast fields, the
/// field norms, their serializer, the postings. If each step is carried out, the serializer holds
/// what the steps provided, and the time of each. The two steps of the field norms are timed as
/// one.
pub proof fn law_opening_runs_through<S, T, W, F, P>(
    segment: S,
    settings: IndexSettings,
    store_write: W,
    store_writer: T,
    fast_field_write: W,
    fieldnorms_write: W,
    fieldnorms_serializer: F,
    postings_serializer: P,
    elapsed: Seq<Duration>,
)
    ensures
        ({
            let first = SegmentSerializerOpening::<S, T, W, F>::begun(segment, settings);
            let reply1 = OpenReply::<T, W, F, P>::Write(store_write);
            let second = first.with_reply(reply1, elapsed[0]);
            let reply2 = OpenReply::<T, W, F, P>::StoreWriter(store_writer);
            let third = second.with_reply(reply2, elapsed[1]);
            let reply3 = OpenReply::<T, W, F, P>::Write(fast_field_write);
            let fourth = third.with_reply(reply3, elapsed[2]);
            let reply4 = OpenReply::<T, W, F, P>::Write(fieldnorms_write);
            let fifth = fourth.with_reply(reply4, elapsed[3]);
            let reply5 = OpenReply::<T, W, F, P>::FieldNormsSerializer(fieldnorms_serializer);
            let last = fifth.with_reply(reply5, elapsed[4]);
            let reply6 = OpenReply::<T, W, F, P>::Postings(postings_serializer);
            &&& first.wf() && first.awaits(reply1)
            &&& first.request_after(reply1) == (OpenRequest::CreateStoreWriter {
                write: store_write,
                settings,
            })
            &&& second.wf() && second.awaits(reply2)
            &&& second.request_after(reply2) == OpenRequest::<W>::OpenWrite(
                SegmentComponent::FastFields,
            )
            &&& third.wf() && third.awaits(reply3)
            &&& third.request_after(reply3) == OpenRequest::<W>::OpenWrite(
                SegmentComponent::FieldNorms,
            )
            &&& fourth.wf() && fourth.awaits(reply4)
            &&& fourth.request_after(reply4) == (OpenRequest::CreateFieldNormsSerializer {
                write: fieldnorms_write,
            })
            &&& fifth.wf() && fifth.awaits(reply5)
            &&& fifth.request_after(reply5) == OpenRequest::<W>::OpenPostings
            &&& last.wf() && last.awaits(reply6) && last.step == OpenStep::OpenPostings
            &&& last.opened_with(postings_serializer, elapsed[5]) == (SegmentSerializerView {
                segment,
                store_writer,
                fast_field_write,
                fieldnorms_serializer: Some(fieldnorms_serializer),
                postings_serializer,
                creation_stats: SegmentSerializerCreationStats {
                    store_open: elapsed[0],
                    store_writer_create: elapsed[1],
                    fast_fields_open: elapsed[2],
                    fieldnorms_output_open: elapsed[4],
                    postings_open: elapsed[5],
                },
            })
        }),
{
}

/// Closing runs through the outputs in a fixed order: the field norms, the fast fields, the
/// postings, the store. If each step is carried out, everything is closed, and the time of each is
/// reported.
pub proof fn law_closing_runs_through<S, T, W, F, P, E>(
    serializer: SegmentSerializerView<S, T, W, F, P>,
    elapsed: Seq<Duration>,
)
    requires
        serializer.fieldnorms_serializer is Some,
    ensures
        ({
            &&& serializer.closing::<E>() matches CloseProgress::Request {
                closing: first,
                request: request1,
            }
            &&& request1 == CloseRequest::<T, W, F, P>::CloseFieldNorms(
                serializer.fieldnorms_serializer->0,
            )
            &&& first.closed_step::<F, E>(elapsed[0]) matches CloseProgress::Request {
                closing: second,
                request: request2,
            }
            &&& request2 == CloseRequest::<T, W, F, P>::TerminateFastFields(
                serializer.fast_field_write,
            )
            &&& second.closed_step::<F, E>(elapsed[1]) matches CloseProgress::Request {
                closing: third,
                request: request3,
            }
            &&& request3 == CloseRequest::<T, W, F, P>::ClosePostings(
                serializer.postings_serializer,
            )
            &&& third.closed_step::<F, E>(elapsed[2]) matches CloseProgress::Request {
                closing: last,
                request: request4,
            }
            &&& request4 == CloseRequest::<T, W, F, P>::CloseStore(serializer.store_writer)
            &&& last.closed_step::<F, E>(elapsed[3]) == CloseProgress::<T, W, F, P, E>::Closed(
                SegmentSerializerCloseStats {
                    fieldnorms_close: elapsed[0],
                    fast_fields_close: elapsed[1],
                    postings_close: elapsed[2],
                    store_writer_close: elapsed[3],
                },
            )
        }),
{
}

/// The field norms serializer can be extracted only once: after that there is none, and asking
/// again changes nothing.
pub proof fn law_field_norms_are_extracted_once<S, T, W, F, P>(
    serializer: SegmentSerializerView<S, T, W, F, P>,
)
    ensures
        serializer.extracted().fieldnorms_serializer is None,
        serializer.extracted().extracted() == serializer.extracted(),
{
}

/// Once the field norms serializer was extracted, closing passes it over: it begins with the fast
/// fields, and reports no time for the field norms.
pub proof fn law_closing_after_extraction<S, T, W, F, P, E>(
    serializer: SegmentSerializerView<S, T, W, F, P>,
    elapsed: Seq<Duration>,
)
    ensures
        ({
            &&& serializer.extracted().closing::<E>() matches CloseProgress::Request {
                closing: first,
                request: request1,
            }
            &&& request1 == CloseRequest::<T, W, F, P>::TerminateFastFields(
                serializer.fast_field_write,
            )
            &&& first.closed_step::<F, E>(elapsed[0]) matches CloseProgress::Request {
                closing: second,
                request: request2,
            }
            &&& request2 == CloseRequest::<T, W, F, P>::ClosePostings(
                serializer.postings_serializer,
            )
            &&& second.closed_step::<F, E>(elapsed[1]) matches CloseProgress::Request {
                closing: last,
                request: request3,
            }
            &&& request3 == CloseRequest::<T, W, F, P>::CloseStore(serializer.store_writer)
            &&& last.closed_step::<F, E>(elapsed[2]) == CloseProgress::<T, W, F, P, E>::Closed(
                SegmentSerializerCloseStats {
                    fieldnorms_close: clock::zero_duration(),
                    fast_fields_close: elapsed[0],
                    postings_close: elapsed[1],
                    store_writer_close: elapsed[2],
                },
            )
        }),
{
}

/// The memory of a serializer is the sum of what its parts hold: without the field norms where they
/// were extracted, and no more than the largest number there is.
pub proof fn law_memory_is_the_sum_of_the_parts(
    store: usize,
    fast_fields: usize,
    fieldnorms: usize,
    postings: usize,
)
    ensures
        store + fast_fields + fieldnorms + postings <= usize::MAX ==> total_usage(
            store,
            fast_fields,
            Some(fieldnorms),
            postings,
        ) == store + fast_fields + fieldnorms + postings,
        store + fast_fields + postings <= usize::MAX ==> total_usage(
            store,
            fast_fields,
            None,
            postings,
        ) == store + fast_fields + postings,
        store + fast_fields + fieldnorms + postings > usize::MAX ==> total_usage(
            store,
            fast_fields,
            Some(fieldnorms),
            postings,
        ) == usize::MAX,
        store + fast_fields + postings > usize::MAX ==> total_usage(
            store,
            fast_fields,
            None,
            postings,
        ) == usize::MAX,
{
}

/// What counts as a part's memory is what the part itself answers, for each of the parts at hand.
pub proof fn law_each_part_answers_for_itself<
    S,
    T: MemUsage,
    W: MemUsage,
    F: MemUsage,
    P: MemUsage,
>(
    serializer: SegmentSerializerView<S, T, W, F, P>,
    store: usize,
    fast_fields: usize,
    fieldnorms: Option<usize>,
    postings: usize,
)
    requires
        serializer.parts_report(store, fast_fields, fieldnorms, postings),
    ensures
        call_ensures(T::mem_usage, (&serializer.store_writer,), store),
        call_ensures(W::mem_usage, (&serializer.fast_field_write,), fast_fields),
        call_ensures(P::mem_usage, (&serializer.postings_serializer,), postings),
        serializer.fieldnorms_serializer is Some <==> fieldnorms is Some,
        serializer.fieldnorms_serializer is Some ==> call_ensures(
            F::mem_usage,
            (&serializer.fieldnorms_serializer->0,),
            fieldnorms->0,
        ),
{
}

/// Extracting the field norms serializer leaves every other part in place.
pub proof fn law_extraction_leaves_the_other_parts<S, T, W, F, P>(
    serializer: SegmentSerializerView<S, T, W, F, P>,
)
    ensures
        serializer.extracted().segment == serializer.segment,
        serializer.extracted().store_writer == serializer.store_writer,
        serializer.extracted().fast_field_write == serializer.fast_field_write,
        serializer.extracted().postings_serializer == serializer.postings_serializer,
        serializer.extracted().creation_stats == serializer.creation_stats,
{
}

} // verus!
