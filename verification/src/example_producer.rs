//! A run as a service: a queue of source names, a factory that opens them,
//! and the cache that fills as one source after the other is read.

use vstd::prelude::*;
use crate::chunk::{Chunk, ChunkView};
use crate::error::{ErrorView, ExemplifyError};
use crate::example::{Example, ExampleView};
use crate::parser_settings::{ParserSettings, ParserSettingsView};
use crate::chunk_cache::ChunkCache;
use crate::chunk_reader::read_chunks;
use crate::read_examples::{
    exhaust_reader_spec,
    finalize_examples,
    finalize_examples_spec,
    gather_onto,
    verify_example,
    verify_example_spec,
};
use crate::reader_factory::{ReaderContext, ReaderContextView, ReaderFactory};
use crate::views::result_view;

verus! {

/// Reads the examples of a queue of sources. The sources are opened by the
/// factory, one at a time and in the order of the queue; each is read to its
/// end before the next is opened.
pub struct ExampleService<Factory: ReaderFactory> {
    reader_factory: Factory,
    reader_queue: Vec<String>,
    active_reader: Option<ReaderContext>,
    parser_settings: ParserSettings,
    chunk_cache: ChunkCache,
}

/// The mathematical value of an [`ExampleService`]: the names still to be
/// opened, the source that is open, the markers, and the chunks gathered.
pub struct ExampleServiceView {
    pub reader_queue: Seq<Seq<char>>,
    pub active_reader: Option<ReaderContextView>,
    pub settings: ParserSettingsView,
    pub chunk_cache: Seq<Seq<ChunkView>>,
}

impl<Factory: ReaderFactory> View for ExampleService<Factory> {
    type V = ExampleServiceView;

    closed spec fn view(&self) -> ExampleServiceView {
        ExampleServiceView {
            reader_queue: self.reader_queue.deep_view(),
            active_reader: self.active_reader.deep_view(),
            settings: self.parser_settings@,
            chunk_cache: self.chunk_cache@,
        }
    }
}

/// The cache after the source that is open has been read to its end; the
/// cache as it is where no source is open.
pub open spec fn exhaust_current_queue_spec(service: ExampleServiceView) -> Result<
    Seq<Seq<ChunkView>>,
    ErrorView,
> {
    match service.active_reader {
        Some(reader) => exhaust_reader_spec(reader, service.settings, service.chunk_cache),
        None => Ok(service.chunk_cache),
    }
}

/// The examples of a run of the service on what the factory gave for the
/// names of its queue: the source that is open is read first, then the
/// sources `readers` in turn, and then the examples are made.
pub open spec fn run_spec(
    service: ExampleServiceView,
    readers: Seq<Result<ReaderContextView, Seq<char>>>,
) -> Result<Seq<ExampleView>, ErrorView> {
    match exhaust_current_queue_spec(service) {
        Ok(first) => match gather_onto(first, readers, service.settings) {
            Ok(groups) => finalize_examples_spec(groups),
            Err(error) => Err(error),
        },
        Err(error) => Err(error),
    }
}

impl<Factory: ReaderFactory> ExampleService<Factory> {
    /// The factory that opens the sources.
    pub closed spec fn factory(&self) -> Factory {
        self.reader_factory
    }

    /// A service for the sources named in `reader_queue`, before any of them
    /// is opened.
    pub fn new(reader_queue: Vec<String>, reader_factory: Factory, parser_settings: ParserSettings)
        -> (service: ExampleService<Factory>)
        ensures
            service.factory() == reader_factory,
            service@ == (ExampleServiceView {
                reader_queue: reader_queue.deep_view(),
                active_reader: None,
                settings: parser_settings@,
                chunk_cache: Seq::empty(),
            }),
    {
        ExampleService {
            reader_queue,
            reader_factory,
            parser_settings,
            active_reader: None,
            chunk_cache: ChunkCache::new(),
        }
    }

    /// How many sources are still to be opened.
    pub fn queued(&self) -> (count: usize)
        ensures
            count == self@.reader_queue.len(),
    {
        self.reader_queue.len()
    }

    /// Takes the first name from the queue and has the factory open it. What
    /// the factory gives is the open source from then on; where it gives a
    /// failure, the run has failed with it. With an empty queue no source is
    /// open afterwards.
    pub fn process_queue(&mut self) -> (opened: Result<(), ExemplifyError>)
        ensures
            final(self).factory() == old(self).factory(),
            final(self)@.settings == old(self)@.settings,
            final(self)@.chunk_cache == old(self)@.chunk_cache,
            old(self)@.reader_queue.len() == 0 ==> opened is Ok && final(self)@.reader_queue
                == old(self)@.reader_queue && final(self)@.active_reader is None,
            old(self)@.reader_queue.len() > 0 ==> final(self)@.reader_queue == old(
                self,
            )@.reader_queue.skip(1) && (match opened {
                Ok(_) => final(self)@.active_reader is Some && old(self).factory().opens(
                    old(self)@.reader_queue[0],
                    Ok(final(self)@.active_reader->Some_0),
                ),
                Err(error) => final(self)@.active_reader is None && error@ is Source && old(
                    self,
                ).factory().opens(old(self)@.reader_queue[0], Err(error@->Source_message)),
            }),
    {
        if self.reader_queue.len() == 0 {
            self.active_reader = None;
            return Ok(());
        }
        let ghost queue = self.reader_queue.deep_view();
        let next = self.reader_queue.remove(0);
        proof {
            assert(next@ == queue[0]);
            assert(self.reader_queue.deep_view() =~= queue.skip(1));
        }
        match self.reader_factory.make_reader(next) {
            Ok(reader) => {
                self.active_reader = Some(reader);
                Ok(())
            },
            Err(message) => {
                self.active_reader = None;
                Err(ExemplifyError::Source { message })
            },
        }
    }

    /// Reads the source that is open to its end and adds its chunks to the
    /// cache. Afterwards no source is open. Where the source fails, the
    /// cache stays as it was.
    pub fn exhaust_current_queue(&mut self) -> (read: Result<(), ExemplifyError>)
        ensures
            final(self).factory() == old(self).factory(),
            final(self)@.settings == old(self)@.settings,
            final(self)@.reader_queue == old(self)@.reader_queue,
            final(self)@.active_reader is None,
            match exhaust_current_queue_spec(old(self)@) {
                Ok(groups) => read is Ok && final(self)@.chunk_cache == groups,
                Err(error) => read is Err && read->Err_0@ == error && final(self)@.chunk_cache
                    == old(self)@.chunk_cache,
            },
    {
        match self.active_reader.take() {
            Some(reader) => {
                let chunks = read_chunks(
                    reader.source_name.as_str(),
                    &reader.lines,
                    &self.parser_settings,
                )?;
                let mut cache = ChunkCache::new();
                core::mem::swap(&mut cache, &mut self.chunk_cache);
                self.chunk_cache = cache.add_all(chunks);
                Ok(())
            },
            None => Ok(()),
        }
    }

    /// Checks the part numbers of the chunks of one example.
    pub fn verify_example(&self, chunks: &Vec<Chunk>) -> (verdict: Result<(), ExemplifyError>)
        ensures
            result_view(verdict) == verify_example_spec(chunks.deep_view()),
    {
        verify_example(chunks)
    }

    /// Runs the service to its end: reads the source that is open, if one
    /// is, then opens and reads every source of the queue in turn, and makes
    /// the examples of all chunks gathered. The outcome is that of
    /// [`run_spec`] on what the factory gave for the names of the queue, up
    /// to the first failure.
    pub fn read_examples(self) -> (examples: Result<Vec<Example>, ExemplifyError>)
        ensures
            exists|readers: Seq<Result<ReaderContextView, Seq<char>>>|
                {
                    &&& readers.len() <= self@.reader_queue.len()
                    &&& forall|i: int|
                        0 <= i < readers.len() ==> self.factory().opens(
                            self@.reader_queue[i],
                            #[trigger] readers[i],
                        )
                    &&& examples is Ok ==> readers.len() == self@.reader_queue.len()
                    &&& result_view(examples) == #[trigger] run_spec(self@, readers)
                },
    {
        let ghost start = self@;
        let ghost queue = self@.reader_queue;
        let ghost settings = self@.settings;
        let ghost factory = self.factory();
        let mut service = self;
        let ghost mut readers: Seq<Result<ReaderContextView, Seq<char>>> = Seq::empty();
        match service.exhaust_current_queue() {
            Ok(_) => {},
            Err(error) => {
                proof {
                    assert(run_spec(start, readers) == Err::<Seq<ExampleView>, ErrorView>(
                        error@,
                    ));
                }
                return Err(error);
            },
        }
        let ghost first = service@.chunk_cache;
        while service.reader_queue.len() > 0
            invariant
                service.factory() == factory,
                service@.settings == settings,
                service@.active_reader is None,
                factory == self.factory(),
                start == self@,
                queue == start.reader_queue,
                settings == start.settings,
                exhaust_current_queue_spec(start) == Ok::<Seq<Seq<ChunkView>>, ErrorView>(first),
                readers.len() <= queue.len(),
                service@.reader_queue == queue.skip(readers.len() as int),
                forall|i: int|
                    0 <= i < readers.len() ==> factory.opens(queue[i], #[trigger] readers[i]),
                gather_onto(first, readers, settings) == Ok::<Seq<Seq<ChunkView>>, ErrorView>(
                    service@.chunk_cache,
                ),
            decreases service.reader_queue.len(),
        {
            let ghost before = readers;
            let ghost at = readers.len() as int;
            proof {
                assert(service@.reader_queue.len() == service.reader_queue.len());
                assert(service@.reader_queue[0] == queue[at]);
                assert(queue.skip(at).skip(1) =~= queue.skip(at + 1));
            }
            match service.process_queue() {
                Ok(_) => {
                    proof {
                        readers = before.push(Ok(service@.active_reader->Some_0));
                        assert(readers.drop_last() =~= before);
                    }
                },
                Err(error) => {
                    proof {
                        readers = before.push(Err(error@->Source_message));
                        assert(readers.drop_last() =~= before);
                        assert(run_spec(start, readers) == Err::<Seq<ExampleView>, ErrorView>(
                            error@,
                        ));
                    }
                    return Err(error);
                },
            }
            match service.exhaust_current_queue() {
                Ok(_) => {},
                Err(error) => {
                    proof {
                        assert(run_spec(start, readers) == Err::<Seq<ExampleView>, ErrorView>(
                            error@,
                        ));
                    }
                    return Err(error);
                },
            }
        }
        proof {
            assert(service@.reader_queue.len() == service.reader_queue.len());
            assert(readers.len() == queue.len());
        }
        let examples = finalize_examples(service.chunk_cache);
        proof {
            assert(result_view(examples) == run_spec(start, readers));
        }
        examples
    }
}

} // verus!
