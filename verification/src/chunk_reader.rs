//! The chunk tokenizer: a two-state machine over the lines of one source.
//! Between chunks it waits for a start marker; inside a chunk it collects
//! lines until the end marker, or until the source ends.

use vstd::prelude::*;
use vstd::string::*;
use crate::chunk::{Chunk, ChunkLine, ChunkLineView, ChunkView};
use crate::chunk_params::{chunk_params, extract_chunk_params, ChunkParamsView};
use crate::error::{ErrorView, ExemplifyError};
use crate::parser_settings::{ParserSettings, ParserSettingsView};
use crate::text::{chars_of, contains, contains_chars};
use crate::views::result_view;

verus! {

/// Reads the chunks of one source, line by line. The reader owns the state
/// of the tokenizer, not the source: whoever holds the source hands its
/// lines over, in order.
#[derive(Debug)]
pub struct ChunkReader {
    source_name: String,
    parser_settings: ParserSettings,
    current_chunk: Option<Chunk>,
    current_line: usize,
}

/// The mathematical value of a [`ChunkReader`]: the source it reads, its
/// markers, the chunk that is open (if one is), and how many lines it has
/// counted.
pub struct ChunkReaderView {
    pub source_name: Seq<char>,
    pub settings: ParserSettingsView,
    pub current_chunk: Option<ChunkView>,
    pub current_line: nat,
}

impl View for ChunkReader {
    type V = ChunkReaderView;

    closed spec fn view(&self) -> ChunkReaderView {
        ChunkReaderView {
            source_name: self.source_name@,
            settings: self.parser_settings@,
            current_chunk: self.current_chunk.deep_view(),
            current_line: self.current_line as nat,
        }
    }
}

/// What one pull of a [`ChunkReader`] yields.
#[derive(Debug)]
pub enum Progress {
    /// One or more chunks were completed.
    Ready(Vec<Chunk>),
    /// Lines were consumed and no chunk was completed: pull again.
    Pending,
    /// The source has ended and nothing is left to complete.
    Finished,
}

/// The mathematical value of [`Progress`].
pub enum ProgressView {
    Ready(Seq<ChunkView>),
    Pending,
    Finished,
}

impl View for Progress {
    type V = ProgressView;

    open spec fn view(&self) -> ProgressView {
        match self {
            Progress::Ready(chunks) => ProgressView::Ready(chunks.deep_view()),
            Progress::Pending => ProgressView::Pending,
            Progress::Finished => ProgressView::Finished,
        }
    }
}

impl DeepView for Progress {
    type V = ProgressView;

    open spec fn deep_view(&self) -> ProgressView {
        self@
    }
}

/// A reader before its first line: no chunk open, no line counted.
pub open spec fn fresh_reader(source_name: Seq<char>, settings: ParserSettingsView)
    -> ChunkReaderView {
    ChunkReaderView { source_name, settings, current_chunk: None, current_line: 0 }
}

/// The chunk that a start marker with parameters `params` opens at line
/// `line` of `source_name`.
pub open spec fn opened_chunk(params: ChunkParamsView, source_name: Seq<char>, line: nat)
    -> ChunkView {
    ChunkView {
        example_name: params.name,
        content: Seq::empty(),
        part_number: params.part,
        indentation: params.indentation,
        source_name,
        start_line: line,
        title: params.title,
        language: params.language,
    }
}

/// `chunk` with one more line.
pub open spec fn extended_chunk(chunk: ChunkView, text: Seq<char>, line: nat) -> ChunkView {
    ChunkView {
        content: chunk.content.push(ChunkLineView { value: text, line_number: line }),
        ..chunk
    }
}

/// One transition of the tokenizer: the reader after line `line_number` with
/// text `text`, and what the line yields: a completed chunk, nothing, or the
/// error that ends the run. A failing line leaves the reader as it was.
///
/// Between chunks, a line with the start marker opens a chunk (an end marker
/// on the same line is not looked at), a line with only the end marker is an
/// error, and any other line is dropped. Inside a chunk, a line with the
/// start marker is an error, a line with only the end marker completes the
/// chunk, and any other line is added to it.
pub open spec fn process_line_spec(reader: ChunkReaderView, text: Seq<char>, line_number: nat) -> (
    ChunkReaderView,
    Result<Option<ChunkView>, ErrorView>,
) {
    let has_start = contains(text, reader.settings.start_token);
    let has_end = contains(text, reader.settings.end_token);
    match reader.current_chunk {
        Some(chunk) => if has_start {
            (
                reader,
                Err(ErrorView::NestedChunk { source_name: reader.source_name, line: line_number }),
            )
        } else if has_end {
            (ChunkReaderView { current_chunk: None, ..reader }, Ok(Some(chunk)))
        } else {
            (
                ChunkReaderView {
                    current_chunk: Some(extended_chunk(chunk, text, line_number)),
                    ..reader
                },
                Ok(None),
            )
        },
        None => if has_start {
            match chunk_params(text, reader.source_name, line_number) {
                Ok(params) => (
                    ChunkReaderView {
                        current_chunk: Some(
                            opened_chunk(params, reader.source_name, line_number),
                        ),
                        ..reader
                    },
                    Ok(None),
                ),
                Err(error) => (reader, Err(error)),
            }
        } else if has_end {
            (
                reader,
                Err(
                    ErrorView::UnmatchedEnd { source_name: reader.source_name, line: line_number },
                ),
            )
        } else {
            (reader, Ok(None))
        },
    }
}

/// The reader after the next line of its source, which it counts, and what
/// the line yields.
pub open spec fn next_line_spec(reader: ChunkReaderView, text: Seq<char>) -> (
    ChunkReaderView,
    Result<Option<ChunkView>, ErrorView>,
) {
    let line_number = reader.current_line + 1;
    process_line_spec(ChunkReaderView { current_line: line_number, ..reader }, text, line_number)
}

/// The reader after the lines `lines`, and the chunks that they complete, in
/// the order in which they are completed. The first failing line ends the
/// run: later lines are not read, and the chunks completed before it are not
/// handed out.
pub open spec fn feed_lines(reader: ChunkReaderView, lines: Seq<Seq<char>>) -> (
    ChunkReaderView,
    Result<Seq<ChunkView>, ErrorView>,
)
    decreases lines.len(),
{
    if lines.len() == 0 {
        (reader, Ok(Seq::empty()))
    } else {
        let (before, completed) = feed_lines(reader, lines.drop_last());
        match completed {
            Ok(chunks) => {
                let (after, outcome) = next_line_spec(before, lines.last());
                match outcome {
                    Ok(Some(chunk)) => (after, Ok(chunks.push(chunk))),
                    Ok(None) => (after, Ok(chunks)),
                    Err(error) => (after, Err(error)),
                }
            },
            Err(error) => (before, Err(error)),
        }
    }
}

/// The reader after the end of its source, and the chunk that was still
/// open, which the end of the source completes.
pub open spec fn finalize_spec(reader: ChunkReaderView) -> (ChunkReaderView, Option<ChunkView>) {
    (ChunkReaderView { current_chunk: None, ..reader }, reader.current_chunk)
}

/// One pull: the reader after a batch of lines, and what the pull yields. An
/// empty batch says that the source has ended.
pub open spec fn poll_next_spec(reader: ChunkReaderView, batch: Seq<Seq<char>>) -> (
    ChunkReaderView,
    Result<ProgressView, ErrorView>,
) {
    if batch.len() == 0 {
        match reader.current_chunk {
            Some(chunk) => (finalize_spec(reader).0, Ok(ProgressView::Ready(seq![chunk]))),
            None => (reader, Ok(ProgressView::Finished)),
        }
    } else {
        let (after, completed) = feed_lines(reader, batch);
        match completed {
            Ok(chunks) => if chunks.len() > 0 {
                (after, Ok(ProgressView::Ready(chunks)))
            } else {
                (after, Ok(ProgressView::Pending))
            },
            Err(error) => (after, Err(error)),
        }
    }
}

/// The chunks of a whole source, in the order in which they end. A chunk
/// that is still open when the source ends is completed by its end.
pub open spec fn chunks_of_source(
    source_name: Seq<char>,
    settings: ParserSettingsView,
    lines: Seq<Seq<char>>,
) -> Result<Seq<ChunkView>, ErrorView> {
    let (after, completed) = feed_lines(fresh_reader(source_name, settings), lines);
    match completed {
        Ok(chunks) => match after.current_chunk {
            Some(chunk) => Ok(chunks.push(chunk)),
            None => Ok(chunks),
        },
        Err(error) => Err(error),
    }
}

impl ChunkReader {
    /// A reader for the source `source_name`, before its first line.
    pub fn new(source_name: String, parser_settings: ParserSettings) -> (reader: ChunkReader)
        ensures
            reader@ == fresh_reader(source_name@, parser_settings@),
    {
        ChunkReader { source_name, parser_settings, current_chunk: None, current_line: 0 }
    }

    /// Whether a chunk is open.
    pub fn in_chunk(&self) -> (open: bool)
        ensures
            open == self@.current_chunk.is_some(),
    {
        self.current_chunk.is_some()
    }

    /// How many lines the reader has counted.
    pub fn current_line(&self) -> (count: usize)
        ensures
            count == self@.current_line,
    {
        self.current_line
    }

    /// One transition of the tokenizer on the line `line`, which is line
    /// `line_number` of the source. Returns the chunk that the line
    /// completes, if it completes one.
    pub fn process_line(&mut self, line: &str, line_number: usize) -> (completed: Result<
        Option<Chunk>,
        ExemplifyError,
    >)
        ensures
            (final(self)@, result_view(completed)) == process_line_spec(
                old(self)@,
                line@,
                line_number as nat,
            ),
    {
        let text = chars_of(line);
        let has_start = contains_chars(&text, self.parser_settings.start_token.as_str());
        let has_end = contains_chars(&text, self.parser_settings.end_token.as_str());
        match self.current_chunk.take() {
            Some(mut chunk) => {
                if has_start {
                    self.current_chunk = Some(chunk);
                    return Err(
                        ExemplifyError::NestedChunk {
                            source_name: self.source_name.clone(),
                            line: line_number,
                        },
                    );
                }
                if has_end {
                    return Ok(Some(chunk));
                }
                let ghost before = chunk@;
                chunk.content.push(ChunkLine { value: String::from_str(line), line_number });
                proof {
                    assert(chunk@.content =~= extended_chunk(
                        before,
                        line@,
                        line_number as nat,
                    ).content);
                }
                self.current_chunk = Some(chunk);
                Ok(None)
            },
            None => {
                if has_start {
                    let params = extract_chunk_params(
                        line,
                        self.source_name.as_str(),
                        line_number,
                    )?;
                    let chunk = Chunk {
                        example_name: params.name,
                        content: Vec::new(),
                        part_number: params.part,
                        indentation: params.indentation,
                        source_name: self.source_name.clone(),
                        start_line: line_number,
                        title: params.title,
                        language: params.language,
                    };
                    proof {
                        assert(chunk@.content =~= Seq::empty());
                    }
                    self.current_chunk = Some(chunk);
                    return Ok(None);
                }
                if has_end {
                    return Err(
                        ExemplifyError::UnmatchedEnd {
                            source_name: self.source_name.clone(),
                            line: line_number,
                        },
                    );
                }
                Ok(None)
            },
        }
    }

    /// Ends the source: the chunk that is still open, if one is, is complete
    /// as it stands. This never fails.
    pub fn finalize_chunk(&mut self) -> (completed: Result<Option<Chunk>, ExemplifyError>)
        ensures
            completed is Ok,
            (final(self)@, completed->Ok_0.deep_view()) == finalize_spec(old(self)@),
    {
        Ok(self.current_chunk.take())
    }

    /// One pull of the reader on the next batch of lines of its source. An
    /// empty batch says that the source has ended: the chunk that is still
    /// open, if one is, is then complete as it stands.
    pub fn poll_next(&mut self, batch: &Vec<String>) -> (progress: Result<
        Progress,
        ExemplifyError,
    >)
        requires
            old(self)@.current_line + batch.len() <= usize::MAX,
        ensures
            (final(self)@, result_view(progress)) == poll_next_spec(
                old(self)@,
                batch.deep_view(),
            ),
    {
        let ghost start = self@;
        let ghost lines = batch.deep_view();
        if batch.len() == 0 {
            return match self.current_chunk.take() {
                Some(chunk) => {
                    let mut completed: Vec<Chunk> = Vec::new();
                    completed.push(chunk);
                    proof {
                        assert(completed.deep_view() =~= seq![chunk@]);
                    }
                    Ok(Progress::Ready(completed))
                },
                None => Ok(Progress::Finished),
            };
        }
        let mut completed: Vec<Chunk> = Vec::new();
        let mut k: usize = 0;
        proof {
            assert(completed.deep_view() =~= Seq::<ChunkView>::empty());
        }
        while k < batch.len()
            invariant
                k <= batch.len(),
                lines == batch.deep_view(),
                start == old(self)@,
                start.current_line + batch.len() <= usize::MAX,
                self@.current_line == start.current_line + k,
                feed_lines(start, lines.take(k as int)) == (
                    self@,
                    Ok::<Seq<ChunkView>, ErrorView>(completed.deep_view()),
                ),
            decreases batch.len() - k,
        {
            proof {
                assert(lines.take(k + 1).drop_last() =~= lines.take(k as int));
                assert(lines.take(k + 1).last() == batch@[k as int]@);
            }
            let line_number = self.current_line + 1;
            self.current_line = line_number;
            let ghost done = completed.deep_view();
            match self.process_line(batch[k].as_str(), line_number) {
                Ok(Some(chunk)) => {
                    completed.push(chunk);
                    proof {
                        assert(completed.deep_view() =~= done.push(chunk@));
                    }
                },
                Ok(None) => {},
                Err(error) => {
                    proof {
                        assert(feed_lines(start, lines.take(k + 1)) == (
                            self@,
                            Err::<Seq<ChunkView>, ErrorView>(error@),
                        ));
                        lemma_feed_failure_is_final(start, lines, k + 1);
                    }
                    return Err(error);
                },
            }
            k = k + 1;
        }
        proof {
            assert(lines.take(k as int) =~= lines);
        }
        if completed.len() > 0 {
            Ok(Progress::Ready(completed))
        } else {
            Ok(Progress::Pending)
        }
    }
}

/// Once a prefix of the lines has failed, the whole fails in the same way
/// and leaves the reader in the same state.
pub proof fn lemma_feed_failure_is_final(reader: ChunkReaderView, lines: Seq<Seq<char>>, k: int)
    requires
        0 <= k <= lines.len(),
        feed_lines(reader, lines.take(k)).1 is Err,
    ensures
        feed_lines(reader, lines) == feed_lines(reader, lines.take(k)),
    decreases lines.len() - k,
{
    if k == lines.len() {
        assert(lines.take(k) =~= lines);
    } else {
        assert(lines.take(k + 1).drop_last() =~= lines.take(k));
        lemma_feed_failure_is_final(reader, lines, k + 1);
    }
}

/// The chunks of the source `source_name`, whose lines are `lines`, in the
/// order in which they end.
pub fn read_chunks(source_name: &str, lines: &Vec<String>, parser_settings: &ParserSettings)
    -> (chunks: Result<Vec<Chunk>, ExemplifyError>)
    ensures
        result_view(chunks) == chunks_of_source(
            source_name@,
            parser_settings@,
            lines.deep_view(),
        ),
{
    let mut reader = ChunkReader::new(String::from_str(source_name), parser_settings.duplicate());
    let ghost fed = feed_lines(reader@, lines.deep_view());
    let mut completed: Vec<Chunk> = Vec::new();
    proof {
        assert(completed.deep_view() =~= Seq::<ChunkView>::empty());
    }
    if lines.len() > 0 {
        match reader.poll_next(lines) {
            Ok(Progress::Ready(chunks)) => {
                completed = chunks;
            },
            Ok(_) => {
                proof {
                    assert(fed.1->Ok_0 =~= completed.deep_view());
                }
            },
            Err(error) => {
                return Err(error);
            },
        }
    }
    let ghost done = completed.deep_view();
    match reader.finalize_chunk() {
        Ok(Some(chunk)) => {
            completed.push(chunk);
            proof {
                assert(completed.deep_view() =~= done.push(chunk@));
            }
        },
        _ => {},
    }
    Ok(completed)
}

} // verus!
