//! What holds of the tokenizer on every source: a chunk between two markers
//! is read whole, an open chunk is completed by the end of the source, and
//! misplaced markers end the run.

use vstd::prelude::*;
use crate::chunk::{ChunkLineView, ChunkView};
use crate::chunk_params::chunk_params;
use crate::chunk_reader::{
    chunks_of_source,
    extended_chunk,
    feed_lines,
    fresh_reader,
    next_line_spec,
    opened_chunk,
    ChunkReaderView,
};
use crate::error::ErrorView;
use crate::parser_settings::ParserSettingsView;
use crate::text::contains;

verus! {

/// A line that holds neither marker.
pub open spec fn is_plain(settings: ParserSettingsView, text: Seq<char>) -> bool {
    !contains(text, settings.start_token) && !contains(text, settings.end_token)
}

/// Lines none of which holds a marker.
pub open spec fn all_plain(settings: ParserSettingsView, lines: Seq<Seq<char>>) -> bool {
    forall|i: int| 0 <= i < lines.len() ==> is_plain(settings, #[trigger] lines[i])
}

/// The lines `lines` as lines of a chunk, the first of them being line
/// `first` of the source.
pub open spec fn numbered(lines: Seq<Seq<char>>, first: nat) -> Seq<ChunkLineView> {
    Seq::new(lines.len(), |i: int| ChunkLineView { value: lines[i], line_number: (first + i) as nat })
}

/// What two runs of lines yield when fed one after the other.
pub open spec fn feed_in_turn(reader: ChunkReaderView, first: Seq<Seq<char>>, second: Seq<Seq<char>>)
    -> (ChunkReaderView, Result<Seq<ChunkView>, ErrorView>) {
    let (between, head) = feed_lines(reader, first);
    match head {
        Ok(early) => {
            let (after, tail) = feed_lines(between, second);
            match tail {
                Ok(late) => (after, Ok(early + late)),
                Err(error) => (after, Err(error)),
            }
        },
        Err(error) => (between, Err(error)),
    }
}

/// Feeding a source in two batches yields what feeding it at once yields:
/// where a batch ends makes no difference.
pub proof fn lemma_feed_lines_in_batches(
    reader: ChunkReaderView,
    first: Seq<Seq<char>>,
    second: Seq<Seq<char>>,
)
    ensures
        feed_lines(reader, first + second) == feed_in_turn(reader, first, second),
    decreases second.len(),
{
    if second.len() == 0 {
        assert(first + second =~= first);
        let (between, head) = feed_lines(reader, first);
        if let Ok(early) = head {
            assert(early + Seq::<ChunkView>::empty() =~= early);
        }
    } else {
        assert((first + second).drop_last() =~= first + second.drop_last());
        assert((first + second).last() == second.last());
        lemma_feed_lines_in_batches(reader, first, second.drop_last());
        let (between, head) = feed_lines(reader, first);
        if let Ok(early) = head {
            let (before, tail) = feed_lines(between, second.drop_last());
            if let Ok(late) = tail {
                let (after, outcome) = next_line_spec(before, second.last());
                if let Ok(Some(chunk)) = outcome {
                    assert((early + late).push(chunk) =~= early + late.push(chunk));
                }
            }
        }
    }
}

/// Feeding a single line is one transition.
pub proof fn lemma_feed_one_line(reader: ChunkReaderView, text: Seq<char>)
    ensures
        feed_lines(reader, seq![text]) == (match next_line_spec(reader, text) {
            (after, Ok(Some(chunk))) => (after, Ok::<Seq<ChunkView>, ErrorView>(seq![chunk])),
            (after, Ok(None)) => (after, Ok(Seq::empty())),
            (after, Err(error)) => (after, Err(error)),
        }),
{
    let lines = seq![text];
    assert(lines.drop_last() =~= Seq::<Seq<char>>::empty());
    assert(lines.last() == text);
    assert(feed_lines(reader, lines.drop_last()) == (
        reader,
        Ok::<Seq<ChunkView>, ErrorView>(Seq::empty()),
    ));
    if let (after, Ok(Some(chunk))) = next_line_spec(reader, text) {
        assert(Seq::<ChunkView>::empty().push(chunk) =~= seq![chunk]);
    }
}

/// Between chunks, lines without markers are counted and dropped.
pub proof fn lemma_plain_lines_between_chunks(reader: ChunkReaderView, lines: Seq<Seq<char>>)
    requires
        reader.current_chunk is None,
        all_plain(reader.settings, lines),
    ensures
        feed_lines(reader, lines) == (
            ChunkReaderView { current_line: reader.current_line + lines.len(), ..reader },
            Ok::<Seq<ChunkView>, ErrorView>(Seq::empty()),
        ),
    decreases lines.len(),
{
    if lines.len() > 0 {
        lemma_plain_lines_between_chunks(reader, lines.drop_last());
        assert(is_plain(reader.settings, lines[lines.len() - 1]));
    }
}

/// Inside a chunk, lines without markers are added to it, each with its
/// line number.
pub proof fn lemma_plain_lines_inside_chunk(reader: ChunkReaderView, lines: Seq<Seq<char>>)
    requires
        reader.current_chunk is Some,
        all_plain(reader.settings, lines),
    ensures
        feed_lines(reader, lines) == (
            ChunkReaderView {
                current_line: reader.current_line + lines.len(),
                current_chunk: Some(
                    ChunkView {
                        content: reader.current_chunk.unwrap().content + numbered(
                            lines,
                            reader.current_line + 1,
                        ),
                        ..reader.current_chunk.unwrap()
                    },
                ),
                ..reader
            },
            Ok::<Seq<ChunkView>, ErrorView>(Seq::empty()),
        ),
    decreases lines.len(),
{
    let chunk = reader.current_chunk.unwrap();
    if lines.len() == 0 {
        assert(chunk.content + numbered(lines, reader.current_line + 1) =~= chunk.content);
    } else {
        let earlier = lines.drop_last();
        lemma_plain_lines_inside_chunk(reader, earlier);
        assert(is_plain(reader.settings, lines[lines.len() - 1]));
        let grown = chunk.content + numbered(earlier, reader.current_line + 1);
        let line_number = reader.current_line + lines.len();
        assert(grown.push(ChunkLineView { value: lines.last(), line_number }) =~= chunk.content
            + numbered(lines, reader.current_line + 1));
    }
}

/// The chunk that the start marker `start`, at line `line` of the source,
/// opens and that holds the lines `body`.
pub open spec fn chunk_with_body(
    source_name: Seq<char>,
    start: Seq<char>,
    line: nat,
    body: Seq<Seq<char>>,
) -> Result<ChunkView, ErrorView> {
    match chunk_params(start, source_name, line) {
        Ok(params) => Ok(
            ChunkView {
                content: numbered(body, line + 1),
                ..opened_chunk(params, source_name, line)
            },
        ),
        Err(error) => Err(error),
    }
}

/// The reader after `before`, the start marker `start` and the lines `body`
/// of the chunk that the marker opens.
proof fn lemma_feed_up_to_body(
    source_name: Seq<char>,
    settings: ParserSettingsView,
    before: Seq<Seq<char>>,
    start: Seq<char>,
    body: Seq<Seq<char>>,
)
    requires
        all_plain(settings, before),
        contains(start, settings.start_token),
        all_plain(settings, body),
    ensures
        match chunk_with_body(source_name, start, before.len() + 1, body) {
            Ok(chunk) => feed_lines(
                fresh_reader(source_name, settings),
                before + seq![start] + body,
            ) == (
                ChunkReaderView {
                    source_name,
                    settings,
                    current_chunk: Some(chunk),
                    current_line: before.len() + 1 + body.len(),
                },
                Ok::<Seq<ChunkView>, ErrorView>(Seq::empty()),
            ),
            Err(error) => feed_lines(
                fresh_reader(source_name, settings),
                before + seq![start] + body,
            ).1 == Err::<Seq<ChunkView>, ErrorView>(error),
        },
{
    let reader = fresh_reader(source_name, settings);
    let at_start = ChunkReaderView { current_line: before.len(), ..reader };
    lemma_plain_lines_between_chunks(reader, before);
    lemma_feed_one_line(at_start, start);
    lemma_feed_lines_in_batches(reader, before, seq![start]);
    lemma_feed_lines_in_batches(reader, before + seq![start], body);
    let line = before.len() + 1;
    match chunk_params(start, source_name, line) {
        Ok(params) => {
            let opened = ChunkReaderView {
                current_chunk: Some(opened_chunk(params, source_name, line)),
                current_line: line,
                ..reader
            };
            assert(feed_lines(at_start, seq![start]) == (
                opened,
                Ok::<Seq<ChunkView>, ErrorView>(Seq::empty()),
            ));
            lemma_plain_lines_inside_chunk(opened, body);
            assert(Seq::<ChunkLineView>::empty() + numbered(body, line + 1) =~= numbered(
                body,
                line + 1,
            ));
            assert(Seq::<ChunkView>::empty() + Seq::<ChunkView>::empty() =~= Seq::<
                ChunkView,
            >::empty());
        },
        Err(error) => {},
    }
}

/// A chunk that is started and closed in one source is read as exactly one
/// chunk, whose content is the lines strictly between the two markers, in
/// their order and with their line numbers. Lines outside the chunk that
/// hold no marker leave no trace. The one condition on the markers is that
/// the closing line does not hold the start marker as well. Where the start
/// marker's parameters are refused, their error is the outcome.
pub proof fn lemma_closed_chunk_is_read_whole(
    source_name: Seq<char>,
    settings: ParserSettingsView,
    before: Seq<Seq<char>>,
    start: Seq<char>,
    body: Seq<Seq<char>>,
    end: Seq<char>,
    after: Seq<Seq<char>>,
)
    requires
        all_plain(settings, before),
        contains(start, settings.start_token),
        all_plain(settings, body),
        contains(end, settings.end_token),
        !contains(end, settings.start_token),
        all_plain(settings, after),
    ensures
        chunks_of_source(source_name, settings, before + seq![start] + body + seq![end] + after)
            == (match chunk_with_body(source_name, start, before.len() + 1, body) {
            Ok(chunk) => Ok::<Seq<ChunkView>, ErrorView>(seq![chunk]),
            Err(error) => Err(error),
        }),
{
    let reader = fresh_reader(source_name, settings);
    let head = before + seq![start] + body;
    lemma_feed_up_to_body(source_name, settings, before, start, body);
    lemma_feed_lines_in_batches(reader, head, seq![end]);
    lemma_feed_lines_in_batches(reader, head + seq![end], after);
    let (inside, _) = feed_lines(reader, head);
    lemma_feed_one_line(inside, end);
    match chunk_with_body(source_name, start, before.len() + 1, body) {
        Ok(chunk) => {
            let closed = ChunkReaderView {
                current_chunk: None,
                current_line: inside.current_line + 1,
                ..inside
            };
            assert(feed_lines(inside, seq![end]) == (
                closed,
                Ok::<Seq<ChunkView>, ErrorView>(seq![chunk]),
            ));
            lemma_plain_lines_between_chunks(closed, after);
            assert(Seq::<ChunkView>::empty() + seq![chunk] =~= seq![chunk]);
            assert(seq![chunk] + Seq::<ChunkView>::empty() =~= seq![chunk]);
        },
        Err(error) => {},
    }
}

/// A chunk that is still open when its source ends is not dropped: the end
/// of the source completes it, with every line after its start marker.
pub proof fn lemma_open_chunk_is_completed(
    source_name: Seq<char>,
    settings: ParserSettingsView,
    before: Seq<Seq<char>>,
    start: Seq<char>,
    body: Seq<Seq<char>>,
)
    requires
        all_plain(settings, before),
        contains(start, settings.start_token),
        all_plain(settings, body),
    ensures
        chunks_of_source(source_name, settings, before + seq![start] + body) == (
        match chunk_with_body(source_name, start, before.len() + 1, body) {
            Ok(chunk) => Ok::<Seq<ChunkView>, ErrorView>(seq![chunk]),
            Err(error) => Err(error),
        }),
{
    lemma_feed_up_to_body(source_name, settings, before, start, body);
    if let Ok(chunk) = chunk_with_body(source_name, start, before.len() + 1, body) {
        assert(Seq::<ChunkView>::empty().push(chunk) =~= seq![chunk]);
    }
}

/// A start marker inside an open chunk ends the run with a nested-chunk
/// error at its line, whatever follows.
pub proof fn lemma_nested_start_fails(
    source_name: Seq<char>,
    settings: ParserSettingsView,
    before: Seq<Seq<char>>,
    start: Seq<char>,
    body: Seq<Seq<char>>,
    nested: Seq<char>,
    rest: Seq<Seq<char>>,
)
    requires
        all_plain(settings, before),
        contains(start, settings.start_token),
        all_plain(settings, body),
        contains(nested, settings.start_token),
    ensures
        chunks_of_source(
            source_name,
            settings,
            before + seq![start] + body + seq![nested] + rest,
        ) == (match chunk_with_body(source_name, start, before.len() + 1, body) {
            Ok(chunk) => Err::<Seq<ChunkView>, ErrorView>(
                ErrorView::NestedChunk {
                    source_name,
                    line: before.len() + 1 + body.len() + 1,
                },
            ),
            Err(error) => Err(error),
        }),
{
    let reader = fresh_reader(source_name, settings);
    let head = before + seq![start] + body;
    lemma_feed_up_to_body(source_name, settings, before, start, body);
    lemma_feed_lines_in_batches(reader, head, seq![nested]);
    lemma_feed_lines_in_batches(reader, head + seq![nested], rest);
    let (inside, _) = feed_lines(reader, head);
    lemma_feed_one_line(inside, nested);
}

/// An end marker while no chunk is open ends the run with an unmatched-end
/// error at its line, whatever follows.
pub proof fn lemma_unmatched_end_fails(
    source_name: Seq<char>,
    settings: ParserSettingsView,
    before: Seq<Seq<char>>,
    end: Seq<char>,
    rest: Seq<Seq<char>>,
)
    requires
        all_plain(settings, before),
        contains(end, settings.end_token),
        !contains(end, settings.start_token),
    ensures
        chunks_of_source(source_name, settings, before + seq![end] + rest) == Err::<
            Seq<ChunkView>,
            ErrorView,
        >(ErrorView::UnmatchedEnd { source_name, line: before.len() + 1 }),
{
    let reader = fresh_reader(source_name, settings);
    let at_end = ChunkReaderView { current_line: before.len(), ..reader };
    lemma_plain_lines_between_chunks(reader, before);
    lemma_feed_one_line(at_end, end);
    lemma_feed_lines_in_batches(reader, before, seq![end]);
    lemma_feed_lines_in_batches(reader, before + seq![end], rest);
}

/// What it is for `chunk` to have been read from the lines `lines` of the
/// source `source_name`: it has a name, it starts at a line that holds the
/// start marker, and its content is the lines that follow that line, as
/// many as it has, with their line numbers; none of them holds a marker.
pub open spec fn well_read(
    chunk: ChunkView,
    source_name: Seq<char>,
    settings: ParserSettingsView,
    lines: Seq<Seq<char>>,
) -> bool {
    let first = chunk.start_line as int;
    let behind = first + chunk.content.len();
    &&& chunk.source_name == source_name
    &&& chunk.example_name.len() > 0
    &&& 1 <= first
    &&& behind <= lines.len()
    &&& contains(lines[first - 1], settings.start_token)
    &&& chunk.content == numbered(lines.subrange(first, behind), chunk.start_line + 1)
    &&& all_plain(settings, lines.subrange(first, behind))
}

/// The line behind the content of `chunk`, counted from 1.
pub open spec fn end_line(chunk: ChunkView) -> int {
    (chunk.start_line + chunk.content.len() + 1) as int
}

/// What holds of a reader and of the chunks that it has completed after the
/// first `count` lines of its source.
pub open spec fn read_soundly(
    reader: ChunkReaderView,
    completed: Seq<ChunkView>,
    source_name: Seq<char>,
    settings: ParserSettingsView,
    lines: Seq<Seq<char>>,
    count: int,
) -> bool {
    &&& reader.source_name == source_name
    &&& reader.settings == settings
    &&& reader.current_line == count
    &&& forall|i: int|
        0 <= i < completed.len() ==> well_read(
            #[trigger] completed[i],
            source_name,
            settings,
            lines,
        ) && end_line(completed[i]) <= count
    &&& forall|i: int, j: int|
        0 <= i < j < completed.len() ==> end_line(#[trigger] completed[i]) < (
        #[trigger] completed[j]).start_line
    &&& reader.current_chunk matches Some(chunk) ==> {
        &&& well_read(chunk, source_name, settings, lines)
        &&& end_line(chunk) == count + 1
        &&& forall|i: int|
            0 <= i < completed.len() ==> end_line(#[trigger] completed[i]) < chunk.start_line
    }
}

/// After any number of lines that were read without failure, the reader and
/// the chunks completed so far are sound.
proof fn lemma_read_soundly(
    source_name: Seq<char>,
    settings: ParserSettingsView,
    lines: Seq<Seq<char>>,
    count: int,
)
    requires
        0 <= count <= lines.len(),
        feed_lines(fresh_reader(source_name, settings), lines.take(count)).1 is Ok,
    ensures
        read_soundly(
            feed_lines(fresh_reader(source_name, settings), lines.take(count)).0,
            feed_lines(fresh_reader(source_name, settings), lines.take(count)).1->Ok_0,
            source_name,
            settings,
            lines,
            count,
        ),
    decreases count,
{
    let fresh = fresh_reader(source_name, settings);
    if count > 0 {
        let text = lines[count - 1];
        assert(lines.take(count).drop_last() =~= lines.take(count - 1));
        assert(lines.take(count).last() == text);
        lemma_read_soundly(source_name, settings, lines, count - 1);
        let (before, earlier) = feed_lines(fresh, lines.take(count - 1));
        let done = earlier->Ok_0;
        let (after, outcome) = next_line_spec(before, text);
        let completed = feed_lines(fresh, lines.take(count)).1->Ok_0;
        match before.current_chunk {
            Some(chunk) => {
                let first = chunk.start_line as int;
                let behind = first + chunk.content.len();
                assert(behind == count - 1);
                if contains(text, settings.end_token) {
                    assert(completed == done.push(chunk));
                    assert forall|i: int| 0 <= i < completed.len() implies well_read(
                        #[trigger] completed[i],
                        source_name,
                        settings,
                        lines,
                    ) && end_line(completed[i]) <= count by {
                        if i < done.len() {
                            assert(completed[i] == done[i]);
                        }
                    }
                    assert forall|i: int, j: int| 0 <= i < j < completed.len() implies end_line(
                        #[trigger] completed[i],
                    ) < (#[trigger] completed[j]).start_line by {
                        assert(completed[i] == done[i]);
                        if j < done.len() {
                            assert(completed[j] == done[j]);
                        }
                    }
                } else {
                    let grown = extended_chunk(chunk, text, count as nat);
                    assert(after.current_chunk == Some(grown));
                    assert(lines.subrange(first, behind + 1) =~= lines.subrange(
                        first,
                        behind,
                    ).push(text));
                    assert(grown.content =~= numbered(
                        lines.subrange(first, behind + 1),
                        chunk.start_line + 1,
                    ));
                    assert forall|i: int| 0 <= i < behind + 1 - first implies is_plain(
                        settings,
                        #[trigger] lines.subrange(first, behind + 1)[i],
                    ) by {
                        if i < behind - first {
                            assert(lines.subrange(first, behind + 1)[i] == lines.subrange(
                                first,
                                behind,
                            )[i]);
                        }
                    }
                }
            },
            None => {
                if contains(text, settings.start_token) {
                    let opened = after.current_chunk->Some_0;
                    assert(opened.content =~= numbered(
                        lines.subrange(count, count),
                        opened.start_line + 1,
                    ));
                }
            },
        }
    }
}

/// Every chunk of a source holds lines of that source and nothing else: it
/// starts at a line with the start marker, and its content is the lines
/// between that line and the line that ends it, each with its line number;
/// none of them holds a marker. The chunks come in the order of their start
/// lines, and each starts behind the line that ends the one before.
pub proof fn lemma_chunks_hold_source_lines(
    source_name: Seq<char>,
    settings: ParserSettingsView,
    lines: Seq<Seq<char>>,
)
    requires
        chunks_of_source(source_name, settings, lines) is Ok,
    ensures
        forall|i: int|
            0 <= i < chunks_of_source(source_name, settings, lines)->Ok_0.len() ==> well_read(
                #[trigger] chunks_of_source(source_name, settings, lines)->Ok_0[i],
                source_name,
                settings,
                lines,
            ),
        forall|i: int, j: int|
            0 <= i < j < chunks_of_source(source_name, settings, lines)->Ok_0.len() ==> end_line(
                #[trigger] chunks_of_source(source_name, settings, lines)->Ok_0[i],
            ) < (#[trigger] chunks_of_source(source_name, settings, lines)->Ok_0[j]).start_line,
{
    let fresh = fresh_reader(source_name, settings);
    assert(lines.take(lines.len() as int) =~= lines);
    lemma_read_soundly(source_name, settings, lines, lines.len() as int);
    let (after, completed) = feed_lines(fresh, lines);
    let done = completed->Ok_0;
    let chunks = chunks_of_source(source_name, settings, lines)->Ok_0;
    assert forall|i: int| 0 <= i < chunks.len() implies well_read(
        #[trigger] chunks[i],
        source_name,
        settings,
        lines,
    ) by {
        if i < done.len() {
            assert(chunks[i] == done[i]);
        }
    }
    assert forall|i: int, j: int| 0 <= i < j < chunks.len() implies end_line(
        #[trigger] chunks[i],
    ) < (#[trigger] chunks[j]).start_line by {
        assert(chunks[i] == done[i]);
        if j < done.len() {
            assert(chunks[j] == done[j]);
        }
    }
}

} // verus!
