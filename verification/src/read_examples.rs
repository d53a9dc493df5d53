//! The example assembler: gathers the chunks of all sources by example name,
//! checks their part numbers, orders them, normalizes their indentation and
//! joins them into examples.

use std::collections::HashSet;
use vstd::prelude::*;
use vstd::std_specs::hash::group_hash_axioms;
use vstd::string::*;
use crate::chunk::{line_values, Chunk, ChunkLine, ChunkView};
use crate::chunk_cache::{group_name, well_grouped, with_chunks, ChunkCache};
use crate::chunk_reader::{chunks_of_source, read_chunks};
use crate::error::{ErrorView, ExemplifyError};
use crate::example::{Example, ExampleView};
use crate::parser_settings::{ParserSettings, ParserSettingsView};
use crate::reader_factory::{ReaderContext, ReaderContextView};
use crate::text::{chars_of, count_leading_spaces, leading_spaces, spaces, spaces_string};
use crate::views::result_view;

verus! {

/// The smaller of two numbers.
pub open spec fn smaller(a: nat, b: nat) -> nat {
    if a <= b {
        a
    } else {
        b
    }
}

/// The smallest number of leading spaces among the non-empty lines of
/// `lines`; `None` where every line is empty.
pub open spec fn min_indent(lines: Seq<Seq<char>>) -> Option<nat>
    decreases lines.len(),
{
    if lines.len() == 0 {
        None
    } else {
        let earlier = min_indent(lines.drop_last());
        let line = lines.last();
        if line.len() == 0 {
            earlier
        } else {
            match earlier {
                Some(least) => Some(smaller(least, leading_spaces(line))),
                None => Some(leading_spaces(line)),
            }
        }
    }
}

/// `line` without its first `count` characters, or without all of them where
/// it has fewer.
pub open spec fn strip(line: Seq<char>, count: nat) -> Seq<char> {
    line.skip(smaller(count, line.len()) as int)
}

/// The lines `lines`, each without as many leading characters as the least
/// indented non-empty line has leading spaces. Empty lines stay empty, and
/// the order of the lines is kept.
pub open spec fn left_align_spec(lines: Seq<Seq<char>>) -> Seq<Seq<char>> {
    match min_indent(lines) {
        Some(least) => Seq::new(lines.len(), |i: int| strip(lines[i], least)),
        None => lines,
    }
}

/// The lines `lines`, each behind `indentation` spaces.
pub open spec fn indent_spec(lines: Seq<Seq<char>>, indentation: nat) -> Seq<Seq<char>> {
    Seq::new(lines.len(), |i: int| spaces(indentation) + lines[i])
}

/// The lines `lines` with their indentation normalized: left-aligned, then
/// indented by `indentation`.
pub open spec fn normalize_spec(lines: Seq<Seq<char>>, indentation: nat) -> Seq<Seq<char>> {
    indent_spec(left_align_spec(lines), indentation)
}

/// The smallest number of leading spaces among the non-empty lines.
fn least_indent(content: &Vec<String>) -> (least: Option<usize>)
    ensures
        match least {
            Some(count) => min_indent(content.deep_view()) == Some(count as nat),
            None => min_indent(content.deep_view()) is None,
        },
{
    let ghost all = content.deep_view();
    let mut least: Option<usize> = None;
    let mut k: usize = 0;
    while k < content.len()
        invariant
            k <= content.len(),
            all == content.deep_view(),
            match least {
                Some(count) => min_indent(all.take(k as int)) == Some(count as nat),
                None => min_indent(all.take(k as int)) is None,
            },
        decreases content.len() - k,
    {
        proof {
            assert(all.take(k + 1).drop_last() =~= all.take(k as int));
            assert(all.take(k + 1).last() == content@[k as int]@);
        }
        let chars = chars_of(content[k].as_str());
        if chars.len() > 0 {
            let indent = count_leading_spaces(&chars);
            least = match least {
                Some(count) => if indent < count {
                    Some(indent)
                } else {
                    Some(count)
                },
                None => Some(indent),
            };
        }
        k = k + 1;
    }
    proof {
        assert(all.take(k as int) =~= all);
    }
    least
}

/// Aligns the lines so that the least indented non-empty line starts at the
/// left edge. Every line loses as many leading characters as that line has
/// leading spaces; a line that is shorter loses all it has.
pub fn left_align(content: Vec<String>) -> (aligned: Vec<String>)
    ensures
        aligned.deep_view() == left_align_spec(content.deep_view()),
{
    let ghost all = content.deep_view();
    match least_indent(&content) {
        None => content,
        Some(least) => {
            let mut aligned: Vec<String> = Vec::new();
            let mut k: usize = 0;
            while k < content.len()
                invariant
                    k <= content.len(),
                    all == content.deep_view(),
                    aligned.len() == k,
                    forall|i: int| 0 <= i < k ==> #[trigger] aligned@[i]@ == strip(all[i], least as nat),
                decreases content.len() - k,
            {
                let line = content[k].as_str();
                let length = line.unicode_len();
                let from = if least < length {
                    least
                } else {
                    length
                };
                let stripped = String::from_str(line.substring_char(from, length));
                proof {
                    assert(all[k as int] == line@);
                    assert(line@.subrange(from as int, length as int) =~= strip(
                        line@,
                        least as nat,
                    ));
                }
                aligned.push(stripped);
                k = k + 1;
            }
            proof {
                assert(aligned.deep_view() =~= left_align_spec(all));
            }
            aligned
        },
    }
}

/// Puts `indentation` spaces in front of every line.
pub fn indent(content: Vec<String>, indentation: u32) -> (indented: Vec<String>)
    ensures
        indented.deep_view() == indent_spec(content.deep_view(), indentation as nat),
{
    let ghost all = content.deep_view();
    let mut indented: Vec<String> = Vec::new();
    let mut k: usize = 0;
    while k < content.len()
        invariant
            k <= content.len(),
            all == content.deep_view(),
            indented.len() == k,
            forall|i: int| 0 <= i < k ==> #[trigger] indented@[i]@ == spaces(indentation as nat) + all[i],
        decreases content.len() - k,
    {
        let mut line = spaces_string(indentation);
        line.append(content[k].as_str());
        proof {
            assert(all[k as int] == content@[k as int]@);
        }
        indented.push(line);
        k = k + 1;
    }
    proof {
        assert(indented.deep_view() =~= indent_spec(all, indentation as nat));
    }
    indented
}

/// The chunk at `at` repeats the part number of an earlier chunk.
pub open spec fn repeats_part(chunks: Seq<ChunkView>, at: int) -> bool {
    &&& chunks[at].part_number is Some
    &&& exists|earlier: int|
        0 <= earlier < at && (#[trigger] chunks[earlier]).part_number == chunks[at].part_number
}

/// The chunk at `at` breaks the rules for the chunks of one example: it
/// repeats a part number, or it has none although the example has other
/// chunks.
pub open spec fn offends(chunks: Seq<ChunkView>, at: int) -> bool {
    match chunks[at].part_number {
        Some(_) => repeats_part(chunks, at),
        None => chunks.len() > 1,
    }
}

/// `at` is the first chunk that breaks the rules.
pub open spec fn is_first_offender(chunks: Seq<ChunkView>, at: int) -> bool {
    &&& 0 <= at < chunks.len()
    &&& offends(chunks, at)
    &&& forall|earlier: int| 0 <= earlier < at ==> !offends(chunks, earlier)
}

/// The error that reports an offending chunk.
pub open spec fn offence(chunk: ChunkView) -> ErrorView {
    match chunk.part_number {
        Some(part_number) => ErrorView::DuplicatePart {
            name: chunk.example_name,
            part_number,
            source_name: chunk.source_name,
            line: chunk.start_line,
        },
        None => ErrorView::MissingPartNumber {
            name: chunk.example_name,
            source_name: chunk.source_name,
            line: chunk.start_line,
        },
    }
}

/// Whether the chunks of one example may stand together: where there are
/// several, each must have a part number, and no two may share one. The
/// first chunk that breaks a rule is the one reported.
pub open spec fn verify_example_spec(chunks: Seq<ChunkView>) -> Result<(), ErrorView> {
    if exists|at: int| is_first_offender(chunks, at) {
        Err(offence(chunks[choose|at: int| is_first_offender(chunks, at)]))
    } else {
        Ok(())
    }
}

/// There is at most one first offender.
pub proof fn lemma_first_offender(chunks: Seq<ChunkView>, at: int)
    requires
        is_first_offender(chunks, at),
    ensures
        verify_example_spec(chunks) == Err::<(), ErrorView>(offence(chunks[at])),
{
    let chosen = choose|at: int| is_first_offender(chunks, at);
    if chosen < at {
        assert(!offends(chunks, chosen));
    }
    if at < chosen {
        assert(!offends(chunks, at));
    }
}

/// Where no chunk offends, the example is in order.
pub proof fn lemma_no_offender(chunks: Seq<ChunkView>)
    requires
        forall|at: int| 0 <= at < chunks.len() ==> !offends(chunks, at),
    ensures
        verify_example_spec(chunks) == Ok::<(), ErrorView>(()),
{
}

/// Checks the part numbers of the chunks of one example.
pub fn verify_example(chunks: &Vec<Chunk>) -> (verdict: Result<(), ExemplifyError>)
    ensures
        result_view(verdict) == verify_example_spec(chunks.deep_view()),
{
    broadcast use group_hash_axioms;

    let ghost all = chunks.deep_view();
    let mut part_set: HashSet<u32> = HashSet::new();
    let mut k: usize = 0;
    while k < chunks.len()
        invariant
            k <= chunks.len(),
            all == chunks.deep_view(),
            forall|earlier: int| 0 <= earlier < k ==> !offends(all, earlier),
            forall|part: u32| #[trigger]
                part_set@.contains(part) <==> exists|j: int|
                    0 <= j < k && (#[trigger] all[j]).part_number == Some(part),
        decreases chunks.len() - k,
    {
        let chunk = &chunks[k];
        proof {
            assert(all[k as int] == chunk@);
        }
        match chunk.part_number {
            Some(part) => {
                if part_set.contains(&part) {
                    proof {
                        let j = choose|j: int|
                            0 <= j < k && (#[trigger] all[j]).part_number == Some(part);
                        assert(repeats_part(all, k as int));
                        lemma_first_offender(all, k as int);
                    }
                    return Err(
                        ExemplifyError::DuplicatePart {
                            name: chunk.example_name.clone(),
                            part_number: part,
                            source_name: chunk.source_name.clone(),
                            line: chunk.start_line,
                        },
                    );
                }
                part_set.insert(part);
                proof {
                    assert(!repeats_part(all, k as int));
                }
            },
            None => {
                if chunks.len() > 1 {
                    proof {
                        lemma_first_offender(all, k as int);
                    }
                    return Err(
                        ExemplifyError::MissingPartNumber {
                            name: chunk.example_name.clone(),
                            source_name: chunk.source_name.clone(),
                            line: chunk.start_line,
                        },
                    );
                }
            },
        }
        k = k + 1;
    }
    proof {
        lemma_no_offender(all);
    }
    Ok(())
}

/// The number by which a chunk is ordered within its example: its part
/// number, or 0 where it has none.
pub open spec fn part_key(chunk: ChunkView) -> u32 {
    match chunk.part_number {
        Some(part_number) => part_number,
        None => 0,
    }
}

/// Where a chunk with key `key` goes into chunks that are in order: behind
/// the last chunk whose key is not greater.
pub open spec fn insert_position(sorted: Seq<ChunkView>, key: u32) -> int
    decreases sorted.len(),
{
    if sorted.len() == 0 {
        0
    } else if part_key(sorted.last()) <= key {
        sorted.len() as int
    } else {
        insert_position(sorted.drop_last(), key)
    }
}

/// The chunks in ascending order of their keys; chunks with the same key
/// stay in the order in which they came.
pub open spec fn sort_by_part(chunks: Seq<ChunkView>) -> Seq<ChunkView>
    decreases chunks.len(),
{
    if chunks.len() == 0 {
        Seq::empty()
    } else {
        let sorted = sort_by_part(chunks.drop_last());
        sorted.insert(insert_position(sorted, part_key(chunks.last())), chunks.last())
    }
}

/// An insert position lies within the chunks, or just behind them.
pub proof fn lemma_insert_position_bounds(sorted: Seq<ChunkView>, key: u32)
    ensures
        0 <= insert_position(sorted, key) <= sorted.len(),
    decreases sorted.len(),
{
    if sorted.len() > 0 && part_key(sorted.last()) > key {
        lemma_insert_position_bounds(sorted.drop_last(), key);
    }
}

/// The number by which a chunk is ordered within its example.
fn key_of(chunk: &Chunk) -> (key: u32)
    ensures
        key == part_key(chunk@),
{
    match chunk.part_number {
        Some(part_number) => part_number,
        None => 0,
    }
}

/// Where a chunk with key `key` goes into `sorted`.
fn position_for(sorted: &Vec<Chunk>, key: u32) -> (at: usize)
    ensures
        at == insert_position(sorted.deep_view(), key),
        at <= sorted.len(),
{
    let ghost all = sorted.deep_view();
    let mut at: usize = sorted.len();
    proof {
        assert(all.take(at as int) =~= all);
    }
    while at > 0 && key_of(&sorted[at - 1]) > key
        invariant
            at <= sorted.len(),
            all == sorted.deep_view(),
            insert_position(all, key) == insert_position(all.take(at as int), key),
        decreases at,
    {
        proof {
            assert(all.take(at as int).drop_last() =~= all.take(at - 1));
            assert(all.take(at as int).last() == sorted@[at - 1]@);
        }
        at = at - 1;
    }
    proof {
        if at > 0 {
            assert(all.take(at as int).last() == sorted@[at - 1]@);
        }
    }
    at
}

/// Orders the chunks of one example by part number, ascending. A chunk
/// without a part number counts as part 0, and chunks with the same number
/// stay in the order in which they came.
pub fn sort_chunks(chunks: Vec<Chunk>) -> (sorted: Vec<Chunk>)
    ensures
        sorted.deep_view() == sort_by_part(chunks.deep_view()),
{
    let ghost all = chunks.deep_view();
    let mut chunks = chunks;
    let mut sorted: Vec<Chunk> = Vec::new();
    let ghost mut taken: int = 0;
    proof {
        assert(all.take(0) =~= Seq::<ChunkView>::empty());
        assert(sorted.deep_view() =~= Seq::<ChunkView>::empty());
        assert(chunks.deep_view() =~= all.skip(0));
    }
    while chunks.len() > 0
        invariant
            0 <= taken <= all.len(),
            chunks.deep_view() == all.skip(taken),
            sorted.deep_view() == sort_by_part(all.take(taken)),
        decreases chunks.len(),
    {
        let ghost left = chunks.deep_view();
        let ghost done = sorted.deep_view();
        proof {
            assert(left.len() == chunks@.len());
            assert(left[0] == all[taken]);
        }
        let chunk = chunks.remove(0);
        let at = position_for(&sorted, key_of(&chunk));
        sorted.insert(at, chunk);
        proof {
            assert(chunk@ == left[0]);
            assert(chunks.deep_view() =~= left.skip(1));
            assert(left.skip(1) =~= all.skip(taken + 1));
            assert(all.take(taken + 1).drop_last() =~= all.take(taken));
            assert(all.take(taken + 1).last() == all[taken]);
            assert(sorted.deep_view() =~= done.insert(at as int, chunk@));
            taken = taken + 1;
        }
    }
    proof {
        assert(all.take(taken) =~= all);
    }
    sorted
}

/// The lines that a chunk gives to its example: its own lines where it asks
/// for no indentation, and otherwise its lines left-aligned and then
/// indented by what it asks for.
pub open spec fn normalized_lines(chunk: ChunkView) -> Seq<Seq<char>> {
    match chunk.indentation {
        Some(indentation) => normalize_spec(chunk.lines(), indentation as nat),
        None => chunk.lines(),
    }
}

/// The lines of the chunks `chunks`, one chunk after the other.
pub open spec fn joined_content(chunks: Seq<ChunkView>) -> Seq<Seq<char>> {
    chunks.map_values(|chunk: ChunkView| normalized_lines(chunk)).flatten()
}

/// An attribute counts as given where it is there and not empty.
pub open spec fn is_given(attribute: Option<Seq<char>>) -> bool {
    attribute matches Some(text) && text.len() > 0
}

/// The title of the first chunk that gives one.
pub open spec fn first_title(chunks: Seq<ChunkView>) -> Option<Seq<char>>
    decreases chunks.len(),
{
    if chunks.len() == 0 {
        None
    } else {
        match first_title(chunks.drop_last()) {
            Some(title) => Some(title),
            None => if is_given(chunks.last().title) {
                chunks.last().title
            } else {
                None
            },
        }
    }
}

/// The language of the first chunk that gives one.
pub open spec fn first_language(chunks: Seq<ChunkView>) -> Option<Seq<char>>
    decreases chunks.len(),
{
    if chunks.len() == 0 {
        None
    } else {
        match first_language(chunks.drop_last()) {
            Some(language) => Some(language),
            None => if is_given(chunks.last().language) {
                chunks.last().language
            } else {
                None
            },
        }
    }
}

/// The example that the chunks of one group make: their lines in part
/// order, under the name of the group, with the first title and the first
/// language that a chunk gives, in part order.
pub open spec fn example_of(chunks: Seq<ChunkView>) -> ExampleView {
    let sorted = sort_by_part(chunks);
    ExampleView {
        name: group_name(chunks),
        content: joined_content(sorted),
        title: first_title(sorted),
        language: first_language(sorted),
        id: None,
    }
}

/// The example of one group, where its chunks may stand together.
pub open spec fn assemble_spec(chunks: Seq<ChunkView>) -> Result<ExampleView, ErrorView> {
    match verify_example_spec(chunks) {
        Ok(_) => Ok(example_of(chunks)),
        Err(error) => Err(error),
    }
}

/// The examples of all groups, in the order of the groups. The first group
/// whose chunks may not stand together ends the run: no example is handed
/// out then.
pub open spec fn finalize_examples_spec(groups: Seq<Seq<ChunkView>>) -> Result<
    Seq<ExampleView>,
    ErrorView,
>
    decreases groups.len(),
{
    if groups.len() == 0 {
        Ok(Seq::empty())
    } else {
        match finalize_examples_spec(groups.drop_last()) {
            Ok(examples) => match assemble_spec(groups.last()) {
                Ok(example) => Ok(examples.push(example)),
                Err(error) => Err(error),
            },
            Err(error) => Err(error),
        }
    }
}

/// Once a prefix of the groups has failed, the whole fails with the same
/// error.
pub proof fn lemma_finalize_failure_is_final(groups: Seq<Seq<ChunkView>>, k: int)
    requires
        0 <= k <= groups.len(),
        finalize_examples_spec(groups.take(k)) is Err,
    ensures
        finalize_examples_spec(groups) == finalize_examples_spec(groups.take(k)),
    decreases groups.len() - k,
{
    if k == groups.len() {
        assert(groups.take(k) =~= groups);
    } else {
        assert(groups.take(k + 1).drop_last() =~= groups.take(k));
        lemma_finalize_failure_is_final(groups, k + 1);
    }
}

/// The text of the lines of a chunk, leaving the line numbers behind.
fn lines_of(content: Vec<ChunkLine>) -> (lines: Vec<String>)
    ensures
        lines.deep_view() == line_values(content.deep_view()),
{
    let ghost all = content.deep_view();
    let mut lines: Vec<String> = Vec::new();
    for line in it: content
        invariant
            it.seq().len() == all.len(),
            forall|i: int| 0 <= i < all.len() ==> (#[trigger] it.seq()[i])@ == all[i],
            lines.len() == it.index(),
            forall|i: int| 0 <= i < it.index() ==> (#[trigger] lines@[i])@ == all[i].value,
    {
        lines.push(line.value);
    }
    proof {
        assert(lines.deep_view() =~= line_values(all));
    }
    lines
}

/// The attribute, where it is given.
fn given(attribute: Option<String>) -> (kept: Option<String>)
    ensures
        kept.deep_view() == (if is_given(attribute.deep_view()) {
            attribute.deep_view()
        } else {
            None
        }),
{
    match attribute {
        Some(text) => if text.as_str().unicode_len() > 0 {
            Some(text)
        } else {
            None
        },
        None => None,
    }
}

/// Makes the example of one group of chunks, which must not be empty.
fn assemble(chunks: Vec<Chunk>) -> (example: Result<Example, ExemplifyError>)
    requires
        chunks.len() > 0,
    ensures
        result_view(example) == assemble_spec(chunks.deep_view()),
{
    let ghost group = chunks.deep_view();
    verify_example(&chunks)?;
    let name = chunks[0].example_name.clone();
    proof {
        assert(group[0] == chunks@[0]@);
    }
    let sorted = sort_chunks(chunks);
    let ghost all = sorted.deep_view();
    let ghost pieces = all.map_values(|chunk: ChunkView| normalized_lines(chunk));
    let mut content: Vec<String> = Vec::new();
    let mut title: Option<String> = None;
    let mut language: Option<String> = None;
    proof {
        assert(content.deep_view() =~= Seq::<Seq<char>>::empty());
        assert(pieces.take(0) =~= Seq::<Seq<Seq<char>>>::empty());
    }
    for chunk in it: sorted
        invariant
            it.seq().len() == all.len(),
            forall|i: int| 0 <= i < all.len() ==> (#[trigger] it.seq()[i])@ == all[i],
            pieces == all.map_values(|chunk: ChunkView| normalized_lines(chunk)),
            content.deep_view() == pieces.take(it.index() as int).flatten(),
            title.deep_view() == first_title(all.take(it.index() as int)),
            language.deep_view() == first_language(all.take(it.index() as int)),
    {
        let ghost k = it.index() as int;
        let ghost before = content.deep_view();
        proof {
            assert(chunk@ == all[k]);
            assert(all.take(k + 1).drop_last() =~= all.take(k));
            assert(all.take(k + 1).last() == all[k]);
        }
        if title.is_none() {
            title = given(chunk.title);
        }
        if language.is_none() {
            language = given(chunk.language);
        }
        let lines = lines_of(chunk.content);
        let mut lines = match chunk.indentation {
            Some(indentation) => indent(left_align(lines), indentation),
            None => lines,
        };
        proof {
            assert(lines.deep_view() == normalized_lines(all[k]));
            assert(pieces.take(k + 1) =~= pieces.take(k).push(pieces[k]));
            pieces.take(k).lemma_flatten_push(pieces[k]);
        }
        let ghost piece = lines.deep_view();
        content.append(&mut lines);
        proof {
            assert(content.deep_view() =~= before + piece);
        }
    }
    proof {
        assert(all.take(all.len() as int) =~= all);
        assert(pieces.take(all.len() as int) =~= pieces);
    }
    Ok(Example { name, content, title, language, id: None })
}

/// Makes the examples of the chunks in the cache: one example for each
/// example name, in the order of the names.
pub fn finalize_examples(chunk_cache: ChunkCache) -> (examples: Result<
    Vec<Example>,
    ExemplifyError,
>)
    ensures
        result_view(examples) == finalize_examples_spec(chunk_cache@),
{
    let ghost all = chunk_cache@;
    let mut examples: Vec<Example> = Vec::new();
    proof {
        assert(examples.deep_view() =~= Seq::<ExampleView>::empty());
    }
    for group in it: chunk_cache.into_groups()
        invariant
            all == chunk_cache@,
            well_grouped(all),
            it.seq().len() == all.len(),
            forall|i: int| 0 <= i < all.len() ==> (#[trigger] it.seq()[i]).deep_view() == all[i],
            finalize_examples_spec(all.take(it.index() as int)) == Ok::<
                Seq<ExampleView>,
                ErrorView,
            >(examples.deep_view()),
    {
        let ghost k = it.index() as int;
        let ghost done = examples.deep_view();
        proof {
            assert(group.deep_view() == all[k]);
            assert(all[k].len() > 0);
            assert(all.take(k + 1).drop_last() =~= all.take(k));
            assert(all.take(k + 1).last() == all[k]);
        }
        match assemble(group) {
            Ok(example) => {
                examples.push(example);
                proof {
                    assert(examples.deep_view() =~= done.push(example@));
                }
            },
            Err(error) => {
                proof {
                    lemma_finalize_failure_is_final(all, k + 1);
                }
                return Err(error);
            },
        }
    }
    proof {
        assert(all.take(all.len() as int) =~= all);
    }
    Ok(examples)
}

/// The cache after all chunks of one source, or the error that the source
/// ends the run with.
pub open spec fn exhaust_reader_spec(
    reader: ReaderContextView,
    settings: ParserSettingsView,
    groups: Seq<Seq<ChunkView>>,
) -> Result<Seq<Seq<ChunkView>>, ErrorView> {
    match chunks_of_source(reader.source_name, settings, reader.lines) {
        Ok(chunks) => Ok(with_chunks(groups, chunks)),
        Err(error) => Err(error),
    }
}

/// The cache `groups` after the sources `readers`, each read to its end
/// before the next is begun. A source that could not be had ends the run
/// when its turn comes.
pub open spec fn gather_onto(
    groups: Seq<Seq<ChunkView>>,
    readers: Seq<Result<ReaderContextView, Seq<char>>>,
    settings: ParserSettingsView,
) -> Result<Seq<Seq<ChunkView>>, ErrorView>
    decreases readers.len(),
{
    if readers.len() == 0 {
        Ok(groups)
    } else {
        match gather_onto(groups, readers.drop_last(), settings) {
            Ok(filled) => match readers.last() {
                Ok(reader) => exhaust_reader_spec(reader, settings, filled),
                Err(message) => Err(ErrorView::Source { message }),
            },
            Err(error) => Err(error),
        }
    }
}

/// The cache after all sources of a run.
pub open spec fn gather(
    readers: Seq<Result<ReaderContextView, Seq<char>>>,
    settings: ParserSettingsView,
) -> Result<Seq<Seq<ChunkView>>, ErrorView> {
    gather_onto(Seq::empty(), readers, settings)
}

/// The examples of a run over the sources `readers`: every source is read,
/// then every example name is checked and assembled. Any error ends the run
/// without examples.
pub open spec fn read_examples_spec(
    readers: Seq<Result<ReaderContextView, Seq<char>>>,
    settings: ParserSettingsView,
) -> Result<Seq<ExampleView>, ErrorView> {
    match gather(readers, settings) {
        Ok(groups) => finalize_examples_spec(groups),
        Err(error) => Err(error),
    }
}

/// The mathematical value of a list of sources, opened or not.
pub open spec fn readers_view(readers: Seq<Result<ReaderContext, String>>) -> Seq<
    Result<ReaderContextView, Seq<char>>,
> {
    Seq::new(readers.len(), |i: int| result_view(readers[i]))
}

/// Once a prefix of the sources has failed, the whole run fails with the
/// same error.
pub proof fn lemma_gather_failure_is_final(
    groups: Seq<Seq<ChunkView>>,
    readers: Seq<Result<ReaderContextView, Seq<char>>>,
    settings: ParserSettingsView,
    k: int,
)
    requires
        0 <= k <= readers.len(),
        gather_onto(groups, readers.take(k), settings) is Err,
    ensures
        gather_onto(groups, readers, settings) == gather_onto(groups, readers.take(k), settings),
    decreases readers.len() - k,
{
    if k == readers.len() {
        assert(readers.take(k) =~= readers);
    } else {
        assert(readers.take(k + 1).drop_last() =~= readers.take(k));
        lemma_gather_failure_is_final(groups, readers, settings, k + 1);
    }
}

/// Reads one source to its end and adds its chunks to the cache.
pub fn exhaust_reader(
    reader: &ReaderContext,
    parser_settings: &ParserSettings,
    chunk_cache: ChunkCache,
) -> (cache: Result<ChunkCache, ExemplifyError>)
    ensures
        result_view(cache) == exhaust_reader_spec(reader@, parser_settings@, chunk_cache@),
        cache matches Ok(filled) ==> well_grouped(filled@),
{
    let chunks = read_chunks(reader.source_name.as_str(), &reader.lines, parser_settings)?;
    Ok(chunk_cache.add_all(chunks))
}

/// Turns sources into examples. Every source is read to its end, in the
/// order given, before the first example is made.
pub fn read_examples(
    readers: Vec<Result<ReaderContext, String>>,
    parser_settings: ParserSettings,
) -> (examples: Result<Vec<Example>, ExemplifyError>)
    ensures
        result_view(examples) == read_examples_spec(readers_view(readers@), parser_settings@),
{
    let ghost all = readers_view(readers@);
    let mut chunk_cache = ChunkCache::new();
    for reader in it: readers
        invariant
            all == readers_view(readers@),
            it.seq() == readers@,
            gather(all.take(it.index() as int), parser_settings@) == Ok::<
                Seq<Seq<ChunkView>>,
                ErrorView,
            >(chunk_cache@),
    {
        let ghost k = it.index() as int;
        proof {
            assert(all.take(k + 1).drop_last() =~= all.take(k));
            assert(all.take(k + 1).last() == result_view(reader));
        }
        match reader {
            Ok(reader) => {
                match exhaust_reader(&reader, &parser_settings, chunk_cache) {
                    Ok(cache) => {
                        chunk_cache = cache;
                    },
                    Err(error) => {
                        proof {
                            lemma_gather_failure_is_final(Seq::empty(), all, parser_settings@, k + 1);
                        }
                        return Err(error);
                    },
                }
            },
            Err(message) => {
                proof {
                    lemma_gather_failure_is_final(Seq::empty(), all, parser_settings@, k + 1);
                }
                return Err(ExemplifyError::Source { message });
            },
        }
    }
    proof {
        assert(all.take(all.len() as int) =~= all);
    }
    finalize_examples(chunk_cache)
}

} // verus!
