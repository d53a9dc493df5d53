//! What holds of the assembler on every run: parts come out in ascending
//! order, each example name gives exactly one example, and chunks whose part
//! numbers are missing or repeated fail the run.

use vstd::prelude::*;
use vstd::seq_lib::*;
use crate::chunk::ChunkView;
use crate::chunk_reader::chunks_of_source;
use crate::error::ErrorView;
use crate::example::ExampleView;
use crate::parser_settings::ParserSettingsView;
use crate::chunk_cache::{
    group_name,
    holds_name,
    lemma_name_position_parts,
    lemma_names_differ,
    lemma_with_chunks_well_grouped,
    name_position,
    well_grouped,
    with_chunk,
    with_chunks,
};
use crate::read_examples::{
    assemble_spec,
    finalize_examples_spec,
    gather,
    gather_onto,
    insert_position,
    is_first_offender,
    lemma_finalize_failure_is_final,
    lemma_first_offender,
    lemma_insert_position_bounds,
    offends,
    part_key,
    read_examples_spec,
    repeats_part,
    sort_by_part,
    verify_example_spec,
};
use crate::reader_factory::ReaderContextView;
use crate::text::text_before;

verus! {

/// Chunks in ascending order of their keys.
pub open spec fn ascending(chunks: Seq<ChunkView>) -> bool {
    forall|i: int, j: int|
        0 <= i < j < chunks.len() ==> part_key(#[trigger] chunks[i]) <= part_key(
            #[trigger] chunks[j],
        )
}

/// In chunks that are in order, everything before the insert position has a
/// key that is not greater, and everything from it on a greater one.
proof fn lemma_insert_position_splits(sorted: Seq<ChunkView>, key: u32)
    requires
        ascending(sorted),
    ensures
        forall|i: int|
            0 <= i < insert_position(sorted, key) ==> part_key(#[trigger] sorted[i]) <= key,
        forall|i: int|
            insert_position(sorted, key) <= i < sorted.len() ==> key < part_key(
                #[trigger] sorted[i],
            ),
    decreases sorted.len(),
{
    lemma_insert_position_bounds(sorted, key);
    if sorted.len() > 0 {
        let earlier = sorted.drop_last();
        let last = sorted.len() - 1;
        assert forall|i: int, j: int| 0 <= i < j < earlier.len() implies part_key(
            #[trigger] earlier[i],
        ) <= part_key(#[trigger] earlier[j]) by {
            assert(earlier[i] == sorted[i] && earlier[j] == sorted[j]);
        }
        if part_key(sorted.last()) <= key {
            assert forall|i: int| 0 <= i < sorted.len() implies part_key(#[trigger] sorted[i])
                <= key by {
                if i < last {
                    assert(part_key(sorted[i]) <= part_key(sorted[last]));
                }
            }
        } else {
            lemma_insert_position_splits(earlier, key);
            lemma_insert_position_bounds(earlier, key);
            assert forall|i: int| 0 <= i < insert_position(sorted, key) implies part_key(
                #[trigger] sorted[i],
            ) <= key by {
                assert(sorted[i] == earlier[i]);
            }
            assert forall|i: int| insert_position(sorted, key) <= i < sorted.len() implies key
                < part_key(#[trigger] sorted[i]) by {
                if i < last {
                    assert(sorted[i] == earlier[i]);
                }
            }
        }
    }
}

/// Whatever the order in which the chunks of an example come, ordering them
/// gives the same chunks, each as often as it came, in ascending order of
/// their part numbers (a chunk without one counting as part 0).
pub proof fn lemma_sort_by_part_ascending(chunks: Seq<ChunkView>)
    ensures
        sort_by_part(chunks).len() == chunks.len(),
        sort_by_part(chunks).to_multiset() == chunks.to_multiset(),
        ascending(sort_by_part(chunks)),
    decreases chunks.len(),
{
    broadcast use group_to_multiset_ensures;

    if chunks.len() == 0 {
        assert(chunks =~= Seq::<ChunkView>::empty());
    } else {
        let earlier = chunks.drop_last();
        let chunk = chunks.last();
        let sorted = sort_by_part(earlier);
        let at = insert_position(sorted, part_key(chunk));
        lemma_sort_by_part_ascending(earlier);
        lemma_insert_position_bounds(sorted, part_key(chunk));
        lemma_insert_position_splits(sorted, part_key(chunk));
        let after = sorted.insert(at, chunk);
        assert(chunks =~= earlier.push(chunk));
        to_multiset_insert(sorted, at, chunk);
        assert(after.to_multiset() =~= chunks.to_multiset());
        assert forall|i: int, j: int| 0 <= i < j < after.len() implies part_key(
            #[trigger] after[i],
        ) <= part_key(#[trigger] after[j]) by {
            let before_i = if i < at {
                i
            } else {
                i - 1
            };
            let before_j = if j < at {
                j
            } else {
                j - 1
            };
            if i != at {
                assert(after[i] == sorted[before_i]);
            }
            if j != at {
                assert(after[j] == sorted[before_j]);
            }
            if i != at && j != at {
                assert(part_key(sorted[before_i]) <= part_key(sorted[before_j]));
            }
        }
    }
}

/// Where every chunk of an example has a part number and two chunks share
/// one, the example fails with a duplicate-part error.
pub proof fn lemma_repeated_part_fails(chunks: Seq<ChunkView>, first: int, second: int)
    requires
        0 <= first < second < chunks.len(),
        forall|i: int| 0 <= i < chunks.len() ==> (#[trigger] chunks[i]).part_number is Some,
        chunks[first].part_number == chunks[second].part_number,
    ensures
        verify_example_spec(chunks) is Err,
        verify_example_spec(chunks)->Err_0 is DuplicatePart,
{
    assert(repeats_part(chunks, second));
    assert(offends(chunks, second));
    lemma_some_offender_is_first(chunks, second);
    let at = choose|at: int| is_first_offender(chunks, at);
    lemma_first_offender(chunks, at);
}

/// Where an example has several chunks and one of them has no part number,
/// the example fails; and it fails with a missing-part-number error where
/// no part number is repeated before that chunk.
pub proof fn lemma_missing_part_fails(chunks: Seq<ChunkView>, at: int)
    requires
        chunks.len() > 1,
        0 <= at < chunks.len(),
        chunks[at].part_number is None,
    ensures
        verify_example_spec(chunks) is Err,
        (forall|i: int| 0 <= i < at ==> !repeats_part(chunks, i)) ==> verify_example_spec(
            chunks,
        )->Err_0 is MissingPartNumber,
{
    assert(offends(chunks, at));
    lemma_some_offender_is_first(chunks, at);
    let first = choose|first: int| is_first_offender(chunks, first);
    lemma_first_offender(chunks, first);
    if forall|i: int| 0 <= i < at ==> !repeats_part(chunks, i) {
        if first < at {
            assert(!repeats_part(chunks, first));
        }
        if at < first {
            assert(!offends(chunks, at));
        }
    }
}

/// Where some chunk offends, some chunk is the first to offend.
proof fn lemma_some_offender_is_first(chunks: Seq<ChunkView>, at: int)
    requires
        0 <= at < chunks.len(),
        offends(chunks, at),
    ensures
        exists|first: int| is_first_offender(chunks, first),
    decreases at,
{
    if exists|earlier: int| 0 <= earlier < at && offends(chunks, earlier) {
        let earlier = choose|earlier: int| 0 <= earlier < at && offends(chunks, earlier);
        lemma_some_offender_is_first(chunks, earlier);
    } else {
        assert(is_first_offender(chunks, at));
    }
}

/// The first example name whose chunks may not stand together decides how
/// the run ends: with the error of that name, and without examples.
pub proof fn lemma_first_failing_group_fails_run(groups: Seq<Seq<ChunkView>>, at: int)
    requires
        0 <= at < groups.len(),
        forall|i: int| 0 <= i < at ==> verify_example_spec(#[trigger] groups[i]) is Ok,
        verify_example_spec(groups[at]) is Err,
    ensures
        finalize_examples_spec(groups) == Err::<Seq<ExampleView>, ErrorView>(
            verify_example_spec(groups[at])->Err_0,
        ),
{
    lemma_groups_in_order_give_examples(groups.take(at));
    assert(groups.take(at + 1).drop_last() =~= groups.take(at));
    assert(groups.take(at + 1).last() == groups[at]);
    lemma_finalize_failure_is_final(groups, at + 1);
}

/// An example name whose chunks may not stand together fails the run,
/// wherever it stands among the names.
pub proof fn lemma_failing_group_fails_run(groups: Seq<Seq<ChunkView>>, at: int)
    requires
        0 <= at < groups.len(),
        verify_example_spec(groups[at]) is Err,
    ensures
        finalize_examples_spec(groups) is Err,
    decreases at,
{
    if exists|earlier: int| 0 <= earlier < at && verify_example_spec(#[trigger] groups[earlier]) is Err {
        let earlier = choose|earlier: int|
            0 <= earlier < at && verify_example_spec(#[trigger] groups[earlier]) is Err;
        lemma_failing_group_fails_run(groups, earlier);
    } else {
        lemma_first_failing_group_fails_run(groups, at);
    }
}

/// Where the chunks of every example name may stand together, the run gives
/// one example for each name, in the order of the names.
pub proof fn lemma_groups_in_order_give_examples(groups: Seq<Seq<ChunkView>>)
    requires
        forall|i: int| 0 <= i < groups.len() ==> verify_example_spec(#[trigger] groups[i]) is Ok,
    ensures
        finalize_examples_spec(groups) is Ok,
        finalize_examples_spec(groups)->Ok_0.len() == groups.len(),
        forall|i: int|
            0 <= i < groups.len() ==> Ok::<ExampleView, ErrorView>(
                #[trigger] finalize_examples_spec(groups)->Ok_0[i],
            ) == assemble_spec(groups[i]),
    decreases groups.len(),
{
    if groups.len() > 0 {
        let earlier = groups.drop_last();
        assert forall|i: int| 0 <= i < earlier.len() implies verify_example_spec(
            #[trigger] earlier[i],
        ) is Ok by {
            assert(earlier[i] == groups[i]);
        }
        lemma_groups_in_order_give_examples(earlier);
        assert(verify_example_spec(groups[groups.len() - 1]) is Ok);
        assert forall|i: int| 0 <= i < groups.len() implies Ok::<ExampleView, ErrorView>(
            #[trigger] finalize_examples_spec(groups)->Ok_0[i],
        ) == assemble_spec(groups[i]) by {
            if i < earlier.len() {
                assert(earlier[i] == groups[i]);
                assert(finalize_examples_spec(groups)->Ok_0[i] == finalize_examples_spec(
                    earlier,
                )->Ok_0[i]);
            }
        }
    }
}

/// A run that succeeds gives as many examples as there are example names,
/// each under the name of its group.
pub proof fn lemma_examples_follow_groups(groups: Seq<Seq<ChunkView>>)
    requires
        finalize_examples_spec(groups) is Ok,
    ensures
        finalize_examples_spec(groups)->Ok_0.len() == groups.len(),
        forall|i: int|
            0 <= i < groups.len() ==> (#[trigger] finalize_examples_spec(groups)->Ok_0[i]).name
                == group_name(groups[i]),
    decreases groups.len(),
{
    if groups.len() > 0 {
        let earlier = groups.drop_last();
        lemma_examples_follow_groups(earlier);
        assert forall|i: int| 0 <= i < groups.len() implies (#[trigger] finalize_examples_spec(
            groups,
        )->Ok_0[i]).name == group_name(groups[i]) by {
            if i < earlier.len() {
                assert(earlier[i] == groups[i]);
                assert(finalize_examples_spec(groups)->Ok_0[i] == finalize_examples_spec(
                    earlier,
                )->Ok_0[i]);
            }
        }
    }
}

/// The examples of a cache stand in the order of their names.
pub proof fn lemma_examples_in_name_order(groups: Seq<Seq<ChunkView>>)
    requires
        well_grouped(groups),
        finalize_examples_spec(groups) is Ok,
    ensures
        forall|i: int, j: int|
            0 <= i < j < groups.len() ==> text_before(
                (#[trigger] finalize_examples_spec(groups)->Ok_0[i]).name,
                (#[trigger] finalize_examples_spec(groups)->Ok_0[j]).name,
            ),
{
    lemma_examples_follow_groups(groups);
    let examples = finalize_examples_spec(groups)->Ok_0;
    assert forall|i: int, j: int| 0 <= i < j < groups.len() implies text_before(
        (#[trigger] examples[i]).name,
        (#[trigger] examples[j]).name,
    ) by {
        assert(text_before(group_name(groups[i]), group_name(groups[j])));
    }
}

/// No two examples of a cache have the same name.
pub proof fn lemma_example_names_unique(groups: Seq<Seq<ChunkView>>)
    requires
        well_grouped(groups),
        finalize_examples_spec(groups) is Ok,
    ensures
        forall|i: int, j: int|
            0 <= i < groups.len() && 0 <= j < groups.len() && i != j ==> (
            #[trigger] finalize_examples_spec(groups)->Ok_0[i]).name != (
            #[trigger] finalize_examples_spec(groups)->Ok_0[j]).name,
{
    lemma_examples_follow_groups(groups);
    let examples = finalize_examples_spec(groups)->Ok_0;
    assert forall|i: int, j: int|
        0 <= i < groups.len() && 0 <= j < groups.len() && i != j implies (#[trigger] examples[i]).name
        != (#[trigger] examples[j]).name by {
        lemma_names_differ(groups, i, j);
    }
}

/// A chunk that is in a cache stays in it, in the group of its name, when
/// another chunk is added.
proof fn lemma_with_chunk_keeps(groups: Seq<Seq<ChunkView>>, added: ChunkView, kept: ChunkView)
    requires
        well_grouped(groups),
        exists|at: int|
            holds_name(groups, at, kept.example_name) && (#[trigger] groups[at]).contains(kept),
    ensures
        exists|at: int|
            holds_name(with_chunk(groups, added), at, kept.example_name) && (
            #[trigger] with_chunk(groups, added)[at]).contains(kept),
{
    let after = with_chunk(groups, added);
    let at = choose|at: int|
        holds_name(groups, at, kept.example_name) && (#[trigger] groups[at]).contains(kept);
    let j = choose|j: int| 0 <= j < groups[at].len() && groups[at][j] == kept;
    if exists|to: int| holds_name(groups, to, added.example_name) {
        assert(after[at][j] == kept);
        assert(after[at][0] == groups[at][0]);
        assert(holds_name(after, at, kept.example_name) && after[at].contains(kept));
    } else {
        let to = name_position(groups, added.example_name);
        lemma_name_position_parts(groups, added.example_name);
        let moved = if at < to {
            at
        } else {
            at + 1
        };
        assert(after[moved] == groups[at]);
        assert(holds_name(after, moved, kept.example_name) && after[moved].contains(kept));
    }
}

/// A chunk that is added to a cache is in it afterwards, in the one group
/// that has its example name.
pub proof fn lemma_with_chunk_holds(groups: Seq<Seq<ChunkView>>, added: ChunkView)
    requires
        well_grouped(groups),
    ensures
        exists|at: int|
            holds_name(with_chunk(groups, added), at, added.example_name) && (
            #[trigger] with_chunk(groups, added)[at]).contains(added),
{
    let after = with_chunk(groups, added);
    if exists|to: int| holds_name(groups, to, added.example_name) {
        let to = choose|to: int| holds_name(groups, to, added.example_name);
        assert(after[to][groups[to].len() as int] == added);
        assert(after[to][0] == groups[to][0]);
        assert(holds_name(after, to, added.example_name) && after[to].contains(added));
    } else {
        let to = name_position(groups, added.example_name);
        lemma_name_position_parts(groups, added.example_name);
        assert(after[to] == seq![added]);
        assert(after[to][0] == added);
        assert(holds_name(after, to, added.example_name) && after[to].contains(added));
    }
}

/// Every chunk of a run is in the cache in the end, in the one group that
/// has its example name: chunks of one name are gathered in one place, from
/// whichever source and in whichever order they come.
pub proof fn lemma_chunks_are_gathered_by_name(
    groups: Seq<Seq<ChunkView>>,
    chunks: Seq<ChunkView>,
    k: int,
)
    requires
        well_grouped(groups),
        0 <= k < chunks.len(),
    ensures
        well_grouped(with_chunks(groups, chunks)),
        exists|at: int|
            holds_name(with_chunks(groups, chunks), at, chunks[k].example_name) && (
            #[trigger] with_chunks(groups, chunks)[at]).contains(chunks[k]),
    decreases chunks.len(),
{
    let earlier = chunks.drop_last();
    let before = with_chunks(groups, earlier);
    lemma_with_chunks_well_grouped(groups, earlier);
    lemma_with_chunks_well_grouped(groups, chunks);
    if k == chunks.len() - 1 {
        lemma_with_chunk_holds(before, chunks.last());
    } else {
        lemma_chunks_are_gathered_by_name(groups, earlier, k);
        assert(earlier[k] == chunks[k]);
        lemma_with_chunk_keeps(before, chunks.last(), chunks[k]);
    }
}

/// What a run gathers from its sources onto a cache is a cache.
pub proof fn lemma_gather_well_grouped(
    groups: Seq<Seq<ChunkView>>,
    readers: Seq<Result<ReaderContextView, Seq<char>>>,
    settings: ParserSettingsView,
)
    requires
        well_grouped(groups),
        gather_onto(groups, readers, settings) is Ok,
    ensures
        well_grouped(gather_onto(groups, readers, settings)->Ok_0),
    decreases readers.len(),
{
    if readers.len() > 0 {
        lemma_gather_well_grouped(groups, readers.drop_last(), settings);
        let before = gather_onto(groups, readers.drop_last(), settings)->Ok_0;
        let reader = readers.last()->Ok_0;
        let chunks = chunks_of_source(reader.source_name, settings, reader.lines)->Ok_0;
        lemma_with_chunks_well_grouped(before, chunks);
    }
}

/// Each example name gives exactly one example: the examples of a run stand
/// in the order of their names, so that no two of them have the same name,
/// however many chunks and sources a name is spread over.
pub proof fn lemma_one_example_per_name(
    readers: Seq<Result<ReaderContextView, Seq<char>>>,
    settings: ParserSettingsView,
)
    requires
        read_examples_spec(readers, settings) is Ok,
    ensures
        forall|i: int, j: int|
            0 <= i < j < read_examples_spec(readers, settings)->Ok_0.len() ==> text_before(
                (#[trigger] read_examples_spec(readers, settings)->Ok_0[i]).name,
                (#[trigger] read_examples_spec(readers, settings)->Ok_0[j]).name,
            ),
        forall|i: int, j: int|
            0 <= i < j < read_examples_spec(readers, settings)->Ok_0.len() ==> (
            #[trigger] read_examples_spec(readers, settings)->Ok_0[i]).name != (
            #[trigger] read_examples_spec(readers, settings)->Ok_0[j]).name,
{
    assert(well_grouped(Seq::<Seq<ChunkView>>::empty()));
    lemma_gather_well_grouped(Seq::empty(), readers, settings);
    let groups = gather(readers, settings)->Ok_0;
    lemma_examples_follow_groups(groups);
    lemma_examples_in_name_order(groups);
    lemma_example_names_unique(groups);
}

} // verus!
