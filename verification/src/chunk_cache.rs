//! The chunk cache: the chunks gathered so far, by example name. It is kept
//! as a list of groups in the order of their names, so that a run gives its
//! examples in the same order whatever the order of its sources.

use vstd::prelude::*;
use crate::chunk::{Chunk, ChunkView};
use crate::text::{
    comes_before,
    lemma_text_before_connected,
    lemma_text_before_irreflexive,
    lemma_text_before_transitive,
    text_before,
};

verus! {

/// The name of the example that a group of chunks belongs to.
pub open spec fn group_name(group: Seq<ChunkView>) -> Seq<char> {
    group[0].example_name
}

/// Group `at` holds the chunks of the example `name`.
pub open spec fn holds_name(groups: Seq<Seq<ChunkView>>, at: int, name: Seq<char>) -> bool {
    0 <= at < groups.len() && group_name(groups[at]) == name
}

/// What a chunk cache is: no group is empty, the chunks of a group share
/// their example name, and the groups stand in the order of their names, so
/// that no two of them have the same name.
pub open spec fn well_grouped(groups: Seq<Seq<ChunkView>>) -> bool {
    &&& forall|i: int| 0 <= i < groups.len() ==> (#[trigger] groups[i]).len() > 0
    &&& forall|i: int, j: int|
        0 <= i < groups.len() && 0 <= j < groups[i].len() ==> (#[trigger] groups[i][j]).example_name
            == group_name(groups[i])
    &&& forall|i: int, k: int|
        0 <= i < k < groups.len() ==> text_before(
            group_name(#[trigger] groups[i]),
            group_name(#[trigger] groups[k]),
        )
}

/// Where a group with the new name `name` goes: behind the last group whose
/// name stands before it.
pub open spec fn name_position(groups: Seq<Seq<ChunkView>>, name: Seq<char>) -> int
    decreases groups.len(),
{
    if groups.len() == 0 {
        0
    } else if text_before(group_name(groups.last()), name) {
        groups.len() as int
    } else {
        name_position(groups.drop_last(), name)
    }
}

/// The groups after one more chunk: it joins the group of its example name
/// at the end, or starts a new group at the place of its name.
pub open spec fn with_chunk(groups: Seq<Seq<ChunkView>>, chunk: ChunkView) -> Seq<Seq<ChunkView>> {
    if exists|at: int| holds_name(groups, at, chunk.example_name) {
        let at = choose|at: int| holds_name(groups, at, chunk.example_name);
        groups.update(at, groups[at].push(chunk))
    } else {
        groups.insert(name_position(groups, chunk.example_name), seq![chunk])
    }
}

/// The groups after the chunks `chunks`, taken in order.
pub open spec fn with_chunks(groups: Seq<Seq<ChunkView>>, chunks: Seq<ChunkView>) -> Seq<
    Seq<ChunkView>,
>
    decreases chunks.len(),
{
    if chunks.len() == 0 {
        groups
    } else {
        with_chunk(with_chunks(groups, chunks.drop_last()), chunks.last())
    }
}

/// `at` parts the groups at the name `name`: every group before it has a
/// name that stands before `name`, and every group from it on a name that
/// `name` stands before.
pub open spec fn parts_at(groups: Seq<Seq<ChunkView>>, name: Seq<char>, at: int) -> bool {
    &&& 0 <= at <= groups.len()
    &&& forall|i: int| 0 <= i < at ==> text_before(group_name(#[trigger] groups[i]), name)
    &&& forall|i: int|
        at <= i < groups.len() ==> text_before(name, group_name(#[trigger] groups[i]))
}

/// A cache without its last group is a cache.
proof fn lemma_drop_last_well_grouped(groups: Seq<Seq<ChunkView>>)
    requires
        well_grouped(groups),
        groups.len() > 0,
    ensures
        well_grouped(groups.drop_last()),
{
    let earlier = groups.drop_last();
    assert forall|i: int| 0 <= i < earlier.len() implies (#[trigger] earlier[i]) == groups[i] by {}
    assert forall|i: int, j: int| 0 <= i < earlier.len() && 0 <= j < earlier[i].len() implies (
    #[trigger] earlier[i][j]).example_name == group_name(earlier[i]) by {
        assert(earlier[i][j] == groups[i][j]);
    }
    assert forall|i: int, k: int| 0 <= i < k < earlier.len() implies text_before(
        group_name(#[trigger] earlier[i]),
        group_name(#[trigger] earlier[k]),
    ) by {
        assert(earlier[i] == groups[i] && earlier[k] == groups[k]);
    }
}

/// In a cache that has no group of the name `name`, the place of the name
/// parts the groups.
pub proof fn lemma_name_position_parts(groups: Seq<Seq<ChunkView>>, name: Seq<char>)
    requires
        well_grouped(groups),
        forall|at: int| !holds_name(groups, at, name),
    ensures
        parts_at(groups, name, name_position(groups, name)),
    decreases groups.len(),
{
    if groups.len() > 0 {
        let last = groups.len() - 1;
        let earlier = groups.drop_last();
        if text_before(group_name(groups.last()), name) {
            assert forall|i: int| 0 <= i < groups.len() implies text_before(
                group_name(#[trigger] groups[i]),
                name,
            ) by {
                if i < last {
                    assert(text_before(group_name(groups[i]), group_name(groups[last])));
                    lemma_text_before_transitive(
                        group_name(groups[i]),
                        group_name(groups[last]),
                        name,
                    );
                }
            }
        } else {
            assert(!holds_name(groups, last, name));
            lemma_text_before_connected(group_name(groups[last]), name);
            lemma_drop_last_well_grouped(groups);
            assert forall|at: int| !holds_name(earlier, at, name) by {
                if 0 <= at < earlier.len() {
                    assert(earlier[at] == groups[at]);
                    assert(!holds_name(groups, at, name));
                }
            }
            lemma_name_position_parts(earlier, name);
            let at = name_position(earlier, name);
            assert forall|i: int| 0 <= i < at implies text_before(
                group_name(#[trigger] groups[i]),
                name,
            ) by {
                assert(groups[i] == earlier[i]);
            }
            assert forall|i: int| at <= i < groups.len() implies text_before(
                name,
                group_name(#[trigger] groups[i]),
            ) by {
                if i < last {
                    assert(groups[i] == earlier[i]);
                }
            }
        }
    }
}

/// Only one place parts the groups of a cache at a name, and no group of a
/// cache that is parted at a name has that name.
pub proof fn lemma_parts_at_unique(groups: Seq<Seq<ChunkView>>, name: Seq<char>, at: int)
    requires
        well_grouped(groups),
        parts_at(groups, name, at),
    ensures
        forall|other: int| !holds_name(groups, other, name),
        name_position(groups, name) == at,
{
    lemma_text_before_irreflexive(name);
    assert forall|other: int| !holds_name(groups, other, name) by {
        if 0 <= other < groups.len() {
            if other < at {
                assert(text_before(group_name(groups[other]), name));
            } else {
                assert(text_before(name, group_name(groups[other])));
            }
        }
    }
    lemma_name_position_parts(groups, name);
    let place = name_position(groups, name);
    if place < at {
        assert(text_before(group_name(groups[place]), name));
        assert(text_before(name, group_name(groups[place])));
        lemma_text_before_transitive(name, group_name(groups[place]), name);
    }
    if at < place {
        assert(text_before(group_name(groups[at]), name));
        assert(text_before(name, group_name(groups[at])));
        lemma_text_before_transitive(name, group_name(groups[at]), name);
    }
}

/// No two groups of a cache have the same name.
pub proof fn lemma_names_differ(groups: Seq<Seq<ChunkView>>, i: int, k: int)
    requires
        well_grouped(groups),
        0 <= i < groups.len(),
        0 <= k < groups.len(),
        i != k,
    ensures
        group_name(groups[i]) != group_name(groups[k]),
{
    lemma_text_before_irreflexive(group_name(groups[i]));
    if i < k {
        assert(text_before(group_name(groups[i]), group_name(groups[k])));
    } else {
        assert(text_before(group_name(groups[k]), group_name(groups[i])));
    }
}

/// Adding a chunk to a cache gives a cache.
pub proof fn lemma_with_chunk_well_grouped(groups: Seq<Seq<ChunkView>>, chunk: ChunkView)
    requires
        well_grouped(groups),
    ensures
        well_grouped(with_chunk(groups, chunk)),
{
    let after = with_chunk(groups, chunk);
    let name = chunk.example_name;
    if exists|at: int| holds_name(groups, at, name) {
        let at = choose|at: int| holds_name(groups, at, name);
        assert forall|i: int| 0 <= i < after.len() implies (#[trigger] after[i]).len() > 0
            && group_name(after[i]) == group_name(groups[i]) by {}
        assert forall|i: int, j: int| 0 <= i < after.len() && 0 <= j < after[i].len() implies (
        #[trigger] after[i][j]).example_name == group_name(after[i]) by {
            if i == at && j < groups[at].len() {
                assert(after[i][j] == groups[i][j]);
            } else if i != at {
                assert(after[i][j] == groups[i][j]);
            }
        }
        assert forall|i: int, k: int| 0 <= i < k < after.len() implies text_before(
            group_name(#[trigger] after[i]),
            group_name(#[trigger] after[k]),
        ) by {
            assert(text_before(group_name(groups[i]), group_name(groups[k])));
        }
    } else {
        lemma_name_position_parts(groups, name);
        let at = name_position(groups, name);
        assert forall|i: int| 0 <= i < after.len() implies (#[trigger] after[i]) == (if i < at {
            groups[i]
        } else if i == at {
            seq![chunk]
        } else {
            groups[i - 1]
        }) by {}
        assert forall|i: int, j: int| 0 <= i < after.len() && 0 <= j < after[i].len() implies (
        #[trigger] after[i][j]).example_name == group_name(after[i]) by {
            if i < at {
                assert(after[i][j] == groups[i][j]);
            } else if i > at {
                assert(after[i][j] == groups[i - 1][j]);
            }
        }
        assert forall|i: int, k: int| 0 <= i < k < after.len() implies text_before(
            group_name(#[trigger] after[i]),
            group_name(#[trigger] after[k]),
        ) by {
            if k < at {
                assert(text_before(group_name(groups[i]), group_name(groups[k])));
            } else if k == at {
                assert(text_before(group_name(groups[i]), name));
            } else if i < at {
                assert(text_before(group_name(groups[i]), group_name(groups[k - 1])));
            } else if i == at {
                assert(text_before(name, group_name(groups[k - 1])));
            } else {
                assert(text_before(group_name(groups[i - 1]), group_name(groups[k - 1])));
            }
        }
    }
}

/// Adding chunks to a cache gives a cache.
pub proof fn lemma_with_chunks_well_grouped(groups: Seq<Seq<ChunkView>>, chunks: Seq<ChunkView>)
    requires
        well_grouped(groups),
    ensures
        well_grouped(with_chunks(groups, chunks)),
    decreases chunks.len(),
{
    if chunks.len() > 0 {
        lemma_with_chunks_well_grouped(groups, chunks.drop_last());
        lemma_with_chunk_well_grouped(with_chunks(groups, chunks.drop_last()), chunks.last());
    }
}

/// The chunks gathered so far, grouped by example name. The groups stand in
/// the order of their names, and the chunks of a group in the order in which
/// they were added.
#[derive(Debug)]
pub struct ChunkCache {
    groups: Vec<Vec<Chunk>>,
}

impl View for ChunkCache {
    type V = Seq<Seq<ChunkView>>;

    closed spec fn view(&self) -> Seq<Seq<ChunkView>> {
        self.groups.deep_view()
    }
}

impl DeepView for ChunkCache {
    type V = Seq<Seq<ChunkView>>;

    open spec fn deep_view(&self) -> Seq<Seq<ChunkView>> {
        self@
    }
}

impl ChunkCache {
    #[verifier::type_invariant]
    spec fn grouped(self) -> bool {
        well_grouped(self.groups.deep_view())
    }

    /// A cache without chunks.
    pub fn new() -> (cache: ChunkCache)
        ensures
            cache@ == Seq::<Seq<ChunkView>>::empty(),
    {
        let groups: Vec<Vec<Chunk>> = Vec::new();
        proof {
            assert(groups.deep_view() =~= Seq::<Seq<ChunkView>>::empty());
        }
        ChunkCache { groups }
    }

    /// How many examples the cache holds chunks of.
    pub fn len(&self) -> (count: usize)
        ensures
            count == self@.len(),
            well_grouped(self@),
    {
        proof {
            use_type_invariant(self);
        }
        self.groups.len()
    }

    /// The groups of the cache, in the order of their names.
    pub fn into_groups(self) -> (groups: Vec<Vec<Chunk>>)
        ensures
            groups.deep_view() == self@,
            well_grouped(self@),
    {
        proof {
            use_type_invariant(&self);
        }
        self.groups
    }

    /// The place of the example name `name`: the index of its group where
    /// there is one, and otherwise the index at which its group would go.
    fn find_group(&self, name: &String) -> (found: (bool, usize))
        ensures
            found.1 <= self@.len(),
            found.0 ==> holds_name(self@, found.1 as int, name@),
            !found.0 ==> parts_at(self@, name@, found.1 as int),
    {
        proof {
            use_type_invariant(self);
        }
        let ghost all = self.groups.deep_view();
        let mut at: usize = 0;
        while at < self.groups.len()
            invariant
                at <= self.groups.len(),
                all == self.groups.deep_view(),
                well_grouped(all),
                forall|i: int| 0 <= i < at ==> text_before(group_name(#[trigger] all[i]), name@),
            decreases self.groups.len() - at,
        {
            proof {
                assert(all[at as int] == self.groups@[at as int].deep_view());
                assert(all[at as int].len() > 0);
                assert(all[at as int][0] == self.groups@[at as int]@[0]@);
            }
            let here = &self.groups[at][0].example_name;
            if *here == *name {
                return (true, at);
            }
            if comes_before(name.as_str(), here.as_str()) {
                proof {
                    assert forall|i: int| at <= i < all.len() implies text_before(
                        name@,
                        group_name(#[trigger] all[i]),
                    ) by {
                        if i > at {
                            assert(text_before(group_name(all[at as int]), group_name(all[i])));
                            lemma_text_before_transitive(
                                name@,
                                group_name(all[at as int]),
                                group_name(all[i]),
                            );
                        }
                    }
                }
                return (false, at);
            }
            proof {
                lemma_text_before_connected(here@, name@);
            }
            at = at + 1;
        }
        (false, at)
    }

    /// The cache with one more chunk: it joins the group of its example
    /// name, at the end, or starts a new group at the place of its name.
    pub fn add(self, chunk: Chunk) -> (cache: ChunkCache)
        ensures
            cache@ == with_chunk(self@, chunk@),
            well_grouped(cache@),
    {
        proof {
            use_type_invariant(&self);
        }
        let ghost before = self.groups.deep_view();
        let ghost added = chunk@;
        proof {
            lemma_with_chunk_well_grouped(before, added);
        }
        let (found, at) = self.find_group(&chunk.example_name);
        let mut groups = self.groups;
        if found {
            proof {
                let chosen = choose|at: int| holds_name(before, at, added.example_name);
                assert(holds_name(before, chosen, added.example_name));
                if chosen != at {
                    lemma_names_differ(before, chosen, at as int);
                }
            }
            let mut group = groups.remove(at);
            proof {
                assert(groups.deep_view() =~= before.remove(at as int));
                assert(group.deep_view() == before[at as int]);
            }
            group.push(chunk);
            proof {
                assert(group.deep_view() =~= before[at as int].push(added));
            }
            groups.insert(at, group);
        } else {
            proof {
                lemma_parts_at_unique(before, added.example_name, at as int);
            }
            let mut group: Vec<Chunk> = Vec::new();
            group.push(chunk);
            proof {
                assert(group.deep_view() =~= seq![added]);
            }
            groups.insert(at, group);
        }
        proof {
            assert(groups.deep_view() =~= with_chunk(before, added));
        }
        ChunkCache { groups }
    }

    /// The cache with the chunks `chunks` added in order.
    pub fn add_all(self, chunks: Vec<Chunk>) -> (cache: ChunkCache)
        ensures
            cache@ == with_chunks(self@, chunks.deep_view()),
            well_grouped(cache@),
    {
        let ghost start = self@;
        let ghost all = chunks.deep_view();
        let mut cache = self;
        let mut chunks = chunks;
        let ghost mut taken: int = 0;
        proof {
            use_type_invariant(&cache);
            assert(chunks.deep_view() =~= all.skip(0));
        }
        while chunks.len() > 0
            invariant
                0 <= taken <= all.len(),
                chunks.deep_view() == all.skip(taken),
                cache@ == with_chunks(start, all.take(taken)),
                well_grouped(cache@),
            decreases chunks.len(),
        {
            let ghost left = chunks.deep_view();
            proof {
                assert(left.len() == chunks@.len());
                assert(left[0] == all[taken]);
            }
            let chunk = chunks.remove(0);
            cache = cache.add(chunk);
            proof {
                assert(chunks.deep_view() =~= left.skip(1));
                assert(left.skip(1) =~= all.skip(taken + 1));
                assert(all.take(taken + 1).drop_last() =~= all.take(taken));
                assert(all.take(taken + 1).last() == all[taken]);
                taken = taken + 1;
            }
        }
        proof {
            assert(all.take(taken) =~= all);
        }
        cache
    }
}

} // verus!
