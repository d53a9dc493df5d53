//! What holds of indentation normalization on every list of lines.

use vstd::prelude::*;
use crate::read_examples::{
    indent_spec,
    left_align_spec,
    min_indent,
    normalize_spec,
    smaller,
    strip,
};
use crate::text::{lemma_leading_spaces, lemma_leading_spaces_unique, leading_spaces, spaces};

verus! {

/// The least indentation is the indentation of some non-empty line, and no
/// non-empty line has less. There is none exactly where every line is empty.
pub proof fn lemma_min_indent(lines: Seq<Seq<char>>)
    ensures
        match min_indent(lines) {
            Some(least) => {
                &&& exists|i: int|
                    0 <= i < lines.len() && lines[i].len() > 0 && leading_spaces(
                        #[trigger] lines[i],
                    ) == least
                &&& forall|i: int|
                    0 <= i < lines.len() && lines[i].len() > 0 ==> least <= leading_spaces(
                        #[trigger] lines[i],
                    )
            },
            None => forall|i: int| 0 <= i < lines.len() ==> (#[trigger] lines[i]).len() == 0,
        },
    decreases lines.len(),
{
    if lines.len() > 0 {
        let earlier = lines.drop_last();
        let last = lines.len() - 1;
        lemma_min_indent(earlier);
        assert forall|i: int| 0 <= i < last implies earlier[i] == lines[i] by {}
        match min_indent(lines) {
            Some(least) => {
                if lines[last].len() > 0 && leading_spaces(lines[last]) == least {
                    assert(lines[last].len() > 0 && leading_spaces(lines[last]) == least);
                } else {
                    let i = choose|i: int|
                        0 <= i < earlier.len() && earlier[i].len() > 0 && leading_spaces(
                            #[trigger] earlier[i],
                        ) == least;
                    assert(lines[i].len() > 0 && leading_spaces(lines[i]) == least);
                }
                assert forall|i: int|
                    0 <= i < lines.len() && lines[i].len() > 0 implies least <= leading_spaces(
                    #[trigger] lines[i],
                ) by {
                    if i < last {
                        assert(earlier[i] == lines[i]);
                    }
                }
            },
            None => {
                assert forall|i: int| 0 <= i < lines.len() implies (#[trigger] lines[i]).len()
                    == 0 by {
                    if i < last {
                        assert(earlier[i] == lines[i]);
                    }
                }
            },
        }
    }
}

/// A number that is the indentation of some non-empty line, and that no
/// non-empty line undercuts, is the least indentation.
pub proof fn lemma_min_indent_unique(lines: Seq<Seq<char>>, least: nat, at: int)
    requires
        0 <= at < lines.len(),
        lines[at].len() > 0,
        leading_spaces(lines[at]) == least,
        forall|i: int|
            0 <= i < lines.len() && lines[i].len() > 0 ==> least <= leading_spaces(
                #[trigger] lines[i],
            ),
    ensures
        min_indent(lines) == Some(least),
{
    lemma_min_indent(lines);
    match min_indent(lines) {
        Some(other) => {
            let i = choose|i: int|
                0 <= i < lines.len() && lines[i].len() > 0 && leading_spaces(#[trigger] lines[i])
                    == other;
            assert(least <= leading_spaces(lines[i]));
            assert(other <= leading_spaces(lines[at]));
        },
        None => {
            assert(lines[at].len() == 0);
        },
    }
}

/// A line that loses some of its leading spaces keeps the others.
pub proof fn lemma_leading_spaces_skip(line: Seq<char>, count: nat)
    requires
        count <= leading_spaces(line),
    ensures
        leading_spaces(line.skip(count as int)) == leading_spaces(line) - count,
{
    lemma_leading_spaces(line);
    let rest = line.skip(count as int);
    let left = leading_spaces(line) - count;
    assert forall|i: int| 0 <= i < left implies rest[i] == ' ' by {
        assert(rest[i] == line[i + count]);
    }
    if left < rest.len() {
        assert(rest[left] == line[leading_spaces(line) as int]);
    }
    lemma_leading_spaces_unique(rest, left);
}

/// Left-aligning keeps the number and the order of the lines, and takes
/// nothing but leading spaces from any of them: each line is what it was,
/// less a run of spaces at its start.
pub proof fn lemma_left_align_keeps_text(lines: Seq<Seq<char>>)
    ensures
        left_align_spec(lines).len() == lines.len(),
        forall|i: int|
            0 <= i < lines.len() ==> #[trigger] lines[i] == spaces(
                (lines[i].len() - left_align_spec(lines)[i].len()) as nat,
            ) + left_align_spec(lines)[i],
{
    lemma_min_indent(lines);
    let aligned = left_align_spec(lines);
    assert forall|i: int| 0 <= i < lines.len() implies #[trigger] lines[i] == spaces(
        (lines[i].len() - aligned[i].len()) as nat,
    ) + aligned[i] by {
        match min_indent(lines) {
            Some(least) => {
                lemma_leading_spaces(lines[i]);
                let cut = smaller(least, lines[i].len());
                assert(aligned[i] == lines[i].skip(cut as int));
                assert(lines[i] =~= spaces(cut) + aligned[i]);
            },
            None => {
                assert(lines[i] =~= spaces(0) + aligned[i]);
            },
        }
    }
}

/// Whether left-aligning `lines` once is enough: either no line keeps any
/// text, or the least indentation is that of a line that keeps some. It is
/// not enough where only lines of nothing but spaces are the least indented:
/// they become empty, and what remains is indented still.
pub open spec fn alignment_settles(lines: Seq<Seq<char>>) -> bool {
    match min_indent(lines) {
        Some(least) => {
            ||| forall|i: int| 0 <= i < lines.len() ==> (#[trigger] lines[i]).len() <= least
            ||| exists|i: int|
                0 <= i < lines.len() && lines[i].len() > least && leading_spaces(
                    #[trigger] lines[i],
                ) == least
        },
        None => true,
    }
}

/// Left-aligning is idempotent: aligned lines are left as they are by a
/// second pass. This holds exactly of the lists on which one pass is enough
/// (see [`alignment_settles`]); on every other list the second pass takes
/// more spaces away.
pub proof fn lemma_left_align_idempotent(lines: Seq<Seq<char>>)
    ensures
        alignment_settles(lines) <==> left_align_spec(left_align_spec(lines)) == left_align_spec(
            lines,
        ),
{
    lemma_min_indent(lines);
    let aligned = left_align_spec(lines);
    lemma_min_indent(aligned);
    match min_indent(lines) {
        Some(least) => {
            assert forall|i: int| 0 <= i < lines.len() implies (#[trigger] aligned[i]).len() == (
            if lines[i].len() > least {
                lines[i].len() - least
            } else {
                0
            }) && (lines[i].len() > least ==> leading_spaces(aligned[i]) == leading_spaces(
                lines[i],
            ) - least) by {
                if lines[i].len() > least {
                    lemma_leading_spaces_skip(lines[i], least);
                }
            }
            if alignment_settles(lines) {
                if exists|i: int|
                    0 <= i < lines.len() && lines[i].len() > least && leading_spaces(
                        #[trigger] lines[i],
                    ) == least {
                    let at = choose|i: int|
                        0 <= i < lines.len() && lines[i].len() > least && leading_spaces(
                            #[trigger] lines[i],
                        ) == least;
                    assert(aligned[at].len() > 0 && leading_spaces(aligned[at]) == 0);
                    lemma_min_indent_unique(aligned, 0, at);
                    assert forall|i: int| 0 <= i < aligned.len() implies strip(
                        #[trigger] aligned[i],
                        0,
                    ) == aligned[i] by {
                        assert(aligned[i].skip(0) =~= aligned[i]);
                    }
                    assert(left_align_spec(aligned) =~= aligned);
                } else {
                    assert forall|i: int| 0 <= i < aligned.len() implies (
                    #[trigger] aligned[i]).len() == 0 by {
                        assert(lines[i].len() <= least);
                    }
                    assert(min_indent(aligned) is None) by {
                        if let Some(other) = min_indent(aligned) {
                            let i = choose|i: int|
                                0 <= i < aligned.len() && aligned[i].len() > 0 && leading_spaces(
                                    #[trigger] aligned[i],
                                ) == other;
                            assert(aligned[i].len() == 0);
                        }
                    }
                }
            } else {
                let long = choose|i: int| 0 <= i < lines.len() && (#[trigger] lines[i]).len() > least;
                assert(aligned[long].len() > 0);
                match min_indent(aligned) {
                    Some(more) => {
                        let at = choose|i: int|
                            0 <= i < aligned.len() && aligned[i].len() > 0 && leading_spaces(
                                #[trigger] aligned[i],
                            ) == more;
                        assert(lines[at].len() > least);
                        assert(leading_spaces(lines[at]) >= least);
                        assert(leading_spaces(lines[at]) != least);
                        assert(more > 0);
                        let again = left_align_spec(aligned);
                        assert(again[at] == strip(aligned[at], more));
                        assert(again[at].len() < aligned[at].len());
                    },
                    None => {
                        assert(aligned[long].len() == 0);
                    },
                }
            }
        },
        None => {},
    }
}

/// A line behind a run of spaces has those spaces and its own.
pub proof fn lemma_leading_spaces_indented(line: Seq<char>, count: nat)
    ensures
        leading_spaces(spaces(count) + line) == count + leading_spaces(line),
{
    lemma_leading_spaces(line);
    let whole = spaces(count) + line;
    let run = count + leading_spaces(line);
    assert forall|i: int| 0 <= i < run implies whole[i] == ' ' by {
        if i >= count {
            assert(whole[i] == line[i - count]);
        }
    }
    if run < whole.len() {
        assert(whole[run as int] == line[leading_spaces(line) as int]);
    }
    lemma_leading_spaces_unique(whole, run as int);
}

/// Normalizing the indentation is idempotent: lines that were left-aligned
/// and indented are left as they are when that is done to them again. With
/// an indentation of one space or more this holds of every list of lines;
/// with an indentation of none it holds exactly of the lists on which one
/// pass of left-aligning is enough (see [`alignment_settles`]).
pub proof fn lemma_normalization_idempotent(lines: Seq<Seq<char>>, indentation: nat)
    ensures
        (indentation > 0 || alignment_settles(lines)) <==> normalize_spec(
            normalize_spec(lines, indentation),
            indentation,
        ) == normalize_spec(lines, indentation),
{
    let aligned = left_align_spec(lines);
    let once = normalize_spec(lines, indentation);
    let twice = normalize_spec(once, indentation);
    lemma_min_indent(lines);
    if indentation == 0 {
        lemma_left_align_idempotent(lines);
        assert forall|given: Seq<Seq<char>>| indent_spec(given, 0) == given by {
            assert forall|i: int| 0 <= i < given.len() implies spaces(0) + given[i]
                == #[trigger] given[i] by {
                assert(spaces(0) + given[i] =~= given[i]);
            }
            assert(indent_spec(given, 0) =~= given);
        }
    } else if lines.len() == 0 {
        assert(aligned =~= lines);
        assert(once =~= lines);
        assert(min_indent(once) is None);
        assert(twice =~= once);
    } else {
        assert forall|i: int| 0 <= i < once.len() implies (#[trigger] once[i]).len() > 0
            && leading_spaces(once[i]) == indentation + leading_spaces(aligned[i]) by {
            lemma_leading_spaces_indented(aligned[i], indentation);
        }
        // Some aligned line starts at the left edge: the least indented
        // line, or any line where all are empty.
        let edge = match min_indent(lines) {
            Some(least) => choose|i: int|
                0 <= i < lines.len() && lines[i].len() > 0 && leading_spaces(#[trigger] lines[i])
                    == least,
            None => 0,
        };
        assert(leading_spaces(aligned[edge]) == 0) by {
            match min_indent(lines) {
                Some(least) => {
                    lemma_leading_spaces_skip(lines[edge], least);
                },
                None => {
                    assert(lines[edge].len() == 0);
                },
            }
        }
        assert forall|i: int|
            0 <= i < once.len() && once[i].len() > 0 implies indentation <= leading_spaces(
            #[trigger] once[i],
        ) by {}
        lemma_min_indent_unique(once, indentation, edge);
        assert forall|i: int| 0 <= i < once.len() implies spaces(indentation) + strip(
            #[trigger] once[i],
            indentation,
        ) == once[i] by {
            assert(strip(once[i], indentation) =~= aligned[i]);
        }
        assert(twice =~= once);
    }
}

} // verus!
