//! What holds of the renderer on every example.

use vstd::prelude::*;
use crate::asciidoctor_transform::{
    extract_first_callout_spec,
    lemma_transform_failure_is_final,
    scan_line,
    transform_callouts_spec,
    transform_lines,
    CalloutView,
};
use crate::error::ErrorView;
use crate::text::{contains, first_occurrence};

verus! {

/// Lines none of which holds the callout token.
pub open spec fn without_token(lines: Seq<Seq<char>>, token: Seq<char>) -> bool {
    forall|i: int| 0 <= i < lines.len() ==> !contains(#[trigger] lines[i], token)
}

/// Lines without callout tokens are left as they are, and give no callouts.
pub proof fn lemma_lines_without_token_stay(lines: Seq<Seq<char>>, token: Seq<char>)
    requires
        without_token(lines, token),
    ensures
        transform_lines(lines, token) == Ok::<(Seq<Seq<char>>, Seq<Seq<char>>), ErrorView>(
            (lines, Seq::empty()),
        ),
        transform_callouts_spec(lines, token) == Ok::<(Seq<Seq<char>>, Seq<CalloutView>), ErrorView>(
            (lines, Seq::empty()),
        ),
    decreases lines.len(),
{
    if lines.len() == 0 {
        assert(lines =~= Seq::<Seq<char>>::empty());
    } else {
        let earlier = lines.drop_last();
        assert forall|i: int| 0 <= i < earlier.len() implies !contains(
            #[trigger] earlier[i],
            token,
        ) by {
            assert(earlier[i] == lines[i]);
        }
        lemma_lines_without_token_stay(earlier, token);
        assert(!contains(lines[lines.len() - 1], token));
        assert(earlier.push(lines.last()) =~= lines);
        assert(Seq::<Seq<char>>::empty() + Seq::<Seq<char>>::empty() =~= Seq::<
            Seq<char>,
        >::empty());
    }
    let notes = Seq::<Seq<char>>::empty();
    assert(Seq::new(notes.len(), |i: int| CalloutView { text: notes[i], number: (i + 1) as nat })
        =~= Seq::<CalloutView>::empty());
}

/// The first callout token that no annotation follows directly fails the
/// rendering, with the error of that token: lines before it that hold no
/// token do not matter, and neither does anything behind it.
pub proof fn lemma_token_without_annotation_fails(
    lines: Seq<Seq<char>>,
    token: Seq<char>,
    at: int,
)
    requires
        0 <= at < lines.len(),
        without_token(lines.take(at), token),
        contains(lines[at], token),
        extract_first_callout_spec(
            lines[at].skip(first_occurrence(lines[at], token) + token.len()),
            lines[at],
        ) is Err,
    ensures
        transform_callouts_spec(lines, token) == Err::<
            (Seq<Seq<char>>, Seq<CalloutView>),
            ErrorView,
        >(
            extract_first_callout_spec(
                lines[at].skip(first_occurrence(lines[at], token) + token.len()),
                lines[at],
            )->Err_0,
        ),
{
    lemma_lines_without_token_stay(lines.take(at), token);
    assert(lines.take(at + 1).drop_last() =~= lines.take(at));
    assert(lines.take(at + 1).last() == lines[at]);
    assert(scan_line(lines[at], lines[at], token, 0) is Err);
    lemma_transform_failure_is_final(lines, token, at + 1);
}

} // verus!
