//! The Asciidoctor renderer: wraps the lines of an example in a source
//! block, replaces each callout token by a numbered marker, and lists the
//! callouts' texts behind the block.

use vstd::prelude::*;
use vstd::string::*;
use crate::chunk_params::group;
use crate::error::{ErrorView, ExemplifyError};
use crate::example::{join, join_lines, Example, ExampleView, Printable};
use crate::patterns::{capture_groups, regex_captures};
use crate::text::{
    chars_of,
    contains,
    decimal,
    find,
    first_occurrence,
    lemma_contains_has_first,
    lemma_first_occurrence,
    push_decimal,
};
use crate::views::result_view;

verus! {

/// The pattern of a callout's annotation at the start of a text:
/// `{value="..."}` with at least one character between the quotes, ending at
/// the first `"}` that closes it. Group 1 holds the text between the quotes.
pub const CALLOUT_PATTERN: &'static str = "^\\{value=\"(.+?)\"\\}";

/// What the renderer needs to know: the token that marks a callout.
#[derive(Clone, Debug)]
pub struct AsciidoctorSettings {
    pub callout_token: String,
}

/// The mathematical value of [`AsciidoctorSettings`].
pub struct AsciidoctorSettingsView {
    pub callout_token: Seq<char>,
}

impl View for AsciidoctorSettings {
    type V = AsciidoctorSettingsView;

    open spec fn view(&self) -> AsciidoctorSettingsView {
        AsciidoctorSettingsView { callout_token: self.callout_token@ }
    }
}

/// A callout: the text of an annotation and the number of its marker.
#[derive(Clone, Debug)]
pub struct Callout {
    pub text: String,
    pub number: usize,
}

/// The mathematical value of a [`Callout`].
pub struct CalloutView {
    pub text: Seq<char>,
    pub number: nat,
}

impl View for Callout {
    type V = CalloutView;

    open spec fn view(&self) -> CalloutView {
        CalloutView { text: self.text@, number: self.number as nat }
    }
}

impl DeepView for Callout {
    type V = CalloutView;

    open spec fn deep_view(&self) -> CalloutView {
        self@
    }
}

/// The marker that stands for callout `number`.
pub open spec fn marker(number: nat) -> Seq<char> {
    "<"@ + decimal(number) + ">"@
}

/// The annotation that the matches of the callout pattern give for a text of
/// `limit` characters: the text of group 1, and how many characters the
/// whole annotation takes. There is none where nothing matched, where a
/// group is missing, or where a match is empty or longer than the text.
pub open spec fn annotation_of(found: Seq<Seq<Option<Seq<char>>>>, limit: nat) -> Option<
    (Seq<char>, nat),
> {
    if found.len() == 0 {
        None
    } else {
        match (group(found[0], 0), group(found[0], 1)) {
            (Some(whole), Some(note)) => if 0 < whole.len() <= limit {
                Some((note, whole.len()))
            } else {
                None
            },
            _ => None,
        }
    }
}

/// What stands directly behind a callout token: the rest of the line behind
/// the annotation, and the annotation's text. `input` is the line from the
/// token's end on, `raw_line` the whole line, for the error.
pub open spec fn extract_first_callout_spec(input: Seq<char>, raw_line: Seq<char>) -> Result<
    (Seq<char>, Seq<char>),
    ErrorView,
> {
    match regex_captures(CALLOUT_PATTERN@, input) {
        Some(found) => match annotation_of(found, input.len()) {
            Some((note, taken)) => Ok((input.skip(taken as int), note)),
            None => Err(ErrorView::CalloutExtraction { raw_line }),
        },
        None => Err(ErrorView::Grammar { pattern: CALLOUT_PATTERN@ }),
    }
}

/// The text `text`, read from left to right, with each callout token
/// replaced by the marker of its number and the annotation behind the token
/// taken out; and the annotations' texts, in order. `noted` callouts came
/// before this text, so its first callout has the number `noted + 1`. A
/// token that no annotation follows directly ends the run.
pub open spec fn scan_line(raw_line: Seq<char>, text: Seq<char>, token: Seq<char>, noted: nat)
    -> Result<(Seq<char>, Seq<Seq<char>>), ErrorView>
    decreases text.len(),
    via scan_line_decreases
{
    if !contains(text, token) {
        Ok((text, Seq::empty()))
    } else {
        let at = first_occurrence(text, token);
        match extract_first_callout_spec(text.skip(at + token.len()), raw_line) {
            Ok((rest, note)) => match scan_line(raw_line, rest, token, noted + 1) {
                Ok((tail, notes)) => Ok(
                    (text.take(at) + marker(noted + 1) + tail, seq![note] + notes),
                ),
                Err(error) => Err(error),
            },
            Err(error) => Err(error),
        }
    }
}

#[via_fn]
proof fn scan_line_decreases(raw_line: Seq<char>, text: Seq<char>, token: Seq<char>, noted: nat) {
    if contains(text, token) {
        lemma_contains_has_first(text, token);
    }
}

/// The lines `lines` with their callouts replaced by markers, and the
/// callouts' texts in the order of their markers. Callouts are counted
/// through the whole example, from 1.
pub open spec fn transform_lines(lines: Seq<Seq<char>>, token: Seq<char>) -> Result<
    (Seq<Seq<char>>, Seq<Seq<char>>),
    ErrorView,
>
    decreases lines.len(),
{
    if lines.len() == 0 {
        Ok((Seq::empty(), Seq::empty()))
    } else {
        match transform_lines(lines.drop_last(), token) {
            Ok((done, notes)) => match scan_line(lines.last(), lines.last(), token, notes.len()) {
                Ok((line, more)) => Ok((done.push(line), notes + more)),
                Err(error) => Err(error),
            },
            Err(error) => Err(error),
        }
    }
}

/// The callouts with the texts `notes`, numbered from 1.
pub open spec fn numbered_callouts(notes: Seq<Seq<char>>) -> Seq<CalloutView> {
    Seq::new(notes.len(), |i: int| CalloutView { text: notes[i], number: (i + 1) as nat })
}

/// The lines of an example with markers in place of callouts, and the
/// callouts.
pub open spec fn transform_callouts_spec(lines: Seq<Seq<char>>, token: Seq<char>) -> Result<
    (Seq<Seq<char>>, Seq<CalloutView>),
    ErrorView,
> {
    match transform_lines(lines, token) {
        Ok((done, notes)) => Ok((done, numbered_callouts(notes))),
        Err(error) => Err(error),
    }
}

/// Once a prefix of the lines has failed, the whole fails with the same
/// error.
pub proof fn lemma_transform_failure_is_final(lines: Seq<Seq<char>>, token: Seq<char>, k: int)
    requires
        0 <= k <= lines.len(),
        transform_lines(lines.take(k), token) is Err,
    ensures
        transform_lines(lines, token) == transform_lines(lines.take(k), token),
    decreases lines.len() - k,
{
    if k == lines.len() {
        assert(lines.take(k) =~= lines);
    } else {
        assert(lines.take(k + 1).drop_last() =~= lines.take(k));
        lemma_transform_failure_is_final(lines, token, k + 1);
    }
}

/// The annotation that the matches of the callout pattern give for a text of
/// `limit` characters: its text, and how many characters it takes.
pub fn annotation_from_captures(found: &Vec<Vec<Option<String>>>, limit: usize) -> (annotation:
    Option<(String, usize)>)
    ensures
        match annotation {
            Some((note, taken)) => annotation_of(found.deep_view(), limit as nat) == Some(
                (note@, taken as nat),
            ),
            None => annotation_of(found.deep_view(), limit as nat) is None,
        },
{
    if found.len() == 0 {
        return None;
    }
    let groups = &found[0];
    proof {
        let all = found.deep_view();
        assert(all[0] == groups.deep_view());
        assert(groups.len() > 0 ==> all[0][0] == groups@[0].deep_view());
        assert(groups.len() > 1 ==> all[0][1] == groups@[1].deep_view());
    }
    if groups.len() < 2 {
        return None;
    }
    match (&groups[0], &groups[1]) {
        (Some(whole), Some(note)) => {
            let taken = whole.as_str().unicode_len();
            if 0 < taken && taken <= limit {
                Some((note.clone(), taken))
            } else {
                None
            }
        },
        _ => None,
    }
}

/// Takes the annotation that stands at the start of `input`, which is what
/// follows a callout token in the line `raw_line`. Returns the rest of the
/// input behind the annotation, and the annotation's text. The `regex` crate
/// finds the annotation; [`annotation_from_captures`] decides what counts.
pub fn extract_first_callout(input: &str, raw_line: &str) -> (extracted: Result<
    (String, String),
    ExemplifyError,
>)
    ensures
        result_view(extracted) == extract_first_callout_spec(input@, raw_line@),
{
    let found = match capture_groups(CALLOUT_PATTERN, input) {
        Ok(found) => found,
        Err(_) => {
            return Err(ExemplifyError::Grammar { pattern: String::from_str(CALLOUT_PATTERN) });
        },
    };
    let length = input.unicode_len();
    match annotation_from_captures(&found, length) {
        Some((note, taken)) => {
            let rest = String::from_str(input.substring_char(taken, length));
            proof {
                assert(input@.subrange(taken as int, length as int) =~= input@.skip(taken as int));
            }
            Ok((rest, note))
        },
        None => Err(ExemplifyError::CalloutExtraction { raw_line: String::from_str(raw_line) }),
    }
}

/// What a scan has made of a line so far, and what is still to be scanned,
/// put together.
pub open spec fn scan_resumed(
    written: Seq<char>,
    found: Seq<Seq<char>>,
    rest: Result<(Seq<char>, Seq<Seq<char>>), ErrorView>,
) -> Result<(Seq<char>, Seq<Seq<char>>), ErrorView> {
    match rest {
        Ok((tail, notes)) => Ok((written + tail, found + notes)),
        Err(error) => Err(error),
    }
}

/// Replaces the callouts of one line by markers. The annotations' texts are
/// added to `notes`, whose length gives each callout its number.
fn transform_line(line: &str, token: &Vec<char>, notes: &mut Vec<String>) -> (transformed: Result<
    String,
    ExemplifyError,
>)
    ensures
        match scan_line(line@, line@, token@, old(notes).len() as nat) {
            Ok((text, found)) => transformed is Ok && transformed->Ok_0@ == text
                && final(notes).deep_view() == old(notes).deep_view() + found,
            Err(error) => transformed is Err && transformed->Err_0@ == error,
        },
{
    let ghost start = notes.deep_view();
    let ghost first = notes.len() as nat;
    let ghost whole = scan_line(line@, line@, token@, first);
    let mut written = String::new();
    let mut rest = String::from_str(line);
    let ghost mut found: Seq<Seq<char>> = Seq::empty();
    proof {
        assert(written@ + rest@ =~= rest@);
        assert(found + Seq::<Seq<char>>::empty() =~= found);
        assert(start + found =~= start);
        match scan_line(line@, rest@, token@, first) {
            Ok((tail, more)) => {
                assert(written@ + tail =~= tail);
                assert(found + more =~= more);
            },
            Err(_) => {},
        }
    }
    loop
        invariant_except_break
            whole == scan_resumed(
                written@,
                found,
                scan_line(line@, rest@, token@, first + found.len()),
            ),
        invariant
            start == old(notes).deep_view(),
            first == old(notes).len(),
            whole == scan_line(line@, line@, token@, first),
            notes.deep_view() == start + found,
        ensures
            whole matches Ok((text, all)) && written@ == text && notes.deep_view() == start + all,
        decreases rest@.len(),
    {
        let hay = chars_of(rest.as_str());
        let length = hay.len();
        let ghost noted = first + found.len();
        match find(&hay, token) {
            None => {
                written.append(rest.as_str());
                proof {
                    assert(found + Seq::<Seq<char>>::empty() =~= found);
                }
                break ;
            },
            Some(at) => {
                proof {
                    lemma_first_occurrence(rest@, token@, at as int);
                    assert(at + token@.len() <= length);
                }
                let behind = rest.as_str().substring_char(at + token.len(), length);
                proof {
                    assert(behind@ =~= rest@.skip(at + token@.len()));
                }
                match extract_first_callout(behind, line) {
                    Ok((remaining, note)) => {
                        let ghost before = notes.deep_view();
                        let ghost written_before = written@;
                        notes.push(note);
                        let number = notes.len();
                        written.append(rest.as_str().substring_char(0, at));
                        written.append("<");
                        push_decimal(&mut written, number);
                        written.append(">");
                        proof {
                            assert(notes.deep_view() =~= before.push(note@));
                            assert(number == noted + 1);
                            assert(rest@.subrange(0, at as int) =~= rest@.take(at as int));
                            assert(written@ =~= written_before + (rest@.take(at as int) + marker(
                                noted + 1,
                            )));
                            let next = scan_line(line@, remaining@, token@, noted + 1);
                            match next {
                                Ok((tail, more)) => {
                                    assert(written_before + (rest@.take(at as int) + marker(
                                        noted + 1,
                                    ) + tail) =~= written@ + tail);
                                    assert(found + (seq![note@] + more) =~= found.push(note@)
                                        + more);
                                },
                                Err(_) => {},
                            }
                            found = found.push(note@);
                            assert(notes.deep_view() =~= start + found);
                        }
                        rest = remaining;
                    },
                    Err(error) => {
                        return Err(error);
                    },
                }
            },
        }
    }
    Ok(written)
}

/// Replaces every callout token in the lines by the marker `<N>` of its
/// number, takes out the `{value="..."}` annotation that must stand directly
/// behind the token, and returns the lines and the callouts. Callouts are
/// numbered from 1 in the order in which they stand in the example.
pub fn transform_callouts(input: Vec<String>, callout_token: &String) -> (transformed: Result<
    (Vec<String>, Vec<Callout>),
    ExemplifyError,
>)
    ensures
        result_view(transformed) == transform_callouts_spec(input.deep_view(), callout_token@),
{
    let ghost all = input.deep_view();
    let token = chars_of(callout_token.as_str());
    let mut output: Vec<String> = Vec::new();
    let mut notes: Vec<String> = Vec::new();
    let mut k: usize = 0;
    proof {
        assert(output.deep_view() =~= Seq::<Seq<char>>::empty());
        assert(notes.deep_view() =~= Seq::<Seq<char>>::empty());
    }
    while k < input.len()
        invariant
            k <= input.len(),
            all == input.deep_view(),
            token@ == callout_token@,
            transform_lines(all.take(k as int), token@) == Ok::<
                (Seq<Seq<char>>, Seq<Seq<char>>),
                ErrorView,
            >((output.deep_view(), notes.deep_view())),
        decreases input.len() - k,
    {
        let ghost done = output.deep_view();
        proof {
            assert(all.take(k + 1).drop_last() =~= all.take(k as int));
            assert(all.take(k + 1).last() == input@[k as int]@);
            assert(notes.deep_view().len() == notes.len());
        }
        match transform_line(input[k].as_str(), &token, &mut notes) {
            Ok(line) => {
                output.push(line);
                proof {
                    assert(output.deep_view() =~= done.push(line@));
                }
            },
            Err(error) => {
                proof {
                    lemma_transform_failure_is_final(all, token@, k + 1);
                }
                return Err(error);
            },
        }
        k = k + 1;
    }
    proof {
        assert(all.take(k as int) =~= all);
    }
    let ghost texts = notes.deep_view();
    let mut callouts: Vec<Callout> = Vec::new();
    let mut number: usize = 0;
    while number < notes.len()
        invariant
            number <= notes.len(),
            texts == notes.deep_view(),
            callouts.len() == number,
            forall|i: int|
                0 <= i < number ==> (#[trigger] callouts@[i])@ == (CalloutView {
                    text: texts[i],
                    number: (i + 1) as nat,
                }),
        decreases notes.len() - number,
    {
        proof {
            assert(texts[number as int] == notes@[number as int]@);
        }
        callouts.push(Callout { text: notes[number].clone(), number: number + 1 });
        number = number + 1;
    }
    proof {
        assert(callouts.deep_view() =~= numbered_callouts(texts));
    }
    Ok((output, callouts))
}

/// An example rendered as Asciidoctor markup.
#[derive(Clone, Debug)]
pub struct AsciidoctorExample {
    inner: Example,
}

impl View for AsciidoctorExample {
    type V = ExampleView;

    closed spec fn view(&self) -> ExampleView {
        self.inner@
    }
}

impl DeepView for AsciidoctorExample {
    type V = ExampleView;

    open spec fn deep_view(&self) -> ExampleView {
        self@
    }
}

/// The line that opens a source block, with the language where one is given.
pub open spec fn source_line(language: Option<Seq<char>>) -> Seq<char> {
    match language {
        Some(language) => "[source"@ + ","@ + language + "]"@,
        None => "[source"@ + "]"@,
    }
}

/// The lines before the content: the title behind a dot, where there is a
/// title; the id as an anchor, where there is an id; the opening of the
/// source block; and the block's delimiter.
pub open spec fn source_header(example: ExampleView) -> Seq<Seq<char>> {
    let title = match example.title {
        Some(title) => seq!["."@ + title],
        None => Seq::empty(),
    };
    let id = match example.id {
        Some(id) => seq!["[#"@ + id + "]"@],
        None => Seq::empty(),
    };
    title + id + seq![source_line(example.language), "----"@]
}

/// The lines between the content and the callouts: the block's delimiter.
pub open spec fn source_footer() -> Seq<Seq<char>> {
    seq!["----"@]
}

/// The line that explains a callout: its marker, a space, its text.
pub open spec fn callout_line(callout: CalloutView) -> Seq<char> {
    marker(callout.number) + " "@ + callout.text
}

/// The lines that explain the callouts, in order.
pub open spec fn callout_lines(callouts: Seq<CalloutView>) -> Seq<Seq<char>> {
    Seq::new(callouts.len(), |i: int| callout_line(callouts[i]))
}

/// The example as Asciidoctor markup: header, content with markers, footer
/// and callout list as its lines, everything else as it was.
pub open spec fn to_asciidoctor_spec(example: ExampleView, settings: AsciidoctorSettingsView)
    -> Result<ExampleView, ErrorView> {
    match transform_callouts_spec(example.content, settings.callout_token) {
        Ok((content, callouts)) => Ok(
            ExampleView {
                content: source_header(example) + content + source_footer() + callout_lines(
                    callouts,
                ),
                ..example
            },
        ),
        Err(error) => Err(error),
    }
}

/// The lines that stand before the content of `example`.
pub fn create_asciidoc_source_header(_settings: &AsciidoctorSettings, example: &Example) -> (header:
    Vec<String>)
    ensures
        header.deep_view() == source_header(example@),
{
    let mut header: Vec<String> = Vec::new();
    let ghost mut lines: Seq<Seq<char>> = Seq::empty();
    proof {
        assert(header.deep_view() =~= lines);
    }
    match &example.title {
        Some(title) => {
            let mut line = String::from_str(".");
            line.append(title.as_str());
            header.push(line);
            proof {
                lines = lines.push("."@ + title@);
                assert(header.deep_view() =~= lines);
            }
        },
        None => {},
    }
    match &example.id {
        Some(id) => {
            let mut line = String::from_str("[#");
            line.append(id.as_str());
            line.append("]");
            header.push(line);
            proof {
                lines = lines.push("[#"@ + id@ + "]"@);
                assert(header.deep_view() =~= lines);
            }
        },
        None => {},
    }
    let mut source = String::from_str("[source");
    match &example.language {
        Some(language) => {
            source.append(",");
            source.append(language.as_str());
        },
        None => {},
    }
    source.append("]");
    header.push(source);
    header.push(String::from_str("----"));
    proof {
        lines = lines.push(source_line(example@.language)).push("----"@);
        assert(header.deep_view() =~= lines);
        assert(lines =~= source_header(example@));
    }
    header
}

/// The lines that stand between the content and the callout list.
pub fn create_asciidoc_source_footer(_settings: &AsciidoctorSettings) -> (footer: Vec<String>)
    ensures
        footer.deep_view() == source_footer(),
{
    let mut footer: Vec<String> = Vec::new();
    footer.push(String::from_str("----"));
    proof {
        assert(footer.deep_view() =~= source_footer());
    }
    footer
}

/// The lines that explain the callouts.
fn render_callouts(callouts: &Vec<Callout>) -> (lines: Vec<String>)
    ensures
        lines.deep_view() == callout_lines(callouts.deep_view()),
{
    let ghost all = callouts.deep_view();
    let mut lines: Vec<String> = Vec::new();
    let mut k: usize = 0;
    while k < callouts.len()
        invariant
            k <= callouts.len(),
            all == callouts.deep_view(),
            lines.len() == k,
            forall|i: int| 0 <= i < k ==> (#[trigger] lines@[i])@ == callout_line(all[i]),
        decreases callouts.len() - k,
    {
        let callout = &callouts[k];
        let mut line = String::from_str("<");
        push_decimal(&mut line, callout.number);
        line.append(">");
        line.append(" ");
        line.append(callout.text.as_str());
        proof {
            assert(all[k as int] == callout@);
            assert(line@ =~= callout_line(callout@));
        }
        lines.push(line);
        k = k + 1;
    }
    proof {
        assert(lines.deep_view() =~= callout_lines(all));
    }
    lines
}

/// Renders one example as Asciidoctor markup.
pub fn to_asciidoctor(example: Example, settings: &AsciidoctorSettings) -> (rendered: Result<
    AsciidoctorExample,
    ExemplifyError,
>)
    ensures
        result_view(rendered) == to_asciidoctor_spec(example@, settings@),
{
    let mut content = create_asciidoc_source_header(settings, &example);
    let mut footer = create_asciidoc_source_footer(settings);
    let Example { name, content: lines, title, language, id } = example;
    let (mut transformed, callouts) = transform_callouts(lines, &settings.callout_token)?;
    let mut explained = render_callouts(&callouts);
    let ghost parts = (
        content.deep_view(),
        transformed.deep_view(),
        footer.deep_view(),
        explained.deep_view(),
    );
    content.append(&mut transformed);
    content.append(&mut footer);
    content.append(&mut explained);
    proof {
        assert(content.deep_view() =~= parts.0 + parts.1 + parts.2 + parts.3);
    }
    Ok(AsciidoctorExample { inner: Example { name, content, title, language, id } })
}

/// Renders every example as Asciidoctor markup, each on its own: an example
/// that cannot be rendered does not keep the others from being rendered.
pub fn map_to_asciidoctor(input: Vec<Example>, settings: AsciidoctorSettings) -> (rendered: Vec<
    Result<AsciidoctorExample, ExemplifyError>,
>)
    ensures
        rendered.len() == input.len(),
        forall|i: int|
            0 <= i < input.len() ==> result_view(#[trigger] rendered[i]) == to_asciidoctor_spec(
                input[i]@,
                settings@,
            ),
{
    let mut rendered: Vec<Result<AsciidoctorExample, ExemplifyError>> = Vec::new();
    for example in it: input
        invariant
            it.seq() == input@,
            rendered.len() == it.index(),
            forall|i: int|
                0 <= i < it.index() ==> result_view(#[trigger] rendered[i]) == to_asciidoctor_spec(
                    input[i]@,
                    settings@,
                ),
    {
        rendered.push(to_asciidoctor(example, &settings));
    }
    rendered
}

impl AsciidoctorExample {
    /// The rendered example.
    pub fn example(&self) -> (inner: &Example)
        ensures
            inner@ == self@,
    {
        &self.inner
    }
}

impl Printable for AsciidoctorExample {
    /// A rendered example is written as its lines, one per line.
    open spec fn print_spec(&self) -> Seq<char> {
        join_lines(self@.content)
    }

    /// A rendered example is filed under its name, with the extension
    /// `.adoc`.
    open spec fn file_name_spec(&self) -> Seq<char> {
        self@.name + ".adoc"@
    }

    fn print(&self) -> (text: String) {
        join(&self.inner.content)
    }

    fn file_name(&self) -> (name: String) {
        let mut name = self.inner.name.clone();
        name.append(".adoc");
        name
    }
}

} // verus!
