//! What can stop a run: malformed marker sequences, malformed parameters,
//! inconsistent part numbers, and callouts without an annotation.

use vstd::prelude::*;
use vstd::string::*;
use crate::text::{decimal, push_decimal};

verus! {

/// Why a run failed. Every error ends the whole run.
#[derive(Clone, Debug)]
pub enum ExemplifyError {
    /// A start marker was seen while a chunk was open.
    NestedChunk { source_name: String, line: usize },
    /// An end marker was seen while no chunk was open.
    UnmatchedEnd { source_name: String, line: usize },
    /// The parameters of a start marker give no name, or an empty one.
    MissingName { source_name: String, line: usize },
    /// A `part` or `indentation` value is no 32-bit non-negative integer.
    InvalidParameter { source_name: String, line: usize, key: String, raw_value: String },
    /// An example has several chunks and the chunk that starts at `line` of
    /// `source_name` has no part number.
    MissingPartNumber { name: String, source_name: String, line: usize },
    /// The chunk that starts at `line` of `source_name` repeats a part number
    /// of its example.
    DuplicatePart { name: String, part_number: u32, source_name: String, line: usize },
    /// A callout token in `raw_line` is not directly followed by an annotation.
    CalloutExtraction { raw_line: String },
    /// The regular-expression engine rejected `pattern`.
    Grammar { pattern: String },
    /// A source could not be had; `message` says why, in the words of
    /// whoever was asked for it.
    Source { message: String },
}

/// The mathematical value of an [`ExemplifyError`].
pub enum ErrorView {
    NestedChunk { source_name: Seq<char>, line: nat },
    UnmatchedEnd { source_name: Seq<char>, line: nat },
    MissingName { source_name: Seq<char>, line: nat },
    InvalidParameter { source_name: Seq<char>, line: nat, key: Seq<char>, raw_value: Seq<char> },
    MissingPartNumber { name: Seq<char>, source_name: Seq<char>, line: nat },
    DuplicatePart { name: Seq<char>, part_number: u32, source_name: Seq<char>, line: nat },
    CalloutExtraction { raw_line: Seq<char> },
    Grammar { pattern: Seq<char> },
    Source { message: Seq<char> },
}

impl View for ExemplifyError {
    type V = ErrorView;

    open spec fn view(&self) -> ErrorView {
        match self {
            ExemplifyError::NestedChunk { source_name, line } => ErrorView::NestedChunk {
                source_name: source_name@,
                line: *line as nat,
            },
            ExemplifyError::UnmatchedEnd { source_name, line } => ErrorView::UnmatchedEnd {
                source_name: source_name@,
                line: *line as nat,
            },
            ExemplifyError::MissingName { source_name, line } => ErrorView::MissingName {
                source_name: source_name@,
                line: *line as nat,
            },
            ExemplifyError::InvalidParameter {
                source_name,
                line,
                key,
                raw_value,
            } => ErrorView::InvalidParameter {
                source_name: source_name@,
                line: *line as nat,
                key: key@,
                raw_value: raw_value@,
            },
            ExemplifyError::MissingPartNumber {
                name,
                source_name,
                line,
            } => ErrorView::MissingPartNumber {
                name: name@,
                source_name: source_name@,
                line: *line as nat,
            },
            ExemplifyError::DuplicatePart {
                name,
                part_number,
                source_name,
                line,
            } => ErrorView::DuplicatePart {
                name: name@,
                part_number: *part_number,
                source_name: source_name@,
                line: *line as nat,
            },
            ExemplifyError::CalloutExtraction { raw_line } => ErrorView::CalloutExtraction {
                raw_line: raw_line@,
            },
            ExemplifyError::Grammar { pattern } => ErrorView::Grammar { pattern: pattern@ },
            ExemplifyError::Source { message } => ErrorView::Source { message: message@ },
        }
    }
}

impl DeepView for ExemplifyError {
    type V = ErrorView;

    open spec fn deep_view(&self) -> ErrorView {
        self@
    }
}

/// The position `source[line]: ` that opens most messages.
pub open spec fn position_text(source_name: Seq<char>, line: nat) -> Seq<char> {
    source_name + "["@ + decimal(line) + "]: "@
}

impl ErrorView {
    /// The message that reports this error to a person.
    pub open spec fn message(self) -> Seq<char> {
        match self {
            ErrorView::NestedChunk { source_name, line } => "Error "@ + position_text(
                source_name,
                line,
            ) + "attempting to start chunk-in-chunk"@,
            ErrorView::UnmatchedEnd { source_name, line } => "Error "@ + position_text(
                source_name,
                line,
            ) + "attempting to end chunk outside of chunk"@,
            ErrorView::MissingName { source_name, line } => position_text(source_name, line)
                + "Missing name"@,
            ErrorView::InvalidParameter { source_name, line, key, raw_value } => position_text(
                source_name,
                line,
            ) + "Failed to parse "@ + key + " number "@ + raw_value,
            ErrorView::MissingPartNumber { name, source_name, line } => position_text(
                source_name,
                line,
            ) + "You must provide a part number for chunks in examples with more than one chunk"@,
            ErrorView::DuplicatePart { name, part_number, source_name, line } => position_text(
                source_name,
                line,
            ) + "Duplicate part "@ + decimal(part_number as nat) + " "@,
            ErrorView::CalloutExtraction { raw_line } => "Failed extracting callout from "@
                + raw_line,
            ErrorView::Grammar { pattern } => "Pattern rejected: "@ + pattern,
            ErrorView::Source { message } => message,
        }
    }
}

/// Appends `source[line]: ` to `out`.
fn push_position(out: &mut String, source_name: &String, line: usize)
    ensures
        final(out)@ == old(out)@ + position_text(source_name@, line as nat),
{
    out.append(source_name.as_str());
    out.append("[");
    push_decimal(out, line);
    out.append("]: ");
    proof {
        assert(final(out)@ =~= old(out)@ + position_text(source_name@, line as nat));
    }
}

impl ExemplifyError {
    /// The message that reports this error to a person.
    pub fn message(&self) -> (text: String)
        ensures
            text@ == self@.message(),
    {
        let mut text = String::new();
        match self {
            ExemplifyError::NestedChunk { source_name, line } => {
                text.append("Error ");
                push_position(&mut text, source_name, *line);
                text.append("attempting to start chunk-in-chunk");
            },
            ExemplifyError::UnmatchedEnd { source_name, line } => {
                text.append("Error ");
                push_position(&mut text, source_name, *line);
                text.append("attempting to end chunk outside of chunk");
            },
            ExemplifyError::MissingName { source_name, line } => {
                push_position(&mut text, source_name, *line);
                text.append("Missing name");
            },
            ExemplifyError::InvalidParameter { source_name, line, key, raw_value } => {
                push_position(&mut text, source_name, *line);
                text.append("Failed to parse ");
                text.append(key.as_str());
                text.append(" number ");
                text.append(raw_value.as_str());
            },
            ExemplifyError::MissingPartNumber { name, source_name, line } => {
                push_position(&mut text, source_name, *line);
                text.append(
                    "You must provide a part number for chunks in examples with more than one chunk",
                );
            },
            ExemplifyError::DuplicatePart { name, part_number, source_name, line } => {
                push_position(&mut text, source_name, *line);
                text.append("Duplicate part ");
                push_decimal(&mut text, *part_number as usize);
                text.append(" ");
            },
            ExemplifyError::CalloutExtraction { raw_line } => {
                text.append("Failed extracting callout from ");
                text.append(raw_line.as_str());
            },
            ExemplifyError::Grammar { pattern } => {
                text.append("Pattern rejected: ");
                text.append(pattern.as_str());
            },
            ExemplifyError::Source { message } => {
                text.append(message.as_str());
            },
        }
        proof {
            assert(text@ =~= self@.message());
        }
        text
    }
}

} // verus!
