//! What a caller chooses for a run: where the sources are, which markers
//! delimit a chunk, and where the examples go in which form.

use vstd::prelude::*;
use vstd::string::*;
use crate::parser_settings::{ParserSettings, ParserSettingsView};
use crate::text::same_text;

verus! {

/// The markup that examples are rendered in.
#[derive(Clone, Copy, Debug, PartialEq, Eq, Structural)]
pub enum OutputFormat {
    Asciidoctor,
}

/// The format that the word `word` names: `asciidoc` names Asciidoctor, and
/// no other word names a format.
pub open spec fn output_format_of(word: Seq<char>) -> Result<OutputFormat, Seq<char>> {
    if word == "asciidoc"@ {
        Ok(OutputFormat::Asciidoctor)
    } else {
        Err("invalid output format"@)
    }
}

impl OutputFormat {
    /// The format that `word` names.
    pub fn parse(word: &str) -> (format: Result<OutputFormat, String>)
        ensures
            match output_format_of(word@) {
                Ok(named) => format == Ok::<OutputFormat, String>(named),
                Err(message) => format is Err && format->Err_0@ == message,
            },
    {
        if same_text(word, "asciidoc") {
            Ok(OutputFormat::Asciidoctor)
        } else {
            Err(String::from_str("invalid output format"))
        }
    }
}

impl core::str::FromStr for OutputFormat {
    type Err = String;

    /// The format that `s` names.
    fn from_str(s: &str) -> (format: Result<Self, Self::Err>)
        ensures
            match output_format_of(s@) {
                Ok(named) => format == Ok::<OutputFormat, String>(named),
                Err(message) => format is Err && format->Err_0@ == message,
            },
    {
        OutputFormat::parse(s)
    }
}

/// The parameters of a run.
#[derive(Clone, Debug)]
pub struct ExemplifyCliParams {
    /// The folder whose files are the sources.
    pub source_directory: String,
    /// The file extensions that make a file a source.
    pub extensions: Vec<String>,
    pub print: bool,
    /// The marker that opens a chunk.
    pub start_token: String,
    /// The marker that closes a chunk.
    pub end_token: String,
    /// The markup to render the examples in; as they are, where none is
    /// chosen.
    pub output_format: Option<OutputFormat>,
    /// The folder to write the examples into; they are printed where none
    /// is chosen.
    pub output_folder: Option<String>,
}

impl ExemplifyCliParams {
    /// The markers of the run.
    pub fn parser_settings(&self) -> (settings: ParserSettings)
        ensures
            settings@ == (ParserSettingsView {
                start_token: self.start_token@,
                end_token: self.end_token@,
            }),
    {
        ParserSettings { start_token: self.start_token.clone(), end_token: self.end_token.clone() }
    }
}

} // verus!
