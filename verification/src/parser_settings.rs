//! The two marker texts that delimit a chunk.

use vstd::prelude::*;

verus! {

/// The marker that opens a chunk and the marker that closes it. A line holds
/// a marker when the marker's text occurs anywhere in it.
#[derive(Clone, Debug)]
pub struct ParserSettings {
    pub start_token: String,
    pub end_token: String,
}

/// The mathematical value of [`ParserSettings`].
pub struct ParserSettingsView {
    pub start_token: Seq<char>,
    pub end_token: Seq<char>,
}

impl View for ParserSettings {
    type V = ParserSettingsView;

    open spec fn view(&self) -> ParserSettingsView {
        ParserSettingsView { start_token: self.start_token@, end_token: self.end_token@ }
    }
}

impl DeepView for ParserSettings {
    type V = ParserSettingsView;

    open spec fn deep_view(&self) -> ParserSettingsView {
        self@
    }
}

impl ParserSettings {
    /// Settings with the given markers.
    pub fn new(start_token: String, end_token: String) -> (settings: ParserSettings)
        ensures
            settings@.start_token == start_token@,
            settings@.end_token == end_token@,
    {
        ParserSettings { start_token, end_token }
    }

    /// A copy of these settings.
    pub fn duplicate(&self) -> (copy: ParserSettings)
        ensures
            copy@ == self@,
    {
        ParserSettings { start_token: self.start_token.clone(), end_token: self.end_token.clone() }
    }
}

} // verus!
