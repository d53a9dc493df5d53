//! The boundary to whoever holds the sources: a source handed to the library
//! is a name and the lines read from it.

use vstd::prelude::*;
use crate::views::result_view;

verus! {

/// A source that has been opened: its name, for diagnostics, and its lines
/// in order, without their line ends.
#[derive(Clone, Debug)]
pub struct ReaderContext {
    pub source_name: String,
    pub lines: Vec<String>,
}

/// The mathematical value of a [`ReaderContext`].
pub struct ReaderContextView {
    pub source_name: Seq<char>,
    pub lines: Seq<Seq<char>>,
}

impl View for ReaderContext {
    type V = ReaderContextView;

    open spec fn view(&self) -> ReaderContextView {
        ReaderContextView { source_name: self.source_name@, lines: self.lines.deep_view() }
    }
}

impl DeepView for ReaderContext {
    type V = ReaderContextView;

    open spec fn deep_view(&self) -> ReaderContextView {
        self@
    }
}

/// Opens sources by name. How a source is found and read is the
/// implementor's business; the library only passes on what it is given.
pub trait ReaderFactory {
    /// What opening the source `name` may give: the implementor's own
    /// account of [`ReaderFactory::make_reader`]. An implementor that gives
    /// none promises nothing.
    open spec fn opens(&self, name: Seq<char>, opened: Result<ReaderContextView, Seq<char>>)
        -> bool {
        true
    }

    /// Opens the source `name`, or says why it cannot be opened.
    fn make_reader(&self, name: String) -> (opened: Result<ReaderContext, String>)
        ensures
            self.opens(name@, result_view(opened)),
    ;
}

} // verus!
