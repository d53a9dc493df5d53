//! A chunk: one contiguous region of a source between a start marker and its
//! end marker, as the tokenizer extracts it.

use vstd::prelude::*;

verus! {

/// One line inside a chunk, with its 1-based position in the source.
#[derive(Clone, Debug, Default)]
pub struct ChunkLine {
    pub value: String,
    pub line_number: usize,
}

/// The mathematical value of a [`ChunkLine`].
pub struct ChunkLineView {
    pub value: Seq<char>,
    pub line_number: nat,
}

impl View for ChunkLine {
    type V = ChunkLineView;

    open spec fn view(&self) -> ChunkLineView {
        ChunkLineView { value: self.value@, line_number: self.line_number as nat }
    }
}

impl DeepView for ChunkLine {
    type V = ChunkLineView;

    open spec fn deep_view(&self) -> ChunkLineView {
        self@
    }
}

/// A raw example chunk: what is extracted from one region of one source.
#[derive(Clone, Debug, Default)]
pub struct Chunk {
    pub example_name: String,
    pub content: Vec<ChunkLine>,
    pub part_number: Option<u32>,
    pub indentation: Option<u32>,
    pub source_name: String,
    pub start_line: usize,
    pub title: Option<String>,
    pub language: Option<String>,
}

/// The mathematical value of a [`Chunk`].
pub struct ChunkView {
    pub example_name: Seq<char>,
    pub content: Seq<ChunkLineView>,
    pub part_number: Option<u32>,
    pub indentation: Option<u32>,
    pub source_name: Seq<char>,
    pub start_line: nat,
    pub title: Option<Seq<char>>,
    pub language: Option<Seq<char>>,
}

impl View for Chunk {
    type V = ChunkView;

    open spec fn view(&self) -> ChunkView {
        ChunkView {
            example_name: self.example_name@,
            content: self.content.deep_view(),
            part_number: self.part_number,
            indentation: self.indentation,
            source_name: self.source_name@,
            start_line: self.start_line as nat,
            title: self.title.deep_view(),
            language: self.language.deep_view(),
        }
    }
}

impl DeepView for Chunk {
    type V = ChunkView;

    open spec fn deep_view(&self) -> ChunkView {
        self@
    }
}

/// The text of the lines `content`, in order, without their line numbers.
pub open spec fn line_values(content: Seq<ChunkLineView>) -> Seq<Seq<char>> {
    content.map_values(|line: ChunkLineView| line.value)
}

impl ChunkView {
    /// The text of the chunk's lines, in order, without their line numbers.
    pub open spec fn lines(self) -> Seq<Seq<char>> {
        line_values(self.content)
    }
}

} // verus!
