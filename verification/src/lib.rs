//! Extraction of annotated code examples from source text.
//!
//! Source files mark regions as chunks of a named example. A run reads the
//! chunks of all sources, joins the chunks of each name in the order of their
//! part numbers, and hands out one example per name; an example can then be
//! rendered as Asciidoctor markup with numbered callouts.
//!
//! - [`chunk_reader`] is the tokenizer: a two-state machine over the lines of
//!   one source. [`chunk_params`] reads the parameters of a start marker.
//! - [`chunk_cache`] and [`read_examples`] are the assembler: chunks are
//!   gathered by name, checked, ordered, normalized and joined.
//!   [`example_producer`] runs the same over a queue of source names.
//! - [`asciidoctor_transform`] is the renderer.
//! - [`patterns`] is the one place that calls the `regex` crate; its contract
//!   is taken on trust. [`reader_factory`] is the boundary to whoever holds
//!   the sources.
//! - [`chunk_reader_laws`], [`read_examples_laws`], [`alignment_laws`] and
//!   [`asciidoctor_laws`] state and prove what holds of the library on every
//!   input.
//!
//! Every function has a contract over the mathematical value of its
//! arguments: a string is the sequence of its characters, a vector the
//! sequence of the values of its items.

pub mod alignment_laws;
pub mod asciidoctor_laws;
pub mod asciidoctor_transform;
pub mod chunk;
pub mod chunk_cache;
pub mod chunk_params;
pub mod chunk_reader;
pub mod chunk_reader_laws;
pub mod cli_params;
pub mod error;
pub mod example;
pub mod example_producer;
pub mod parser_settings;
pub mod patterns;
pub mod print_files;
pub mod read_examples;
pub mod read_examples_laws;
pub mod reader_factory;
pub mod reader_stream;
pub mod text;
pub mod views;
