//! From the names of sources to opened sources.

use vstd::prelude::*;
use crate::reader_factory::{ReaderContext, ReaderContextView, ReaderFactory};
use crate::views::result_view;

verus! {

/// Opens each named source with `reader_factory`, in order. A name that
/// could not be had stays the failure that it was; every other name is
/// handed to the factory, and what the factory answers takes its place.
pub fn reader_stream<Factory: ReaderFactory>(
    reader_factory: &Factory,
    file_paths: Vec<Result<String, String>>,
) -> (readers: Vec<Result<ReaderContext, String>>)
    ensures
        readers.len() == file_paths.len(),
        forall|i: int|
            0 <= i < file_paths.len() ==> match file_paths[i] {
                Ok(path) => reader_factory.opens(path@, result_view(#[trigger] readers[i])),
                Err(failure) => result_view(readers[i]) == Err::<ReaderContextView, Seq<char>>(
                    failure@,
                ),
            },
{
    let ghost paths = file_paths@;
    let mut file_paths = file_paths;
    let mut readers: Vec<Result<ReaderContext, String>> = Vec::new();
    while file_paths.len() > 0
        invariant
            readers.len() + file_paths.len() == paths.len(),
            forall|i: int|
                0 <= i < file_paths.len() ==> file_paths[i] == paths[readers.len() + i],
            forall|i: int|
                0 <= i < readers.len() ==> match paths[i] {
                    Ok(path) => reader_factory.opens(path@, result_view(#[trigger] readers[i])),
                    Err(failure) => result_view(readers[i]) == Err::<
                        ReaderContextView,
                        Seq<char>,
                    >(failure@),
                },
        decreases file_paths.len(),
    {
        let reader = match file_paths.remove(0) {
            Ok(path) => reader_factory.make_reader(path),
            Err(failure) => Err(failure),
        };
        readers.push(reader);
    }
    readers
}

} // verus!
