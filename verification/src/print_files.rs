//! Where the text of an example goes: into a file of the output folder, or
//! onto the console. What is decided here is carried out by the caller.

use vstd::prelude::*;
use vstd::string::*;
use crate::cli_params::ExemplifyCliParams;
use crate::example::Printable;

verus! {

/// One thing to write.
#[derive(Clone, Debug, PartialEq, Eq)]
pub enum Output {
    /// Write `content` to the file `path`, after making its folder.
    File { path: String, content: String },
    /// Print `text` as a line of its own.
    Console { text: String },
}

/// The mathematical value of an [`Output`].
pub enum OutputView {
    File { path: Seq<char>, content: Seq<char> },
    Console { text: Seq<char> },
}

impl View for Output {
    type V = OutputView;

    open spec fn view(&self) -> OutputView {
        match self {
            Output::File { path, content } => OutputView::File { path: path@, content: content@ },
            Output::Console { text } => OutputView::Console { text: text@ },
        }
    }
}

impl DeepView for Output {
    type V = OutputView;

    open spec fn deep_view(&self) -> OutputView {
        self@
    }
}

/// What is written for a text `content` that belongs in the file
/// `file_name`: with an output folder, the text goes to that file in the
/// folder; without one, it is printed under a heading that names the file.
pub open spec fn output_spec(
    file_name: Seq<char>,
    content: Seq<char>,
    output_folder: Option<Seq<char>>,
) -> OutputView {
    match output_folder {
        Some(folder) => OutputView::File { path: folder + "/"@ + file_name, content },
        None => OutputView::Console {
            text: "Example "@ + file_name + ":\n"@ + content + "\n"@,
        },
    }
}

/// What is to be written for `example`.
pub fn output_of<T: Printable>(example: &T, params: &ExemplifyCliParams) -> (output: Output)
    ensures
        output@ == output_spec(
            example.file_name_spec(),
            example.print_spec(),
            params.output_folder.deep_view(),
        ),
{
    let content = example.print();
    match &params.output_folder {
        Some(folder) => {
            let mut path = folder.clone();
            path.append("/");
            path.append(example.file_name().as_str());
            Output::File { path, content }
        },
        None => {
            let mut text = String::from_str("Example ");
            text.append(example.file_name().as_str());
            text.append(":\n");
            text.append(content.as_str());
            text.append("\n");
            Output::Console { text }
        },
    }
}

/// What is to be written for each of the examples, in their order.
pub fn outputs_of<T: Printable>(input: &Vec<T>, params: &ExemplifyCliParams) -> (outputs: Vec<
    Output,
>)
    ensures
        outputs.len() == input.len(),
        forall|i: int|
            0 <= i < input.len() ==> (#[trigger] outputs[i])@ == output_spec(
                input[i].file_name_spec(),
                input[i].print_spec(),
                params.output_folder.deep_view(),
            ),
{
    let mut outputs: Vec<Output> = Vec::new();
    let mut k: usize = 0;
    while k < input.len()
        invariant
            k <= input.len(),
            outputs.len() == k,
            forall|i: int|
                0 <= i < k ==> (#[trigger] outputs[i])@ == output_spec(
                    input[i].file_name_spec(),
                    input[i].print_spec(),
                    params.output_folder.deep_view(),
                ),
        decreases input.len() - k,
    {
        outputs.push(output_of(&input[k], params));
        k = k + 1;
    }
    outputs
}

} // verus!
