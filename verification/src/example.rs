//! An example: the assembled unit that the library hands out, and what a
//! sink needs to know of anything that it writes.

use vstd::prelude::*;
use vstd::string::*;

verus! {

/// An assembled example: the lines of all chunks of one name, in part order.
#[derive(Clone, Debug)]
pub struct Example {
    pub name: String,
    pub content: Vec<String>,
    pub title: Option<String>,
    pub language: Option<String>,
    pub id: Option<String>,
}

/// The mathematical value of an [`Example`].
pub struct ExampleView {
    pub name: Seq<char>,
    pub content: Seq<Seq<char>>,
    pub title: Option<Seq<char>>,
    pub language: Option<Seq<char>>,
    pub id: Option<Seq<char>>,
}

impl View for Example {
    type V = ExampleView;

    open spec fn view(&self) -> ExampleView {
        ExampleView {
            name: self.name@,
            content: self.content.deep_view(),
            title: self.title.deep_view(),
            language: self.language.deep_view(),
            id: self.id.deep_view(),
        }
    }
}

impl DeepView for Example {
    type V = ExampleView;

    open spec fn deep_view(&self) -> ExampleView {
        self@
    }
}

/// The lines `lines` as one text, with a line feed between each two.
pub open spec fn join_lines(lines: Seq<Seq<char>>) -> Seq<char>
    decreases lines.len(),
{
    if lines.len() == 0 {
        Seq::empty()
    } else if lines.len() == 1 {
        lines[0]
    } else {
        join_lines(lines.drop_last()) + seq!['\n'] + lines.last()
    }
}

/// The lines of `lines` as one string, with a line feed between each two.
pub fn join(lines: &Vec<String>) -> (text: String)
    ensures
        text@ == join_lines(lines.deep_view()),
{
    let ghost all = lines.deep_view();
    let mut text = String::new();
    let mut k: usize = 0;
    while k < lines.len()
        invariant
            k <= lines.len(),
            all == lines.deep_view(),
            text@ == join_lines(all.take(k as int)),
        decreases lines.len() - k,
    {
        proof {
            assert(all.take(k + 1).drop_last() =~= all.take(k as int));
            assert(all.take(k + 1).last() == lines@[k as int]@);
            reveal_strlit("\n");
            assert("\n"@ =~= seq!['\n']);
        }
        if k > 0 {
            text.append("\n");
        }
        text.append(lines[k].as_str());
        proof {
            if k == 0 {
                assert(text@ =~= lines@[0]@);
                assert(all.take(1)[0] == lines@[0]@);
            }
        }
        k = k + 1;
    }
    proof {
        assert(all.take(k as int) =~= all);
    }
    text
}

/// Something that a sink can write: a text, and the name of the file that
/// the text belongs in.
pub trait Printable {
    /// The text to write.
    spec fn print_spec(&self) -> Seq<char>;

    /// The name of the file to write it to.
    spec fn file_name_spec(&self) -> Seq<char>;

    /// The text to write.
    fn print(&self) -> (text: String)
        ensures
            text@ == self.print_spec(),
    ;

    /// The name of the file to write it to.
    fn file_name(&self) -> (name: String)
        ensures
            name@ == self.file_name_spec(),
    ;
}

impl Example {
    /// An example with the given name, lines and attributes.
    pub fn new(
        name: String,
        content: Vec<String>,
        title: Option<String>,
        language: Option<String>,
        id: Option<String>,
    ) -> (example: Example)
        ensures
            example == (Example { name, content, title, language, id }),
    {
        Example { name, content, title, language, id }
    }

    /// The lines of the example.
    pub fn lines(&self) -> (lines: &Vec<String>)
        ensures
            lines == self.content,
    {
        &self.content
    }
}

impl Printable for Example {
    /// An example is written as its lines, one per line.
    open spec fn print_spec(&self) -> Seq<char> {
        join_lines(self@.content)
    }

    /// An example is filed under its name.
    open spec fn file_name_spec(&self) -> Seq<char> {
        self@.name
    }

    fn print(&self) -> (text: String) {
        join(&self.content)
    }

    fn file_name(&self) -> (name: String) {
        self.name.clone()
    }
}

} // verus!
