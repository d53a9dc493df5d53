use exemplify_lib::chunk::{Chunk, ChunkLine};
use exemplify_lib::chunk_cache::ChunkCache;
use exemplify_lib::error::ExemplifyError;
use exemplify_lib::example::{Example, Printable};
use exemplify_lib::parser_settings::ParserSettings;
use exemplify_lib::read_examples::{
    exhaust_reader, finalize_examples, read_examples, sort_chunks, verify_example,
};
use exemplify_lib::reader_factory::{ReaderContext, ReaderFactory};
use exemplify_lib::reader_stream::reader_stream;

const CONTENT_A: &str = "\
//##exemplify-start##{name=\"example-1\" part=1}
class ExampleClass {}
//##exemplify-end##
class NotIncludedInExample {}
//##exemplify-start##{name=\"example-1\" part=2}
// This is also part of example-1
//##exemplify-end##
//##exemplify-start##{name=\"example-2\" part=1}
//This chunk has no explicit end
        ";

const CONTENT_B: &str = "\
//##exemplify-start##{name=\"example-3\" part=1}
class ExampleClass {}
        ";

const CONTENT_C: &str = "\
//##exemplify-start##{name=\"example-4\"}
class ExampleClass {}
        ";

const CONTENT_FAIL_D: &str = "\
//##exemplify-start##{name=\"example-5\"}
class ExampleClass {}
//##exemplify-end##
//##exemplify-start##{name=\"example-5\"}
        ";

const CONTENT_FAIL_E: &str = "\
//##exemplify-start##{name=\"example-5\"}
class ExampleClass {}
//##exemplify-start##{name=\"example-5\"}
        ";

struct StringReaderFactory {}

impl ReaderFactory for StringReaderFactory {
    fn make_reader(&self, name: String) -> Result<ReaderContext, String> {
        let content = match name.as_str() {
            "a" => CONTENT_A,
            "b" => CONTENT_B,
            "c" => CONTENT_C,
            "d" => CONTENT_FAIL_D,
            "e" => CONTENT_FAIL_E,
            _ => return Err(format!("{} is not a file", name)),
        };

        Ok(ReaderContext {
            source_name: name.clone(),
            lines: content.lines().map(|line| line.to_string()).collect(),
        })
    }
}

fn settings() -> ParserSettings {
    ParserSettings {
        start_token: "##exemplify-start##".into(),
        end_token: "##exemplify-end##".into(),
    }
}

fn source(name: &str, text: &str) -> Result<ReaderContext, String> {
    Ok(ReaderContext {
        source_name: name.to_string(),
        lines: text.lines().map(|line| line.to_string()).collect(),
    })
}

fn run(names: &[&str]) -> Result<Vec<Example>, ExemplifyError> {
    let paths = names.iter().map(|name| Ok(name.to_string())).collect();
    let readers = reader_stream(&StringReaderFactory {}, paths);
    read_examples(readers, settings())
}

fn chunk(name: &str, part: Option<u32>, lines: &[&str]) -> Chunk {
    Chunk {
        example_name: name.to_string(),
        content: lines
            .iter()
            .enumerate()
            .map(|(i, line)| ChunkLine { value: line.to_string(), line_number: i + 2 })
            .collect(),
        part_number: part,
        indentation: None,
        source_name: "a.rs".to_string(),
        start_line: 1,
        title: None,
        language: None,
    }
}

#[test]
fn read_examples_test_example_producer() {
    let _result = run(&["a", "b", "c"]).unwrap();

    let result = run(&["d"]);

    assert_eq!(result.is_err(), true);

    let result = run(&["e"]);

    assert_eq!(result.is_err(), true);
}

#[test]
fn example_producer_test_example_producer() {
    let parser_settings = settings();
    let factory = StringReaderFactory {};

    let mut cache = ChunkCache::new();
    for name in ["a", "b", "c"] {
        let reader = factory.make_reader(name.to_string()).unwrap();
        cache = exhaust_reader(&reader, &parser_settings, cache).unwrap();
    }
    let _result = finalize_examples(cache).unwrap();

    let reader = factory.make_reader("d".to_string()).unwrap();
    let cache = exhaust_reader(&reader, &parser_settings, ChunkCache::new()).unwrap();
    let result = finalize_examples(cache);

    assert_eq!(result.is_err(), true);

    let reader = factory.make_reader("e".to_string()).unwrap();
    let result = exhaust_reader(&reader, &parser_settings, ChunkCache::new());

    assert_eq!(result.is_err(), true);
}

#[test]
fn chunks_of_one_source_make_two_examples() {
    let text = "\
// ##exemplify-start##{name=\"example-1\" part=1}
class Foo {}
// ##exemplify-end##
class Bar {}
// ##exemplify-start##{name=\"example-1\" part=2}
// more
// ##exemplify-end##
// ##exemplify-start##{name=\"example-2\" part=1}
// open";
    let examples = read_examples(vec![source("A", text)], settings()).unwrap();
    assert_eq!(examples.len(), 2);
    assert_eq!(examples[0].name, "example-1");
    assert_eq!(examples[0].content, vec!["class Foo {}", "// more"]);
    assert_eq!(examples[1].name, "example-2");
    assert_eq!(examples[1].content, vec!["// open"]);
    assert_eq!(examples[0].lines(), &examples[0].content);
    for example in &examples {
        assert!(!example.content.iter().any(|line| line.contains("class Bar {}")));
        assert_eq!(example.id, None);
    }
}

#[test]
fn an_open_chunk_becomes_an_example() {
    let examples =
        read_examples(vec![source("a", "##exemplify-start##{name=\"x\"} \n line1")], settings())
            .unwrap();
    assert_eq!(examples.len(), 1);
    assert_eq!(examples[0].name, "x");
    assert_eq!(examples[0].content, vec![" line1"]);
    assert_eq!(examples[0].print(), " line1");
    assert_eq!(examples[0].file_name(), "x");
}

#[test]
fn the_examples_of_the_three_sources() {
    let examples = run(&["a", "b", "c"]).unwrap();
    let names: Vec<&str> = examples.iter().map(|example| example.name.as_str()).collect();
    assert_eq!(names, vec!["example-1", "example-2", "example-3", "example-4"]);
    assert_eq!(
        examples[0].content,
        vec!["class ExampleClass {}", "// This is also part of example-1"]
    );
    assert_eq!(examples[1].content, vec!["//This chunk has no explicit end", "        "]);
    assert_eq!(examples[0].print(), "class ExampleClass {}\n// This is also part of example-1");
}

#[test]
fn parts_are_ordered_across_sources() {
    let first = "##exemplify-start##{name=\"x\" part=2}\ntwo\n##exemplify-end##\n##exemplify-start##{name=\"y\"}\nother\n##exemplify-end##";
    let second = "##exemplify-start##{name=\"x\" part=3}\nthree\n##exemplify-end##\n##exemplify-start##{name=\"x\" part=1}\none\n##exemplify-end##";
    let examples =
        read_examples(vec![source("1", first), source("2", second)], settings()).unwrap();
    assert_eq!(examples.len(), 2);
    assert_eq!(examples[0].name, "x");
    assert_eq!(examples[0].content, vec!["one", "two", "three"]);
    assert_eq!(examples[1].name, "y");
    assert_eq!(examples[1].content, vec!["other"]);
}

#[test]
fn a_repeated_part_number_fails_the_run() {
    let first = "##exemplify-start##{name=\"x\" part=1}\none\n##exemplify-end##";
    let second = "line\n##exemplify-start##{name=\"x\" part=1}\nagain\n##exemplify-end##";
    let error =
        read_examples(vec![source("1", first), source("2", second)], settings()).unwrap_err();
    match &error {
        ExemplifyError::DuplicatePart { name, part_number, source_name, line } => {
            assert_eq!(name, "x");
            assert_eq!(*part_number, 1);
            assert_eq!(source_name, "2");
            assert_eq!(*line, 2);
        }
        other => panic!("unexpected error {:?}", other),
    }
    assert_eq!(error.message(), "2[2]: Duplicate part 1 ");
}

#[test]
fn a_chunk_without_part_number_among_others_fails_the_run() {
    let text = "\
##exemplify-start##{name=\"x\" part=1}
##exemplify-end##
##exemplify-start##{name=\"x\" part=2}
##exemplify-end##
##exemplify-start##{name=\"x\"}
##exemplify-end##";
    let error = read_examples(vec![source("s", text)], settings()).unwrap_err();
    match &error {
        ExemplifyError::MissingPartNumber { name, source_name, line } => {
            assert_eq!(name, "x");
            assert_eq!(source_name, "s");
            assert_eq!(*line, 5);
        }
        other => panic!("unexpected error {:?}", other),
    }
    assert_eq!(
        error.message(),
        "s[5]: You must provide a part number for chunks in examples with more than one chunk"
    );
}

#[test]
fn a_single_chunk_needs_no_part_number() {
    assert!(verify_example(&vec![chunk("x", None, &[])]).is_ok());
    assert!(verify_example(&vec![chunk("x", Some(4), &[])]).is_ok());
    assert!(verify_example(&Vec::new()).is_ok());
}

#[test]
fn the_first_offending_chunk_is_reported() {
    let chunks =
        vec![chunk("x", Some(1), &[]), chunk("x", None, &[]), chunk("x", Some(1), &[])];
    assert!(matches!(
        verify_example(&chunks).unwrap_err(),
        ExemplifyError::MissingPartNumber { .. }
    ));
    let chunks =
        vec![chunk("x", Some(1), &[]), chunk("x", Some(1), &[]), chunk("x", None, &[])];
    assert!(matches!(
        verify_example(&chunks).unwrap_err(),
        ExemplifyError::DuplicatePart { part_number: 1, .. }
    ));
}

#[test]
fn a_source_that_cannot_be_had_fails_the_run() {
    let error = run(&["a", "missing", "d"]).unwrap_err();
    match &error {
        ExemplifyError::Source { message } => assert_eq!(message, "missing is not a file"),
        other => panic!("unexpected error {:?}", other),
    }
    assert_eq!(error.message(), "missing is not a file");
}

#[test]
fn an_earlier_source_fails_first() {
    let error = run(&["e", "missing"]).unwrap_err();
    assert!(matches!(error, ExemplifyError::NestedChunk { line: 3, .. }));
}

#[test]
fn a_failed_name_stays_a_failure() {
    let readers = reader_stream(
        &StringReaderFactory {},
        vec![Ok("b".to_string()), Err("no such folder".to_string())],
    );
    assert_eq!(readers.len(), 2);
    assert_eq!(readers[0].as_ref().unwrap().source_name, "b");
    assert_eq!(readers[0].as_ref().unwrap().lines.len(), 3);
    assert_eq!(readers[1].as_ref().unwrap_err(), "no such folder");
}

#[test]
fn no_sources_make_no_examples() {
    assert!(read_examples(Vec::new(), settings()).unwrap().is_empty());
}

#[test]
fn sorting_is_ascending_and_stable() {
    let chunks = vec![
        chunk("x", Some(3), &["c"]),
        chunk("x", None, &["none"]),
        chunk("x", Some(1), &["a"]),
        chunk("x", Some(0), &["zero"]),
        chunk("x", Some(3), &["c again"]),
        chunk("x", Some(2), &["b"]),
    ];
    let sorted = sort_chunks(chunks);
    let order: Vec<&str> = sorted.iter().map(|chunk| chunk.content[0].value.as_str()).collect();
    assert_eq!(order, vec!["none", "zero", "a", "b", "c", "c again"]);
}

#[test]
fn indentation_is_normalized_chunk_by_chunk() {
    let text = "\
##exemplify-start##{name=\"x\" part=2 indentation=2}
        deep

          deeper
##exemplify-end##
##exemplify-start##{name=\"x\" part=1}
    as it is
##exemplify-end##";
    let examples = read_examples(vec![source("s", text)], settings()).unwrap();
    assert_eq!(examples[0].content, vec!["    as it is", "  deep", "  ", "    deeper"]);
}

#[test]
fn title_and_language_come_from_the_first_part_that_gives_them() {
    let text = "\
##exemplify-start##{name=\"x\" part=3 title=\"Third\" language=\"java\"}
##exemplify-end##
##exemplify-start##{name=\"x\" part=2 title=\"Second\"}
##exemplify-end##
##exemplify-start##{name=\"x\" part=1}
##exemplify-end##";
    let examples = read_examples(vec![source("s", text)], settings()).unwrap();
    assert_eq!(examples[0].title, Some("Second".to_string()));
    assert_eq!(examples[0].language, Some("java".to_string()));
}

#[test]
fn an_empty_title_does_not_count() {
    let mut first = chunk("x", Some(1), &[]);
    first.title = Some(String::new());
    let mut second = chunk("x", Some(2), &[]);
    second.title = Some("Real".to_string());
    let cache = ChunkCache::new().add(first).add(second);
    assert_eq!(cache.len(), 1);
    let examples = finalize_examples(cache).unwrap();
    assert_eq!(examples[0].title, Some("Real".to_string()));
}

#[test]
fn chunks_of_one_name_make_one_example() {
    let cache = ChunkCache::new()
        .add(chunk("x", Some(2), &["x2"]))
        .add(chunk("y", Some(1), &["y1"]))
        .add(chunk("x", Some(1), &["x1"]))
        .add_all(vec![chunk("z", None, &["z"]), chunk("y", Some(2), &["y2"])]);
    assert_eq!(cache.len(), 3);
    let examples = finalize_examples(cache).unwrap();
    let names: Vec<&str> = examples.iter().map(|example| example.name.as_str()).collect();
    assert_eq!(names, vec!["x", "y", "z"]);
    assert_eq!(examples[0].content, vec!["x1", "x2"]);
    assert_eq!(examples[1].content, vec!["y1", "y2"]);
    assert_eq!(examples[2].content, vec!["z"]);
}

#[test]
fn examples_come_in_the_order_of_their_names() {
    let text = "\
##exemplify-start##{name=\"b\"}
##exemplify-end##
##exemplify-start##{name=\"a/z\"}
##exemplify-end##
##exemplify-start##{name=\"B\"}
##exemplify-end##
##exemplify-start##{name=\"ab\"}
##exemplify-end##
##exemplify-start##{name=\"a\"}
##exemplify-end##
##exemplify-start##{name=\"a-\"}
##exemplify-end##";
    let examples = read_examples(vec![source("s", text)], settings()).unwrap();
    let names: Vec<&str> = examples.iter().map(|example| example.name.as_str()).collect();
    assert_eq!(names, vec!["B", "a", "a-", "a/z", "ab", "b"]);
    let mut sorted = names.clone();
    sorted.sort();
    assert_eq!(names, sorted);
}

#[test]
fn the_first_name_that_fails_is_reported() {
    let text = "\
##exemplify-start##{name=\"z\" part=1}
##exemplify-end##
##exemplify-start##{name=\"z\" part=1}
##exemplify-end##
##exemplify-start##{name=\"m\"}
##exemplify-end##
##exemplify-start##{name=\"m\"}
##exemplify-end##";
    let error = read_examples(vec![source("s", text)], settings()).unwrap_err();
    assert!(matches!(error, ExemplifyError::MissingPartNumber { name, .. } if name == "m"));
}

#[test]
fn the_message_of_a_rejected_pattern_names_it() {
    let error = ExemplifyError::Grammar { pattern: "(".to_string() };
    assert_eq!(error.message(), "Pattern rejected: (");
}

#[test]
fn an_example_is_built_from_its_parts() {
    let example = Example::new(
        "n".to_string(),
        vec!["a".to_string(), "b".to_string()],
        Some("t".to_string()),
        None,
        Some("i".to_string()),
    );
    assert_eq!(example.name, "n");
    assert_eq!(example.lines(), &vec!["a".to_string(), "b".to_string()]);
    assert_eq!(example.title, Some("t".to_string()));
    assert_eq!(example.language, None);
    assert_eq!(example.id, Some("i".to_string()));
    assert_eq!(example.print(), "a\nb");
    assert_eq!(example.file_name(), "n");
    let empty = Example::new("e".to_string(), Vec::new(), None, None, None);
    assert_eq!(empty.print(), "");
}
