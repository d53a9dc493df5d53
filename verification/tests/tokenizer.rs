use exemplify_lib::chunk_params::{extract_chunk_params, params_from_captures};
use exemplify_lib::chunk_reader::{read_chunks, ChunkReader, Progress};
use exemplify_lib::error::ExemplifyError;
use exemplify_lib::parser_settings::ParserSettings;

fn settings() -> ParserSettings {
    ParserSettings {
        start_token: "##exemplify-start##".to_string(),
        end_token: "##exemplify-end##".to_string(),
    }
}

fn lines(text: &str) -> Vec<String> {
    text.lines().map(|line| line.to_string()).collect()
}

fn some(text: &str) -> Option<String> {
    Some(text.to_string())
}

#[test]
fn parameters_are_read_in_any_order() {
    let params = extract_chunk_params(
        "//##exemplify-start##{part=3 language=\"rust\" name=\"example-1\" title=\"A title\" indentation=4}",
        "a.rs",
        7,
    )
    .unwrap();
    assert_eq!(params.name, "example-1");
    assert_eq!(params.part, Some(3));
    assert_eq!(params.indentation, Some(4));
    assert_eq!(params.title, some("A title"));
    assert_eq!(params.language, some("rust"));
}

#[test]
fn parameters_allow_a_space_around_the_equals_sign() {
    let params = extract_chunk_params("{name = \"x/y\" part = 12}", "a.rs", 1).unwrap();
    assert_eq!(params.name, "x/y");
    assert_eq!(params.part, Some(12));
}

#[test]
fn unknown_keys_are_ignored() {
    let params = extract_chunk_params("{name=\"x\" colour=\"red\" size=3}", "a.rs", 1).unwrap();
    assert_eq!(params.name, "x");
    assert_eq!(params.part, None);
    assert_eq!(params.indentation, None);
    assert_eq!(params.title, None);
    assert_eq!(params.language, None);
}

#[test]
fn a_later_pair_overrides_an_earlier_one() {
    let params = extract_chunk_params("{name=\"x\" part=1 name=\"y\" part=2}", "a.rs", 1).unwrap();
    assert_eq!(params.name, "y");
    assert_eq!(params.part, Some(2));
}

#[test]
fn a_value_with_other_characters_is_skipped() {
    let params = extract_chunk_params("{name=\"x\" title=\"What?\"}", "a.rs", 1).unwrap();
    assert_eq!(params.name, "x");
    assert_eq!(params.title, None);
}

#[test]
fn a_missing_name_is_an_error() {
    let error = extract_chunk_params("//##exemplify-start##{part=1}", "a.rs", 4).unwrap_err();
    match &error {
        ExemplifyError::MissingName { source_name, line } => {
            assert_eq!(source_name, "a.rs");
            assert_eq!(*line, 4);
        }
        other => panic!("unexpected error {:?}", other),
    }
    assert_eq!(error.message(), "a.rs[4]: Missing name");
}

#[test]
fn a_name_with_other_characters_counts_as_missing() {
    let error = extract_chunk_params("{name=\"x_y\"}", "a.rs", 4).unwrap_err();
    assert!(matches!(error, ExemplifyError::MissingName { .. }));
}

#[test]
fn a_part_that_does_not_fit_is_an_error() {
    let error = extract_chunk_params("{name=\"x\" part=4294967296}", "a.rs", 9).unwrap_err();
    match &error {
        ExemplifyError::InvalidParameter { source_name, line, key, raw_value } => {
            assert_eq!(source_name, "a.rs");
            assert_eq!(*line, 9);
            assert_eq!(key, "part");
            assert_eq!(raw_value, "4294967296");
        }
        other => panic!("unexpected error {:?}", other),
    }
    assert_eq!(error.message(), "a.rs[9]: Failed to parse part number 4294967296");
}

#[test]
fn the_largest_part_number_is_read() {
    let params = extract_chunk_params("{name=\"x\" part=4294967295}", "a.rs", 1).unwrap();
    assert_eq!(params.part, Some(4294967295));
}

#[test]
fn an_indentation_that_does_not_fit_is_an_error() {
    let error =
        extract_chunk_params("{name=\"x\" indentation=99999999999}", "a.rs", 2).unwrap_err();
    assert_eq!(error.message(), "a.rs[2]: Failed to parse indentation number 99999999999");
}

#[test]
fn captures_decide_the_parameters() {
    let matches = vec![
        vec![some("name=\"x\""), some("name=\"x\""), some("name"), some("x"), None, None, None],
        vec![some("part=07"), None, None, None, some("part=07"), some("part"), some("07")],
    ];
    let params = params_from_captures(&matches, "a.rs", 1).unwrap();
    assert_eq!(params.name, "x");
    assert_eq!(params.part, Some(7));
}

#[test]
fn captures_with_a_sign_are_refused() {
    let matches =
        vec![vec![some("part=+7"), None, None, None, some("part=+7"), some("part"), some("+7")]];
    let error = params_from_captures(&matches, "a.rs", 1).unwrap_err();
    assert!(matches!(error, ExemplifyError::InvalidParameter { .. }));
}

#[test]
fn captures_that_are_too_short_give_nothing() {
    let matches = vec![vec![some("name=\"x\""), some("name=\"x\""), some("name")]];
    let error = params_from_captures(&matches, "a.rs", 3).unwrap_err();
    assert!(matches!(error, ExemplifyError::MissingName { .. }));
}

#[test]
fn a_closed_chunk_holds_the_lines_between_its_markers() {
    let source = lines(
        "before\n//##exemplify-start##{name=\"x\"}\nfirst\n\n  third\n//##exemplify-end##\nafter",
    );
    let chunks = read_chunks("a.rs", &source, &settings()).unwrap();
    assert_eq!(chunks.len(), 1);
    let chunk = &chunks[0];
    assert_eq!(chunk.example_name, "x");
    assert_eq!(chunk.source_name, "a.rs");
    assert_eq!(chunk.start_line, 2);
    assert_eq!(chunk.part_number, None);
    let values: Vec<&str> = chunk.content.iter().map(|line| line.value.as_str()).collect();
    assert_eq!(values, vec!["first", "", "  third"]);
    let numbers: Vec<usize> = chunk.content.iter().map(|line| line.line_number).collect();
    assert_eq!(numbers, vec![3, 4, 5]);
}

#[test]
fn an_open_chunk_is_completed_by_the_end_of_the_source() {
    let source = lines("//##exemplify-start##{name=\"x\"}\nline1");
    let chunks = read_chunks("a.rs", &source, &settings()).unwrap();
    assert_eq!(chunks.len(), 1);
    assert_eq!(chunks[0].content.len(), 1);
    assert_eq!(chunks[0].content[0].value, "line1");
}

#[test]
fn a_source_without_markers_has_no_chunks() {
    let chunks = read_chunks("a.rs", &lines("one\ntwo"), &settings()).unwrap();
    assert!(chunks.is_empty());
    let chunks = read_chunks("a.rs", &Vec::new(), &settings()).unwrap();
    assert!(chunks.is_empty());
}

#[test]
fn a_nested_start_marker_is_an_error() {
    let source = lines(
        "//##exemplify-start##{name=\"x\"}\nline\n//##exemplify-start##{name=\"y\"}\n//##exemplify-end##",
    );
    let error = read_chunks("a.rs", &source, &settings()).unwrap_err();
    match &error {
        ExemplifyError::NestedChunk { source_name, line } => {
            assert_eq!(source_name, "a.rs");
            assert_eq!(*line, 3);
        }
        other => panic!("unexpected error {:?}", other),
    }
    assert_eq!(error.message(), "Error a.rs[3]: attempting to start chunk-in-chunk");
}

#[test]
fn an_end_marker_outside_a_chunk_is_an_error() {
    let source = lines("line\n//##exemplify-end##");
    let error = read_chunks("a.rs", &source, &settings()).unwrap_err();
    match &error {
        ExemplifyError::UnmatchedEnd { source_name, line } => {
            assert_eq!(source_name, "a.rs");
            assert_eq!(*line, 2);
        }
        other => panic!("unexpected error {:?}", other),
    }
    assert_eq!(error.message(), "Error a.rs[2]: attempting to end chunk outside of chunk");
}

#[test]
fn a_start_marker_wins_over_an_end_marker_on_its_line() {
    let source = lines("##exemplify-start##{name=\"x\"} ##exemplify-end##\nline");
    let chunks = read_chunks("a.rs", &source, &settings()).unwrap();
    assert_eq!(chunks.len(), 1);
    assert_eq!(chunks[0].content[0].value, "line");
}

#[test]
fn the_reader_steps_through_its_states() {
    let mut reader = ChunkReader::new("a.rs".to_string(), settings());
    assert!(!reader.in_chunk());
    assert!(reader.process_line("plain", 1).unwrap().is_none());
    assert!(!reader.in_chunk());
    assert!(reader.process_line("##exemplify-start##{name=\"x\" part=2}", 2).unwrap().is_none());
    assert!(reader.in_chunk());
    assert!(reader.process_line("inside", 3).unwrap().is_none());
    assert!(reader.process_line("##exemplify-start##{name=\"y\"}", 4).is_err());
    assert!(reader.in_chunk());
    let chunk = reader.process_line("##exemplify-end##", 5).unwrap().unwrap();
    assert!(!reader.in_chunk());
    assert_eq!(chunk.example_name, "x");
    assert_eq!(chunk.part_number, Some(2));
    assert_eq!(chunk.start_line, 2);
    assert_eq!(chunk.content.len(), 1);
    assert_eq!(chunk.content[0].value, "inside");
    assert_eq!(chunk.content[0].line_number, 3);
    assert!(reader.finalize_chunk().unwrap().is_none());
}

#[test]
fn a_failed_start_leaves_the_reader_between_chunks() {
    let mut reader = ChunkReader::new("a.rs".to_string(), settings());
    assert!(reader.process_line("##exemplify-start##{part=2}", 1).is_err());
    assert!(!reader.in_chunk());
}

#[test]
fn pulls_report_chunks_as_they_end() {
    let mut reader = ChunkReader::new("a.rs".to_string(), settings());
    let progress = reader.poll_next(&lines("plain\n##exemplify-start##{name=\"x\"}")).unwrap();
    assert!(matches!(progress, Progress::Pending));
    assert_eq!(reader.current_line(), 2);
    let progress = reader
        .poll_next(&lines("one\n##exemplify-end##\n##exemplify-start##{name=\"y\"}\ntwo"))
        .unwrap();
    match progress {
        Progress::Ready(chunks) => {
            assert_eq!(chunks.len(), 1);
            assert_eq!(chunks[0].example_name, "x");
            assert_eq!(chunks[0].content[0].line_number, 3);
        }
        other => panic!("unexpected progress {:?}", other),
    }
    assert_eq!(reader.current_line(), 6);
    match reader.poll_next(&Vec::new()).unwrap() {
        Progress::Ready(chunks) => {
            assert_eq!(chunks.len(), 1);
            assert_eq!(chunks[0].example_name, "y");
            assert_eq!(chunks[0].start_line, 5);
            assert_eq!(chunks[0].content[0].value, "two");
        }
        other => panic!("unexpected progress {:?}", other),
    }
    assert!(matches!(reader.poll_next(&Vec::new()).unwrap(), Progress::Finished));
}

#[test]
fn other_markers_can_be_chosen() {
    let settings = ParserSettings::new("<<".to_string(), ">>".to_string());
    let chunks = read_chunks("a", &lines("<< {name=\"n\"}\nbody\n>>"), &settings).unwrap();
    assert_eq!(chunks.len(), 1);
    assert_eq!(chunks[0].content[0].value, "body");
}
