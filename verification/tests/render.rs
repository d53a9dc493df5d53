use exemplify_lib::asciidoctor_transform::{
    annotation_from_captures, create_asciidoc_source_footer, create_asciidoc_source_header,
    extract_first_callout, map_to_asciidoctor, to_asciidoctor, transform_callouts,
    AsciidoctorSettings,
};
use exemplify_lib::error::ExemplifyError;
use exemplify_lib::example::{Example, Printable};

fn settings() -> AsciidoctorSettings {
    AsciidoctorSettings { callout_token: "##callout##".to_string() }
}

fn example(lines: &[&str]) -> Example {
    Example::new(
        "example-1".to_string(),
        lines.iter().map(|line| line.to_string()).collect(),
        None,
        None,
        None,
    )
}

#[test]
fn a_callout_becomes_a_marker_and_a_list_entry() {
    let rendered =
        to_asciidoctor(example(&["foo(); ##callout##{value=\"note\"}"]), &settings()).unwrap();
    assert_eq!(
        rendered.example().content,
        vec!["[source]", "----", "foo(); <1>", "----", "<1> note"]
    );
    assert_eq!(rendered.print(), "[source]\n----\nfoo(); <1>\n----\n<1> note");
    assert_eq!(rendered.file_name(), "example-1.adoc");
}

#[test]
fn a_callout_without_annotation_fails() {
    let error = to_asciidoctor(example(&["fine", "foo(); ##callout##"]), &settings()).unwrap_err();
    match &error {
        ExemplifyError::CalloutExtraction { raw_line } => assert_eq!(raw_line, "foo(); ##callout##"),
        other => panic!("unexpected error {:?}", other),
    }
    assert_eq!(error.message(), "Failed extracting callout from foo(); ##callout##");
}

#[test]
fn an_annotation_must_follow_its_token_directly() {
    let lines = vec!["foo(); ##callout## {value=\"note\"}".to_string()];
    assert!(transform_callouts(lines, &"##callout##".to_string()).is_err());
    let lines = vec!["{value=\"note\"} ##callout##".to_string()];
    assert!(transform_callouts(lines, &"##callout##".to_string()).is_err());
    let lines = vec!["##callout##{value=\"\"}".to_string()];
    assert!(transform_callouts(lines, &"##callout##".to_string()).is_err());
}

#[test]
fn callouts_are_numbered_through_the_example() {
    let lines = vec![
        "a ##c##{value=\"first\"} b ##c##{value=\"second\"} c".to_string(),
        "plain".to_string(),
        "##c##{value=\"third one\"}".to_string(),
    ];
    let (lines, callouts) = transform_callouts(lines, &"##c##".to_string()).unwrap();
    assert_eq!(lines, vec!["a <1> b <2> c", "plain", "<3>"]);
    let listed: Vec<(usize, &str)> =
        callouts.iter().map(|callout| (callout.number, callout.text.as_str())).collect();
    assert_eq!(listed, vec![(1, "first"), (2, "second"), (3, "third one")]);
}

#[test]
fn the_tenth_callout_has_two_digits() {
    let lines: Vec<String> = (0..12).map(|_| "x ##c##{value=\"n\"}".to_string()).collect();
    let (lines, callouts) = transform_callouts(lines, &"##c##".to_string()).unwrap();
    assert_eq!(lines[8], "x <9>");
    assert_eq!(lines[9], "x <10>");
    assert_eq!(lines[11], "x <12>");
    assert_eq!(callouts[9].number, 10);
}

#[test]
fn lines_without_callouts_stay_as_they_are() {
    let lines = vec!["one".to_string(), "".to_string(), "{value=\"x\"}".to_string()];
    let (out, callouts) = transform_callouts(lines.clone(), &"##c##".to_string()).unwrap();
    assert_eq!(out, lines);
    assert!(callouts.is_empty());
    let (out, callouts) = transform_callouts(Vec::new(), &"##c##".to_string()).unwrap();
    assert!(out.is_empty());
    assert!(callouts.is_empty());
}

#[test]
fn an_empty_token_stands_before_every_text() {
    assert!(transform_callouts(vec!["line".to_string()], &String::new()).is_err());
    assert!(transform_callouts(vec![String::new()], &String::new()).is_err());
    let (out, callouts) = transform_callouts(Vec::new(), &String::new()).unwrap();
    assert!(out.is_empty());
    assert!(callouts.is_empty());
}

#[test]
fn the_annotation_is_taken_from_the_start() {
    let (rest, note) = extract_first_callout("{value=\"a b\"} tail {value=\"c\"}", "raw").unwrap();
    assert_eq!(note, "a b");
    assert_eq!(rest, " tail {value=\"c\"}");
    let error = extract_first_callout(" {value=\"a\"}", "raw line").unwrap_err();
    assert!(matches!(error, ExemplifyError::CalloutExtraction { raw_line } if raw_line == "raw line"));
}

#[test]
fn captures_decide_the_annotation() {
    let found = vec![vec![Some("{value=\"ab\"}".to_string()), Some("ab".to_string())]];
    assert_eq!(annotation_from_captures(&found, 20), Some(("ab".to_string(), 12)));
    assert_eq!(annotation_from_captures(&found, 12), Some(("ab".to_string(), 12)));
    assert_eq!(annotation_from_captures(&found, 11), None);
    assert_eq!(annotation_from_captures(&Vec::new(), 20), None);
    assert_eq!(annotation_from_captures(&vec![vec![Some("x".to_string())]], 20), None);
    assert_eq!(annotation_from_captures(&vec![vec![Some("x".to_string()), None]], 20), None);
    assert_eq!(
        annotation_from_captures(&vec![vec![Some(String::new()), Some("n".to_string())]], 20),
        None
    );
}

#[test]
fn the_header_names_title_id_and_language() {
    let mut full = example(&[]);
    full.title = Some("A title".to_string());
    full.id = Some("anchor".to_string());
    full.language = Some("rust".to_string());
    assert_eq!(
        create_asciidoc_source_header(&settings(), &full),
        vec![".A title", "[#anchor]", "[source,rust]", "----"]
    );
    assert_eq!(create_asciidoc_source_header(&settings(), &example(&[])), vec!["[source]", "----"]);
    assert_eq!(create_asciidoc_source_footer(&settings()), vec!["----"]);
}

#[test]
fn rendering_keeps_the_attributes() {
    let mut full = example(&["line"]);
    full.title = Some("T".to_string());
    full.language = Some("java".to_string());
    let rendered = to_asciidoctor(full, &settings()).unwrap();
    let inner = rendered.example();
    assert_eq!(inner.name, "example-1");
    assert_eq!(inner.title, Some("T".to_string()));
    assert_eq!(inner.language, Some("java".to_string()));
    assert_eq!(inner.id, None);
    assert_eq!(inner.content, vec![".T", "[source,java]", "----", "line", "----"]);
}

#[test]
fn examples_are_rendered_one_by_one() {
    let rendered = map_to_asciidoctor(
        vec![example(&["ok"]), example(&["bad ##callout##"]), example(&[])],
        settings(),
    );
    assert_eq!(rendered.len(), 3);
    assert!(rendered[0].is_ok());
    assert!(rendered[1].is_err());
    assert_eq!(
        rendered[2].as_ref().unwrap().example().content,
        vec!["[source]", "----", "----"]
    );
}
