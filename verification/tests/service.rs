use std::str::FromStr;

use exemplify_lib::asciidoctor_transform::{to_asciidoctor, AsciidoctorSettings};
use exemplify_lib::chunk::Chunk;
use exemplify_lib::cli_params::{ExemplifyCliParams, OutputFormat};
use exemplify_lib::error::ExemplifyError;
use exemplify_lib::example::Example;
use exemplify_lib::example_producer::ExampleService;
use exemplify_lib::parser_settings::ParserSettings;
use exemplify_lib::print_files::{output_of, outputs_of, Output};
use exemplify_lib::reader_factory::{ReaderContext, ReaderFactory};

struct Sources {}

impl ReaderFactory for Sources {
    fn make_reader(&self, name: String) -> Result<ReaderContext, String> {
        let text = match name.as_str() {
            "first" => "##start##{name=\"x\" part=2}\nsecond part\n##end##",
            "second" => "##start##{name=\"x\" part=1}\nfirst part\n##end##\n##start##{name=\"y\"}\nopen",
            "nested" => "##start##{name=\"z\"}\n##start##{name=\"z\"}",
            _ => return Err(format!("{} is not a file", name)),
        };
        Ok(ReaderContext {
            source_name: name,
            lines: text.lines().map(|line| line.to_string()).collect(),
        })
    }
}

fn settings() -> ParserSettings {
    ParserSettings { start_token: "##start##".to_string(), end_token: "##end##".to_string() }
}

fn service(names: &[&str]) -> ExampleService<Sources> {
    ExampleService::new(names.iter().map(|name| name.to_string()).collect(), Sources {}, settings())
}

fn params(output_folder: Option<&str>) -> ExemplifyCliParams {
    ExemplifyCliParams {
        source_directory: "src".to_string(),
        extensions: vec!["rs".to_string()],
        print: false,
        start_token: "##exemplify-start##".to_string(),
        end_token: "##exemplify-end##".to_string(),
        output_format: None,
        output_folder: output_folder.map(|folder| folder.to_string()),
    }
}

#[test]
fn the_service_reads_its_queue_in_order() {
    let examples = service(&["first", "second"]).read_examples().unwrap();
    assert_eq!(examples.len(), 2);
    assert_eq!(examples[0].name, "x");
    assert_eq!(examples[0].content, vec!["first part", "second part"]);
    assert_eq!(examples[1].name, "y");
    assert_eq!(examples[1].content, vec!["open"]);
}

#[test]
fn the_service_stops_at_the_first_failure() {
    let error = service(&["first", "nested", "gone"]).read_examples().unwrap_err();
    assert!(matches!(error, ExemplifyError::NestedChunk { line: 2, .. }));
    let error = service(&["gone", "nested"]).read_examples().unwrap_err();
    assert!(matches!(error, ExemplifyError::Source { message } if message == "gone is not a file"));
}

#[test]
fn the_service_can_be_driven_step_by_step() {
    let mut service = service(&["second", "gone"]);
    assert_eq!(service.queued(), 2);
    assert!(service.process_queue().is_ok());
    assert_eq!(service.queued(), 1);
    assert!(service.exhaust_current_queue().is_ok());
    assert!(service.process_queue().is_err());
    assert_eq!(service.queued(), 0);
    assert!(service.exhaust_current_queue().is_ok());
    assert!(service.process_queue().is_ok());
    let examples = service.read_examples().unwrap();
    assert_eq!(examples.len(), 2);
    assert_eq!(examples[0].content, vec!["first part"]);
}

#[test]
fn an_open_source_is_read_before_the_queue() {
    let mut service = service(&["second", "first"]);
    assert!(service.process_queue().is_ok());
    let examples = service.read_examples().unwrap();
    assert_eq!(examples[0].content, vec!["first part", "second part"]);
}

#[test]
fn a_service_without_sources_has_no_examples() {
    assert!(service(&[]).read_examples().unwrap().is_empty());
}

#[test]
fn the_service_checks_part_numbers() {
    let service = service(&[]);
    let mut one = Chunk::default();
    one.part_number = Some(1);
    let mut other = Chunk::default();
    other.part_number = Some(1);
    other.source_name = "s".to_string();
    other.start_line = 8;
    assert!(service.verify_example(&vec![Chunk::default()]).is_ok());
    let error = service.verify_example(&vec![one, other]).unwrap_err();
    assert_eq!(error.message(), "s[8]: Duplicate part 1 ");
    let error = service.verify_example(&vec![Chunk::default(), Chunk::default()]).unwrap_err();
    assert!(matches!(error, ExemplifyError::MissingPartNumber { .. }));
}

#[test]
fn only_asciidoc_names_a_format() {
    assert_eq!(OutputFormat::from_str("asciidoc"), Ok(OutputFormat::Asciidoctor));
    assert_eq!(OutputFormat::parse("asciidoc"), Ok(OutputFormat::Asciidoctor));
    assert_eq!(OutputFormat::from_str("asciidoctor"), Err("invalid output format".to_string()));
    assert_eq!(OutputFormat::from_str(""), Err("invalid output format".to_string()));
    assert_eq!(OutputFormat::parse("Asciidoc"), Err("invalid output format".to_string()));
}

#[test]
fn the_parameters_give_the_markers() {
    let settings = params(None).parser_settings();
    assert_eq!(settings.start_token, "##exemplify-start##");
    assert_eq!(settings.end_token, "##exemplify-end##");
}

#[test]
fn examples_go_to_a_file_or_to_the_console() {
    let example = Example::new(
        "example-1".to_string(),
        vec!["a".to_string(), "b".to_string()],
        None,
        None,
        None,
    );
    assert_eq!(
        output_of(&example, &params(Some("out/docs"))),
        Output::File { path: "out/docs/example-1".to_string(), content: "a\nb".to_string() }
    );
    assert_eq!(
        output_of(&example, &params(None)),
        Output::Console { text: "Example example-1:\na\nb\n".to_string() }
    );
    let rendered = to_asciidoctor(example, &AsciidoctorSettings { callout_token: "#".to_string() })
        .unwrap();
    let outputs = outputs_of(&vec![rendered], &params(Some("out")));
    assert_eq!(
        outputs,
        vec![Output::File {
            path: "out/example-1.adoc".to_string(),
            content: "[source]\n----\na\nb\n----".to_string(),
        }]
    );
    assert!(outputs_of(&Vec::<Example>::new(), &params(None)).is_empty());
}
