use langbench::document::Node;
use langbench::workload::{overrides, Param, ParamValue, Workload, WorkloadError};

fn text(s: &str) -> Node {
    Node::Str(s.to_owned())
}

fn mapping(entries: Vec<(&str, Node)>) -> Node {
    Node::Mapping(entries.into_iter().map(|(k, v)| (k.to_owned(), v)).collect())
}

fn param(name: &str, value: i128) -> Node {
    mapping(vec![("name", text(name)), ("value", Node::Int(value))])
}

/// The document `workload.yaml` parses to, with the checksum under `key`.
fn mandelbrot_document(key: &str) -> Node {
    mapping(vec![
        ("id", text("mandelbrot")),
        ("description", text("Escape-time Mandelbrot over a fixed grid.")),
        ("implementations", Node::List(vec![text("c-gcc")])),
        ("params", Node::List(vec![param("grid_size", 2048), param("max_iter", 1000)])),
        (key, Node::Int(1_038_538_536)),
    ])
}

fn mandelbrot() -> Workload {
    Workload::from_node(&mandelbrot_document("strict-checksum")).unwrap()
}

fn error_text(error: &WorkloadError) -> String {
    error.message()
}

#[test]
fn a_manifest_declares_the_work_and_how_it_is_sized() {
    let workload = mandelbrot();
    assert_eq!(workload.id, "mandelbrot");
    assert_eq!(workload.checksum, Some(1_038_538_536));
    assert_eq!(
        workload.params,
        [
            Param {
                name: "grid_size".to_owned(),
                value: ParamValue::Integer(2048),
            },
            Param {
                name: "max_iter".to_owned(),
                value: ParamValue::Integer(1000),
            },
        ],
    );
}

#[test]
fn the_params_reach_the_kernel_in_declaration_order() {
    assert_eq!(mandelbrot().argv(), ["2048", "1000"]);
}

#[test]
fn an_integer_param_does_not_become_a_float_on_the_way_to_the_kernel() {
    assert_eq!(ParamValue::Integer(2048).to_text(), "2048");
    assert_eq!(ParamValue::parse("2048"), ParamValue::Integer(2048));
    assert_eq!(ParamValue::parse("balanced"), ParamValue::Text("balanced".to_owned()));
}

#[test]
fn overriding_a_param_drops_the_reference_checksum() {
    let overridden = mandelbrot()
        .with_overrides(&vec![("grid_size".to_owned(), "256".to_owned())])
        .unwrap();

    assert_eq!(overridden.argv(), ["256", "1000"]);
    assert_eq!(overridden.checksum, None);
}

#[test]
fn an_override_that_changes_nothing_keeps_the_reference_checksum() {
    let overridden = mandelbrot()
        .with_overrides(&vec![("grid_size".to_owned(), "2048".to_owned())])
        .unwrap();

    assert_eq!(overridden.checksum, Some(1_038_538_536));
}

#[test]
fn an_unknown_param_fails_the_campaign() {
    let error = mandelbrot()
        .with_overrides(&vec![("grdi_size".to_owned(), "256".to_owned())])
        .unwrap_err();
    let error = error_text(&error);
    assert!(error.contains("grdi_size"), "{error}");
    assert!(error.contains("grid_size, max_iter"), "{error}");
}

#[test]
fn the_first_unknown_param_is_the_one_named() {
    let error = mandelbrot()
        .with_overrides(&vec![
            ("grid_size".to_owned(), "256".to_owned()),
            ("iterations".to_owned(), "10".to_owned()),
            ("depth".to_owned(), "3".to_owned()),
        ])
        .unwrap_err();
    match error {
        WorkloadError::UnknownParam { name, workload, declared } => {
            assert_eq!(name, "iterations");
            assert_eq!(workload, "mandelbrot");
            assert_eq!(declared, "grid_size, max_iter");
        }
        other => panic!("{other:?}"),
    }
}

#[test]
fn a_param_is_written_name_equals_value() {
    assert_eq!(
        overrides(&vec!["grid_size=256".to_owned()]).unwrap(),
        [("grid_size".to_owned(), "256".to_owned())],
    );
    assert!(overrides(&vec!["grid_size".to_owned()]).is_err());
    assert!(overrides(&vec!["=256".to_owned()]).is_err());
}

#[test]
fn an_unknown_key_fails_the_manifest() {
    let error = Workload::from_node(&mapping(vec![
        ("id", text("mandelbrot")),
        ("description", text("Fine.")),
        ("params", Node::List(vec![])),
        ("strict-cheksum", Node::Int(1)),
    ]))
    .unwrap_err();
    assert!(error_text(&error).contains("strict-cheksum"));
}

#[test]
fn a_manifest_that_spells_it_the_wire_way_is_still_read() {
    let workload = Workload::from_node(&mandelbrot_document("strict_checksum"));
    assert_eq!(workload.unwrap().checksum, Some(1_038_538_536));
}

#[test]
fn a_manifest_may_spell_the_checksum_plainly() {
    let workload = Workload::from_node(&mandelbrot_document("checksum"));
    assert_eq!(workload.unwrap().checksum, Some(1_038_538_536));
}

#[test]
fn a_checksum_may_be_written_as_digits() {
    let mut document = mandelbrot_document("checksum");
    if let Node::Mapping(entries) = &mut document {
        entries[4].1 = text("9007199254740993");
    }
    assert_eq!(Workload::from_node(&document).unwrap().checksum, Some(9_007_199_254_740_993));
}

#[test]
fn a_checksum_declared_twice_fails_the_manifest() {
    let mut document = mandelbrot_document("checksum");
    if let Node::Mapping(entries) = &mut document {
        entries.push(("strict-checksum".to_owned(), Node::Int(1)));
    }
    let error = Workload::from_node(&document).unwrap_err();
    assert!(error_text(&error).contains("duplicate"), "{}", error_text(&error));
}

#[test]
fn a_workload_without_an_id_is_refused() {
    let error = Workload::from_node(&mapping(vec![
        ("id", text("  ")),
        ("description", text("Fine.")),
        ("implementations", Node::List(vec![])),
        ("params", Node::List(vec![])),
    ]))
    .unwrap_err();
    assert!(matches!(error, WorkloadError::MissingId));
}

#[test]
fn a_document_that_is_not_a_mapping_is_refused() {
    let error = Workload::from_node(&Node::List(vec![])).unwrap_err();
    assert!(error_text(&error).contains("expected a mapping"), "{}", error_text(&error));
}

#[test]
fn a_param_that_is_not_an_integer_keeps_its_spelling() {
    assert_eq!(ParamValue::parse("true"), ParamValue::Boolean(true));
    assert_eq!(ParamValue::parse("-3"), ParamValue::Integer(-3));
    assert_eq!(ParamValue::Boolean(false).to_text(), "false");
    assert_eq!(ParamValue::Integer(-3).to_text(), "-3");
}
