use codeblock::schema::RunError;
use codeblock::{CodeBlockApp, CodeBlockAppBuilder, Port, PortValue, PortValueType};

fn int_string_app() -> CodeBlockApp {
    CodeBlockAppBuilder::new()
        .inputs(vec![Port::new(String::from("a"), PortValueType::Int)])
        .outputs(vec![Port::new(String::from("b"), PortValueType::String)])
        .build()
        .unwrap()
}

fn value_is_string(v: &PortValue, expected: &str) -> bool {
    match v {
        PortValue::String { string_value } => string_value == expected,
        _ => false,
    }
}

#[test]
fn invoke_success() {
    let app = int_string_app();
    let req = vec![(String::from("a"), PortValue::new_integer(5))];
    let mut calls = 0u32;
    app.begin_run(&req).unwrap();
    calls += 1;
    let produced = vec![(String::from("b"), PortValue::new_string("x"))];
    let body = app.finish_run(Ok(produced)).unwrap();
    assert_eq!(calls, 1);
    assert_eq!(body.len(), 1);
    assert_eq!(body[0].0, "b");
    assert!(value_is_string(&body[0].1, "x"));
}

#[test]
fn invoke_missing_input_is_client_error_without_computation() {
    let app = int_string_app();
    let req: Vec<(String, PortValue)> = vec![];
    let mut calls = 0u32;
    let r = app.begin_run(&req);
    match r {
        Err(e) => {
            assert_eq!(e.status_code(), 400);
            assert_eq!(e.message(), "Missing port: a");
        }
        Ok(()) => {
            calls += 1;
        }
    }
    assert_eq!(calls, 0);
}

#[test]
fn invoke_missing_output_is_server_error() {
    let app = int_string_app();
    let req = vec![(String::from("a"), PortValue::new_integer(5))];
    app.begin_run(&req).unwrap();
    let r = app.finish_run(Ok(vec![]));
    match r {
        Err(e) => {
            assert_eq!(e.status_code(), 500);
            assert_eq!(e.message(), "Missing port: b");
        }
        Ok(_) => panic!("expected a server error"),
    }
}

#[test]
fn invoke_computation_error_passes_message_verbatim() {
    let app = int_string_app();
    let req = vec![(String::from("a"), PortValue::new_integer(5))];
    app.begin_run(&req).unwrap();
    let r = app.finish_run(Err(String::from("boom")));
    match r {
        Err(RunError::Server(m)) => assert_eq!(m, "boom"),
        _ => panic!("expected a server error"),
    }
}

#[test]
fn extra_input_keys_are_ignored() {
    let app = int_string_app();
    let req = vec![
        (String::from("z"), PortValue::new_bool(true)),
        (String::from("a"), PortValue::new_integer(5)),
        (String::from("unrelated"), PortValue::new_string("v")),
    ];
    assert!(app.validate_inputs(&req).is_ok());
    assert!(app.begin_run(&req).is_ok());
}

#[test]
fn extra_output_keys_are_kept() {
    let app = int_string_app();
    let produced = vec![
        (String::from("b"), PortValue::new_string("x")),
        (String::from("extra"), PortValue::new_integer(1)),
    ];
    let body = app.finish_run(Ok(produced)).unwrap();
    assert_eq!(body.len(), 2);
    assert_eq!(body[0].0, "b");
    assert_eq!(body[1].0, "extra");
}

#[test]
fn validate_reports_first_missing_port() {
    let app = CodeBlockAppBuilder::new()
        .inputs(vec![
            Port::new(String::from("first"), PortValueType::Int),
            Port::new(String::from("second"), PortValueType::Int),
        ])
        .build()
        .unwrap();
    let req = vec![(String::from("second"), PortValue::new_integer(1))];
    match app.validate_inputs(&req) {
        Err(e) => assert_eq!(e.message(), "Missing port: first"),
        Ok(()) => panic!("expected a missing port"),
    }
    let none: Vec<(String, PortValue)> = vec![];
    match app.validate_inputs(&none) {
        Err(e) => assert_eq!(e.message(), "Missing port: first"),
        Ok(()) => panic!("expected a missing port"),
    }
}

#[test]
fn validate_outputs_presence_only() {
    let app = int_string_app();
    // The declared output `b` is present though its value is an Int, not a
    // String: presence only, the type tag is not cross-checked.
    let produced = vec![(String::from("b"), PortValue::new_integer(7))];
    assert!(app.validate_outputs(&produced).is_ok());
}

#[test]
fn missing_port_reports_least_name() {
    let app = CodeBlockAppBuilder::new()
        .inputs(vec![
            Port::new(String::from("beta"), PortValueType::Int),
            Port::new(String::from("alpha"), PortValueType::Int),
        ])
        .build()
        .unwrap();
    let none: Vec<(String, PortValue)> = vec![];
    match app.validate_inputs(&none) {
        Err(e) => assert_eq!(e.message(), "Missing port: alpha"),
        Ok(()) => panic!("expected a missing port"),
    }
    let only_alpha = vec![(String::from("alpha"), PortValue::new_integer(1))];
    match app.validate_inputs(&only_alpha) {
        Err(e) => assert_eq!(e.message(), "Missing port: beta"),
        Ok(()) => panic!("expected a missing port"),
    }
}
