use codeblock::{CodeBlockAppBuilder, Error, Port, PortValue, PortValueType};

#[test]
fn test() {
    let _ = CodeBlockAppBuilder::new()
        .inputs(vec![Port::new(String::from("port1"), PortValueType::Bool)])
        .build()
        .unwrap();
}

#[test]
fn build_unique_names_succeeds() {
    let app = CodeBlockAppBuilder::new()
        .inputs(vec![
            Port::new(String::from("a"), PortValueType::Int),
            Port::new(String::from("b"), PortValueType::String),
        ])
        .outputs(vec![Port::new(String::from("c"), PortValueType::Bool)])
        .build()
        .unwrap();
    assert_eq!(app.inputs().len(), 2);
    assert_eq!(app.outputs().len(), 1);
}

#[test]
fn build_empty_outputs_succeeds() {
    let app = CodeBlockAppBuilder::new()
        .inputs(vec![Port::new(String::from("a"), PortValueType::Int)])
        .build()
        .unwrap();
    assert_eq!(app.outputs().len(), 0);
}

#[test]
fn build_zero_inputs_fails_empty_ports() {
    let r = CodeBlockAppBuilder::new().build();
    assert!(matches!(r, Err(Error::EmptyPorts("inputs"))));
}

#[test]
fn build_zero_inputs_fails_even_with_outputs() {
    let r = CodeBlockAppBuilder::new()
        .outputs(vec![Port::new(String::from("out"), PortValueType::String)])
        .build();
    assert!(matches!(r, Err(Error::EmptyPorts("inputs"))));
}

#[test]
fn build_duplicate_input_name_fails() {
    let r = CodeBlockAppBuilder::new()
        .inputs(vec![
            Port::new(String::from("a"), PortValueType::Int),
            Port::new(String::from("dup"), PortValueType::Bool),
            Port::new(String::from("dup"), PortValueType::Bool),
        ])
        .build();
    match r {
        Err(Error::NameConflict(name)) => assert_eq!(name, "dup"),
        _ => panic!("expected a name conflict"),
    }
}

#[test]
fn build_duplicate_output_name_fails() {
    let r = CodeBlockAppBuilder::new()
        .inputs(vec![Port::new(String::from("a"), PortValueType::Int)])
        .outputs(vec![
            Port::new(String::from("x"), PortValueType::String),
            Port::new(String::from("x"), PortValueType::String),
        ])
        .build();
    match r {
        Err(Error::NameConflict(name)) => assert_eq!(name, "x"),
        _ => panic!("expected a name conflict"),
    }
}

#[test]
fn name_only_identity_conflicts() {
    // Same name, different type, id left alone, one with a default: still
    // the same port to the builder.
    let p1 = Port::new(String::from("n"), PortValueType::Int);
    let p2 = Port::new(String::from("n"), PortValueType::String)
        .with_default_value(PortValue::new_string("d"));
    let r = CodeBlockAppBuilder::new().inputs(vec![p1, p2]).build();
    match r {
        Err(Error::NameConflict(name)) => assert_eq!(name, "n"),
        _ => panic!("expected a name conflict"),
    }
}

#[test]
fn input_and_output_may_share_a_name() {
    let app = CodeBlockAppBuilder::new()
        .inputs(vec![Port::new(String::from("same"), PortValueType::Int)])
        .outputs(vec![Port::new(String::from("same"), PortValueType::Int)])
        .build()
        .unwrap();
    assert_eq!(app.inputs().len(), 1);
    assert_eq!(app.outputs().len(), 1);
}

#[test]
fn builder_calls_accumulate() {
    let app = CodeBlockAppBuilder::new()
        .inputs(vec![Port::new(String::from("a"), PortValueType::Int)])
        .inputs(vec![Port::new(String::from("b"), PortValueType::Int)])
        .build()
        .unwrap();
    assert_eq!(app.inputs().len(), 2);
    assert_eq!(app.inputs()[0].name(), "a");
    assert_eq!(app.inputs()[1].name(), "b");
}

#[test]
fn error_messages() {
    assert_eq!(Error::EmptyPorts("inputs").message(), "Empty inputs ports");
    assert_eq!(
        Error::NameConflict(String::from("n")).message(),
        "Name conflict: n"
    );
    assert_eq!(
        Error::MissingPort(String::from("a")).message(),
        "Missing port: a"
    );
}

#[test]
fn ports_are_stored_name_sorted() {
    let app = CodeBlockAppBuilder::new()
        .inputs(vec![
            Port::new(String::from("b"), PortValueType::Int),
            Port::new(String::from("a"), PortValueType::Bool),
            Port::new(String::from("c"), PortValueType::String),
        ])
        .outputs(vec![
            Port::new(String::from("y"), PortValueType::Int),
            Port::new(String::from("x"), PortValueType::Bool),
        ])
        .build()
        .unwrap();
    assert_eq!(app.inputs()[0].name(), "a");
    assert_eq!(app.inputs()[1].name(), "b");
    assert_eq!(app.inputs()[2].name(), "c");
    assert_eq!(app.outputs()[0].name(), "x");
    assert_eq!(app.outputs()[1].name(), "y");
}

#[test]
fn listen_port_defaults() {
    assert_eq!(codeblock::schema::listen_port(Some(8080)), 8080);
    assert_eq!(codeblock::schema::listen_port(None), 3000);
}
