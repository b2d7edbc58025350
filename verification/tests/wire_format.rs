use codeblock::value::{History, Image, PromptEntry};
use codeblock::wire::{
    decode_port_value, decode_value_map, encode_port_value, encode_value_map, get_ports, WireValue,
};
use codeblock::{CodeBlockAppBuilder, Port, PortValue, PortValueType};

fn wire_eq(a: &WireValue, b: &WireValue) -> bool {
    match (a, b) {
        (WireValue::Bool(x), WireValue::Bool(y)) => x == y,
        (WireValue::Int(x), WireValue::Int(y)) => x == y,
        (WireValue::Float(x), WireValue::Float(y)) => x == y,
        (WireValue::Str(x), WireValue::Str(y)) => x == y,
        (WireValue::Array(xs), WireValue::Array(ys)) => {
            xs.len() == ys.len() && xs.iter().zip(ys.iter()).all(|(x, y)| wire_eq(x, y))
        }
        (WireValue::Object(xs), WireValue::Object(ys)) => {
            xs.len() == ys.len()
                && xs
                    .iter()
                    .zip(ys.iter())
                    .all(|(x, y)| x.0 == y.0 && wire_eq(&x.1, &y.1))
        }
        _ => false,
    }
}

fn image_eq(a: &Image, b: &Image) -> bool {
    match (a, b) {
        (Image::Url { image_url: x }, Image::Url { image_url: y }) => {
            x.url == y.url && x.expired == y.expired
        }
        (Image::Base64 { image_base64: x }, Image::Base64 { image_base64: y }) => {
            x.base64 == y.base64
        }
        _ => false,
    }
}

fn value_eq(a: &PortValue, b: &PortValue) -> bool {
    match (a, b) {
        (PortValue::Bool { boolean_value: x }, PortValue::Bool { boolean_value: y }) => x == y,
        (PortValue::Int { integer_value: x }, PortValue::Int { integer_value: y }) => x == y,
        (PortValue::Float { float_bits: x }, PortValue::Float { float_bits: y }) => x == y,
        (PortValue::String { string_value: x }, PortValue::String { string_value: y }) => x == y,
        (PortValue::Image { image_value: x }, PortValue::Image { image_value: y }) => {
            image_eq(x, y)
        }
        (PortValue::History { history_value: x }, PortValue::History { history_value: y }) => {
            x.histories.len() == y.histories.len()
                && x.histories
                    .iter()
                    .zip(y.histories.iter())
                    .all(|(p, q)| p.role == q.role && p.body == q.body)
        }
        _ => false,
    }
}

fn assert_round_trip(v: PortValue) {
    let w = encode_port_value(&v);
    let back = decode_port_value(&w).unwrap();
    assert!(value_eq(&v, &back));
}

#[test]
fn round_trip_bool() {
    assert_round_trip(PortValue::new_bool(true));
    assert_round_trip(PortValue::new_bool(false));
}

#[test]
fn round_trip_int() {
    assert_round_trip(PortValue::new_integer(0));
    assert_round_trip(PortValue::new_integer(-42));
    assert_round_trip(PortValue::new_integer(i64::MAX));
}

#[test]
fn round_trip_float() {
    assert_round_trip(PortValue::new_float(2.5f32.to_bits()));
    assert_round_trip(PortValue::new_float((-0.0f32).to_bits()));
}

#[test]
fn round_trip_string() {
    assert_round_trip(PortValue::new_string(""));
    assert_round_trip(PortValue::new_string("hello"));
}

#[test]
fn round_trip_image_url() {
    assert_round_trip(PortValue::new_image(Image::new_url("https://e/x.png", 12345)));
}

#[test]
fn round_trip_image_base64() {
    assert_round_trip(PortValue::new_image(Image::new_base64("aGVsbG8=")));
}

#[test]
fn round_trip_history() {
    let h = History {
        histories: vec![
            PromptEntry {
                role: String::from("user"),
                body: String::from("hi"),
            },
            PromptEntry {
                role: String::from("assistant"),
                body: String::from("hello"),
            },
        ],
    };
    assert_round_trip(PortValue::new_history(h));
    assert_round_trip(PortValue::new_history(History { histories: vec![] }));
}

#[test]
fn encode_bool_exact_shape() {
    let w = encode_port_value(&PortValue::new_bool(true));
    let expected = WireValue::Object(vec![
        (
            String::from("portValueType"),
            WireValue::Str(String::from("bool")),
        ),
        (String::from("booleanValue"), WireValue::Bool(true)),
    ]);
    assert!(wire_eq(&w, &expected));
}

#[test]
fn encode_int_exact_shape() {
    let w = encode_port_value(&PortValue::new_integer(7));
    let expected = WireValue::Object(vec![
        (
            String::from("portValueType"),
            WireValue::Str(String::from("int")),
        ),
        (String::from("integerValue"), WireValue::Int(7)),
    ]);
    assert!(wire_eq(&w, &expected));
}

#[test]
fn decode_unknown_tag_fails() {
    let w = WireValue::Object(vec![
        (
            String::from("portValueType"),
            WireValue::Str(String::from("mystery")),
        ),
        (String::from("booleanValue"), WireValue::Bool(true)),
    ]);
    assert!(decode_port_value(&w).is_err());
}

#[test]
fn decode_payload_shape_mismatch_fails() {
    // Declared bool, payload is an integer: refused, never coerced.
    let w = WireValue::Object(vec![
        (
            String::from("portValueType"),
            WireValue::Str(String::from("bool")),
        ),
        (String::from("booleanValue"), WireValue::Int(1)),
    ]);
    assert!(decode_port_value(&w).is_err());
}

#[test]
fn decode_missing_payload_fails() {
    let w = WireValue::Object(vec![(
        String::from("portValueType"),
        WireValue::Str(String::from("string")),
    )]);
    assert!(decode_port_value(&w).is_err());
}

#[test]
fn decode_non_object_fails() {
    assert!(decode_port_value(&WireValue::Bool(true)).is_err());
    assert!(decode_port_value(&WireValue::Str(String::from("bool"))).is_err());
}

#[test]
fn decode_missing_tag_fails() {
    let w = WireValue::Object(vec![(String::from("booleanValue"), WireValue::Bool(true))]);
    assert!(decode_port_value(&w).is_err());
}

#[test]
fn value_map_round_trip() {
    let m = vec![
        (String::from("a"), PortValue::new_integer(5)),
        (String::from("b"), PortValue::new_string("x")),
    ];
    let w = encode_value_map(&m);
    let back = decode_value_map(&w).unwrap();
    assert_eq!(back.len(), 2);
    assert_eq!(back[0].0, "a");
    assert!(value_eq(&back[0].1, &m[0].1));
    assert_eq!(back[1].0, "b");
    assert!(value_eq(&back[1].1, &m[1].1));
}

#[test]
fn value_map_decode_bad_value_fails() {
    let w = WireValue::Object(vec![(String::from("a"), WireValue::Bool(true))]);
    assert!(decode_value_map(&w).is_err());
}

#[test]
fn get_ports_shape_and_default() {
    let app = CodeBlockAppBuilder::new()
        .inputs(vec![
            Port::new(String::from("a"), PortValueType::Int)
                .with_default_value(PortValue::new_integer(3)),
        ])
        .outputs(vec![Port::new(String::from("b"), PortValueType::String)])
        .build()
        .unwrap();
    let w = get_ports(&app);
    match &w {
        WireValue::Object(fields) => {
            assert_eq!(fields.len(), 2);
            assert_eq!(fields[0].0, "inputs");
            assert_eq!(fields[1].0, "outputs");
            match &fields[0].1 {
                WireValue::Array(items) => {
                    assert_eq!(items.len(), 1);
                    match &items[0] {
                        WireValue::Object(pf) => {
                            assert_eq!(pf.len(), 4);
                            assert_eq!(pf[0].0, "id");
                            assert_eq!(pf[1].0, "name");
                            assert_eq!(pf[2].0, "portValueType");
                            assert_eq!(pf[3].0, "defaultValue");
                            assert!(wire_eq(&pf[1].1, &WireValue::Str(String::from("a"))));
                            assert!(wire_eq(&pf[2].1, &WireValue::Str(String::from("int"))));
                        }
                        _ => panic!("port should be an object"),
                    }
                }
                _ => panic!("inputs should be an array"),
            }
            match &fields[1].1 {
                WireValue::Array(items) => {
                    assert_eq!(items.len(), 1);
                    match &items[0] {
                        WireValue::Object(pf) => {
                            // no default: the defaultValue field is omitted
                            assert_eq!(pf.len(), 3);
                        }
                        _ => panic!("port should be an object"),
                    }
                }
                _ => panic!("outputs should be an array"),
            }
        }
        _ => panic!("schema should be an object"),
    }
}

#[test]
fn get_ports_stable_across_invocations() {
    let app = CodeBlockAppBuilder::new()
        .inputs(vec![Port::new(String::from("a"), PortValueType::Int)])
        .outputs(vec![Port::new(String::from("b"), PortValueType::String)])
        .build()
        .unwrap();
    let before = get_ports(&app);
    let req = vec![(String::from("a"), PortValue::new_integer(1))];
    app.begin_run(&req).unwrap();
    let _ = app.finish_run(Ok(vec![(String::from("b"), PortValue::new_string("y"))]));
    let _ = app.finish_run(Err(String::from("boom")));
    let after = get_ports(&app);
    assert!(wire_eq(&before, &after));
}

#[test]
fn get_ports_serializes_name_sorted() {
    let app = CodeBlockAppBuilder::new()
        .inputs(vec![
            Port::new(String::from("zeta"), PortValueType::Int),
            Port::new(String::from("alpha"), PortValueType::Bool),
        ])
        .build()
        .unwrap();
    let w = get_ports(&app);
    match &w {
        WireValue::Object(fields) => match &fields[0].1 {
            WireValue::Array(items) => {
                assert_eq!(items.len(), 2);
                match (&items[0], &items[1]) {
                    (WireValue::Object(p0), WireValue::Object(p1)) => {
                        assert!(wire_eq(&p0[1].1, &WireValue::Str(String::from("alpha"))));
                        assert!(wire_eq(&p1[1].1, &WireValue::Str(String::from("zeta"))));
                    }
                    _ => panic!("ports should be objects"),
                }
            }
            _ => panic!("inputs should be an array"),
        },
        _ => panic!("schema should be an object"),
    }
}
