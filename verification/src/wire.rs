//! The wire form of values and schemas: a self-describing structured tree
//! in which every tagged union carries its tag as an explicit field, so a
//! decoder never guesses a variant from the payload's shape.
//!
//! The transport layer maps this tree one-to-one onto its concrete syntax
//! (a JSON body, in the reference transport): `Float` carries the bit
//! pattern of a 32-bit float number, `Object` the fields of an object in
//! order, `Str` a text. Field names follow the external camelCase naming
//! convention (`booleanValue`, `portValueType`, ...), distinct from the
//! internal field names.
//!
//! One canonical contract is spoken here: the `History` kind is part of the
//! value model, the integer payload field is spelled `integerValue` and the
//! float payload field `floatValue`, and a number is an `Int` or a `Float`
//! by its spelling, never coerced from one to the other.

use vstd::prelude::*;
use vstd::string::StringExecFns;

use crate::port::{Port, PortView};
use crate::schema::{entries_view, ports_view, CodeBlockApp, SchemaView};
use crate::value::{
    History, HistoryView, Image, ImageBase64, ImageBase64View, ImageUrl, ImageUrlView, ImageView,
    PortValue, PortValueType, PortValueView, PromptEntry, PromptEntryView,
};

verus! {

broadcast use vstd::std_specs::vec::group_vec_axioms;

/// One node of the wire tree.
#[derive(Debug)]
pub enum WireValue {
    Bool(bool),
    Int(i64),
    /// A 32-bit float number, by its IEEE bit pattern.
    Float(u32),
    Str(String),
    Array(Vec<WireValue>),
    Object(Vec<(String, WireValue)>),
}

/// Mathematical model of a wire tree node.
pub enum WireValueView {
    Bool(bool),
    Int(i64),
    Float(u32),
    Str(Seq<char>),
    Array(Seq<WireValueView>),
    Object(Seq<(Seq<char>, WireValueView)>),
}

/// The view of a wire node, recursively.
pub open spec fn wire_view(w: WireValue) -> WireValueView
    decreases w, 0int,
    via wire_view_decreases
{
    match w {
        WireValue::Bool(b) => WireValueView::Bool(b),
        WireValue::Int(i) => WireValueView::Int(i),
        WireValue::Float(bits) => WireValueView::Float(bits),
        WireValue::Str(s) => WireValueView::Str(s@),
        WireValue::Array(items) => WireValueView::Array(wire_views(items@)),
        WireValue::Object(fields) => WireValueView::Object(field_views(fields@)),
    }
}

/// The views of a sequence of wire nodes.
pub open spec fn wire_views(s: Seq<WireValue>) -> Seq<WireValueView>
    decreases s, 1int,
    via wire_views_decreases
{
    if s.len() == 0 {
        Seq::<WireValueView>::empty()
    } else {
        seq![wire_view(s[0])] + wire_views(s.drop_first())
    }
}

/// The views of a sequence of named wire fields.
pub open spec fn field_views(s: Seq<(String, WireValue)>) -> Seq<(Seq<char>, WireValueView)>
    decreases s, 1int,
    via field_views_decreases
{
    if s.len() == 0 {
        Seq::<(Seq<char>, WireValueView)>::empty()
    } else {
        seq![(s[0].0@, wire_view(s[0].1))] + field_views(s.drop_first())
    }
}

#[via_fn]
proof fn wire_view_decreases(w: WireValue) {
    match w {
        WireValue::Array(items) => {
            assert(decreases_to!(w => items));
            assert(decreases_to!(items => items@));
        },
        WireValue::Object(fields) => {
            assert(decreases_to!(w => fields));
            assert(decreases_to!(fields => fields@));
        },
        _ => {},
    }
}

#[via_fn]
proof fn wire_views_decreases(s: Seq<WireValue>) {
    if s.len() > 0 {
        assert(decreases_to!(s => s[0]));
        assert(decreases_to!(s => s.drop_last()));
        vstd::seq::axiom_seq_len_decreases(s, s.drop_first());
    }
}

#[via_fn]
proof fn field_views_decreases(s: Seq<(String, WireValue)>) {
    if s.len() > 0 {
        assert(decreases_to!(s => s[0]));
        assert(decreases_to!(s[0] => s[0].1));
        vstd::seq::axiom_seq_len_decreases(s, s.drop_first());
    }
}

/// The views of wire nodes, element by element.
pub proof fn lemma_wire_views(s: Seq<WireValue>)
    ensures
        wire_views(s).len() == s.len(),
        forall|i: int| 0 <= i < s.len() ==> #[trigger] wire_views(s)[i] == wire_view(s[i]),
    decreases s.len(),
{
    if s.len() > 0 {
        lemma_wire_views(s.drop_first());
    }
}

/// The views of named wire fields, element by element.
pub proof fn lemma_field_views(s: Seq<(String, WireValue)>)
    ensures
        field_views(s).len() == s.len(),
        forall|i: int|
            0 <= i < s.len() ==> #[trigger] field_views(s)[i] == (s[i].0@, wire_view(s[i].1)),
    decreases s.len(),
{
    if s.len() > 0 {
        lemma_field_views(s.drop_first());
    }
}

impl View for WireValue {
    type V = WireValueView;

    open spec fn view(&self) -> WireValueView {
        wire_view(*self)
    }
}

/// The wire payload does not parse into a value matching its declared tag.
#[derive(Debug, Clone, Copy, PartialEq, Eq, Structural)]
pub struct DecodeError;

/// The wire spelling of each value-kind tag.
pub open spec fn type_tag(t: PortValueType) -> Seq<char> {
    match t {
        PortValueType::Bool => "bool"@,
        PortValueType::Int => "int"@,
        PortValueType::Float => "float"@,
        PortValueType::String => "string"@,
        PortValueType::Image => "image"@,
        PortValueType::History => "history"@,
    }
}

/// The wire form of an image: tagged by `imageType`, the payload under
/// `imageURL` or `imageBase64`.
pub open spec fn wire_of_image(v: ImageView) -> WireValueView {
    match v {
        ImageView::Url { image_url } => WireValueView::Object(
            seq![
                ("imageType"@, WireValueView::Str("url"@)),
                (
                    "imageURL"@,
                    WireValueView::Object(
                        seq![
                            ("url"@, WireValueView::Str(image_url.url)),
                            ("expired"@, WireValueView::Int(image_url.expired as i64)),
                        ],
                    ),
                ),
            ],
        ),
        ImageView::Base64 { image_base64 } => WireValueView::Object(
            seq![
                ("imageType"@, WireValueView::Str("base64"@)),
                (
                    "imageBase64"@,
                    WireValueView::Object(
                        seq![("base64"@, WireValueView::Str(image_base64.base64))],
                    ),
                ),
            ],
        ),
    }
}

/// The wire form of one history entry.
pub open spec fn wire_of_entry(e: PromptEntryView) -> WireValueView {
    WireValueView::Object(
        seq![("role"@, WireValueView::Str(e.role)), ("body"@, WireValueView::Str(e.body))],
    )
}

/// The wire form of a history: its entries in conversation order.
pub open spec fn wire_of_history(h: HistoryView) -> WireValueView {
    WireValueView::Object(
        seq![
            (
                "histories"@,
                WireValueView::Array(h.histories.map_values(|e: PromptEntryView| wire_of_entry(e))),
            ),
        ],
    )
}

/// The wire form of a value: an object carrying the variant tag under
/// `portValueType` and the one payload under the variant's own field name.
pub open spec fn wire_of_port_value(v: PortValueView) -> WireValueView {
    match v {
        PortValueView::Bool { boolean_value } => WireValueView::Object(
            seq![
                ("portValueType"@, WireValueView::Str("bool"@)),
                ("booleanValue"@, WireValueView::Bool(boolean_value)),
            ],
        ),
        PortValueView::Int { integer_value } => WireValueView::Object(
            seq![
                ("portValueType"@, WireValueView::Str("int"@)),
                ("integerValue"@, WireValueView::Int(integer_value)),
            ],
        ),
        PortValueView::Float { float_bits } => WireValueView::Object(
            seq![
                ("portValueType"@, WireValueView::Str("float"@)),
                ("floatValue"@, WireValueView::Float(float_bits)),
            ],
        ),
        PortValueView::String { string_value } => WireValueView::Object(
            seq![
                ("portValueType"@, WireValueView::Str("string"@)),
                ("stringValue"@, WireValueView::Str(string_value)),
            ],
        ),
        PortValueView::Image { image_value } => WireValueView::Object(
            seq![
                ("portValueType"@, WireValueView::Str("image"@)),
                ("imageValue"@, wire_of_image(image_value)),
            ],
        ),
        PortValueView::History { history_value } => WireValueView::Object(
            seq![
                ("portValueType"@, WireValueView::Str("history"@)),
                ("historyValue"@, wire_of_history(history_value)),
            ],
        ),
    }
}

/// The value of the first field bearing this name, if any.
pub open spec fn lookup_field(fields: Seq<(Seq<char>, WireValueView)>, name: Seq<char>) -> Option<
    WireValueView,
>
    decreases fields.len(),
{
    if fields.len() == 0 {
        Option::None
    } else if fields[0].0 == name {
        Option::Some(fields[0].1)
    } else {
        lookup_field(fields.drop_first(), name)
    }
}

/// Decodes an image from its wire form; `None` on an unrecognized tag or a
/// payload shape inconsistent with the tag.
pub open spec fn image_of_wire(w: WireValueView) -> Option<ImageView> {
    match w {
        WireValueView::Object(fields) => match lookup_field(fields, "imageType"@) {
            Option::Some(WireValueView::Str(tag)) => if tag == "url"@ {
                match lookup_field(fields, "imageURL"@) {
                    Option::Some(WireValueView::Object(inner)) => match (
                        lookup_field(inner, "url"@),
                        lookup_field(inner, "expired"@),
                    ) {
                        (
                            Option::Some(WireValueView::Str(url)),
                            Option::Some(WireValueView::Int(expired)),
                        ) => if 0 <= expired <= u32::MAX {
                            Option::Some(
                                ImageView::Url {
                                    image_url: ImageUrlView { url, expired: expired as u32 },
                                },
                            )
                        } else {
                            Option::None
                        },
                        _ => Option::None,
                    },
                    _ => Option::None,
                }
            } else if tag == "base64"@ {
                match lookup_field(fields, "imageBase64"@) {
                    Option::Some(WireValueView::Object(inner)) => match lookup_field(
                        inner,
                        "base64"@,
                    ) {
                        Option::Some(WireValueView::Str(base64)) => Option::Some(
                            ImageView::Base64 { image_base64: ImageBase64View { base64 } },
                        ),
                        _ => Option::None,
                    },
                    _ => Option::None,
                }
            } else {
                Option::None
            },
            _ => Option::None,
        },
        _ => Option::None,
    }
}

/// Decodes one history entry from its wire form.
pub open spec fn entry_of_wire(w: WireValueView) -> Option<PromptEntryView> {
    match w {
        WireValueView::Object(fields) => match (
            lookup_field(fields, "role"@),
            lookup_field(fields, "body"@),
        ) {
            (
                Option::Some(WireValueView::Str(role)),
                Option::Some(WireValueView::Str(body)),
            ) => Option::Some(PromptEntryView { role, body }),
            _ => Option::None,
        },
        _ => Option::None,
    }
}

/// Decodes a sequence of history entries; every element must decode.
pub open spec fn entries_of_wires(s: Seq<WireValueView>) -> Option<Seq<PromptEntryView>>
    decreases s.len(),
{
    if s.len() == 0 {
        Option::Some(Seq::<PromptEntryView>::empty())
    } else {
        match entry_of_wire(s[0]) {
            Option::Some(e) => match entries_of_wires(s.drop_first()) {
                Option::Some(rest) => Option::Some(seq![e] + rest),
                Option::None => Option::None,
            },
            Option::None => Option::None,
        }
    }
}

/// Decodes a history from its wire form.
pub open spec fn history_of_wire(w: WireValueView) -> Option<HistoryView> {
    match w {
        WireValueView::Object(fields) => match lookup_field(fields, "histories"@) {
            Option::Some(WireValueView::Array(items)) => match entries_of_wires(items) {
                Option::Some(entries) => Option::Some(HistoryView { histories: entries }),
                Option::None => Option::None,
            },
            _ => Option::None,
        },
        _ => Option::None,
    }
}

/// Decodes a value from its wire form: the explicit `portValueType` tag
/// selects the variant, and the payload must sit under that variant's field
/// name with the matching shape; anything else is refused, never coerced.
pub open spec fn port_value_of_wire(w: WireValueView) -> Option<PortValueView> {
    match w {
        WireValueView::Object(fields) => match lookup_field(fields, "portValueType"@) {
            Option::Some(WireValueView::Str(tag)) => if tag == "bool"@ {
                match lookup_field(fields, "booleanValue"@) {
                    Option::Some(WireValueView::Bool(boolean_value)) => Option::Some(
                        PortValueView::Bool { boolean_value },
                    ),
                    _ => Option::None,
                }
            } else if tag == "int"@ {
                match lookup_field(fields, "integerValue"@) {
                    Option::Some(WireValueView::Int(integer_value)) => Option::Some(
                        PortValueView::Int { integer_value },
                    ),
                    _ => Option::None,
                }
            } else if tag == "float"@ {
                match lookup_field(fields, "floatValue"@) {
                    Option::Some(WireValueView::Float(float_bits)) => Option::Some(
                        PortValueView::Float { float_bits },
                    ),
                    _ => Option::None,
                }
            } else if tag == "string"@ {
                match lookup_field(fields, "stringValue"@) {
                    Option::Some(WireValueView::Str(string_value)) => Option::Some(
                        PortValueView::String { string_value },
                    ),
                    _ => Option::None,
                }
            } else if tag == "image"@ {
                match lookup_field(fields, "imageValue"@) {
                    Option::Some(payload) => match image_of_wire(payload) {
                        Option::Some(image_value) => Option::Some(
                            PortValueView::Image { image_value },
                        ),
                        Option::None => Option::None,
                    },
                    Option::None => Option::None,
                }
            } else if tag == "history"@ {
                match lookup_field(fields, "historyValue"@) {
                    Option::Some(payload) => match history_of_wire(payload) {
                        Option::Some(history_value) => Option::Some(
                            PortValueView::History { history_value },
                        ),
                        Option::None => Option::None,
                    },
                    Option::None => Option::None,
                }
            } else {
                Option::None
            },
            _ => Option::None,
        },
        _ => Option::None,
    }
}

/// Law: encoding any value to wire form and decoding it back yields the
/// value itself, for every variant, nested image carriers included.
pub proof fn lemma_wire_round_trip(v: PortValueView)
    ensures
        port_value_of_wire(wire_of_port_value(v)) == Option::Some(v),
{
    match v {
        PortValueView::Bool { boolean_value } => lemma_round_trip_bool(boolean_value),
        PortValueView::Int { integer_value } => lemma_round_trip_int(integer_value),
        PortValueView::Float { float_bits } => lemma_round_trip_float(float_bits),
        PortValueView::String { string_value } => lemma_round_trip_string(string_value),
        PortValueView::Image { image_value } => lemma_round_trip_image_value(image_value),
        PortValueView::History { history_value } => lemma_round_trip_history_value(history_value),
    }
}

proof fn lemma_round_trip_bool(b: bool)
    ensures
        port_value_of_wire(wire_of_port_value(PortValueView::Bool { boolean_value: b }))
            == Option::Some(PortValueView::Bool { boolean_value: b }),
{
    reveal_with_fuel(lookup_field, 4);
    reveal_strlit("portValueType");
    reveal_strlit("bool");
    reveal_strlit("booleanValue");
    let fields = seq![
        ("portValueType"@, WireValueView::Str("bool"@)),
        ("booleanValue"@, WireValueView::Bool(b)),
    ];
    assert(lookup_field(fields, "portValueType"@) == Option::Some(WireValueView::Str("bool"@)));
    assert("portValueType"@ != "booleanValue"@) by {
        assert("portValueType"@.len() == 13);
        assert("booleanValue"@.len() == 12);
    }
    assert(fields.drop_first() =~= seq![("booleanValue"@, WireValueView::Bool(b))]);
    assert(lookup_field(fields, "booleanValue"@) == Option::Some(WireValueView::Bool(b)));
}

proof fn lemma_round_trip_int(i: i64)
    ensures
        port_value_of_wire(wire_of_port_value(PortValueView::Int { integer_value: i }))
            == Option::Some(PortValueView::Int { integer_value: i }),
{
    reveal_with_fuel(lookup_field, 4);
    reveal_strlit("portValueType");
    reveal_strlit("bool");
    reveal_strlit("int");
    reveal_strlit("integerValue");
    let fields = seq![
        ("portValueType"@, WireValueView::Str("int"@)),
        ("integerValue"@, WireValueView::Int(i)),
    ];
    assert(lookup_field(fields, "portValueType"@) == Option::Some(WireValueView::Str("int"@)));
    assert("int"@ != "bool"@) by {
        assert("int"@.len() == 3);
        assert("bool"@.len() == 4);
    }
    assert("portValueType"@ != "integerValue"@) by {
        assert("portValueType"@.len() == 13);
        assert("integerValue"@.len() == 12);
    }
    assert(fields.drop_first() =~= seq![("integerValue"@, WireValueView::Int(i))]);
    assert(lookup_field(fields, "integerValue"@) == Option::Some(WireValueView::Int(i)));
}

proof fn lemma_round_trip_float(bits: u32)
    ensures
        port_value_of_wire(wire_of_port_value(PortValueView::Float { float_bits: bits }))
            == Option::Some(PortValueView::Float { float_bits: bits }),
{
    reveal_with_fuel(lookup_field, 4);
    reveal_strlit("portValueType");
    reveal_strlit("bool");
    reveal_strlit("int");
    reveal_strlit("float");
    reveal_strlit("floatValue");
    let fields = seq![
        ("portValueType"@, WireValueView::Str("float"@)),
        ("floatValue"@, WireValueView::Float(bits)),
    ];
    assert(lookup_field(fields, "portValueType"@) == Option::Some(WireValueView::Str("float"@)));
    assert("float"@ != "bool"@ && "float"@ != "int"@) by {
        assert("float"@.len() == 5);
        assert("bool"@.len() == 4);
        assert("int"@.len() == 3);
    }
    assert("portValueType"@ != "floatValue"@) by {
        assert("portValueType"@.len() == 13);
        assert("floatValue"@.len() == 10);
    }
    assert(fields.drop_first() =~= seq![("floatValue"@, WireValueView::Float(bits))]);
    assert(lookup_field(fields, "floatValue"@) == Option::Some(WireValueView::Float(bits)));
}

proof fn lemma_round_trip_string(s: Seq<char>)
    ensures
        port_value_of_wire(wire_of_port_value(PortValueView::String { string_value: s }))
            == Option::Some(PortValueView::String { string_value: s }),
{
    reveal_with_fuel(lookup_field, 4);
    reveal_strlit("portValueType");
    reveal_strlit("bool");
    reveal_strlit("int");
    reveal_strlit("float");
    reveal_strlit("string");
    reveal_strlit("stringValue");
    let fields = seq![
        ("portValueType"@, WireValueView::Str("string"@)),
        ("stringValue"@, WireValueView::Str(s)),
    ];
    assert(lookup_field(fields, "portValueType"@) == Option::Some(WireValueView::Str("string"@)));
    assert("string"@ != "bool"@ && "string"@ != "int"@ && "string"@ != "float"@) by {
        assert("string"@.len() == 6);
        assert("bool"@.len() == 4);
        assert("int"@.len() == 3);
        assert("float"@.len() == 5);
    }
    assert("portValueType"@ != "stringValue"@) by {
        assert("portValueType"@.len() == 13);
        assert("stringValue"@.len() == 11);
    }
    assert(fields.drop_first() =~= seq![("stringValue"@, WireValueView::Str(s))]);
    assert(lookup_field(fields, "stringValue"@) == Option::Some(WireValueView::Str(s)));
}

proof fn lemma_round_trip_image_value(img: ImageView)
    ensures
        port_value_of_wire(wire_of_port_value(PortValueView::Image { image_value: img }))
            == Option::Some(PortValueView::Image { image_value: img }),
{
    reveal_with_fuel(lookup_field, 4);
    reveal_strlit("portValueType");
    reveal_strlit("bool");
    reveal_strlit("int");
    reveal_strlit("float");
    reveal_strlit("string");
    reveal_strlit("image");
    reveal_strlit("imageValue");
    lemma_image_round_trip(img);
    let fields = seq![
        ("portValueType"@, WireValueView::Str("image"@)),
        ("imageValue"@, wire_of_image(img)),
    ];
    assert(lookup_field(fields, "portValueType"@) == Option::Some(WireValueView::Str("image"@)));
    assert("image"@ != "bool"@ && "image"@ != "int"@ && "image"@ != "float"@ && "image"@
        != "string"@) by {
        assert("image"@.len() == 5);
        assert("bool"@.len() == 4);
        assert("int"@.len() == 3);
        assert("string"@.len() == 6);
        assert("image"@[0] == 'i');
        assert("float"@[0] == 'f');
    }
    assert("portValueType"@ != "imageValue"@) by {
        assert("portValueType"@.len() == 13);
        assert("imageValue"@.len() == 10);
    }
    assert(fields.drop_first() =~= seq![("imageValue"@, wire_of_image(img))]);
    assert(lookup_field(fields, "imageValue"@) == Option::Some(wire_of_image(img)));
}

proof fn lemma_round_trip_history_value(h: HistoryView)
    ensures
        port_value_of_wire(wire_of_port_value(PortValueView::History { history_value: h }))
            == Option::Some(PortValueView::History { history_value: h }),
{
    reveal_with_fuel(lookup_field, 4);
    reveal_strlit("portValueType");
    reveal_strlit("bool");
    reveal_strlit("int");
    reveal_strlit("float");
    reveal_strlit("string");
    reveal_strlit("image");
    reveal_strlit("history");
    reveal_strlit("historyValue");
    reveal_strlit("histories");
    let hw = wire_of_history(h);
    let fields = seq![("portValueType"@, WireValueView::Str("history"@)), ("historyValue"@, hw)];
    assert(lookup_field(fields, "portValueType"@) == Option::Some(WireValueView::Str("history"@)));
    assert("history"@ != "bool"@ && "history"@ != "int"@ && "history"@ != "float"@ && "history"@
        != "string"@ && "history"@ != "image"@) by {
        assert("history"@.len() == 7);
        assert("bool"@.len() == 4);
        assert("int"@.len() == 3);
        assert("float"@.len() == 5);
        assert("string"@.len() == 6);
        assert("image"@.len() == 5);
    }
    assert("portValueType"@ != "historyValue"@) by {
        assert("portValueType"@.len() == 13);
        assert("historyValue"@.len() == 12);
    }
    assert(fields.drop_first() =~= seq![("historyValue"@, hw)]);
    assert(lookup_field(fields, "historyValue"@) == Option::Some(hw));
    let ws = h.histories.map_values(|e: PromptEntryView| wire_of_entry(e));
    let inner = seq![("histories"@, WireValueView::Array(ws))];
    assert(lookup_field(inner, "histories"@) == Option::Some(WireValueView::Array(ws)));
    lemma_entries_round_trip(h.histories);
    assert(history_of_wire(hw) == Option::Some(h));
}

/// Encoding an image and decoding it back yields the image itself, for both
/// carriers.
pub proof fn lemma_image_round_trip(v: ImageView)
    ensures
        image_of_wire(wire_of_image(v)) == Option::Some(v),
{
    reveal_with_fuel(lookup_field, 4);
    reveal_strlit("imageType");
    reveal_strlit("url");
    reveal_strlit("base64");
    reveal_strlit("imageURL");
    reveal_strlit("imageBase64");
    reveal_strlit("expired");
    match v {
        ImageView::Url { image_url } => {
            let inner = seq![
                ("url"@, WireValueView::Str(image_url.url)),
                ("expired"@, WireValueView::Int(image_url.expired as i64)),
            ];
            let fields = seq![
                ("imageType"@, WireValueView::Str("url"@)),
                ("imageURL"@, WireValueView::Object(inner)),
            ];
            assert(lookup_field(fields, "imageType"@) == Option::Some(WireValueView::Str("url"@)));
            assert("imageType"@ != "imageURL"@) by {
                assert("imageType"@.len() == 9);
                assert("imageURL"@.len() == 8);
            }
            assert(fields.drop_first() =~= seq![("imageURL"@, WireValueView::Object(inner))]);
            assert(lookup_field(fields, "imageURL"@) == Option::Some(WireValueView::Object(inner)));
            assert(lookup_field(inner, "url"@) == Option::Some(WireValueView::Str(image_url.url)));
            assert("url"@ != "expired"@) by {
                assert("url"@.len() == 3);
                assert("expired"@.len() == 7);
            }
            assert(inner.drop_first() =~= seq![
                ("expired"@, WireValueView::Int(image_url.expired as i64)),
            ]);
            assert(lookup_field(inner, "expired"@) == Option::Some(
                WireValueView::Int(image_url.expired as i64),
            ));
        },
        ImageView::Base64 { image_base64 } => {
            let inner = seq![("base64"@, WireValueView::Str(image_base64.base64))];
            let fields = seq![
                ("imageType"@, WireValueView::Str("base64"@)),
                ("imageBase64"@, WireValueView::Object(inner)),
            ];
            assert(lookup_field(fields, "imageType"@) == Option::Some(
                WireValueView::Str("base64"@),
            ));
            assert("base64"@ != "url"@) by {
                assert("base64"@.len() == 6);
                assert("url"@.len() == 3);
            }
            assert("imageType"@ != "imageBase64"@) by {
                assert("imageType"@.len() == 9);
                assert("imageBase64"@.len() == 11);
            }
            assert(fields.drop_first() =~= seq![("imageBase64"@, WireValueView::Object(inner))]);
            assert(lookup_field(fields, "imageBase64"@) == Option::Some(
                WireValueView::Object(inner),
            ));
            assert(lookup_field(inner, "base64"@) == Option::Some(
                WireValueView::Str(image_base64.base64),
            ));
        },
    }
}

/// Encoding one history entry and decoding it back yields the entry itself.
pub proof fn lemma_entry_round_trip(e: PromptEntryView)
    ensures
        entry_of_wire(wire_of_entry(e)) == Option::Some(e),
{
    reveal_with_fuel(lookup_field, 4);
    reveal_strlit("role");
    reveal_strlit("body");
    let fields = seq![("role"@, WireValueView::Str(e.role)), ("body"@, WireValueView::Str(e.body))];
    assert(lookup_field(fields, "role"@) == Option::Some(WireValueView::Str(e.role)));
    assert("role"@ != "body"@) by {
        assert("role"@[0] == 'r');
        assert("body"@[0] == 'b');
    }
    assert(fields.drop_first() =~= seq![("body"@, WireValueView::Str(e.body))]);
    assert(lookup_field(fields, "body"@) == Option::Some(WireValueView::Str(e.body)));
}

/// Encoding a sequence of history entries and decoding it back yields the
/// entries themselves, in order.
pub proof fn lemma_entries_round_trip(s: Seq<PromptEntryView>)
    ensures
        entries_of_wires(s.map_values(|e: PromptEntryView| wire_of_entry(e))) == Option::Some(s),
    decreases s.len(),
{
    let ws = s.map_values(|e: PromptEntryView| wire_of_entry(e));
    if s.len() == 0 {
        assert(ws.len() == 0);
        assert(Seq::<PromptEntryView>::empty() =~= s);
    } else {
        lemma_entries_round_trip(s.drop_first());
        assert(ws.drop_first() =~= s.drop_first().map_values(
            |e: PromptEntryView| wire_of_entry(e),
        ));
        lemma_entry_round_trip(s[0]);
        assert(ws[0] == wire_of_entry(s[0]));
        assert(seq![s[0]] + s.drop_first() =~= s);
    }
}


/// The wire form of a port declaration: `id`, `name`, the type tag under
/// `portValueType`, and `defaultValue` only when a default is present.
pub open spec fn wire_of_port(p: PortView) -> WireValueView {
    WireValueView::Object(
        seq![
            ("id"@, WireValueView::Str(p.id)),
            ("name"@, WireValueView::Str(p.name)),
            ("portValueType"@, WireValueView::Str(type_tag(p.port_value_type))),
        ] + (match p.default_value {
            Option::Some(dv) => seq![("defaultValue"@, wire_of_port_value(dv))],
            Option::None => Seq::<(Seq<char>, WireValueView)>::empty(),
        }),
    )
}

/// The wire forms of a sequence of port declarations, in order.
pub open spec fn wire_of_ports(s: Seq<PortView>) -> Seq<WireValueView> {
    s.map_values(|p: PortView| wire_of_port(p))
}

/// The wire form of a schema: its input and output declarations.
pub open spec fn wire_of_schema(s: SchemaView) -> WireValueView {
    WireValueView::Object(
        seq![
            ("inputs"@, WireValueView::Array(wire_of_ports(s.inputs))),
            ("outputs"@, WireValueView::Array(wire_of_ports(s.outputs))),
        ],
    )
}

/// The wire form of a name-to-value map: one field per entry, in order.
pub open spec fn wire_of_map(m: Seq<(Seq<char>, PortValueView)>) -> WireValueView {
    WireValueView::Object(
        m.map_values(|e: (Seq<char>, PortValueView)| (e.0, wire_of_port_value(e.1))),
    )
}

/// Decodes the fields of an object as a name-to-value map; every field's
/// value must decode.
pub open spec fn map_entries_of_wire(fields: Seq<(Seq<char>, WireValueView)>) -> Option<
    Seq<(Seq<char>, PortValueView)>,
>
    decreases fields.len(),
{
    if fields.len() == 0 {
        Option::Some(Seq::<(Seq<char>, PortValueView)>::empty())
    } else {
        match port_value_of_wire(fields[0].1) {
            Option::Some(v) => match map_entries_of_wire(fields.drop_first()) {
                Option::Some(rest) => Option::Some(seq![(fields[0].0, v)] + rest),
                Option::None => Option::None,
            },
            Option::None => Option::None,
        }
    }
}

/// Decodes a name-to-value map from its wire form.
pub open spec fn map_of_wire(w: WireValueView) -> Option<Seq<(Seq<char>, PortValueView)>> {
    match w {
        WireValueView::Object(fields) => map_entries_of_wire(fields),
        _ => Option::None,
    }
}

/// An object of one field.
fn obj1(k1: &str, v1: WireValue) -> (r: WireValue)
    ensures
        wire_view(r) == WireValueView::Object(seq![(k1@, wire_view(v1))]),
{
    let ghost g1 = wire_view(v1);
    let mut fields: Vec<(String, WireValue)> = Vec::new();
    fields.push((String::from_str(k1), v1));
    proof {
        lemma_field_views(fields@);
        assert(field_views(fields@) =~= seq![(k1@, g1)]);
    }
    WireValue::Object(fields)
}

/// An object of two fields, in order.
fn obj2(k1: &str, v1: WireValue, k2: &str, v2: WireValue) -> (r: WireValue)
    ensures
        wire_view(r) == WireValueView::Object(seq![(k1@, wire_view(v1)), (k2@, wire_view(v2))]),
{
    let ghost g1 = wire_view(v1);
    let ghost g2 = wire_view(v2);
    let mut fields: Vec<(String, WireValue)> = Vec::new();
    fields.push((String::from_str(k1), v1));
    fields.push((String::from_str(k2), v2));
    proof {
        lemma_field_views(fields@);
        assert(field_views(fields@) =~= seq![(k1@, g1), (k2@, g2)]);
    }
    WireValue::Object(fields)
}

/// The wire spelling of a value-kind tag.
pub fn type_tag_str(t: PortValueType) -> (r: String)
    ensures
        r@ == type_tag(t),
{
    match t {
        PortValueType::Bool => String::from_str("bool"),
        PortValueType::Int => String::from_str("int"),
        PortValueType::Float => String::from_str("float"),
        PortValueType::String => String::from_str("string"),
        PortValueType::Image => String::from_str("image"),
        PortValueType::History => String::from_str("history"),
    }
}

/// Encodes an image to its wire form.
pub fn encode_image(v: &Image) -> (r: WireValue)
    ensures
        wire_view(r) == wire_of_image(v@),
{
    match v {
        Image::Url { image_url } => {
            let inner = obj2(
                "url",
                WireValue::Str(image_url.url.clone()),
                "expired",
                WireValue::Int(image_url.expired as i64),
            );
            obj2("imageType", WireValue::Str(String::from_str("url")), "imageURL", inner)
        },
        Image::Base64 { image_base64 } => {
            let inner = obj1("base64", WireValue::Str(image_base64.base64.clone()));
            obj2("imageType", WireValue::Str(String::from_str("base64")), "imageBase64", inner)
        },
    }
}

/// Encodes a history to its wire form, entries in conversation order.
pub fn encode_history(h: &History) -> (r: WireValue)
    ensures
        wire_view(r) == wire_of_history(h@),
{
    let ghost target = h@.histories.map_values(|e: PromptEntryView| wire_of_entry(e));
    let mut items: Vec<WireValue> = Vec::new();
    let n = h.histories.len();
    for i in 0..n
        invariant
            n == h.histories.len(),
            target == h@.histories.map_values(|e: PromptEntryView| wire_of_entry(e)),
            target.len() == n,
            items@.len() == i,
            forall|k: int| 0 <= k < i ==> wire_view(#[trigger] items@[k]) == target[k],
    {
        let e = &h.histories[i];
        let ew = obj2(
            "role",
            WireValue::Str(e.role.clone()),
            "body",
            WireValue::Str(e.body.clone()),
        );
        proof {
            assert(h@.histories[i as int] == h.histories@[i as int]@);
            assert(wire_view(ew) == wire_of_entry(h@.histories[i as int]));
        }
        items.push(ew);
    }
    proof {
        lemma_wire_views(items@);
        assert(wire_views(items@) =~= target);
    }
    obj1("histories", WireValue::Array(items))
}

/// Encodes a value to its wire form: the explicit tag first, then the one
/// payload.
pub fn encode_port_value(v: &PortValue) -> (r: WireValue)
    ensures
        wire_view(r) == wire_of_port_value(v@),
{
    match v {
        PortValue::Bool { boolean_value } => obj2(
            "portValueType",
            WireValue::Str(String::from_str("bool")),
            "booleanValue",
            WireValue::Bool(*boolean_value),
        ),
        PortValue::Int { integer_value } => obj2(
            "portValueType",
            WireValue::Str(String::from_str("int")),
            "integerValue",
            WireValue::Int(*integer_value),
        ),
        PortValue::Float { float_bits } => obj2(
            "portValueType",
            WireValue::Str(String::from_str("float")),
            "floatValue",
            WireValue::Float(*float_bits),
        ),
        PortValue::String { string_value } => obj2(
            "portValueType",
            WireValue::Str(String::from_str("string")),
            "stringValue",
            WireValue::Str(string_value.clone()),
        ),
        PortValue::Image { image_value } => obj2(
            "portValueType",
            WireValue::Str(String::from_str("image")),
            "imageValue",
            encode_image(image_value),
        ),
        PortValue::History { history_value } => obj2(
            "portValueType",
            WireValue::Str(String::from_str("history")),
            "historyValue",
            encode_history(history_value),
        ),
    }
}

/// The value of the first field bearing this name, if any.
fn lookup<'a>(fields: &'a Vec<(String, WireValue)>, name: &String) -> (r: Option<&'a WireValue>)
    ensures
        r matches Option::Some(w) ==> lookup_field(field_views(fields@), name@) == Option::Some(
            wire_view(*w),
        ),
        r is None ==> lookup_field(field_views(fields@), name@) is None,
{
    let ghost fv = field_views(fields@);
    proof {
        lemma_field_views(fields@);
        assert(fv.skip(0) =~= fv);
    }
    let n = fields.len();
    let mut i: usize = 0;
    while i < n
        invariant
            i <= n == fields.len(),
            fv == field_views(fields@),
            fv.len() == n,
            forall|k: int|
                0 <= k < n ==> #[trigger] fv[k] == (fields@[k].0@, wire_view(fields@[k].1)),
            lookup_field(fv, name@) == lookup_field(fv.skip(i as int), name@),
        decreases n - i,
    {
        let hit = fields[i].0.eq(name);
        proof {
            assert(fv.skip(i as int)[0] == fv[i as int]);
        }
        if hit {
            return Option::Some(&fields[i].1);
        }
        proof {
            assert(fv.skip(i as int).drop_first() =~= fv.skip(i as int + 1));
        }
        i += 1;
    }
    proof {
        assert(fv.skip(n as int) =~= Seq::<(Seq<char>, WireValueView)>::empty());
    }
    Option::None
}

/// Decodes an image from its wire form.
pub fn decode_image(w: &WireValue) -> (r: Result<Image, DecodeError>)
    ensures
        r matches Result::Ok(img) ==> image_of_wire(wire_view(*w)) == Option::Some(img@),
        r is Err <==> image_of_wire(wire_view(*w)) is None,
{
    match w {
        WireValue::Object(fields) => {
            match lookup(fields, &String::from_str("imageType")) {
                Option::Some(WireValue::Str(tag)) => {
                    if tag.eq(&String::from_str("url")) {
                        match lookup(fields, &String::from_str("imageURL")) {
                            Option::Some(WireValue::Object(inner)) => {
                                let url_field = lookup(inner, &String::from_str("url"));
                                let expired_field = lookup(inner, &String::from_str("expired"));
                                match (url_field, expired_field) {
                                    (
                                        Option::Some(WireValue::Str(url)),
                                        Option::Some(WireValue::Int(expired)),
                                    ) => {
                                        if *expired >= 0 && *expired <= u32::MAX as i64 {
                                            Result::Ok(
                                                Image::Url {
                                                    image_url: ImageUrl {
                                                        url: url.clone(),
                                                        expired: *expired as u32,
                                                    },
                                                },
                                            )
                                        } else {
                                            Result::Err(DecodeError)
                                        }
                                    },
                                    _ => Result::Err(DecodeError),
                                }
                            },
                            _ => Result::Err(DecodeError),
                        }
                    } else if tag.eq(&String::from_str("base64")) {
                        match lookup(fields, &String::from_str("imageBase64")) {
                            Option::Some(WireValue::Object(inner)) => {
                                match lookup(inner, &String::from_str("base64")) {
                                    Option::Some(WireValue::Str(base64)) => Result::Ok(
                                        Image::Base64 {
                                            image_base64: ImageBase64 { base64: base64.clone() },
                                        },
                                    ),
                                    _ => Result::Err(DecodeError),
                                }
                            },
                            _ => Result::Err(DecodeError),
                        }
                    } else {
                        Result::Err(DecodeError)
                    }
                },
                _ => Result::Err(DecodeError),
            }
        },
        _ => Result::Err(DecodeError),
    }
}

/// Decodes one history entry from its wire form.
fn decode_entry(w: &WireValue) -> (r: Result<PromptEntry, DecodeError>)
    ensures
        r matches Result::Ok(e) ==> entry_of_wire(wire_view(*w)) == Option::Some(e@),
        r is Err <==> entry_of_wire(wire_view(*w)) is None,
{
    match w {
        WireValue::Object(fields) => {
            let role_field = lookup(fields, &String::from_str("role"));
            let body_field = lookup(fields, &String::from_str("body"));
            match (role_field, body_field) {
                (Option::Some(WireValue::Str(role)), Option::Some(WireValue::Str(body))) => {
                    Result::Ok(PromptEntry { role: role.clone(), body: body.clone() })
                },
                _ => Result::Err(DecodeError),
            }
        },
        _ => Result::Err(DecodeError),
    }
}

/// Decodes a history from its wire form.
pub fn decode_history(w: &WireValue) -> (r: Result<History, DecodeError>)
    ensures
        r matches Result::Ok(h) ==> history_of_wire(wire_view(*w)) == Option::Some(h@),
        r is Err <==> history_of_wire(wire_view(*w)) is None,
{
    match w {
        WireValue::Object(fields) => {
            match lookup(fields, &String::from_str("histories")) {
                Option::Some(WireValue::Array(items)) => {
                    let ghost ws = wire_views(items@);
                    proof {
                        lemma_wire_views(items@);
                    }
                    let mut entries: Vec<PromptEntry> = Vec::new();
                    proof {
                        assert(ws.skip(0) =~= ws);
                        if entries_of_wires(ws) is Some {
                            let rest = entries_of_wires(ws)->Some_0;
                            assert(entries@.map_values(|e: PromptEntry| e@) + rest =~= rest);
                        }
                    }
                    let n = items.len();
                    for i in 0..n
                        invariant
                            n == items.len(),
                            ws == wire_views(items@),
                            wire_view(*w) == WireValueView::Object(field_views(fields@)),
                            lookup_field(field_views(fields@), "histories"@) == Option::Some(
                                WireValueView::Array(ws),
                            ),
                            ws.len() == n,
                            forall|k: int|
                                0 <= k < n ==> #[trigger] ws[k] == wire_view(items@[k]),
                            entries@.len() == i,
                            match entries_of_wires(ws.skip(i as int)) {
                                Option::Some(rest) => entries_of_wires(ws) == Option::Some(
                                    entries@.map_values(|e: PromptEntry| e@) + rest,
                                ),
                                Option::None => entries_of_wires(ws) is None,
                            },
                    {
                        proof {
                            assert(ws.skip(i as int)[0] == ws[i as int]);
                            assert(ws.skip(i as int).drop_first() =~= ws.skip(i as int + 1));
                        }
                        match decode_entry(&items[i]) {
                            Result::Ok(e) => {
                                let ghost prev = entries@;
                                entries.push(e);
                                proof {
                                    assert(entries@.map_values(|x: PromptEntry| x@) =~= prev
                                        .map_values(|x: PromptEntry| x@) + seq![e@]);
                                    assert(forall|rest: Seq<PromptEntryView>|
                                        prev.map_values(|x: PromptEntry| x@) + (seq![e@] + rest)
                                            =~= (prev.map_values(|x: PromptEntry| x@) + seq![e@])
                                            + rest);
                                }
                            },
                            Result::Err(err) => {
                                proof {
                                    assert(ws[i as int] == wire_view(items@[i as int]));
                                    assert(entry_of_wire(ws[i as int]) is None);
                                    assert(ws.skip(i as int).len() == n - i);
                                    assert(entries_of_wires(ws.skip(i as int)) is None);
                                    assert(entries_of_wires(ws) is None);
                                    assert(history_of_wire(wire_view(*w)) is None);
                                }
                                return Result::Err(err);
                            },
                        }
                    }
                    proof {
                        assert(ws.skip(n as int) =~= Seq::<WireValueView>::empty());
                        assert(entries@.map_values(|e: PromptEntry| e@) + Seq::<
                            PromptEntryView,
                        >::empty() =~= entries@.map_values(|e: PromptEntry| e@));
                    }
                    Result::Ok(History { histories: entries })
                },
                _ => Result::Err(DecodeError),
            }
        },
        _ => Result::Err(DecodeError),
    }
}

/// Decodes a value from its wire form: the explicit tag selects the
/// variant; a missing or unrecognized tag, or a payload inconsistent with
/// it, is refused, never coerced.
pub fn decode_port_value(w: &WireValue) -> (r: Result<PortValue, DecodeError>)
    ensures
        r matches Result::Ok(v) ==> port_value_of_wire(wire_view(*w)) == Option::Some(v@),
        r is Err <==> port_value_of_wire(wire_view(*w)) is None,
{
    match w {
        WireValue::Object(fields) => {
            match lookup(fields, &String::from_str("portValueType")) {
                Option::Some(WireValue::Str(tag)) => {
                    if tag.eq(&String::from_str("bool")) {
                        match lookup(fields, &String::from_str("booleanValue")) {
                            Option::Some(WireValue::Bool(b)) => Result::Ok(
                                PortValue::Bool { boolean_value: *b },
                            ),
                            _ => Result::Err(DecodeError),
                        }
                    } else if tag.eq(&String::from_str("int")) {
                        match lookup(fields, &String::from_str("integerValue")) {
                            Option::Some(WireValue::Int(i)) => Result::Ok(
                                PortValue::Int { integer_value: *i },
                            ),
                            _ => Result::Err(DecodeError),
                        }
                    } else if tag.eq(&String::from_str("float")) {
                        match lookup(fields, &String::from_str("floatValue")) {
                            Option::Some(WireValue::Float(bits)) => Result::Ok(
                                PortValue::Float { float_bits: *bits },
                            ),
                            _ => Result::Err(DecodeError),
                        }
                    } else if tag.eq(&String::from_str("string")) {
                        match lookup(fields, &String::from_str("stringValue")) {
                            Option::Some(WireValue::Str(s)) => Result::Ok(
                                PortValue::String { string_value: s.clone() },
                            ),
                            _ => Result::Err(DecodeError),
                        }
                    } else if tag.eq(&String::from_str("image")) {
                        match lookup(fields, &String::from_str("imageValue")) {
                            Option::Some(payload) => {
                                match decode_image(payload) {
                                    Result::Ok(img) => Result::Ok(
                                        PortValue::Image { image_value: img },
                                    ),
                                    Result::Err(err) => Result::Err(err),
                                }
                            },
                            Option::None => Result::Err(DecodeError),
                        }
                    } else if tag.eq(&String::from_str("history")) {
                        match lookup(fields, &String::from_str("historyValue")) {
                            Option::Some(payload) => {
                                match decode_history(payload) {
                                    Result::Ok(h) => Result::Ok(
                                        PortValue::History { history_value: h },
                                    ),
                                    Result::Err(err) => Result::Err(err),
                                }
                            },
                            Option::None => Result::Err(DecodeError),
                        }
                    } else {
                        Result::Err(DecodeError)
                    }
                },
                _ => Result::Err(DecodeError),
            }
        },
        _ => Result::Err(DecodeError),
    }
}


/// Law: encoding a name-to-value map to wire form and decoding it back
/// yields the same entries, order and duplicate names kept.
pub proof fn lemma_map_round_trip(m: Seq<(Seq<char>, PortValueView)>)
    ensures
        map_of_wire(wire_of_map(m)) == Option::Some(m),
    decreases m.len(),
{
    let fields = m.map_values(|e: (Seq<char>, PortValueView)| (e.0, wire_of_port_value(e.1)));
    if m.len() == 0 {
        assert(fields.len() == 0);
        assert(Seq::<(Seq<char>, PortValueView)>::empty() =~= m);
    } else {
        lemma_map_round_trip(m.drop_first());
        assert(fields.drop_first() =~= m.drop_first().map_values(
            |e: (Seq<char>, PortValueView)| (e.0, wire_of_port_value(e.1)),
        ));
        lemma_wire_round_trip(m[0].1);
        assert(fields[0] == (m[0].0, wire_of_port_value(m[0].1)));
        assert(seq![(m[0].0, m[0].1)] + m.drop_first() =~= m);
    }
}

/// Encodes one port declaration to its wire form; `defaultValue` is
/// omitted when the port has no default.
pub fn encode_port(p: &Port) -> (r: WireValue)
    ensures
        wire_view(r) == wire_of_port(p@),
{
    let mut fields: Vec<(String, WireValue)> = Vec::new();
    fields.push((String::from_str("id"), WireValue::Str(p.id().clone())));
    fields.push((String::from_str("name"), WireValue::Str(p.name().clone())));
    fields.push(
        (String::from_str("portValueType"), WireValue::Str(type_tag_str(p.port_value_type()))),
    );
    let ghost base = seq![
        ("id"@, WireValueView::Str(p@.id)),
        ("name"@, WireValueView::Str(p@.name)),
        ("portValueType"@, WireValueView::Str(type_tag(p@.port_value_type))),
    ];
    match p.default_value() {
        Option::Some(dv) => {
            let dvw = encode_port_value(dv);
            fields.push((String::from_str("defaultValue"), dvw));
            proof {
                lemma_field_views(fields@);
                assert(field_views(fields@) =~= base + seq![
                    ("defaultValue"@, wire_of_port_value(p@.default_value->Some_0)),
                ]);
            }
        },
        Option::None => {
            proof {
                lemma_field_views(fields@);
                assert(field_views(fields@) =~= base + Seq::<(Seq<char>, WireValueView)>::empty());
            }
        },
    }
    WireValue::Object(fields)
}

/// Encodes a sequence of port declarations, keeping their order.
pub fn encode_ports(ports: &Vec<Port>) -> (r: Vec<WireValue>)
    ensures
        wire_views(r@) == wire_of_ports(ports_view(ports@)),
{
    let ghost target = wire_of_ports(ports_view(ports@));
    let mut out: Vec<WireValue> = Vec::new();
    let n = ports.len();
    for i in 0..n
        invariant
            n == ports.len(),
            target == wire_of_ports(ports_view(ports@)),
            target.len() == n,
            out@.len() == i,
            forall|k: int| 0 <= k < i ==> wire_view(#[trigger] out@[k]) == target[k],
    {
        let pw = encode_port(&ports[i]);
        proof {
            assert(ports_view(ports@)[i as int] == ports@[i as int]@);
            assert(target[i as int] == wire_of_port(ports@[i as int]@));
        }
        out.push(pw);
    }
    proof {
        lemma_wire_views(out@);
        assert(wire_views(out@) =~= target);
    }
    out
}

/// The schema-introspection response: a pure read of the immutable schema,
/// a function of the schema alone, so repeated calls answer alike.
pub fn get_ports(app: &CodeBlockApp) -> (r: WireValue)
    ensures
        wire_view(r) == wire_of_schema(app@),
{
    let inputs = encode_ports(app.inputs());
    let outputs = encode_ports(app.outputs());
    obj2("inputs", WireValue::Array(inputs), "outputs", WireValue::Array(outputs))
}

/// Encodes a name-to-value map to its wire form, one field per entry.
pub fn encode_value_map(m: &Vec<(String, PortValue)>) -> (r: WireValue)
    ensures
        wire_view(r) == wire_of_map(entries_view(m@)),
{
    let ghost target = entries_view(m@).map_values(
        |e: (Seq<char>, PortValueView)| (e.0, wire_of_port_value(e.1)),
    );
    let mut fields: Vec<(String, WireValue)> = Vec::new();
    let n = m.len();
    for i in 0..n
        invariant
            n == m.len(),
            target == entries_view(m@).map_values(
                |e: (Seq<char>, PortValueView)| (e.0, wire_of_port_value(e.1)),
            ),
            target.len() == n,
            fields@.len() == i,
            forall|k: int|
                0 <= k < i ==> ((#[trigger] fields@[k]).0@, wire_view(fields@[k].1)) == target[k],
    {
        let vw = encode_port_value(&m[i].1);
        proof {
            assert(entries_view(m@)[i as int] == (m@[i as int].0@, m@[i as int].1@));
        }
        fields.push((m[i].0.clone(), vw));
    }
    proof {
        lemma_field_views(fields@);
        assert(field_views(fields@) =~= target);
    }
    WireValue::Object(fields)
}

/// Decodes a name-to-value map from its wire form: the body must be an
/// object and every field's value must decode; field order and duplicate
/// names are kept as they came.
pub fn decode_value_map(w: &WireValue) -> (r: Result<Vec<(String, PortValue)>, DecodeError>)
    ensures
        r matches Result::Ok(m) ==> map_of_wire(wire_view(*w)) == Option::Some(entries_view(m@)),
        r is Err <==> map_of_wire(wire_view(*w)) is None,
{
    match w {
        WireValue::Object(fields) => {
            let ghost fv = field_views(fields@);
            let mut out: Vec<(String, PortValue)> = Vec::new();
            proof {
                lemma_field_views(fields@);
                assert(fv.skip(0) =~= fv);
                assert(entries_view(out@) =~= Seq::<(Seq<char>, PortValueView)>::empty());
                if map_entries_of_wire(fv) is Some {
                    let rest = map_entries_of_wire(fv)->Some_0;
                    assert(entries_view(out@) + rest =~= rest);
                }
            }
            let n = fields.len();
            for i in 0..n
                invariant
                    n == fields.len(),
                    fv == field_views(fields@),
                    fv.len() == n,
                    forall|k: int|
                        0 <= k < n ==> #[trigger] fv[k] == (fields@[k].0@, wire_view(
                            fields@[k].1,
                        )),
                    out@.len() == i,
                    wire_view(*w) == WireValueView::Object(fv),
                    match map_entries_of_wire(fv.skip(i as int)) {
                        Option::Some(rest) => map_entries_of_wire(fv) == Option::Some(
                            entries_view(out@) + rest,
                        ),
                        Option::None => map_entries_of_wire(fv) is None,
                    },
            {
                proof {
                    assert(fv.skip(i as int)[0] == fv[i as int]);
                    assert(fv.skip(i as int).drop_first() =~= fv.skip(i as int + 1));
                }
                match decode_port_value(&fields[i].1) {
                    Result::Ok(v) => {
                        let ghost prev = out@;
                        let ghost gv = v@;
                        let name = fields[i].0.clone();
                        out.push((name, v));
                        proof {
                            assert(entries_view(out@) =~= entries_view(prev) + seq![
                                (fields@[i as int].0@, gv),
                            ]);
                            assert(forall|rest: Seq<(Seq<char>, PortValueView)>|
                                entries_view(prev) + (seq![(fields@[i as int].0@, gv)] + rest)
                                    =~= (entries_view(prev) + seq![(fields@[i as int].0@, gv)])
                                    + rest);
                        }
                    },
                    Result::Err(err) => {
                        proof {
                            assert(map_entries_of_wire(fv.skip(i as int)) is None);
                        }
                        return Result::Err(err);
                    },
                }
            }
            proof {
                assert(fv.skip(n as int) =~= Seq::<(Seq<char>, WireValueView)>::empty());
                assert(entries_view(out@) + Seq::<(Seq<char>, PortValueView)>::empty()
                    =~= entries_view(out@));
            }
            Result::Ok(out)
        },
        _ => Result::Err(DecodeError),
    }
}

} // verus!
