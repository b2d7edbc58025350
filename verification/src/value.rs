//! The typed value model: a closed set of value kinds, each value a tagged
//! union carrying exactly one payload.
//!
//! A `Float` payload is a 32-bit IEEE float carried by its bit pattern, so
//! that the verified core never computes with floating point; the transport
//! layer converts between the bits and a float number at the boundary.

use vstd::prelude::*;

verus! {

/// The tag of a value kind. Closed set; every consumer matches exhaustively.
#[derive(Debug, Clone, Copy, PartialEq, Eq, Structural)]
pub enum PortValueType {
    Bool,
    Int,
    Float,
    String,
    Image,
    History,
}

/// An image referred to by URL, together with an expiry timestamp or TTL.
#[derive(Debug, Clone)]
pub struct ImageUrl {
    pub url: String,
    pub expired: u32,
}

/// An image carried inline as base64 text.
#[derive(Debug, Clone)]
pub struct ImageBase64 {
    pub base64: String,
}

/// An image payload: exactly one of the two carriers is present.
#[derive(Debug, Clone)]
pub enum Image {
    Url { image_url: ImageUrl },
    Base64 { image_base64: ImageBase64 },
}

/// One entry of a conversation history.
#[derive(Debug, Clone)]
pub struct PromptEntry {
    pub role: String,
    pub body: String,
}

/// An ordered conversation history; the order of entries is meaningful.
#[derive(Debug, Clone)]
pub struct History {
    pub histories: Vec<PromptEntry>,
}

/// A typed value instance: one variant per `PortValueType`, each carrying
/// exactly one payload.
#[derive(Debug, Clone)]
pub enum PortValue {
    Bool { boolean_value: bool },
    Int { integer_value: i64 },
    Float { float_bits: u32 },
    String { string_value: String },
    Image { image_value: Image },
    History { history_value: History },
}

/// Mathematical model of an `ImageUrl`.
pub struct ImageUrlView {
    pub url: Seq<char>,
    pub expired: u32,
}

/// Mathematical model of an `ImageBase64`.
pub struct ImageBase64View {
    pub base64: Seq<char>,
}

/// Mathematical model of an `Image`.
pub enum ImageView {
    Url { image_url: ImageUrlView },
    Base64 { image_base64: ImageBase64View },
}

/// Mathematical model of a `PromptEntry`.
pub struct PromptEntryView {
    pub role: Seq<char>,
    pub body: Seq<char>,
}

/// Mathematical model of a `History`.
pub struct HistoryView {
    pub histories: Seq<PromptEntryView>,
}

/// Mathematical model of a `PortValue`.
pub enum PortValueView {
    Bool { boolean_value: bool },
    Int { integer_value: i64 },
    Float { float_bits: u32 },
    String { string_value: Seq<char> },
    Image { image_value: ImageView },
    History { history_value: HistoryView },
}

impl View for ImageUrl {
    type V = ImageUrlView;

    open spec fn view(&self) -> ImageUrlView {
        ImageUrlView { url: self.url@, expired: self.expired }
    }
}

impl View for ImageBase64 {
    type V = ImageBase64View;

    open spec fn view(&self) -> ImageBase64View {
        ImageBase64View { base64: self.base64@ }
    }
}

impl View for Image {
    type V = ImageView;

    open spec fn view(&self) -> ImageView {
        match self {
            Image::Url { image_url } => ImageView::Url { image_url: image_url@ },
            Image::Base64 { image_base64 } => ImageView::Base64 { image_base64: image_base64@ },
        }
    }
}

impl View for PromptEntry {
    type V = PromptEntryView;

    open spec fn view(&self) -> PromptEntryView {
        PromptEntryView { role: self.role@, body: self.body@ }
    }
}

impl View for History {
    type V = HistoryView;

    open spec fn view(&self) -> HistoryView {
        HistoryView { histories: self.histories@.map_values(|e: PromptEntry| e@) }
    }
}

impl View for PortValue {
    type V = PortValueView;

    open spec fn view(&self) -> PortValueView {
        match self {
            PortValue::Bool { boolean_value } => PortValueView::Bool {
                boolean_value: *boolean_value,
            },
            PortValue::Int { integer_value } => PortValueView::Int {
                integer_value: *integer_value,
            },
            PortValue::Float { float_bits } => PortValueView::Float { float_bits: *float_bits },
            PortValue::String { string_value } => PortValueView::String {
                string_value: string_value@,
            },
            PortValue::Image { image_value } => PortValueView::Image { image_value: image_value@ },
            PortValue::History { history_value } => PortValueView::History {
                history_value: history_value@,
            },
        }
    }
}

impl PortValueView {
    /// The tag of this value's variant.
    pub open spec fn value_type(self) -> PortValueType {
        match self {
            PortValueView::Bool { .. } => PortValueType::Bool,
            PortValueView::Int { .. } => PortValueType::Int,
            PortValueView::Float { .. } => PortValueType::Float,
            PortValueView::String { .. } => PortValueType::String,
            PortValueView::Image { .. } => PortValueType::Image,
            PortValueView::History { .. } => PortValueType::History,
        }
    }
}

impl Image {
    /// An image referred to by URL.
    pub fn new_url(url: &str, expired: u32) -> (r: Image)
        ensures
            r@ == (ImageView::Url { image_url: ImageUrlView { url: url@, expired } }),
    {
        Image::Url { image_url: ImageUrl { url: url.to_owned(), expired } }
    }

    /// An image carried inline as base64 text.
    pub fn new_base64(base64: &str) -> (r: Image)
        ensures
            r@ == (ImageView::Base64 { image_base64: ImageBase64View { base64: base64@ } }),
    {
        Image::Base64 { image_base64: ImageBase64 { base64: base64.to_owned() } }
    }
}

impl PortValue {
    pub fn new_bool(boolean_value: bool) -> (r: PortValue)
        ensures
            r@ == (PortValueView::Bool { boolean_value }),
    {
        PortValue::Bool { boolean_value }
    }

    pub fn new_integer(integer_value: i64) -> (r: PortValue)
        ensures
            r@ == (PortValueView::Int { integer_value }),
    {
        PortValue::Int { integer_value }
    }

    /// A 32-bit float value, given by its IEEE bit pattern.
    pub fn new_float(float_bits: u32) -> (r: PortValue)
        ensures
            r@ == (PortValueView::Float { float_bits }),
    {
        PortValue::Float { float_bits }
    }

    pub fn new_string(string_value: &str) -> (r: PortValue)
        ensures
            r@ == (PortValueView::String { string_value: string_value@ }),
    {
        PortValue::String { string_value: string_value.to_owned() }
    }

    pub fn new_image(image_value: Image) -> (r: PortValue)
        ensures
            r@ == (PortValueView::Image { image_value: image_value@ }),
    {
        PortValue::Image { image_value }
    }

    pub fn new_history(history_value: History) -> (r: PortValue)
        ensures
            r@ == (PortValueView::History { history_value: history_value@ }),
    {
        PortValue::History { history_value }
    }

    /// The tag of this value's variant.
    pub fn port_value_type(&self) -> (t: PortValueType)
        ensures
            t == self@.value_type(),
    {
        match self {
            PortValue::Bool { .. } => PortValueType::Bool,
            PortValue::Int { .. } => PortValueType::Int,
            PortValue::Float { .. } => PortValueType::Float,
            PortValue::String { .. } => PortValueType::String,
            PortValue::Image { .. } => PortValueType::Image,
            PortValue::History { .. } => PortValueType::History,
        }
    }
}

} // verus!
