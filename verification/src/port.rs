//! A port: a named, typed declaration of one value the code block consumes
//! or produces, with an optional advertised default.
//!
//! Identity of a port is its `name` alone: two ports with the same name are
//! the same port regardless of their other fields.

use vstd::prelude::*;

use crate::value::{PortValue, PortValueType, PortValueView};

verus! {

/// A named, typed declaration with an optional default value.
#[derive(Debug, Clone)]
pub struct Port {
    id: String,
    pub(crate) name: String,
    port_value_type: PortValueType,
    default_value: Option<PortValue>,
}

/// Mathematical model of a `Port`.
pub struct PortView {
    pub id: Seq<char>,
    pub name: Seq<char>,
    pub port_value_type: PortValueType,
    pub default_value: Option<PortValueView>,
}

impl View for Port {
    type V = PortView;

    closed spec fn view(&self) -> PortView {
        PortView {
            id: self.id@,
            name: self.name@,
            port_value_type: self.port_value_type,
            default_value: match self.default_value {
                Option::Some(v) => Option::Some(v@),
                Option::None => Option::None,
            },
        }
    }
}

impl Port {
    /// A new port with the given name and value type, no default, and an
    /// empty id (the id is assigned by an external authoring tool and is
    /// opaque here).
    pub fn new(name: String, value_type: PortValueType) -> (r: Port)
        ensures
            r@ == (PortView {
                id: Seq::<char>::empty(),
                name: name@,
                port_value_type: value_type,
                default_value: Option::None,
            }),
    {
        Port { id: String::new(), name, port_value_type: value_type, default_value: Option::None }
    }

    /// The same port with its advertised default value set.
    ///
    /// The default is advertised by schema introspection only; it is never
    /// checked against `port_value_type` nor applied by the request pipeline.
    pub fn with_default_value(self, default_value: PortValue) -> (r: Port)
        ensures
            r@ == (PortView { default_value: Option::Some(default_value@), ..self@ }),
    {
        Port {
            default_value: Option::Some(default_value),
            id: self.id,
            name: self.name,
            port_value_type: self.port_value_type,
        }
    }

    /// The port's opaque id, assigned by an external authoring tool.
    pub fn id(&self) -> (r: &String)
        ensures
            r@ == self@.id,
    {
        &self.id
    }

    /// The port's advertised default value, if any.
    pub fn default_value(&self) -> (r: &Option<PortValue>)
        ensures
            r matches Option::Some(v) ==> self@.default_value == Option::Some(v@),
            r is None <==> self@.default_value is None,
    {
        &self.default_value
    }

    /// The port's name, its identity within a schema.
    pub fn name(&self) -> (r: &String)
        ensures
            r@ == self@.name,
    {
        &self.name
    }

    /// The port's declared value type.
    pub fn port_value_type(&self) -> (r: PortValueType)
        ensures
            r == self@.port_value_type,
    {
        self.port_value_type
    }
}

impl PartialEq for Port {
    /// Ports compare by name alone.
    fn eq(&self, other: &Port) -> (r: bool) {
        self.name.eq(&other.name)
    }
}

impl vstd::std_specs::cmp::PartialEqSpecImpl for Port {
    open spec fn obeys_eq_spec() -> bool {
        true
    }

    open spec fn eq_spec(&self, other: &Port) -> bool {
        self@.name == other@.name
    }
}

impl Eq for Port {}

} // verus!
