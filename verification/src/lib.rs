//! A typed input/output interface ("ports") for a single computation unit,
//! with a wire encoding for values, a schema builder that enforces name
//! uniqueness, and a request pipeline that validates value maps against the
//! schema around an externally supplied computation.

pub mod error;
pub mod port;
pub mod schema;
pub mod value;
pub mod wire;

pub use error::Error;
pub use port::Port;
pub use schema::{CodeBlockApp, CodeBlockAppBuilder};
pub use value::{PortValue, PortValueType};
