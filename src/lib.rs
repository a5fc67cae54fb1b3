//! A black-box fuzzer core for HTTP APIs: schema-driven value sampling,
//! request building, trial bookkeeping and run statistics.
pub mod rng;
pub mod schema;
pub mod value;
pub mod sampler;
pub mod engine;
pub mod cli;
pub mod text;
pub mod request;
pub mod operation;
pub mod stats;
pub mod laws;

pub use rng::Rng;
pub use schema::{Format, Property, SchemaGraph, SchemaKind, SchemaNode};
pub use value::{Field, Value};
pub use sampler::Sampler;
pub use cli::{Header, UrlWithTrailingSlash};
pub use request::{build_request, FuzzResult, Method, Param, Payload, Request};
pub use operation::{Location, Operation, Parameter};
pub use stats::RunStats;
pub use engine::{Action, Engine, ExitSignal, Outcome};
