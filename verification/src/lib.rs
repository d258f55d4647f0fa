//! Client-side core of a cryptocurrency market-data HTTP API: it builds the
//! query URLs for the fixed set of endpoints and validates and extracts the
//! JSON responses. The network transport and the text-to-JSON deserializer
//! are collaborators that live outside this crate.

pub mod json;
pub mod parse;
pub mod request;

pub use json::JsonNumber;
pub use json::JsonValue;
pub use parse::parse_json_to_float;
pub use parse::parse_json_to_vector;
pub use parse::Dataset;
pub use parse::Error;
pub use request::Endpoint;
pub use request::Options;
pub use request::RequestBuilder;
pub use request::BASE_URL;
