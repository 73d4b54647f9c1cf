//! A library for declarative HTTP request documents with `{{key}}`
//! placeholders: it parses a TOML description into a typed model, builds a
//! canonical request, scans it for placeholders, resolves their values
//! through prioritized sources, and renders the substitutions back into the
//! request fields.
#![verifier::loop_isolation(false)]

pub mod body;
pub mod error;
pub mod input_param;
pub mod method;
pub mod placeholders;
pub mod renderer;
pub mod request;
pub mod resolver;
pub mod schema;
pub mod table;
pub mod terminal;
pub mod text;
pub mod toml_data;
pub mod types;
pub mod value_picker;
pub mod version;
