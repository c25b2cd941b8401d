//! Shell completion for `curl`, generated from an OpenAPI document.
//!
//! The crate turns a decoded API description and a base URL into the text of
//! a zsh completion function. That function suggests the endpoint URLs of the
//! API, the query parameters of the endpoint being typed, and example request
//! bodies for it.
//!
//! Every step is stated over character sequences and proved:
//!
//! - [`document`] holds the description, and [`named_map`] the ordered
//!   mappings in it;
//! - [`resolve`] resolves the references of a document against its
//!   components;
//! - [`parameters`] indexes the parameters of an operation by name;
//! - [`pattern`] compiles path templates into display forms and match
//!   patterns;
//! - [`example`] finds and escapes request-body examples, whose JSON text
//!   [`json`] writes;
//! - [`script`] composes the completion script, joining paths onto the base
//!   URL through [`weburl`];
//! - [`source`] picks the decoder for the text of a document;
//! - [`text`] has the model of text and the helpers that build it.

pub mod document;
pub mod example;
pub mod json;
pub mod named_map;
pub mod parameters;
pub mod pattern;
pub mod resolve;
pub mod script;
pub mod source;
pub mod text;
pub mod weburl;
