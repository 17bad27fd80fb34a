//! A data-access layer for book records keyed by ISBN.
//!
//! Records live in a key-value store that maps an ISBN to one opaque string
//! payload. The crate states what each operation does over a mathematical
//! model of the store (a map from key to payload) and proves its code against
//! that model:
//!
//! - [`access`] holds the [`access::DataAccess`] contract and an in-memory
//!   backend that implements it, with fault injection for exercising the
//!   failure paths.
//! - [`json`] holds the `list` aggregation: parsing stored payloads as JSON,
//!   silently dropping malformed ones, and rendering the survivors as a JSON
//!   array string.
//! - [`outcome`] translates raw store outcomes into the layer's opaque
//!   success-or-failure results.
//! - [`handler`] holds the request-boundary decisions: requiring the ISBN
//!   path parameter and mapping operation results to status codes and bodies.
//! - [`model`] states the laws that relate the operations to one another.

pub mod access;
pub mod handler;
pub mod json;
pub mod model;
pub mod outcome;
