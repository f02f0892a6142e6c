//! An embedded, schema-checked document store: JSON-like documents grouped in
//! named collections, a catalog of collections, schema validation, and the
//! encryption layer used to keep the catalog at rest.

pub mod cli;
pub mod collection;
pub mod collection_service;
pub mod database;
pub mod document;
pub mod document_service;
pub mod error;
pub mod file;
pub mod json;
pub mod schema;
pub mod utils;
