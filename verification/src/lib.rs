//! Reconciliation of two directory-like stores: an ordinary local directory
//! and a provider-mediated document tree.
//!
//! The library holds the decisions and leaves every storage operation to its
//! caller. An operation that needs storage is a small state machine: it
//! hands out the next request to perform and takes the reply back, until it
//! is done. What a machine does on every reply is stated over the
//! mathematical values of its states, and what follows for whole runs is
//! proved against a model of the storage.
//!
//! - [`names`], [`uri`], [`options`], [`mime`], [`layout`]: file names,
//!   paths, locators, open modes, media types and the fixed directory names.
//! - [`dir`], [`entry`], [`provider`], [`open`]: directories of the document
//!   tree, their entries, and what is asked of the provider.
//! - [`create`]: creation of nested directories and of files.
//! - [`plan`], [`merge`]: the merge of two directories.
//! - [`import`]: the import of a file in two phases.
//! - [`model`], [`create_laws`], [`merge_model`], [`merge_laws`],
//!   [`import_laws`]: the models of the storage and what is proved of
//!   creations, merges and imports run on them.

pub mod error;
pub mod names;
pub mod options;
pub mod uri;
pub mod mime;
pub mod layout;
pub mod dir;
pub mod entry;
pub mod provider;
pub mod open;
pub mod create;
pub mod plan;
pub mod merge;
pub mod import;
pub mod model;
pub mod create_laws;
pub mod merge_model;
pub mod merge_laws;
pub mod import_laws;
