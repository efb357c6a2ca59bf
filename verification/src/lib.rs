//! Reconstructs the history of one library's version inside a dependency
//! lock file: which commits changed the file, which version each of them
//! pinned, and the resulting timeline of version changes.
//!
//! The work runs in three steps. [`history`] filters a walk through the
//! commits down to those that changed the lock file, [`sampler`] reads the
//! version out of the file as one such commit has it, and [`timeline`]
//! collapses the samples into one entry for every change of version.
//! [`package_manager`] names the formats, which [`composer`], [`cargo`] and
//! [`npm`] read from documents parsed by [`json_text`] and [`toml_text`].

pub mod cargo;
pub mod composer;
pub mod document;
pub mod error;
pub mod history;
pub mod json_text;
pub mod npm;
pub mod package_manager;
pub mod records;
pub mod sampler;
pub mod text;
pub mod timeline;
pub mod toml_text;
