//! Compiles directories of scripts and shell fragments into shell-sourceable
//! function tables, aliases, key bindings and a selector menu.
//!
//! The pipeline: `scan` classifies directories; `directive`, `group` and
//! `fragment` read functions from file names and comment directives;
//! `merge` applies settings overrides, include flattening and group
//! references, and `pipeline` chains these stages; `flags` and `model` hold
//! the validation rules; `template` and `output` produce the generated text;
//! `symlinks` decides the links of the managed directory and how a failed
//! run is rolled back. `text` and `order` are the string primitives and the
//! sort they rest on, `pattern` the regular expressions, `config` the
//! configuration.
pub mod config;
pub mod directive;
pub mod flags;
pub mod fragment;
pub mod group;
pub mod merge;
pub mod model;
pub mod order;
pub mod output;
pub mod pattern;
pub mod pipeline;
pub mod scan;
pub mod symlinks;
pub mod template;
pub mod text;
