//! A configurable uploader core: a template sub-language for configuration
//! strings.  A template mixes literal text with function calls written
//! `{name:arg|arg}`; each call is resolved through a caller-supplied
//! [`resolver::Resolver`] and its result is spliced into the output.
//!
//! The template engine lives in [`syntax`]; the declarative upload
//! configuration and the resolver used for upload fields live in [`config`]
//! and [`uploader`].

pub mod config;
pub mod resolver;
pub mod strutil;
pub mod syntax;
pub mod uploader;
