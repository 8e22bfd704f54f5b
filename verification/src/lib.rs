//! Route resolution and module dependency bundling for a file-system-routed
//! application: route patterns derived from the app tree, parameter binding,
//! layout chains, import classification, a deduplicating dependency graph,
//! and the text of the composed entry modules and output documents.

pub mod bundler;
pub mod classify;
pub mod cli;
pub mod compiler;
pub mod compose;
pub mod error;
pub mod hydration;
pub mod importline;
pub mod json;
pub mod layout;
pub mod output;
pub mod renderer;
pub mod resolver;
pub mod route;
pub mod strutil;
pub mod tree;
