//! Language support for XQuery backed by an eXist-db server: diagnostics from
//! the server's compiler, hover text and go-to-definition for function calls,
//! and the installation of the server-side support package.
//!
//! Every decision is made here, on plain values; sending HTTP requests,
//! speaking LSP and touching the filesystem is left to the caller.
use vstd::prelude::*;

pub mod cursor;
pub mod diagnostics;
pub mod documents;
pub mod extension;
pub mod handlers;
pub mod hover;
pub mod http;
pub mod imports;
pub mod json;
pub mod paths;
pub mod settings;
pub mod startup;
pub mod text;
