//! A client library for browsing a discussion-board service from a terminal.
//!
//! The crate holds the parts of the client that decide and compute: the
//! rendering of comments, the layout of text, the filterable list that backs
//! every selection view, and the stack of views that a session walks through.
//! Fetching, decoding and drawing are left to the program around it.

pub mod boards;
pub mod cli;
pub mod error;
pub mod filter;
pub mod layout;
pub mod markup;
pub mod nav;
pub mod paint;
pub mod posts;
pub mod service;
pub mod sort;
pub mod text;
pub mod threads;
