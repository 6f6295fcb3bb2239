//! A language server for PHPMD, the PHP mess detector.
//!
//! The editor tells the server which documents are open and asks for diagnostics; the server
//! has PHPMD analyze the text of a document and turns its report into diagnostics. This
//! library holds what the server decides and computes: what it remembers ([`server`], modelled
//! in [`state`]), how a document is held ([`document`]), how PHPMD is called ([`workspace`]),
//! and how its report is read ([`output`], [`json`]) and shown ([`diagnostic`], [`range`]).
//! Running processes, reading files and talking to the editor is left to the program around
//! it.
pub mod diagnostic;
pub mod document;
pub mod json;
pub mod marker;
pub mod output;
pub mod property;
pub mod range;
pub mod server;
pub mod state;
pub mod text;
pub mod uri_map;
pub mod workspace;
