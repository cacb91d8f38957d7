//! Index for source files written in an interface-description schema
//! language: every identifier occurrence in a parsed file is classified as a
//! definition site or a reference site, mapped from its byte span to a
//! line/column range, and stored in lookup tables that answer "identifier at
//! this cursor position", "definition of this name" and "references of this
//! name".

pub mod ast;
pub mod index;
pub mod laws;
pub mod position;
pub mod visit;
