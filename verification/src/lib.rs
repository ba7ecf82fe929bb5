//! Context selection for edit prediction: given a cursor in a source buffer, pick a
//! bounded excerpt around it, find the identifiers it references, look their
//! declarations up in a project-wide index, score every candidate and pack the best
//! ones into a prompt of bounded size.
//!
//! All positions are byte offsets into a buffer's text, and the text of buffers and
//! declarations is handled as bytes. Every function carries a contract over the
//! mathematical models defined next to it, and the contract is proved. The exceptions
//! are a handful of private functions that call into other crates; their contracts are
//! taken on trust, and each says so.
//!
//! The engine is made of [`text_similarity`], [`excerpt`], [`reference`],
//! [`syntax_index`], [`declaration_scoring`] and [`planner`], on the models of
//! [`text`], [`range`], [`buffer`], [`outline`] and [`declaration`]. Beside it stand
//! a few pieces of editor support that work on names and paths: [`mention`],
//! [`paths`], [`terminals`] and [`svg_preview`].

pub mod buffer;
pub mod declaration;
pub mod declaration_scoring;
pub mod excerpt;
pub mod mention;
pub mod outline;
pub mod paths;
pub mod planner;
pub mod range;
pub mod ranking;
pub mod reference;
pub mod strings;
pub mod svg_preview;
pub mod syntax_index;
pub mod terminals;
pub mod text;
pub mod text_similarity;
