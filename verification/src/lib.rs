//! A morphological corpus engine for a scripture corpus annotated with
//! word-level grammatical and syntactic tags.
//!
//! The engine ingests several incompatible raw tagging formats into one
//! canonical segment model ([`normalize`]), persists the model relationally
//! and hydrates it by id ([`storage`], [`queries`]), indexes every segment
//! attribute for structured and free-text search ([`index`]), reconstructs a
//! word-aligned grammatical analysis as a flat token list ([`consolidate`])
//! and as a nested tree ([`tree`]), and compiles letter/diacritic templates
//! into an Arabic-script matcher run over stored verse texts ([`pattern`]).
//!
//! [`model`] holds the canonical shapes and the error taxonomy, [`table`]
//! the keyed conflict-upsert tables every stored entity reduces to, and
//! [`text`] and [`num`] the character and numeral groundwork the rest is
//! specified with.

pub mod command;
pub mod config;
pub mod consolidate;
pub mod index;
pub mod model;
pub mod normalize;
pub mod num;
pub mod pattern;
pub mod queries;
pub mod storage;
pub mod table;
pub mod text;
pub mod tree;
