//! A compiler front end for a small textual language describing chemical
//! reaction networks (CRNs).
//!
//! The crate turns source text into an in-memory network model: a registry of
//! interned species names and an ordered list of reactions, each reaction
//! joining two complexes (multisets of species with positive stoichiometric
//! coefficients) by a directed or reversible yield operator.
//!
//! The pipeline is: [`scanner::Scanner`] tokenizes the text, the
//! [`parser::Parser`] pulls tokens on demand and builds a
//! [`network::Network`], or reports the first error it meets.

pub mod complex;
pub mod grammar;
pub mod network;
pub mod parser;
pub mod reaction;
pub mod registry;
pub mod scanner;
