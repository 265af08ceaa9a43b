//! Converts XML document structure into RDF triples.
//!
//! Each XML element, attribute and text value becomes a node in an RDF
//! graph, linked by a small fixed vocabulary of relations. Elements are
//! identified by freshly minted IRIs and described by a dotted structural
//! path computed from the chain of ancestor element names.

pub mod convert;
pub mod model;
pub mod vocab;
pub mod writer;
