//! The fixed vocabulary of the output graph.
//!
//! All project-specific relation and class IRIs live under one model
//! namespace; the `type` and `subClassOf` relations are the standard RDF
//! and RDFS ones.

use vstd::prelude::*;

verus! {

/// Model namespace under which the vocabulary and element paths live.
pub open spec fn model_ns() -> Seq<char> {
    "https://decisym.ai/xml2rdf/model#"@
}

/// Class IRI for element nodes.
pub open spec fn xml_node_iri() -> Seq<char> {
    "https://decisym.ai/xml2rdf/model#XmlNode"@
}

/// Class IRI for attribute nodes.
pub open spec fn xml_attribute_iri() -> Seq<char> {
    "https://decisym.ai/xml2rdf/model#XmlAttribute"@
}

/// Relation from an element to a directly nested element.
pub open spec fn has_child_iri() -> Seq<char> {
    "https://decisym.ai/xml2rdf/model#hasChild"@
}

/// Relation from an element to one of its attribute nodes.
pub open spec fn has_attribute_iri() -> Seq<char> {
    "https://decisym.ai/xml2rdf/model#hasAttribute"@
}

/// Relation carrying an element's local tag name.
pub open spec fn has_name_iri() -> Seq<char> {
    "https://decisym.ai/xml2rdf/model#hasName"@
}

/// Relation carrying an element's text content or an attribute's value.
pub open spec fn has_value_iri() -> Seq<char> {
    "https://decisym.ai/xml2rdf/model#hasValue"@
}

/// The standard RDF `type` relation.
pub open spec fn rdf_type_iri() -> Seq<char> {
    "http://www.w3.org/1999/02/22-rdf-syntax-ns#type"@
}

/// The standard RDFS `subClassOf` relation.
pub open spec fn rdfs_sub_class_of_iri() -> Seq<char> {
    "http://www.w3.org/2000/01/rdf-schema#subClassOf"@
}

pub fn model_ns_str() -> (r: &'static str)
    ensures
        r@ == model_ns(),
{
    "https://decisym.ai/xml2rdf/model#"
}

pub fn xml_node_str() -> (r: &'static str)
    ensures
        r@ == xml_node_iri(),
{
    "https://decisym.ai/xml2rdf/model#XmlNode"
}

pub fn xml_attribute_str() -> (r: &'static str)
    ensures
        r@ == xml_attribute_iri(),
{
    "https://decisym.ai/xml2rdf/model#XmlAttribute"
}

pub fn has_child_str() -> (r: &'static str)
    ensures
        r@ == has_child_iri(),
{
    "https://decisym.ai/xml2rdf/model#hasChild"
}

pub fn has_attribute_str() -> (r: &'static str)
    ensures
        r@ == has_attribute_iri(),
{
    "https://decisym.ai/xml2rdf/model#hasAttribute"
}

pub fn has_name_str() -> (r: &'static str)
    ensures
        r@ == has_name_iri(),
{
    "https://decisym.ai/xml2rdf/model#hasName"
}

pub fn has_value_str() -> (r: &'static str)
    ensures
        r@ == has_value_iri(),
{
    "https://decisym.ai/xml2rdf/model#hasValue"
}

pub fn rdf_type_str() -> (r: &'static str)
    ensures
        r@ == rdf_type_iri(),
{
    "http://www.w3.org/1999/02/22-rdf-syntax-ns#type"
}

pub fn rdfs_sub_class_of_str() -> (r: &'static str)
    ensures
        r@ == rdfs_sub_class_of_iri(),
{
    "http://www.w3.org/2000/01/rdf-schema#subClassOf"
}

} // verus!
