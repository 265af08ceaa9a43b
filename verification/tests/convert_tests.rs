use xml2rdf::convert::{parse_xml, process_document, Walker};
use xml2rdf::model::{Attr, Event, Term, Triple};
use xml2rdf::writer::{FileWriter, GraphWriter, RdfWriter};

const MODEL: &str = "https://decisym.ai/xml2rdf/model#";
const NS: &str = "https://decisym.ai/xml2rdf/data";

fn start(name: &str, attrs: Vec<Attr>) -> Event {
    Event::Start { name: name.to_string(), attrs }
}

fn attr(name: &str, value: &str) -> Attr {
    Attr { name: name.to_string(), value: value.to_string() }
}

fn lit(t: &Triple) -> Option<&str> {
    match &t.object {
        Term::Lit { value } => Some(value.as_str()),
        Term::Iri { .. } => None,
    }
}

fn iri(t: &Triple) -> Option<&str> {
    match &t.object {
        Term::Iri { iri } => Some(iri.as_str()),
        Term::Lit { .. } => None,
    }
}

#[test]
fn single_root_emits_three_triples() {
    let events = vec![start("person", vec![]), Event::End];
    let mut out: Vec<Triple> = Vec::new();
    process_document(&events, NS, &mut out);
    assert_eq!(out.len(), 3);

    // type triple: the object is the root path, a literal.
    assert_eq!(out[0].predicate, "http://www.w3.org/1999/02/22-rdf-syntax-ns#type");
    assert_eq!(lit(&out[0]), Some(format!("{MODEL}person").as_str()));
    // hasName triple: the local tag name.
    assert_eq!(out[1].predicate, format!("{MODEL}hasName"));
    assert_eq!(lit(&out[1]), Some("person"));
    // subClassOf triple: the fixed element class.
    assert_eq!(out[2].predicate, "http://www.w3.org/2000/01/rdf-schema#subClassOf");
    assert_eq!(iri(&out[2]), Some(format!("{MODEL}XmlNode").as_str()));
    // all three speak of the same minted subject, an IRI under the namespace.
    assert_eq!(out[0].subject, out[1].subject);
    assert_eq!(out[1].subject, out[2].subject);
    assert!(out[0].subject.starts_with(&format!("{NS}/")));
}

#[test]
fn attributes_contribute_three_or_four_triples_each() {
    // Two attributes, both non-empty: 3 element triples + 4 + 4.
    let events = vec![start("a", vec![attr("x", "1"), attr("y", "2")]), Event::End];
    let mut out: Vec<Triple> = Vec::new();
    process_document(&events, NS, &mut out);
    assert_eq!(out.len(), 11);

    // One of the two has an empty value: its hasValue triple is skipped,
    // its other three triples stay.
    let events = vec![start("a", vec![attr("x", "1"), attr("y", "")]), Event::End];
    let mut out: Vec<Triple> = Vec::new();
    process_document(&events, NS, &mut out);
    assert_eq!(out.len(), 10);
    assert!(!out.iter().any(|t| lit(t) == Some("")));
}

#[test]
fn attribute_triples_shapes() {
    let events = vec![start("a", vec![attr("x", "v")]), Event::End];
    let mut out: Vec<Triple> = Vec::new();
    process_document(&events, NS, &mut out);
    assert_eq!(out.len(), 7);
    let elem = out[0].subject.clone();
    // hasAttribute from the element to the attribute node.
    assert_eq!(out[3].subject, elem);
    assert_eq!(out[3].predicate, format!("{MODEL}hasAttribute"));
    let attr_id = iri(&out[3]).unwrap().to_string();
    assert!(attr_id.starts_with(&format!("{NS}/")));
    assert_ne!(attr_id, elem);
    // type of the attribute node: the path-shaped IRI element-path.-name.
    assert_eq!(out[4].subject, attr_id);
    assert_eq!(out[4].predicate, "http://www.w3.org/1999/02/22-rdf-syntax-ns#type");
    assert_eq!(iri(&out[4]), Some(format!("{MODEL}a.-x").as_str()));
    // subClassOf from the path-shaped IRI to the attribute class.
    assert_eq!(out[5].subject, format!("{MODEL}a.-x"));
    assert_eq!(iri(&out[5]), Some(format!("{MODEL}XmlAttribute").as_str()));
    // hasValue with the raw value.
    assert_eq!(out[6].subject, attr_id);
    assert_eq!(out[6].predicate, format!("{MODEL}hasValue"));
    assert_eq!(lit(&out[6]), Some("v"));
}

#[test]
fn nested_elements_dotted_paths_and_child_links() {
    let events = vec![
        start("a", vec![]),
        start("b", vec![]),
        start("c", vec![]),
        Event::End,
        Event::End,
        Event::End,
    ];
    let mut out: Vec<Triple> = Vec::new();
    process_document(&events, NS, &mut out);
    // 3 for the root, 4 for each nested element.
    assert_eq!(out.len(), 11);
    // paths compose from the ancestor chain of local names.
    assert_eq!(lit(&out[0]), Some(format!("{MODEL}a").as_str()));
    assert_eq!(lit(&out[4]), Some(format!("{MODEL}a.b").as_str()));
    assert_eq!(lit(&out[8]), Some(format!("{MODEL}a.b.c").as_str()));
    // each non-root element is linked from its parent.
    let a = out[0].subject.clone();
    let b = out[4].subject.clone();
    let c = out[8].subject.clone();
    assert_eq!(out[3].predicate, format!("{MODEL}hasChild"));
    assert_eq!(out[3].subject, a);
    assert_eq!(iri(&out[3]), Some(b.as_str()));
    assert_eq!(out[7].predicate, format!("{MODEL}hasChild"));
    assert_eq!(out[7].subject, b);
    assert_eq!(iri(&out[7]), Some(c.as_str()));
}

#[test]
fn sibling_order_does_not_change_paths() {
    // "c" opened directly under the root...
    let direct = vec![start("a", vec![]), start("c", vec![]), Event::End, Event::End];
    // ...and "c" opened after a complete sibling subtree.
    let after_sibling = vec![
        start("a", vec![]),
        start("b", vec![]),
        Event::End,
        start("c", vec![]),
        Event::End,
        Event::End,
    ];
    let mut out1: Vec<Triple> = Vec::new();
    process_document(&direct, NS, &mut out1);
    let mut out2: Vec<Triple> = Vec::new();
    process_document(&after_sibling, NS, &mut out2);
    let path1 = out1.iter().find_map(|t| {
        let l = lit(t)?;
        if l.ends_with(".c") { Some(l.to_string()) } else { None }
    });
    let path2 = out2.iter().find_map(|t| {
        let l = lit(t)?;
        if l.ends_with(".c") { Some(l.to_string()) } else { None }
    });
    assert_eq!(path1, Some(format!("{MODEL}a.c")));
    assert_eq!(path1, path2);
}

#[test]
fn text_is_trimmed_before_the_emptiness_check() {
    let events = vec![
        start("a", vec![]),
        Event::Text { text: "  hello world \n".to_string() },
        Event::End,
    ];
    let mut out: Vec<Triple> = Vec::new();
    process_document(&events, NS, &mut out);
    assert_eq!(out.len(), 4);
    assert_eq!(out[3].predicate, format!("{MODEL}hasValue"));
    assert_eq!(lit(&out[3]), Some("hello world"));
}

#[test]
fn whitespace_only_text_emits_nothing() {
    let events = vec![
        start("a", vec![]),
        Event::Text { text: " \t \n  ".to_string() },
        Event::End,
    ];
    let mut out: Vec<Triple> = Vec::new();
    process_document(&events, NS, &mut out);
    assert_eq!(out.len(), 3);
}

#[test]
fn text_after_element_end_is_dropped() {
    // After an end event the subject is cleared, so trailing text inside
    // the parent is silently dropped until the next start event.
    let events = vec![
        start("a", vec![]),
        start("b", vec![]),
        Event::End,
        Event::Text { text: "orphaned".to_string() },
        Event::End,
    ];
    let mut out: Vec<Triple> = Vec::new();
    process_document(&events, NS, &mut out);
    assert_eq!(out.len(), 7);
}

#[test]
fn ignored_events_change_nothing() {
    let events = vec![start("a", vec![]), Event::Other, Event::End, Event::Other];
    let mut out: Vec<Triple> = Vec::new();
    process_document(&events, NS, &mut out);
    assert_eq!(out.len(), 3);
}

#[test]
fn fresh_identifiers_differ_between_nodes() {
    let events = vec![
        start("a", vec![attr("x", "1")]),
        start("b", vec![]),
        Event::End,
        Event::End,
    ];
    let mut out: Vec<Triple> = Vec::new();
    process_document(&events, NS, &mut out);
    let elem_a = out[0].subject.clone();
    let attr_id = iri(&out[3]).unwrap().to_string();
    let elem_b = out[8].subject.clone();
    assert_ne!(elem_a, attr_id);
    assert_ne!(elem_a, elem_b);
    assert_ne!(attr_id, elem_b);
}

#[test]
fn walker_step_runs_one_event_at_a_time() {
    let mut w = Walker::new();
    let mut out: Vec<Triple> = Vec::new();
    let tokens = vec!["tok-root".to_string()];
    w.step(&start("doc", vec![]), NS, &tokens, &mut out);
    assert_eq!(out.len(), 3);
    // The injected token names the element deterministically.
    assert_eq!(out[0].subject, format!("{NS}/tok-root"));
    w.step(&Event::End, NS, &vec![], &mut out);
    assert_eq!(out.len(), 3);
}

#[test]
fn parse_xml_converts_document_bytes() {
    let doc = b"<people><person name=\"alice\">hi</person></people>".to_vec();
    let mut gw = GraphWriter::new();
    let res = parse_xml(&vec![doc], &mut gw, NS);
    assert!(res.is_ok());
    // people: 3; person: 4 + attribute 4 + text 1.
    assert_eq!(gw.len(), 12);
}

#[test]
fn two_documents_accumulate_into_one_sink() {
    let d1 = b"<a/>".to_vec();
    let d2 = b"<b><c/></b>".to_vec();
    let mut fw = FileWriter::new();
    let res = parse_xml(&vec![d1.clone(), d2.clone()], &mut fw, NS);
    assert!(res.is_ok());
    // 3 for <a/>, 3 + 4 for <b><c/></b>; and <c/> is linked to <b>, never
    // to anything of the first document.
    let lines: Vec<&str> = fw.output().lines().collect();
    assert_eq!(lines.len(), 10);

    // Processed alone, each document yields its own share.
    let mut fw1 = FileWriter::new();
    assert!(parse_xml(&vec![d1], &mut fw1, NS).is_ok());
    assert_eq!(fw1.output().lines().count(), 3);
    let mut fw2 = FileWriter::new();
    assert!(parse_xml(&vec![d2], &mut fw2, NS).is_ok());
    assert_eq!(fw2.output().lines().count(), 7);
}

#[test]
fn only_character_data_becomes_values() {
    // CDATA sections and comments are not character-data events: the
    // walker ignores them, as it ignores every non-structural event.
    let doc = b"<a><![CDATA[raw]]><!-- note -->kept</a>".to_vec();
    let mut gw = GraphWriter::new();
    assert!(parse_xml(&vec![doc], &mut gw, NS).is_ok());
    // 3 for <a>, 1 for the "kept" text; nothing for CDATA or the comment.
    assert_eq!(gw.len(), 4);
}

#[test]
fn malformed_tail_keeps_events_before_the_error() {
    // The event source stops delivering at the malformed point; what was
    // already delivered is converted.
    let doc = b"<a><b></a>".to_vec();
    let mut gw = GraphWriter::new();
    let res = parse_xml(&vec![doc], &mut gw, NS);
    assert!(res.is_ok());
    // <a> and <b> were opened before the error: 3 + 4 triples.
    assert_eq!(gw.len(), 7);
}
