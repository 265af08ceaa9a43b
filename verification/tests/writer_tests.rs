use oxrdfio::{RdfFormat, RdfParser};
use xml2rdf::convert::parse_xml;
use xml2rdf::model::{Term, Triple};
use xml2rdf::writer::{FileWriter, GraphWriter, RdfWriter};

const NS: &str = "https://decisym.ai/xml2rdf/data";

fn triple_iri(s: &str, p: &str, o: &str) -> Triple {
    Triple {
        subject: s.to_string(),
        predicate: p.to_string(),
        object: Term::Iri { iri: o.to_string() },
    }
}

fn triple_lit(s: &str, p: &str, o: &str) -> Triple {
    Triple {
        subject: s.to_string(),
        predicate: p.to_string(),
        object: Term::Lit { value: o.to_string() },
    }
}

#[test]
fn file_writer_serializes_one_line_per_triple() {
    let mut fw = FileWriter::new();
    assert_eq!(fw.output(), "");
    assert!(fw.add_triple(&triple_iri("http://x/s", "http://x/p", "http://x/o")).is_ok());
    assert_eq!(fw.output(), "<http://x/s> <http://x/p> <http://x/o> .\n");
    assert!(fw.add_triple(&triple_lit("http://x/s", "http://x/p", "plain value")).is_ok());
    assert_eq!(
        fw.output(),
        "<http://x/s> <http://x/p> <http://x/o> .\n<http://x/s> <http://x/p> \"plain value\" .\n"
    );
}

#[test]
fn file_writer_escapes_literals() {
    let mut fw = FileWriter::new();
    assert!(fw.add_triple(&triple_lit("http://x/s", "http://x/p", "a \"b\"\nc\\d")).is_ok());
    assert_eq!(fw.output(), "<http://x/s> <http://x/p> \"a \\\"b\\\"\\nc\\\\d\" .\n");
}

#[test]
fn graph_writer_collapses_duplicates() {
    let mut gw = GraphWriter::new();
    assert_eq!(gw.len(), 0);
    assert!(gw.add_triple(&triple_iri("http://x/s", "http://x/p", "http://x/o")).is_ok());
    assert!(gw.add_triple(&triple_iri("http://x/s", "http://x/p", "http://x/o")).is_ok());
    assert_eq!(gw.len(), 1);
    assert!(gw.add_triple(&triple_lit("http://x/s", "http://x/p", "http://x/o")).is_ok());
    assert_eq!(gw.len(), 2);
    let g = gw.into_graph();
    assert_eq!(g.len(), 2);
}

#[test]
fn both_sinks_agree_on_count_and_reparse_agrees_too() {
    let doc = b"<people><person name=\"alice\" note=\"\">hello</person><person/></people>"
        .to_vec();

    let mut fw = FileWriter::new();
    assert!(parse_xml(&vec![doc.clone()], &mut fw, NS).is_ok());
    let mut gw = GraphWriter::new();
    assert!(parse_xml(&vec![doc], &mut gw, NS).is_ok());

    // people: 3; first person: 4 + 4 + 3 (empty value) + 1 text; second: 4.
    let text_lines = fw.output().lines().count();
    assert_eq!(text_lines, 19);
    assert_eq!(gw.len(), 19);

    // Re-parsing the textual output with a conforming N-Triples parser
    // yields exactly as many triples as the in-memory sink holds.
    let quads: Vec<_> = RdfParser::from_format(RdfFormat::NTriples)
        .for_slice(fw.output().as_bytes())
        .collect::<Result<Vec<_>, _>>()
        .expect("the textual output parses back as N-Triples");
    assert_eq!(quads.len(), 19);
}
