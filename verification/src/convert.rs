//! The tree walker: consumes the structural events of an XML document in
//! document order and emits RDF triples that model the document tree.
//!
//! For every element the walker mints a fresh identifier IRI and computes a
//! dotted structural path from the chain of ancestor element names; the
//! element is linked to its parent (`hasChild`), described by its path
//! (`type`), its local name (`hasName`) and the fixed `XmlNode` class
//! (`subClassOf`). Each attribute gets its own node with a path-shaped type
//! IRI, and non-empty attribute values and trimmed text content become
//! `hasValue` literals.
//!
//! Identifier tokens are injected: the caller (or the minting helpers here)
//! supplies one fresh random token per node, so the emitted triples are a
//! deterministic function of the events, the namespace and the tokens.

use crate::model::{Attr, AttrView, Event, EventView, Term, TermView, Triple, TripleView};
use crate::vocab::{
    has_attribute_iri, has_attribute_str, has_child_iri, has_child_str, has_name_iri,
    has_name_str, has_value_iri, has_value_str, model_ns, model_ns_str, rdf_type_iri,
    rdf_type_str, rdfs_sub_class_of_iri, rdfs_sub_class_of_str, xml_attribute_iri,
    xml_attribute_str, xml_node_iri, xml_node_str,
};
use crate::writer::{RdfWriter, SinkError};
use vstd::prelude::*;
use vstd::string::StringExecFns;

verus! {

/// One still-open element on the ancestor stack: its minted identifier IRI
/// and its structural path.
pub struct Node {
    pub id: String,
    pub path: String,
}

#[verifier::ext_equal]
pub ghost struct NodeView {
    pub id: Seq<char>,
    pub path: Seq<char>,
}

impl View for Node {
    type V = NodeView;

    open spec fn view(&self) -> NodeView {
        NodeView { id: self.id@, path: self.path@ }
    }
}

/// Walker state for one document: the ancestor stack of open elements
/// (innermost last) and the current subject, the most recently opened
/// element that is still open.
pub struct Walker {
    pub stack: Vec<Node>,
    pub subject: Option<Node>,
}

#[verifier::ext_equal]
pub ghost struct WalkerView {
    pub stack: Seq<NodeView>,
    pub subject: Option<NodeView>,
}

impl View for Walker {
    type V = WalkerView;

    open spec fn view(&self) -> WalkerView {
        WalkerView {
            stack: Seq::new(self.stack@.len(), |i: int| self.stack@[i]@),
            subject: match self.subject {
                Option::Some(n) => Option::Some(n@),
                Option::None => Option::None,
            },
        }
    }
}

/// The state a walker starts a document in: empty stack, no subject.
pub open spec fn initial_state() -> WalkerView {
    WalkerView { stack: Seq::empty(), subject: Option::None }
}

/// The sequence of triple views behind a sequence of emitted triples.
pub open spec fn triples_view(s: Seq<Triple>) -> Seq<TripleView> {
    Seq::new(s.len(), |i: int| s[i]@)
}

/// The sequence of token views behind a vector of minted tokens.
pub open spec fn tokens_view(s: Seq<String>) -> Seq<Seq<char>> {
    Seq::new(s.len(), |i: int| s[i]@)
}

/// The sequence of event views behind a vector of events.
pub open spec fn events_view(s: Seq<Event>) -> Seq<EventView> {
    Seq::new(s.len(), |i: int| s[i]@)
}

/// What `str::trim` returns: the text with leading and trailing whitespace
/// removed. Applied by the ensures of `trim_text`.
pub uninterp spec fn trimmed_of(s: Seq<char>) -> Seq<char>;

/// Relies on `str::trim`: removes leading and trailing whitespace, so the
/// result is never longer than the input and an empty input stays empty.
/// The result depends on the characters alone.
#[verifier::external_body]
fn trim_text(s: &str) -> (r: String)
    ensures
        r@ == trimmed_of(s@),
        r@.len() <= s@.len(),
{
    s.trim().to_owned()
}

/// Relies on `uuid::Uuid::new_v4` and its hyphenated text form: a fresh
/// random identifier token. Nothing is assumed of its value.
#[verifier::external_body]
fn fresh_token() -> (r: String) {
    uuid::Uuid::new_v4().hyphenated().to_string()
}

/// The identifier IRI minted from a namespace and a fresh token.
pub open spec fn iri_for(ns: Seq<char>, token: Seq<char>) -> Seq<char> {
    ns + "/"@ + token
}

/// The structural path of an element: `parent.path + "." + name` under a
/// parent, or the model namespace followed by the name at the root.
pub open spec fn path_for(parent: Option<Seq<char>>, name: Seq<char>) -> Seq<char> {
    match parent {
        Option::Some(p) => p + "."@ + name,
        Option::None => model_ns() + name,
    }
}

/// The path-shaped type IRI of an attribute: the owning element's path,
/// `.-`, and the attribute's local name.
pub open spec fn attr_path_for(elem_path: Seq<char>, attr_name: Seq<char>) -> Seq<char> {
    elem_path + ".-"@ + attr_name
}

/// The path of the element about to be opened: the top of the stack is its
/// parent, if the stack is non-empty.
pub open spec fn parent_path(st: WalkerView) -> Option<Seq<char>> {
    if st.stack.len() > 0 {
        Option::Some(st.stack.last().path)
    } else {
        Option::None
    }
}

/// The triples one attribute occurrence contributes: a `hasAttribute` link
/// from the element, a `type` triple to the path-shaped IRI, a `subClassOf`
/// triple from that IRI to the attribute class, and a `hasValue` literal
/// iff the raw value is non-empty.
pub open spec fn attr_triples(
    elem_id: Seq<char>,
    elem_path: Seq<char>,
    ns: Seq<char>,
    a: AttrView,
    token: Seq<char>,
) -> Seq<TripleView> {
    let aid = iri_for(ns, token);
    let apath = attr_path_for(elem_path, a.name);
    seq![
        TripleView {
            subject: elem_id,
            predicate: has_attribute_iri(),
            object: TermView::Iri { iri: aid },
        },
        TripleView { subject: aid, predicate: rdf_type_iri(), object: TermView::Iri { iri: apath } },
        TripleView {
            subject: apath,
            predicate: rdfs_sub_class_of_iri(),
            object: TermView::Iri { iri: xml_attribute_iri() },
        },
    ] + if a.value.len() > 0 {
        seq![
            TripleView {
                subject: aid,
                predicate: has_value_iri(),
                object: TermView::Lit { value: a.value },
            },
        ]
    } else {
        Seq::empty()
    }
}

/// The triples of a whole attribute list, in source order, one token per
/// attribute.
pub open spec fn attrs_triples(
    elem_id: Seq<char>,
    elem_path: Seq<char>,
    ns: Seq<char>,
    attrs: Seq<AttrView>,
    tokens: Seq<Seq<char>>,
) -> Seq<TripleView>
    decreases attrs.len(),
{
    if attrs.len() == 0 {
        Seq::empty()
    } else {
        attr_triples(elem_id, elem_path, ns, attrs[0], tokens[0]) + attrs_triples(
            elem_id,
            elem_path,
            ns,
            attrs.skip(1),
            tokens.skip(1),
        )
    }
}

/// The `hasChild` link from the enclosing element, if one is open.
pub open spec fn child_link(st: WalkerView, elem_id: Seq<char>) -> Seq<TripleView> {
    if st.stack.len() > 0 {
        seq![
            TripleView {
                subject: st.stack.last().id,
                predicate: has_child_iri(),
                object: TermView::Iri { iri: elem_id },
            },
        ]
    } else {
        Seq::empty()
    }
}

/// All triples of an element-start event: the parent link, the element's
/// own description, then its attributes. `tokens[0]` names the element,
/// the rest name its attributes in order.
pub open spec fn start_triples(
    st: WalkerView,
    name: Seq<char>,
    attrs: Seq<AttrView>,
    ns: Seq<char>,
    tokens: Seq<Seq<char>>,
) -> Seq<TripleView> {
    let eid = iri_for(ns, tokens[0]);
    let path = path_for(parent_path(st), name);
    child_link(st, eid) + seq![
        TripleView { subject: eid, predicate: rdf_type_iri(), object: TermView::Lit { value: path } },
        TripleView { subject: eid, predicate: has_name_iri(), object: TermView::Lit { value: name } },
        TripleView {
            subject: eid,
            predicate: rdfs_sub_class_of_iri(),
            object: TermView::Iri { iri: xml_node_iri() },
        },
    ] + attrs_triples(eid, path, ns, attrs, tokens.skip(1))
}

/// The triples of a text event: one `hasValue` literal on the current
/// subject when one is open and the trimmed text is non-empty.
pub open spec fn text_triples(st: WalkerView, text: Seq<char>) -> Seq<TripleView> {
    match st.subject {
        Option::Some(subj) => if trimmed_of(text).len() > 0 {
            seq![
                TripleView {
                    subject: subj.id,
                    predicate: has_value_iri(),
                    object: TermView::Lit { value: trimmed_of(text) },
                },
            ]
        } else {
            Seq::empty()
        },
        Option::None => Seq::empty(),
    }
}

/// How many fresh tokens an event consumes: one for the element plus one
/// per attribute on a start event, none otherwise.
pub open spec fn tokens_needed(e: EventView) -> nat {
    match e {
        EventView::Start { name, attrs } => 1 + attrs.len(),
        _ => 0,
    }
}

/// All triples one event emits from a given state.
pub open spec fn step_triples(
    st: WalkerView,
    e: EventView,
    ns: Seq<char>,
    tokens: Seq<Seq<char>>,
) -> Seq<TripleView> {
    match e {
        EventView::Start { name, attrs } => start_triples(st, name, attrs, ns, tokens),
        EventView::Text { text } => text_triples(st, text),
        EventView::End => Seq::empty(),
        EventView::Other => Seq::empty(),
    }
}

/// The state after one event: a start pushes the new element and makes it
/// the subject, an end pops the stack and clears the subject, everything
/// else leaves the state unchanged.
pub open spec fn step_state(
    st: WalkerView,
    e: EventView,
    ns: Seq<char>,
    tokens: Seq<Seq<char>>,
) -> WalkerView {
    match e {
        EventView::Start { name, attrs } => {
            let node = NodeView {
                id: iri_for(ns, tokens[0]),
                path: path_for(parent_path(st), name),
            };
            WalkerView { stack: st.stack.push(node), subject: Option::Some(node) }
        },
        EventView::Text { text } => st,
        EventView::End => WalkerView {
            stack: if st.stack.len() > 0 {
                st.stack.drop_last()
            } else {
                st.stack
            },
            subject: Option::None,
        },
        EventView::Other => st,
    }
}

impl Walker {
    /// A walker ready to start a document.
    pub fn new() -> (w: Walker)
        ensures
            w@ == initial_state(),
    {
        let w = Walker { stack: Vec::new(), subject: Option::None };
        proof {
            assert(w@ =~= initial_state());
        }
        w
    }

    /// Consumes one event: appends exactly the triples the event emits to
    /// `out` and moves to the next state. The caller supplies one fresh
    /// token per node the event opens.
    pub fn step(&mut self, event: &Event, namespace: &str, tokens: &Vec<String>, out: &mut Vec<
        Triple,
    >)
        requires
            tokens@.len() == tokens_needed(event@),
        ensures
            final(self)@ == step_state(old(self)@, event@, namespace@, tokens_view(tokens@)),
            triples_view(final(out)@) == triples_view(old(out)@) + step_triples(
                old(self)@,
                event@,
                namespace@,
                tokens_view(tokens@),
            ),
    {
        match event {
            Event::Start { name, attrs } => {
                self.step_start(name, attrs, namespace, tokens, out);
            },
            Event::Text { text } => {
                let trimmed = trim_text(text.as_str());
                if !trimmed.as_str().is_empty() {
                    match &self.subject {
                        Option::Some(subj) => {
                            let t = Triple {
                                subject: subj.id.clone(),
                                predicate: has_value_str().to_owned(),
                                object: Term::Lit { value: trimmed },
                            };
                            let ghost pre = out@;
                            out.push(t);
                            proof {
                                assert(triples_view(out@) =~= triples_view(pre) + text_triples(
                                    self@,
                                    text@,
                                ));
                            }
                        },
                        Option::None => {
                            proof {
                                assert(triples_view(out@) =~= triples_view(out@) + text_triples(
                                    self@,
                                    text@,
                                ));
                            }
                        },
                    }
                } else {
                    proof {
                        assert(triples_view(out@) =~= triples_view(out@) + text_triples(
                            self@,
                            text@,
                        ));
                    }
                }
            },
            Event::End => {
                let ghost pre = self@;
                if self.stack.len() > 0 {
                    self.stack.pop();
                }
                self.subject = Option::None;
                proof {
                    assert(self@ =~= step_state(pre, event@, namespace@, tokens_view(tokens@)));
                    assert(triples_view(out@) =~= triples_view(out@) + Seq::<TripleView>::empty());
                }
            },
            Event::Other => {
                proof {
                    assert(triples_view(out@) =~= triples_view(out@) + Seq::<TripleView>::empty());
                }
            },
        }
    }

    /// The element-start case of `step`.
    fn step_start(
        &mut self,
        name: &String,
        attrs: &Vec<Attr>,
        namespace: &str,
        tokens: &Vec<String>,
        out: &mut Vec<Triple>,
    )
        requires
            tokens@.len() == 1 + attrs@.len(),
        ensures
            final(self)@ == step_state(
                old(self)@,
                EventView::Start { name: name@, attrs: attrs.deep_view() },
                namespace@,
                tokens_view(tokens@),
            ),
            triples_view(final(out)@) == triples_view(old(out)@) + start_triples(
                old(self)@,
                name@,
                attrs.deep_view(),
                namespace@,
                tokens_view(tokens@),
            ),
    {
        let ghost st0 = self@;
        let ghost base = triples_view(out@);
        let ghost toks = tokens_view(tokens@);

        // Mint the element's identifier IRI and compute its path.
        let mut id = namespace.to_owned();
        id.append("/");
        id.append(tokens[0].as_str());
        assert(id@ == iri_for(namespace@, toks[0]));

        let mut path: String;
        if self.stack.len() > 0 {
            let parent = &self.stack[self.stack.len() - 1];
            path = parent.path.clone();
            path.append(".");
            path.append(name.as_str());
            // Link the new element to its parent.
            let t = Triple {
                subject: parent.id.clone(),
                predicate: has_child_str().to_owned(),
                object: Term::Iri { iri: id.clone() },
            };
            out.push(t);
            proof {
                assert(triples_view(out@) =~= base + child_link(st0, id@));
            }
        } else {
            path = model_ns_str().to_owned();
            path.append(name.as_str());
            proof {
                assert(triples_view(out@) =~= base + child_link(st0, id@));
            }
        }
        assert(path@ == path_for(parent_path(st0), name@));

        // Describe the element: its path, its local name, its class.
        let ghost described = base + child_link(st0, id@) + seq![
            TripleView {
                subject: id@,
                predicate: rdf_type_iri(),
                object: TermView::Lit { value: path@ },
            },
            TripleView {
                subject: id@,
                predicate: has_name_iri(),
                object: TermView::Lit { value: name@ },
            },
            TripleView {
                subject: id@,
                predicate: rdfs_sub_class_of_iri(),
                object: TermView::Iri { iri: xml_node_iri() },
            },
        ];
        out.push(
            Triple {
                subject: id.clone(),
                predicate: rdf_type_str().to_owned(),
                object: Term::Lit { value: path.clone() },
            },
        );
        out.push(
            Triple {
                subject: id.clone(),
                predicate: has_name_str().to_owned(),
                object: Term::Lit { value: name.clone() },
            },
        );
        out.push(
            Triple {
                subject: id.clone(),
                predicate: rdfs_sub_class_of_str().to_owned(),
                object: Term::Iri { iri: xml_node_str().to_owned() },
            },
        );
        proof {
            assert(triples_view(out@) =~= described);
        }

        // Describe each attribute, in source order.
        let mut i: usize = 0;
        while i < attrs.len()
            invariant
                i <= attrs@.len(),
                tokens@.len() == 1 + attrs@.len(),
                toks == tokens_view(tokens@),
                id@ == iri_for(namespace@, toks[0]),
                path@ == path_for(parent_path(st0), name@),
                triples_view(out@) == described + attrs_triples(
                    id@,
                    path@,
                    namespace@,
                    attrs.deep_view().take(i as int),
                    toks.skip(1).take(i as int),
                ),
            decreases attrs@.len() - i,
        {
            let ghost before = triples_view(out@);
            let attr = &attrs[i];
            let mut aid = namespace.to_owned();
            aid.append("/");
            aid.append(tokens[1 + i].as_str());
            assert(aid@ == iri_for(namespace@, toks.skip(1)[i as int]));

            let mut apath = path.clone();
            apath.append(".-");
            apath.append(attr.name.as_str());
            assert(apath@ == attr_path_for(path@, attrs.deep_view()[i as int].name));

            out.push(
                Triple {
                    subject: id.clone(),
                    predicate: has_attribute_str().to_owned(),
                    object: Term::Iri { iri: aid.clone() },
                },
            );
            out.push(
                Triple {
                    subject: aid.clone(),
                    predicate: rdf_type_str().to_owned(),
                    object: Term::Iri { iri: apath.clone() },
                },
            );
            out.push(
                Triple {
                    subject: apath.clone(),
                    predicate: rdfs_sub_class_of_str().to_owned(),
                    object: Term::Iri { iri: xml_attribute_str().to_owned() },
                },
            );
            if !attr.value.as_str().is_empty() {
                out.push(
                    Triple {
                        subject: aid.clone(),
                        predicate: has_value_str().to_owned(),
                        object: Term::Lit { value: attr.value.clone() },
                    },
                );
            }
            proof {
                assert(triples_view(out@) =~= before + attr_triples(
                    id@,
                    path@,
                    namespace@,
                    attrs.deep_view()[i as int],
                    toks.skip(1)[i as int],
                ));
                lemma_attrs_triples_snoc(
                    id@,
                    path@,
                    namespace@,
                    attrs.deep_view().take(i + 1 as int),
                    toks.skip(1).take(i + 1 as int),
                );
                assert(attrs.deep_view().take(i + 1 as int).drop_last() =~= attrs.deep_view().take(
                    i as int,
                ));
                assert(toks.skip(1).take(i + 1 as int).drop_last() =~= toks.skip(1).take(i as int));
                assert(triples_view(out@) =~= described + attrs_triples(
                    id@,
                    path@,
                    namespace@,
                    attrs.deep_view().take(i + 1 as int),
                    toks.skip(1).take(i + 1 as int),
                ));
            }
            i = i + 1;
        }
        proof {
            assert(attrs.deep_view().take(attrs@.len() as int) =~= attrs.deep_view());
            assert(toks.skip(1).take(attrs@.len() as int) =~= toks.skip(1));
            assert(triples_view(out@) =~= triples_view(old(out)@) + start_triples(
                st0,
                name@,
                attrs.deep_view(),
                namespace@,
                toks,
            ));
        }

        // Open the element: push it and make it the current subject.
        let node_for_stack = Node { id: id.clone(), path: path.clone() };
        self.stack.push(node_for_stack);
        self.subject = Option::Some(Node { id, path });
        proof {
            assert(self@ =~= step_state(
                st0,
                EventView::Start { name: name@, attrs: attrs.deep_view() },
                namespace@,
                toks,
            ));
        }
    }
}

/// What the XML tokenizer yields for a document's bytes: its structural
/// events in document order. Applied by the ensures of `read_events`.
pub uninterp spec fn doc_events(data: Seq<u8>) -> Seq<EventView>;

/// Relies on `xml::reader::EventReader`: tokenizes the bytes of one XML
/// document into events in document order. Element starts, character data
/// and element ends are kept; every other event kind, parse errors
/// included, is passed through as an ignored event. The result depends on
/// the bytes alone.
#[verifier::external_body]
fn read_events(data: &Vec<u8>) -> (r: Vec<Event>)
    ensures
        events_view(r@) == doc_events(data@),
{
    xml::reader::EventReader::new(data.as_slice()).into_iter().map(|e| match e {
        Ok(xml::reader::XmlEvent::StartElement { name, attributes, .. }) => Event::Start {
            name: name.local_name,
            attrs: attributes.into_iter().map(
                |a| Attr { name: a.name.local_name, value: a.value },
            ).collect(),
        },
        Ok(xml::reader::XmlEvent::Characters(text)) => Event::Text { text },
        Ok(xml::reader::XmlEvent::EndElement { .. }) => Event::End,
        _ => Event::Other,
    }).collect()
}

/// Mints one fresh identifier token per node the event opens: one for the
/// element plus one per attribute on a start event, none otherwise.
fn mint_tokens(event: &Event) -> (tokens: Vec<String>)
    ensures
        tokens@.len() == tokens_needed(event@),
{
    match event {
        Event::Start { name, attrs } => {
            let mut v: Vec<String> = Vec::new();
            v.push(fresh_token());
            let mut j: usize = 0;
            while j < attrs.len()
                invariant
                    j <= attrs@.len(),
                    v@.len() == 1 + j,
                decreases attrs@.len() - j,
            {
                v.push(fresh_token());
                j = j + 1;
            }
            v
        },
        _ => Vec::new(),
    }
}

/// Whether an oracle supplies exactly the tokens each event consumes.
pub open spec fn oracle_matches(events: Seq<EventView>, oracle: Seq<Seq<Seq<char>>>) -> bool {
    &&& oracle.len() == events.len()
    &&& forall|i: int|
        0 <= i < events.len() ==> #[trigger] oracle[i].len() == tokens_needed(events[i])
}

/// The state after a whole event sequence, given one token list per event.
pub open spec fn run_state(
    st: WalkerView,
    events: Seq<EventView>,
    ns: Seq<char>,
    oracle: Seq<Seq<Seq<char>>>,
) -> WalkerView
    decreases events.len(),
{
    if events.len() == 0 {
        st
    } else {
        run_state(
            step_state(st, events[0], ns, oracle[0]),
            events.skip(1),
            ns,
            oracle.skip(1),
        )
    }
}

/// All triples a whole event sequence emits, in order.
pub open spec fn run_triples(
    st: WalkerView,
    events: Seq<EventView>,
    ns: Seq<char>,
    oracle: Seq<Seq<Seq<char>>>,
) -> Seq<TripleView>
    decreases events.len(),
{
    if events.len() == 0 {
        Seq::empty()
    } else {
        step_triples(st, events[0], ns, oracle[0]) + run_triples(
            step_state(st, events[0], ns, oracle[0]),
            events.skip(1),
            ns,
            oracle.skip(1),
        )
    }
}

/// How many triples one attribute list contributes: three per attribute,
/// plus one `hasValue` per non-empty raw value.
pub open spec fn attr_count(attrs: Seq<AttrView>) -> nat
    decreases attrs.len(),
{
    if attrs.len() == 0 {
        0
    } else {
        (if attrs[0].value.len() > 0 {
            4nat
        } else {
            3nat
        }) + attr_count(attrs.skip(1))
    }
}

/// How many attributes of a list have a non-empty raw value.
pub open spec fn nonempty_attr_count(attrs: Seq<AttrView>) -> nat
    decreases attrs.len(),
{
    if attrs.len() == 0 {
        0
    } else {
        (if attrs[0].value.len() > 0 {
            1nat
        } else {
            0nat
        }) + nonempty_attr_count(attrs.skip(1))
    }
}

/// How many triples one event emits. Only the shape of the state matters:
/// the stack depth (is a parent open?) and whether a subject is open.
pub open spec fn step_count(depth: nat, has_subject: bool, e: EventView) -> nat {
    match e {
        EventView::Start { name, attrs } => (if depth > 0 {
            1nat
        } else {
            0nat
        }) + 3 + attr_count(attrs),
        EventView::Text { text } => if has_subject && trimmed_of(text).len() > 0 {
            1nat
        } else {
            0nat
        },
        EventView::End => 0,
        EventView::Other => 0,
    }
}

/// The stack depth after one event.
pub open spec fn next_depth(depth: nat, e: EventView) -> nat {
    match e {
        EventView::Start { name, attrs } => depth + 1,
        EventView::End => if depth > 0 {
            (depth - 1) as nat
        } else {
            0
        },
        _ => depth,
    }
}

/// Whether a subject is open after one event.
pub open spec fn next_has_subject(has_subject: bool, e: EventView) -> bool {
    match e {
        EventView::Start { name, attrs } => true,
        EventView::End => false,
        _ => has_subject,
    }
}

/// How many triples a whole event sequence emits, as a function of the
/// events and the starting shape alone.
pub open spec fn run_count(depth: nat, has_subject: bool, events: Seq<EventView>) -> nat
    decreases events.len(),
{
    if events.len() == 0 {
        0
    } else {
        step_count(depth, has_subject, events[0]) + run_count(
            next_depth(depth, events[0]),
            next_has_subject(has_subject, events[0]),
            events.skip(1),
        )
    }
}

/// Walks one document's events with a fresh walker and appends every
/// emitted triple to `out`. The triples are one run of the walker from the
/// initial state under some token oracle; their number is `run_count`,
/// a function of the events alone.
pub fn process_document(events: &Vec<Event>, namespace: &str, out: &mut Vec<Triple>)
    ensures
        exists|oracle: Seq<Seq<Seq<char>>>|
            {
                &&& #[trigger] oracle_matches(events_view(events@), oracle)
                &&& triples_view(final(out)@) == triples_view(old(out)@) + run_triples(
                    initial_state(),
                    events_view(events@),
                    namespace@,
                    oracle,
                )
            },
        triples_view(final(out)@).len() == triples_view(old(out)@).len() + run_count(
            0,
            false,
            events_view(events@),
        ),
{
    let ghost evs = events_view(events@);
    let ghost base = triples_view(out@);
    let mut w = Walker::new();
    let ghost mut oracle: Seq<Seq<Seq<char>>> = Seq::empty();
    let mut i: usize = 0;
    while i < events.len()
        invariant
            i <= events@.len(),
            evs == events_view(events@),
            base == triples_view(old(out)@),
            oracle.len() == i,
            oracle_matches(evs.take(i as int), oracle),
            w@ == run_state(initial_state(), evs.take(i as int), namespace@, oracle),
            triples_view(out@) == base + run_triples(
                initial_state(),
                evs.take(i as int),
                namespace@,
                oracle,
            ),
        decreases events@.len() - i,
    {
        let ev = &events[i];
        let tokens = mint_tokens(ev);
        let ghost pre_oracle = oracle;
        w.step(ev, namespace, &tokens, out);
        proof {
            oracle = oracle.push(tokens_view(tokens@));
            assert(evs[i as int] == ev@);
            lemma_run_snoc(initial_state(), evs.take(i + 1), namespace@, oracle);
            assert(evs.take(i + 1).drop_last() =~= evs.take(i as int));
            assert(oracle.drop_last() =~= pre_oracle);
            assert(evs.take(i + 1).last() == ev@);
            assert(oracle.last() == tokens_view(tokens@));
            assert(triples_view(out@) =~= base + run_triples(
                initial_state(),
                evs.take(i + 1),
                namespace@,
                oracle,
            ));
            assert forall|k: int| 0 <= k < evs.take(i + 1).len() implies #[trigger] oracle[k].len()
                == tokens_needed(evs.take(i + 1)[k]) by {
                if k < i {
                    assert(pre_oracle[k].len() == tokens_needed(evs.take(i as int)[k]));
                }
            }
        }
        i = i + 1;
    }
    proof {
        assert(evs.take(events@.len() as int) =~= evs);
        lemma_run_count(initial_state(), evs, namespace@, oracle);
    }
}

/// The event sequences of a list of documents, given as their bytes.
pub open spec fn docs_events_view(docs: Seq<Vec<u8>>) -> Seq<Seq<EventView>> {
    Seq::new(docs.len(), |i: int| doc_events(docs[i]@))
}

/// Whether each document's oracle supplies the tokens its events consume.
pub open spec fn oracles_match(
    docs: Seq<Seq<EventView>>,
    oracles: Seq<Seq<Seq<Seq<char>>>>,
) -> bool {
    &&& oracles.len() == docs.len()
    &&& forall|i: int| 0 <= i < docs.len() ==> #[trigger] oracle_matches(docs[i], oracles[i])
}

/// All triples a list of documents emits into one shared sink: each
/// document is walked from the initial state — with its own, fresh
/// ancestor stack — and the runs are appended in order.
pub open spec fn docs_runs(
    docs: Seq<Seq<EventView>>,
    ns: Seq<char>,
    oracles: Seq<Seq<Seq<Seq<char>>>>,
) -> Seq<TripleView>
    decreases docs.len(),
{
    if docs.len() == 0 {
        Seq::empty()
    } else {
        run_triples(initial_state(), docs[0], ns, oracles[0]) + docs_runs(
            docs.skip(1),
            ns,
            oracles.skip(1),
        )
    }
}

/// How many triples a list of documents emits in all.
pub open spec fn docs_count(docs: Seq<Seq<EventView>>) -> nat
    decreases docs.len(),
{
    if docs.len() == 0 {
        0
    } else {
        run_count(0, false, docs[0]) + docs_count(docs.skip(1))
    }
}

/// A document list's triples number `docs_count` of it, whatever the
/// namespace and the token oracles.
pub proof fn lemma_docs_runs_count(
    docs: Seq<Seq<EventView>>,
    ns: Seq<char>,
    oracles: Seq<Seq<Seq<Seq<char>>>>,
)
    ensures
        docs_runs(docs, ns, oracles).len() == docs_count(docs),
    decreases docs.len(),
{
    if docs.len() > 0 {
        lemma_run_count(initial_state(), docs[0], ns, oracles[0]);
        lemma_docs_runs_count(docs.skip(1), ns, oracles.skip(1));
    }
}

/// Splitting a document list's triples at its last document.
pub proof fn lemma_docs_runs_snoc(
    docs: Seq<Seq<EventView>>,
    ns: Seq<char>,
    oracles: Seq<Seq<Seq<Seq<char>>>>,
)
    requires
        docs.len() > 0,
        oracles.len() == docs.len(),
    ensures
        docs_runs(docs, ns, oracles) == docs_runs(docs.drop_last(), ns, oracles.drop_last())
            + run_triples(initial_state(), docs.last(), ns, oracles.last()),
    decreases docs.len(),
{
    if docs.len() == 1 {
        assert(docs.drop_last() =~= Seq::<Seq<EventView>>::empty());
        assert(docs.skip(1) =~= Seq::<Seq<EventView>>::empty());
        assert(docs_runs(docs.skip(1), ns, oracles.skip(1)) == Seq::<TripleView>::empty());
        assert(docs_runs(docs.drop_last(), ns, oracles.drop_last()) == Seq::<TripleView>::empty());
        assert(docs.last() == docs[0]);
        assert(oracles.last() == oracles[0]);
        assert(docs_runs(docs, ns, oracles) =~= docs_runs(docs.drop_last(), ns, oracles.drop_last())
            + run_triples(initial_state(), docs.last(), ns, oracles.last()));
    } else {
        lemma_docs_runs_snoc(docs.skip(1), ns, oracles.skip(1));
        assert(docs.skip(1).drop_last() =~= docs.drop_last().skip(1));
        assert(oracles.skip(1).drop_last() =~= oracles.drop_last().skip(1));
        assert(docs.skip(1).last() == docs.last());
        assert(oracles.skip(1).last() == oracles.last());
        assert(docs.drop_last()[0] == docs[0]);
        assert(docs_runs(docs, ns, oracles) =~= docs_runs(docs.drop_last(), ns, oracles.drop_last())
            + run_triples(initial_state(), docs.last(), ns, oracles.last()));
    }
}

/// Processing two documents into the same sink yields the triples of
/// both, in order; each document is walked from the initial state with
/// its own fresh ancestor stack, so no parent link can cross from one
/// document into the other.
pub proof fn lemma_documents_independent(
    d1: Seq<EventView>,
    d2: Seq<EventView>,
    ns: Seq<char>,
    o1: Seq<Seq<Seq<char>>>,
    o2: Seq<Seq<Seq<char>>>,
)
    ensures
        docs_runs(seq![d1, d2], ns, seq![o1, o2]) == run_triples(initial_state(), d1, ns, o1)
            + run_triples(initial_state(), d2, ns, o2),
{
    let docs = seq![d1, d2];
    let oracles = seq![o1, o2];
    assert(docs.skip(1) =~= seq![d2]);
    assert(oracles.skip(1) =~= seq![o2]);
    assert(seq![d2].skip(1) =~= Seq::<Seq<EventView>>::empty());
    assert(seq![o2].skip(1) =~= Seq::<Seq<Seq<Seq<char>>>>::empty());
    assert(docs_runs(Seq::<Seq<EventView>>::empty(), ns, Seq::<Seq<Seq<Seq<char>>>>::empty())
        == Seq::<TripleView>::empty());
    assert(docs[0] == d1);
    assert(oracles[0] == o1);
    assert(seq![d2][0] == d2);
    assert(seq![o2][0] == o2);
    assert(docs_runs(seq![d2], ns, seq![o2]) =~= run_triples(initial_state(), d2, ns, o2));
    assert(docs_runs(docs, ns, oracles) == run_triples(initial_state(), d1, ns, o1) + docs_runs(
        seq![d2],
        ns,
        seq![o2],
    ));
}

/// An attribute list's triples number `attr_count` of it, whatever the
/// identifier tokens are.
pub proof fn lemma_attrs_triples_len(
    elem_id: Seq<char>,
    elem_path: Seq<char>,
    ns: Seq<char>,
    attrs: Seq<AttrView>,
    tokens: Seq<Seq<char>>,
)
    ensures
        attrs_triples(elem_id, elem_path, ns, attrs, tokens).len() == attr_count(attrs),
    decreases attrs.len(),
{
    if attrs.len() > 0 {
        lemma_attrs_triples_len(elem_id, elem_path, ns, attrs.skip(1), tokens.skip(1));
    }
}

/// One event's triple count and next shape depend only on the event and
/// the current shape, not on the namespace, the tokens, the paths or the
/// identifiers.
pub proof fn lemma_step_shape(st: WalkerView, e: EventView, ns: Seq<char>, tokens: Seq<Seq<char>>)
    ensures
        step_triples(st, e, ns, tokens).len() == step_count(
            st.stack.len(),
            st.subject is Some,
            e,
        ),
        step_state(st, e, ns, tokens).stack.len() == next_depth(st.stack.len(), e),
        (step_state(st, e, ns, tokens).subject is Some) == next_has_subject(
            st.subject is Some,
            e,
        ),
{
    match e {
        EventView::Start { name, attrs } => {
            lemma_attrs_triples_len(
                iri_for(ns, tokens[0]),
                path_for(parent_path(st), name),
                ns,
                attrs,
                tokens.skip(1),
            );
        },
        _ => {},
    }
}

/// The number of emitted triples is deterministic: for any starting state
/// and any token oracle, a document's event sequence emits exactly
/// `run_count` triples, a function of the events and the starting shape
/// alone. Random identifiers vary between runs, the count does not.
pub proof fn lemma_run_count(
    st: WalkerView,
    events: Seq<EventView>,
    ns: Seq<char>,
    oracle: Seq<Seq<Seq<char>>>,
)
    ensures
        run_triples(st, events, ns, oracle).len() == run_count(
            st.stack.len(),
            st.subject is Some,
            events,
        ),
    decreases events.len(),
{
    if events.len() > 0 {
        lemma_step_shape(st, events[0], ns, oracle[0]);
        lemma_run_count(
            step_state(st, events[0], ns, oracle[0]),
            events.skip(1),
            ns,
            oracle.skip(1),
        );
    }
}

/// A document with exactly one root element and no attributes, children or
/// text emits exactly three triples: its path, its name, its class.
pub proof fn lemma_single_root_count(name: Seq<char>)
    ensures
        run_count(
            0,
            false,
            seq![EventView::Start { name, attrs: Seq::empty() }, EventView::End],
        ) == 3,
{
    let events = seq![EventView::Start { name, attrs: Seq::empty() }, EventView::End];
    assert(events.skip(1) =~= seq![EventView::End]);
    assert(seq![EventView::End].skip(1) =~= Seq::<EventView>::empty());
    assert(attr_count(Seq::empty()) == 0);
    assert(step_count(0, false, events[0]) == 3);
    assert(run_count(1, true, events.skip(1)) == step_count(1, true, EventView::End) + run_count(
        0,
        false,
        seq![EventView::End].skip(1),
    ));
    assert(run_count(0, false, Seq::<EventView>::empty()) == 0);
}

/// A document with exactly one root element and no attributes, children
/// or text emits exactly these three triples: the root's path literal
/// (`type`), its local name (`hasName`) and the fixed element class
/// (`subClassOf`), all on the one minted subject.
pub proof fn lemma_single_root_triples(
    name: Seq<char>,
    ns: Seq<char>,
    oracle: Seq<Seq<Seq<char>>>,
)
    requires
        oracle.len() == 2,
    ensures
        run_triples(
            initial_state(),
            seq![EventView::Start { name, attrs: Seq::empty() }, EventView::End],
            ns,
            oracle,
        ) == seq![
            TripleView {
                subject: iri_for(ns, oracle[0][0]),
                predicate: rdf_type_iri(),
                object: TermView::Lit { value: model_ns() + name },
            },
            TripleView {
                subject: iri_for(ns, oracle[0][0]),
                predicate: has_name_iri(),
                object: TermView::Lit { value: name },
            },
            TripleView {
                subject: iri_for(ns, oracle[0][0]),
                predicate: rdfs_sub_class_of_iri(),
                object: TermView::Iri { iri: xml_node_iri() },
            },
        ],
{
    let events = seq![EventView::Start { name, attrs: Seq::empty() }, EventView::End];
    let st1 = step_state(initial_state(), events[0], ns, oracle[0]);
    assert(events.skip(1) =~= seq![EventView::End]);
    assert(oracle.skip(1) =~= seq![oracle[1]]);
    assert(events.skip(1)[0] == EventView::End);
    assert(events.skip(1).skip(1) =~= Seq::<EventView>::empty());
    assert(run_triples(
        step_state(st1, EventView::End, ns, oracle[1]),
        events.skip(1).skip(1),
        ns,
        oracle.skip(1).skip(1),
    ) == Seq::<TripleView>::empty());
    assert(step_triples(st1, EventView::End, ns, oracle[1]) == Seq::<TripleView>::empty());
    assert(parent_path(initial_state()) is None);
    assert(child_link(initial_state(), iri_for(ns, oracle[0][0])) == Seq::<TripleView>::empty());
    assert(attrs_triples(
        iri_for(ns, oracle[0][0]),
        path_for(Option::None, name),
        ns,
        Seq::empty(),
        oracle[0].skip(1),
    ) == Seq::<TripleView>::empty());
    assert(oracle.skip(1)[0] == oracle[1]);
    assert(run_triples(st1, events.skip(1), ns, oracle.skip(1)) == step_triples(
        st1,
        EventView::End,
        ns,
        oracle[1],
    ) + run_triples(
        step_state(st1, EventView::End, ns, oracle[1]),
        events.skip(1).skip(1),
        ns,
        oracle.skip(1).skip(1),
    ));
    assert(run_triples(st1, events.skip(1), ns, oracle.skip(1)) =~= Seq::<TripleView>::empty());
    assert(run_triples(initial_state(), events, ns, oracle) =~= seq![
        TripleView {
            subject: iri_for(ns, oracle[0][0]),
            predicate: rdf_type_iri(),
            object: TermView::Lit { value: model_ns() + name },
        },
        TripleView {
            subject: iri_for(ns, oracle[0][0]),
            predicate: has_name_iri(),
            object: TermView::Lit { value: name },
        },
        TripleView {
            subject: iri_for(ns, oracle[0][0]),
            predicate: rdfs_sub_class_of_iri(),
            object: TermView::Iri { iri: xml_node_iri() },
        },
    ]);
}

/// An element with N attributes contributes three triples per attribute
/// (`hasAttribute`, `type`, `subClassOf`) plus one `hasValue` triple per
/// attribute whose raw value is non-empty: with k empty values that is
/// `4N - k` in all, on top of the element's own triples.
pub proof fn lemma_attr_contribution(attrs: Seq<AttrView>)
    ensures
        attr_count(attrs) == 3 * attrs.len() + nonempty_attr_count(attrs),
        nonempty_attr_count(attrs) <= attrs.len(),
    decreases attrs.len(),
{
    if attrs.len() > 0 {
        lemma_attr_contribution(attrs.skip(1));
    }
}

/// Splitting a run at its last event.
pub proof fn lemma_run_snoc(
    st: WalkerView,
    events: Seq<EventView>,
    ns: Seq<char>,
    oracle: Seq<Seq<Seq<char>>>,
)
    requires
        events.len() > 0,
        oracle.len() == events.len(),
    ensures
        run_state(st, events, ns, oracle) == step_state(
            run_state(st, events.drop_last(), ns, oracle.drop_last()),
            events.last(),
            ns,
            oracle.last(),
        ),
        run_triples(st, events, ns, oracle) == run_triples(
            st,
            events.drop_last(),
            ns,
            oracle.drop_last(),
        ) + step_triples(
            run_state(st, events.drop_last(), ns, oracle.drop_last()),
            events.last(),
            ns,
            oracle.last(),
        ),
    decreases events.len(),
{
    let st1 = step_state(st, events[0], ns, oracle[0]);
    if events.len() == 1 {
        assert(events.drop_last() =~= Seq::<EventView>::empty());
        assert(oracle.drop_last() =~= Seq::<Seq<Seq<char>>>::empty());
        assert(events.skip(1) =~= Seq::<EventView>::empty());
        assert(oracle.skip(1) =~= Seq::<Seq<Seq<char>>>::empty());
        assert(events.last() == events[0]);
        assert(oracle.last() == oracle[0]);
        assert(run_triples(st1, events.skip(1), ns, oracle.skip(1)) == Seq::<
            TripleView,
        >::empty());
        assert(run_state(st1, events.skip(1), ns, oracle.skip(1)) == st1);
        assert(run_state(st, events.drop_last(), ns, oracle.drop_last()) == st);
        assert(run_triples(st, events, ns, oracle) =~= Seq::<TripleView>::empty()
            + step_triples(st, events.last(), ns, oracle.last()));
    } else {
        lemma_run_snoc(st1, events.skip(1), ns, oracle.skip(1));
        assert(events.skip(1).drop_last() =~= events.drop_last().skip(1));
        assert(oracle.skip(1).drop_last() =~= oracle.drop_last().skip(1));
        assert(events.skip(1).last() == events.last());
        assert(oracle.skip(1).last() == oracle.last());
        assert(events.drop_last()[0] == events[0]);
        assert(run_state(st, events.drop_last(), ns, oracle.drop_last()) == run_state(
            st1,
            events.drop_last().skip(1),
            ns,
            oracle.drop_last().skip(1),
        ));
        assert(run_triples(st, events, ns, oracle) =~= run_triples(
            st,
            events.drop_last(),
            ns,
            oracle.drop_last(),
        ) + step_triples(
            run_state(st, events.drop_last(), ns, oracle.drop_last()),
            events.last(),
            ns,
            oracle.last(),
        ));
    }
}

/// The depth change of one event: an element start opens one level, an
/// element end closes one, everything else leaves the depth alone.
pub open spec fn depth_delta(e: EventView) -> int {
    match e {
        EventView::Start { name, attrs } => 1,
        EventView::End => -1,
        _ => 0,
    }
}

/// The net depth change over an event sequence.
pub open spec fn net_depth(events: Seq<EventView>) -> int
    decreases events.len(),
{
    if events.len() == 0 {
        0int
    } else {
        depth_delta(events[0]) + net_depth(events.skip(1))
    }
}

/// A balanced event sequence: as many ends as starts, and no prefix closes
/// more elements than it opened. The events of one complete element (or of
/// a run of complete sibling subtrees) are balanced.
pub open spec fn balanced(events: Seq<EventView>) -> bool {
    &&& net_depth(events) == 0
    &&& forall|i: int| 0 <= i <= events.len() ==> net_depth(#[trigger] events.take(i)) >= 0
}

/// Running events that never close more elements than they opened keeps
/// the first `base` stack entries untouched and moves the depth by the net
/// depth change.
pub proof fn lemma_run_stack_base(
    st: WalkerView,
    events: Seq<EventView>,
    ns: Seq<char>,
    oracle: Seq<Seq<Seq<char>>>,
    base: int,
)
    requires
        0 <= base <= st.stack.len(),
        forall|i: int|
            0 <= i <= events.len() ==> st.stack.len() + net_depth(#[trigger] events.take(i))
                >= base,
    ensures
        run_state(st, events, ns, oracle).stack.len() == st.stack.len() + net_depth(events),
        run_state(st, events, ns, oracle).stack.take(base) == st.stack.take(base),
    decreases events.len(),
{
    if events.len() == 0 {
        assert(run_state(st, events, ns, oracle).stack.take(base) =~= st.stack.take(base));
    } else {
        let h = events[0];
        let t = events.skip(1);
        let st1 = step_state(st, h, ns, oracle[0]);
        assert(events.take(1) =~= seq![h]);
        assert(events.take(1).skip(1) =~= Seq::<EventView>::empty());
        assert(net_depth(Seq::<EventView>::empty()) == 0);
        assert(events.take(1)[0] == h);
        assert(net_depth(events.take(1)) == depth_delta(h));
        assert(st.stack.len() + depth_delta(h) >= base);
        assert(st1.stack.len() == st.stack.len() + depth_delta(h)) by {
            if h is End {
                assert(st.stack.len() >= 1);
            }
        }
        assert(st1.stack.take(base) =~= st.stack.take(base));
        assert forall|i: int| 0 <= i <= t.len() implies st1.stack.len() + net_depth(
            #[trigger] t.take(i),
        ) >= base by {
            assert(events.take(i + 1)[0] == h);
            assert(events.take(i + 1).skip(1) =~= t.take(i));
            assert(net_depth(events.take(i + 1)) == depth_delta(h) + net_depth(t.take(i)));
            assert(st.stack.len() + net_depth(events.take(i + 1)) >= base);
        }
        lemma_run_stack_base(st1, t, ns, oracle.skip(1), base);
        assert(events.take(events.len() as int) =~= events);
    }
}

/// A balanced event sequence, such as the events of complete sibling
/// subtrees, leaves the ancestor stack exactly as it was.
pub proof fn lemma_balanced_preserves_stack(
    st: WalkerView,
    events: Seq<EventView>,
    ns: Seq<char>,
    oracle: Seq<Seq<Seq<char>>>,
)
    requires
        balanced(events),
    ensures
        run_state(st, events, ns, oracle).stack == st.stack,
    decreases events.len(),
{
    assert forall|i: int| 0 <= i <= events.len() implies st.stack.len() + net_depth(
        #[trigger] events.take(i),
    ) >= st.stack.len() by {
        assert(net_depth(events.take(i)) >= 0);
    }
    lemma_run_stack_base(st, events, ns, oracle, st.stack.len() as int);
    let r = run_state(st, events, ns, oracle);
    assert(r.stack =~= r.stack.take(st.stack.len() as int));
    assert(st.stack =~= st.stack.take(st.stack.len() as int));
}

/// The path of a newly opened element depends only on its local name and
/// its chain of ancestors (through the parent's path): neither the
/// attributes, nor the identifier tokens, nor the run namespace, nor any
/// preceding balanced sibling subtrees change it.
pub proof fn lemma_path_depends_only_on_ancestors(
    st: WalkerView,
    siblings: Seq<EventView>,
    name: Seq<char>,
    attrs1: Seq<AttrView>,
    attrs2: Seq<AttrView>,
    ns1: Seq<char>,
    ns2: Seq<char>,
    oracle: Seq<Seq<Seq<char>>>,
    tokens1: Seq<Seq<char>>,
    tokens2: Seq<Seq<char>>,
)
    requires
        balanced(siblings),
    ensures
        step_state(
            run_state(st, siblings, ns1, oracle),
            EventView::Start { name, attrs: attrs1 },
            ns1,
            tokens1,
        ).stack.last().path == step_state(
            st,
            EventView::Start { name, attrs: attrs2 },
            ns2,
            tokens2,
        ).stack.last().path,
{
    lemma_balanced_preserves_stack(st, siblings, ns1, oracle);
    assert(parent_path(run_state(st, siblings, ns1, oracle)) == parent_path(st));
}

/// Text whose trimmed form is empty emits nothing and changes nothing:
/// whitespace-only text nodes produce zero triples.
pub proof fn lemma_whitespace_text_emits_nothing(
    st: WalkerView,
    text: Seq<char>,
    ns: Seq<char>,
    tokens: Seq<Seq<char>>,
)
    requires
        trimmed_of(text).len() == 0,
    ensures
        step_triples(st, EventView::Text { text }, ns, tokens) == Seq::<TripleView>::empty(),
        step_state(st, EventView::Text { text }, ns, tokens) == st,
{
}

/// Converts XML documents to RDF triples: parses each document's bytes
/// into structural events and walks them into the shared sink, one fresh
/// walker — one fresh ancestor stack — per document, so triples of all
/// documents accumulate while no state crosses between documents.
///
/// On the first sink failure the run aborts at once; the triples already
/// accepted stay in the sink. A sink that never fails makes the whole
/// conversion succeed, and the sink then holds exactly the runs of all
/// documents in order: `docs_count` of them in all, however the random
/// identifiers fall.
pub fn parse_xml<W: RdfWriter>(docs: &Vec<Vec<u8>>, writer: &mut W, namespace: &str) -> (r: Result<
    (),
    SinkError,
>)
    requires
        old(writer).inv(),
    ensures
        final(writer).inv(),
        final(writer).never_fails() == old(writer).never_fails(),
        old(writer).never_fails() ==> r is Ok,
        old(writer).log().is_prefix_of(final(writer).log()),
        r is Ok ==> exists|oracles: Seq<Seq<Seq<Seq<char>>>>|
            {
                &&& #[trigger] oracles_match(docs_events_view(docs@), oracles)
                &&& final(writer).log() == old(writer).log() + docs_runs(
                    docs_events_view(docs@),
                    namespace@,
                    oracles,
                )
            },
        r is Ok ==> final(writer).log().len() == old(writer).log().len() + docs_count(
            docs_events_view(docs@),
        ),
{
    let ghost base = writer.log();
    let ghost dviews = docs_events_view(docs@);
    let ghost mut oracles: Seq<Seq<Seq<Seq<char>>>> = Seq::empty();
    let mut i: usize = 0;
    while i < docs.len()
        invariant
            i <= docs@.len(),
            writer.inv(),
            writer.never_fails() == old(writer).never_fails(),
            base == old(writer).log(),
            dviews == docs_events_view(docs@),
            oracles.len() == i,
            forall|k: int| 0 <= k < i ==> #[trigger] oracle_matches(dviews[k], oracles[k]),
            writer.log() == base + docs_runs(dviews.take(i as int), namespace@, oracles),
        decreases docs@.len() - i,
    {
        let events = read_events(&docs[i]);
        let mut triples: Vec<Triple> = Vec::new();
        process_document(&events, namespace, &mut triples);
        let ghost oracle = choose|oracle: Seq<Seq<Seq<char>>>|
            oracle_matches(events_view(events@), oracle) && triples_view(triples@) == run_triples(
                initial_state(),
                events_view(events@),
                namespace@,
                oracle,
            );
        proof {
            assert(events_view(events@) == doc_events(docs@[i as int]@));
            assert(events_view(events@) == dviews[i as int]);
        }
        let ghost doc_run = triples_view(triples@);
        let ghost pre_log = writer.log();
        let mut j: usize = 0;
        while j < triples.len()
            invariant
                j <= triples@.len(),
                writer.inv(),
                writer.never_fails() == old(writer).never_fails(),
                base == old(writer).log(),
                doc_run == triples_view(triples@),
                pre_log == base + docs_runs(dviews.take(i as int), namespace@, oracles),
                writer.log() == pre_log + doc_run.take(j as int),
            decreases triples@.len() - j,
        {
            match writer.add_triple(&triples[j]) {
                Result::Ok(()) => {
                    proof {
                        assert(doc_run[j as int] == triples@[j as int]@);
                        assert(writer.log() =~= pre_log + doc_run.take(j + 1));
                    }
                },
                Result::Err(e) => {
                    proof {
                        let ext = docs_runs(dviews.take(i as int), namespace@, oracles)
                            + doc_run.take(j as int);
                        assert(writer.log() =~= base + ext);
                        lemma_log_prefix(base, writer.log());
                    }
                    return Result::Err(e);
                },
            }
            j = j + 1;
        }
        proof {
            assert(doc_run.take(triples@.len() as int) =~= doc_run);
            let pre_oracles = oracles;
            oracles = oracles.push(oracle);
            lemma_docs_runs_snoc(dviews.take(i + 1), namespace@, oracles);
            assert(dviews.take(i + 1).drop_last() =~= dviews.take(i as int));
            assert(oracles.drop_last() =~= pre_oracles);
            assert(dviews.take(i + 1).last() == dviews[i as int]);
            assert(oracles.last() == oracle);
            assert(writer.log() =~= base + docs_runs(dviews.take(i + 1), namespace@, oracles));
        }
        i = i + 1;
    }
    proof {
        assert(dviews.take(docs@.len() as int) =~= dviews);
        lemma_docs_runs_count(dviews, namespace@, oracles);
        assert(oracles_match(docs_events_view(docs@), oracles));
        assert(writer.log() == old(writer).log() + docs_runs(
            docs_events_view(docs@),
            namespace@,
            oracles,
        ));
        lemma_log_prefix(base, writer.log());
    }
    Result::Ok(())
}

/// A log that grew by appending has the old log as a prefix.
proof fn lemma_log_prefix(base: Seq<TripleView>, log: Seq<TripleView>)
    requires
        exists|ext: Seq<TripleView>| log == base + ext,
    ensures
        base.is_prefix_of(log),
{
    let ext = choose|ext: Seq<TripleView>| log == base + ext;
    assert(log.take(base.len() as int) =~= base);
}

/// Splitting an attribute list's triples at its last attribute.
pub proof fn lemma_attrs_triples_snoc(
    elem_id: Seq<char>,
    elem_path: Seq<char>,
    ns: Seq<char>,
    attrs: Seq<AttrView>,
    tokens: Seq<Seq<char>>,
)
    requires
        attrs.len() > 0,
        tokens.len() >= attrs.len(),
    ensures
        attrs_triples(elem_id, elem_path, ns, attrs, tokens) == attrs_triples(
            elem_id,
            elem_path,
            ns,
            attrs.drop_last(),
            tokens.take(attrs.len() - 1),
        ) + attr_triples(elem_id, elem_path, ns, attrs.last(), tokens[attrs.len() - 1]),
    decreases attrs.len(),
{
    if attrs.len() == 1 {
        assert(attrs.drop_last() =~= Seq::<AttrView>::empty());
        assert(attrs.skip(1).len() == 0);
        assert(attrs_triples(elem_id, elem_path, ns, attrs.skip(1), tokens.skip(1))
            == Seq::<TripleView>::empty());
        assert(attrs_triples(elem_id, elem_path, ns, attrs, tokens) == attr_triples(
            elem_id,
            elem_path,
            ns,
            attrs[0],
            tokens[0],
        ) + attrs_triples(elem_id, elem_path, ns, attrs.skip(1), tokens.skip(1)));
        assert(attrs.last() == attrs[0]);
        assert(attrs_triples(elem_id, elem_path, ns, attrs.drop_last(), tokens.take(0))
            == Seq::<TripleView>::empty());
        assert(attrs_triples(elem_id, elem_path, ns, attrs, tokens) =~= attrs_triples(
            elem_id,
            elem_path,
            ns,
            attrs.drop_last(),
            tokens.take(0),
        ) + attr_triples(elem_id, elem_path, ns, attrs.last(), tokens[0]));
    } else {
        lemma_attrs_triples_snoc(elem_id, elem_path, ns, attrs.skip(1), tokens.skip(1));
        assert(attrs.skip(1).drop_last() =~= attrs.drop_last().skip(1));
        assert(tokens.skip(1).take(attrs.len() - 2) =~= tokens.take(attrs.len() - 1).skip(1));
        assert(attrs.skip(1).last() == attrs.last());
        assert(tokens.skip(1)[attrs.len() - 2] == tokens[attrs.len() - 1]);
        assert(attrs.drop_last()[0] == attrs[0]);
        assert(attrs_triples(elem_id, elem_path, ns, attrs.drop_last(), tokens.take(attrs.len() - 1))
            == attr_triples(elem_id, elem_path, ns, attrs[0], tokens[0]) + attrs_triples(
            elem_id,
            elem_path,
            ns,
            attrs.drop_last().skip(1),
            tokens.take(attrs.len() - 1).skip(1),
        ));
        assert(attrs_triples(elem_id, elem_path, ns, attrs, tokens) =~= attrs_triples(
            elem_id,
            elem_path,
            ns,
            attrs.drop_last(),
            tokens.take(attrs.len() - 1),
        ) + attr_triples(elem_id, elem_path, ns, attrs.last(), tokens[attrs.len() - 1]));
    }
}

} // verus!
