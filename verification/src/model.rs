//! Plain data carried between the event source, the tree walker and the
//! triple sinks: structural XML events in, RDF triples out.

use vstd::prelude::*;

verus! {

/// One attribute occurrence on an element: local name and raw value.
pub struct Attr {
    pub name: String,
    pub value: String,
}

pub ghost struct AttrView {
    pub name: Seq<char>,
    pub value: Seq<char>,
}

impl View for Attr {
    type V = AttrView;

    open spec fn view(&self) -> AttrView {
        AttrView { name: self.name@, value: self.value@ }
    }
}

impl DeepView for Attr {
    type V = AttrView;

    open spec fn deep_view(&self) -> AttrView {
        self@
    }
}

/// One structural event of an XML document, in document order.
///
/// `Other` stands for every event kind the walker ignores (document
/// markers, comments, processing instructions, whitespace runs, parse
/// errors).
pub enum Event {
    Start { name: String, attrs: Vec<Attr> },
    Text { text: String },
    End,
    Other,
}

pub ghost enum EventView {
    Start { name: Seq<char>, attrs: Seq<AttrView> },
    Text { text: Seq<char> },
    End,
    Other,
}

impl View for Event {
    type V = EventView;

    open spec fn view(&self) -> EventView {
        match self {
            Event::Start { name, attrs } => EventView::Start {
                name: name@,
                attrs: attrs.deep_view(),
            },
            Event::Text { text } => EventView::Text { text: text@ },
            Event::End => EventView::End,
            Event::Other => EventView::Other,
        }
    }
}

impl DeepView for Event {
    type V = EventView;

    open spec fn deep_view(&self) -> EventView {
        self@
    }
}

/// An RDF term in object position: either a node identifier or a plain
/// string literal.
pub enum Term {
    Iri { iri: String },
    Lit { value: String },
}

pub ghost enum TermView {
    Iri { iri: Seq<char> },
    Lit { value: Seq<char> },
}

impl View for Term {
    type V = TermView;

    open spec fn view(&self) -> TermView {
        match self {
            Term::Iri { iri } => TermView::Iri { iri: iri@ },
            Term::Lit { value } => TermView::Lit { value: value@ },
        }
    }
}

impl DeepView for Term {
    type V = TermView;

    open spec fn deep_view(&self) -> TermView {
        self@
    }
}

/// One subject--predicate--object statement. Subject and predicate are
/// always IRIs; the object is an IRI or a plain literal.
pub struct Triple {
    pub subject: String,
    pub predicate: String,
    pub object: Term,
}

pub ghost struct TripleView {
    pub subject: Seq<char>,
    pub predicate: Seq<char>,
    pub object: TermView,
}

impl View for Triple {
    type V = TripleView;

    open spec fn view(&self) -> TripleView {
        TripleView { subject: self.subject@, predicate: self.predicate@, object: self.object@ }
    }
}

impl DeepView for Triple {
    type V = TripleView;

    open spec fn deep_view(&self) -> TripleView {
        self@
    }
}

} // verus!
