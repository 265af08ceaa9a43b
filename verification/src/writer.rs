//! The triple sinks: an append-only textual sink that serializes each
//! triple as one `SUBJECT PREDICATE OBJECT .` line, and an in-memory graph
//! sink over an RDF graph. Both accept one triple at a time through the
//! same capability, `RdfWriter`.

use crate::model::{Term, TermView, Triple, TripleView};
use vstd::prelude::*;
use vstd::string::StringExecFns;

verus! {

/// A sink failure. The only failure a sink can signal is one of its
/// underlying destination; neither sink of this crate ever signals one.
pub struct SinkError;

/// The capability both sinks implement: accept one triple at a time,
/// append-only. `log()` is the sequence of triples accepted so far.
pub trait RdfWriter: Sized {
    /// The triples accepted so far, in order of arrival.
    spec fn log(&self) -> Seq<TripleView>;

    /// The writer's internal consistency.
    spec fn inv(&self) -> bool;

    /// Whether this writer can never signal a failure.
    spec fn never_fails(&self) -> bool;

    /// Accepts one triple: on success the log grows by exactly that
    /// triple, on failure it is unchanged.
    fn add_triple(&mut self, triple: &Triple) -> (r: Result<(), SinkError>)
        requires
            old(self).inv(),
        ensures
            final(self).inv(),
            final(self).never_fails() == old(self).never_fails(),
            r is Ok ==> final(self).log() == old(self).log().push(triple@),
            r is Err ==> final(self).log() == old(self).log(),
            old(self).never_fails() ==> r is Ok,
    ;
}

/// Whether a character sequence holds no line break.
pub open spec fn no_newline(s: Seq<char>) -> bool {
    forall|i: int| 0 <= i < s.len() ==> s[i] != '\n'
}

/// What oxrdf's literal display returns: the value in double quotes with
/// N-Triples escaping. Applied by the ensures of `format_triple`.
pub uninterp spec fn quoted_lit(value: Seq<char>) -> Seq<char>;

/// The text of one triple, without the closing ` .` and line break: the
/// subject and predicate IRIs in angle brackets, then the object — an
/// angle-bracketed IRI or a quoted literal.
pub open spec fn triple_text(t: TripleView) -> Seq<char> {
    "<"@ + t.subject + "> <"@ + t.predicate + "> "@ + match t.object {
        TermView::Iri { iri } => "<"@ + iri + ">"@,
        TermView::Lit { value } => quoted_lit(value),
    }
}

/// One serialized output line, ` .` and line break included.
pub open spec fn triple_line(t: TripleView) -> Seq<char> {
    triple_text(t) + " .\n"@
}

/// The whole textual output of a log of triples.
pub open spec fn render(log: Seq<TripleView>) -> Seq<char>
    decreases log.len(),
{
    if log.len() == 0 {
        Seq::empty()
    } else {
        triple_line(log[0]) + render(log.skip(1))
    }
}

/// Whether a triple's IRIs hold no line break. Literal objects need no
/// such condition: serialization escapes them.
pub open spec fn clean_triple(t: TripleView) -> bool {
    &&& no_newline(t.subject)
    &&& no_newline(t.predicate)
    &&& match t.object {
        TermView::Iri { iri } => no_newline(iri),
        TermView::Lit { value } => true,
    }
}

/// Whether every triple of a log is clean.
pub open spec fn clean_log(log: Seq<TripleView>) -> bool {
    forall|i: int| 0 <= i < log.len() ==> clean_triple(#[trigger] log[i])
}

/// How many line breaks a character sequence holds.
pub open spec fn newline_count(s: Seq<char>) -> nat
    decreases s.len(),
{
    if s.len() == 0 {
        0
    } else {
        (if s[0] == '\n' {
            1nat
        } else {
            0nat
        }) + newline_count(s.skip(1))
    }
}

/// Relies on oxrdf's display of triples: `SUBJECT PREDICATE OBJECT` with
/// subject and predicate written as `<iri>` verbatim, an IRI object
/// likewise, and a literal object written as the value in double quotes
/// with N-Triples escaping of quotes, backslashes and control characters,
/// so no raw line break survives in it. The result depends on the
/// triple's strings alone.
#[verifier::external_body]
fn format_triple(t: &Triple) -> (r: String)
    ensures
        r@ == triple_text(t@),
        match t@.object {
            TermView::Lit { value } => r@ == "<"@ + t@.subject + "> <"@ + t@.predicate + "> "@
                + quoted_lit(value),
            TermView::Iri { iri } => r@ == "<"@ + t@.subject + "> <"@ + t@.predicate + "> <"@ + iri
                + ">"@,
        },
        clean_triple(t@) ==> no_newline(r@),
{
    let subject = oxrdf::NamedNodeRef::new_unchecked(t.subject.as_str());
    let predicate = oxrdf::NamedNodeRef::new_unchecked(t.predicate.as_str());
    match &t.object {
        Term::Iri { iri } => oxrdf::TripleRef::new(
            subject,
            predicate,
            oxrdf::NamedNodeRef::new_unchecked(iri.as_str()),
        ).to_string(),
        Term::Lit { value } => oxrdf::TripleRef::new(
            subject,
            predicate,
            oxrdf::TermRef::Literal(oxrdf::LiteralRef::new_simple_literal(value.as_str())),
        ).to_string(),
    }
}

/// Appending text appends line breaks.
proof fn lemma_newline_count_concat(a: Seq<char>, b: Seq<char>)
    ensures
        newline_count(a + b) == newline_count(a) + newline_count(b),
    decreases a.len(),
{
    if a.len() == 0 {
        assert(a + b =~= b);
    } else {
        lemma_newline_count_concat(a.skip(1), b);
        assert((a + b).skip(1) =~= a.skip(1) + b);
        assert((a + b)[0] == a[0]);
    }
}

/// Text without line breaks counts none.
proof fn lemma_newline_count_none(s: Seq<char>)
    requires
        no_newline(s),
    ensures
        newline_count(s) == 0,
    decreases s.len(),
{
    if s.len() > 0 {
        assert(no_newline(s.skip(1)));
        lemma_newline_count_none(s.skip(1));
    }
}

/// The line terminator holds exactly one line break.
proof fn lemma_terminator_newline_count()
    ensures
        newline_count(" .\n"@) == 1,
{
    reveal_strlit(" .\n");
    let s = " .\n"@;
    assert(s =~= seq![' ', '.', '\n']);
    assert(s.skip(1) =~= seq!['.', '\n']);
    assert(s.skip(1).skip(1) =~= seq!['\n']);
    assert(s.skip(1).skip(1).skip(1) =~= Seq::<char>::empty());
    assert(newline_count(s.skip(1).skip(1).skip(1)) == 0);
    assert(newline_count(s.skip(1).skip(1)) == 1);
    assert(newline_count(s.skip(1)) == 1);
}

/// Rendering a log one triple longer appends that triple's line.
proof fn lemma_render_snoc(log: Seq<TripleView>, t: TripleView)
    ensures
        render(log.push(t)) == render(log) + triple_line(t),
    decreases log.len(),
{
    if log.len() == 0 {
        assert(log.push(t).skip(1) =~= Seq::<TripleView>::empty());
        assert(log.push(t)[0] == t);
        assert(render(Seq::<TripleView>::empty()) == Seq::<char>::empty());
        assert(render(log.push(t)) =~= render(log) + triple_line(t));
    } else {
        lemma_render_snoc(log.skip(1), t);
        assert(log.push(t).skip(1) =~= log.skip(1).push(t));
        assert(log.push(t)[0] == log[0]);
        assert(render(log.push(t)) =~= render(log) + triple_line(t));
    }
}

/// The textual sink. It serializes each accepted triple as one line,
/// `SUBJECT PREDICATE OBJECT .`, and accumulates the lines in memory; the
/// surrounding program drains `output` to its durable destination. This
/// trades per-triple flushing for buffering: the sink never loses an
/// accepted line, but durability is the caller's duty.
pub struct FileWriter {
    text: String,
    written: Ghost<Seq<TripleView>>,
}

impl FileWriter {
    /// A fresh textual sink with empty output.
    pub fn new() -> (w: FileWriter)
        ensures
            w.inv(),
            w.log() == Seq::<TripleView>::empty(),
            w.never_fails(),
    {
        let w = FileWriter { text: String::new(), written: Ghost(Seq::empty()) };
        proof {
            assert(render(w.written@) =~= Seq::<char>::empty());
        }
        w
    }

    /// The serialized output accumulated so far.
    pub fn output(&self) -> (r: &str)
        requires
            self.inv(),
        ensures
            r@ == render(self.log()),
    {
        self.text.as_str()
    }
}

impl RdfWriter for FileWriter {
    closed spec fn log(&self) -> Seq<TripleView> {
        self.written@
    }

    closed spec fn inv(&self) -> bool {
        &&& self.text@ == render(self.written@)
        &&& (clean_log(self.written@) ==> newline_count(self.text@) == self.written@.len())
    }

    closed spec fn never_fails(&self) -> bool {
        true
    }

    fn add_triple(&mut self, triple: &Triple) -> (r: Result<(), SinkError>)
    {
        let line = format_triple(triple);
        self.text.append(line.as_str());
        self.text.append(" .\n");
        proof {
            let pre = self.written@;
            self.written@ = self.written@.push(triple@);
            lemma_render_snoc(pre, triple@);
            assert(self.text@ =~= render(self.written@));
            if clean_log(self.written@) {
                assert forall|i: int| 0 <= i < pre.len() implies clean_triple(
                    #[trigger] pre[i],
                ) by {
                    assert(pre[i] == self.written@[i]);
                    assert(clean_triple(self.written@[i]));
                }
                assert(clean_triple(triple@)) by {
                    assert(self.written@[pre.len() as int] == triple@);
                }
                lemma_newline_count_concat(render(pre), triple_line(triple@));
                lemma_newline_count_concat(triple_text(triple@), " .\n"@);
                lemma_newline_count_none(triple_text(triple@));
                lemma_terminator_newline_count();
            }
        }
        Ok(())
    }
}

/// The in-memory sink: inserts each accepted triple into an RDF graph.
/// The graph is inherently a set, so duplicate triples collapse.
pub struct GraphWriter {
    graph: oxrdf::Graph,
    written: Ghost<Seq<TripleView>>,
}

#[verifier::external_type_specification]
#[verifier::external_body]
pub struct ExGraph(oxrdf::Graph);

/// What an `oxrdf::Graph` holds: its set of triples, with the IRIs and
/// literal values as plain strings.
pub uninterp spec fn graph_triples(g: oxrdf::Graph) -> Set<TripleView>;

/// Relies on `oxrdf::Graph::new`: an empty graph.
#[verifier::external_body]
fn graph_new() -> (g: oxrdf::Graph)
    ensures
        graph_triples(g) == Set::<TripleView>::empty(),
{
    oxrdf::Graph::new()
}

/// Relies on `oxrdf::Graph::insert`: adds one triple to the graph's set
/// of triples and reports whether it was new; inserting a triple the
/// graph already holds changes nothing.
#[verifier::external_body]
fn graph_insert(g: &mut oxrdf::Graph, t: &Triple) -> (added: bool)
    ensures
        graph_triples(*final(g)) == graph_triples(*old(g)).insert(t@),
        added == !graph_triples(*old(g)).contains(t@),
{
    let subject = oxrdf::NamedNodeRef::new_unchecked(t.subject.as_str());
    let predicate = oxrdf::NamedNodeRef::new_unchecked(t.predicate.as_str());
    match &t.object {
        Term::Iri { iri } => g.insert(oxrdf::TripleRef::new(
            subject,
            predicate,
            oxrdf::NamedNodeRef::new_unchecked(iri.as_str()),
        )),
        Term::Lit { value } => g.insert(oxrdf::TripleRef::new(
            subject,
            predicate,
            oxrdf::TermRef::Literal(oxrdf::LiteralRef::new_simple_literal(value.as_str())),
        )),
    }
}

/// Relies on `oxrdf::Graph::len`: the number of triples in the graph.
#[verifier::external_body]
fn graph_len(g: &oxrdf::Graph) -> (n: usize)
    ensures
        n == graph_triples(*g).len(),
{
    g.len()
}

impl GraphWriter {
    /// A writer over a fresh, empty graph.
    pub fn new() -> (w: GraphWriter)
        ensures
            w.inv(),
            w.log() == Seq::<TripleView>::empty(),
            w.never_fails(),
    {
        let g = graph_new();
        let w = GraphWriter { graph: g, written: Ghost(Seq::empty()) };
        proof {
            assert(w.written@.to_set() =~= Set::<TripleView>::empty());
        }
        w
    }

    /// The number of distinct triples the graph holds.
    pub fn len(&self) -> (n: usize)
        requires
            self.inv(),
        ensures
            n == self.log().to_set().len(),
    {
        graph_len(&self.graph)
    }

    /// Hands the accumulated graph to the caller.
    pub fn into_graph(self) -> (g: oxrdf::Graph)
        requires
            self.inv(),
        ensures
            graph_triples(g) == self.log().to_set(),
    {
        self.graph
    }
}

impl RdfWriter for GraphWriter {
    closed spec fn log(&self) -> Seq<TripleView> {
        self.written@
    }

    closed spec fn inv(&self) -> bool {
        graph_triples(self.graph) == self.written@.to_set()
    }

    closed spec fn never_fails(&self) -> bool {
        true
    }

    fn add_triple(&mut self, triple: &Triple) -> (r: Result<(), SinkError>)
    {
        let _ = graph_insert(&mut self.graph, triple);
        proof {
            let pre = self.written@;
            self.written@ = self.written@.push(triple@);
            pre.lemma_push_to_set_commute(triple@);
        }
        Ok(())
    }
}

/// Both sink realizations agree on the triple count for the same input.
/// A log of pairwise-distinct triples whose IRIs hold no line break
/// renders into the textual sink as exactly one line — one line break —
/// per triple, so a conforming line-oriented triple parser reads as many
/// triples back as the in-memory graph holds.
pub proof fn lemma_sinks_agree_on_count(fw: FileWriter, gw: GraphWriter)
    requires
        fw.inv(),
        gw.inv(),
        fw.log() == gw.log(),
        fw.log().no_duplicates(),
        clean_log(fw.log()),
    ensures
        newline_count(render(fw.log())) == fw.log().len(),
        gw.log().to_set().len() == fw.log().len(),
{
    gw.log().unique_seq_to_set();
}

} // verus!
