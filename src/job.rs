//! The job-dependency graph that a worker shard keeps, and the lookup of a
//! job's children with a checksum over them.
use petgraph::graphmap::DiGraphMap;
use petgraph::graphmap::GraphMap;
use petgraph::Directed;
use vstd::prelude::*;
use vstd::string::StringExecFns;
use crate::checksum::{be_bytes, encode_checksum, wyhash_digest, Checksummable, NeuromancerError};
use crate::message::{concat_wire, Identifier, RunIdentifiers};

verus! {

#[verifier::external_type_specification]
#[verifier::external_body]
#[verifier::reject_recursive_types(N)]
#[verifier::reject_recursive_types(E)]
#[verifier::reject_recursive_types(Ty)]
pub struct ExGraphMap<N, E, Ty>(GraphMap<N, E, Ty>);

#[verifier::external_type_specification]
#[verifier::external_body]
pub struct ExDirected(Directed);

/// Each job of a graph to its children, in the order in which the edges
/// were added.
pub uninterp spec fn graph_children(g: GraphMap<u128, (), Directed>) -> Map<u128, Seq<u128>>;

/// The edges of a graph.
pub uninterp spec fn graph_edges(g: GraphMap<u128, (), Directed>) -> Set<(u128, u128)>;

/// What a graph lists as the children of a job: nothing for an unknown job.
pub open spec fn children_or_empty(children: Map<u128, Seq<u128>>, id: u128) -> Seq<u128> {
    if children.contains_key(id) {
        children[id]
    } else {
        Seq::empty()
    }
}

/// The graph's adjacency once an edge from `a` to `b` is added that was
/// not there: `b` is appended to the children of `a`, and either job is
/// recorded where it was missing.
pub open spec fn with_new_edge(children: Map<u128, Seq<u128>>, a: u128, b: u128) -> Map<
    u128,
    Seq<u128>,
> {
    let c = children.insert(b, children_or_empty(children, b));
    c.insert(a, children_or_empty(c, a).push(b))
}

/// Relies on `GraphMap::new`: a graph with no node and no edge.
#[verifier::external_body]
fn graph_new() -> (r: DiGraphMap<u128, ()>)
    ensures
        graph_children(r).is_empty(),
        graph_edges(r).is_empty(),
{
    DiGraphMap::new()
}

/// Relies on `GraphMap::add_node`: the node is added, with no child, unless
/// it is there already.
#[verifier::external_body]
fn graph_add_node(g: &mut DiGraphMap<u128, ()>, n: u128)
    ensures
        graph_edges(*final(g)) == graph_edges(*old(g)),
        graph_children(*final(g)) == graph_children(*old(g)).insert(
            n,
            children_or_empty(graph_children(*old(g)), n),
        ),
{
    g.add_node(n);
}

/// Relies on `GraphMap::add_edge`: an edge that is there already only has
/// its weight replaced; a new one appends `b` to the outgoing adjacency of
/// `a`, adding either node where it is missing.
#[verifier::external_body]
fn graph_add_edge(g: &mut DiGraphMap<u128, ()>, a: u128, b: u128)
    ensures
        graph_edges(*final(g)) == graph_edges(*old(g)).insert((a, b)),
        graph_edges(*old(g)).contains((a, b)) ==> graph_children(*final(g)) == graph_children(
            *old(g),
        ),
        !graph_edges(*old(g)).contains((a, b)) ==> graph_children(*final(g)) == with_new_edge(
            graph_children(*old(g)),
            a,
            b,
        ),
{
    g.add_edge(a, b, ());
}

/// Relies on `GraphMap::contains_node`.
#[verifier::external_body]
fn graph_contains_node(g: &DiGraphMap<u128, ()>, n: u128) -> (r: bool)
    ensures
        r == graph_children(*g).contains_key(n),
{
    g.contains_node(n)
}

/// Relies on `GraphMap::neighbors`: on a directed graph, the targets of the
/// outgoing edges of the node, in the order in which they were added.
#[verifier::external_body]
fn graph_neighbors(g: &DiGraphMap<u128, ()>, n: u128) -> (r: Vec<u128>)
    ensures
        r@ == children_or_empty(graph_children(*g), n),
{
    g.neighbors(n).collect()
}

/// A lowercase hexadecimal digit.
pub open spec fn hex_digit(d: u128) -> char {
    if d < 10 {
        (d + 48) as char
    } else {
        (d + 87) as char
    }
}

/// The `i`-th four-bit digit of an identifier, most significant first.
pub open spec fn nibble(id: u128, i: int) -> u128 {
    (id >> ((124 - 4 * i) as u128)) & 15u128
}

/// The hexadecimal digits `from..to` of an identifier.
pub open spec fn hex_run(id: u128, from: int, to: int) -> Seq<char> {
    Seq::new((to - from) as nat, |k: int| hex_digit(nibble(id, from + k)))
}

/// The hyphenated text of an identifier: 8-4-4-4-12 lowercase digits.
pub open spec fn hyphenated(id: u128) -> Seq<char> {
    hex_run(id, 0, 8) + seq!['-'] + hex_run(id, 8, 12) + seq!['-'] + hex_run(id, 12, 16) + seq![
        '-',
    ] + hex_run(id, 16, 20) + seq!['-'] + hex_run(id, 20, 32)
}

/// What `uuid::Uuid::parse_str` makes of a text: the identifier as a
/// 128-bit value, or the text of the parser's error.
pub uninterp spec fn uuid_parse(s: Seq<char>) -> Result<u128, Seq<char>>;

/// Relies on `uuid::Uuid::parse_str`, `Uuid::as_u128` and the `Display` of
/// `uuid::Error`: the identifier in simple, hyphenated or URN form, or the
/// description of why the text is none of these.
#[verifier::external_body]
fn parse_identifier(s: &str) -> (r: Result<u128, String>)
    ensures
        match r {
            Ok(v) => uuid_parse(s@) == Ok::<u128, Seq<char>>(v),
            Err(t) => uuid_parse(s@) == Err::<u128, Seq<char>>(t@),
        },
{
    match uuid::Uuid::parse_str(s) {
        Ok(u) => Ok(u.as_u128()),
        Err(e) => Err(e.to_string()),
    }
}

/// The view of a parse result: the error as its text.
pub open spec fn parsed_view(p: Result<u128, String>) -> Result<u128, Seq<char>> {
    match p {
        Ok(v) => Ok(v),
        Err(t) => Err(t@),
    }
}

/// Relies on `uuid::Uuid::from_u128` and the `Display` of `Uuid`: the
/// hyphenated lowercase form.
#[verifier::external_body]
fn identifier_text(id: u128) -> (r: String)
    ensures
        r@ == hyphenated(id),
{
    uuid::Uuid::from_u128(id).to_string()
}

/// Why a lookup of a job's children was refused.
#[derive(Clone, Debug)]
pub enum JobLookupError {
    /// The request holds an empty identifier.
    NoIdentifierProvided,
    /// The identifier does not parse; the parser's description of why.
    InvalidIdentifier(String),
    /// The graph does not know the job.
    IdentifierNotFound(u128),
    /// The checksum over the children could not be computed.
    Encoding(NeuromancerError),
}

impl JobLookupError {
    pub open spec fn message_spec(&self) -> Seq<char> {
        match self {
            JobLookupError::NoIdentifierProvided => "no identifier provided"@,
            JobLookupError::InvalidIdentifier(detail) => "uuid encoding error: "@ + detail@,
            JobLookupError::IdentifierNotFound(id) => "no identifiers were found for "@ + hyphenated(
                *id,
            ),
            JobLookupError::Encoding(e) => e.message_spec(),
        }
    }

    /// A description of the error for the caller.
    pub fn message(&self) -> (r: String)
        ensures
            r@ == self.message_spec(),
    {
        match self {
            JobLookupError::NoIdentifierProvided => String::from_str("no identifier provided"),
            JobLookupError::InvalidIdentifier(detail) => {
                let mut m = String::from_str("uuid encoding error: ");
                m.append(detail.as_str());
                m
            },
            JobLookupError::IdentifierNotFound(id) => {
                let mut m = String::from_str("no identifiers were found for ");
                let t = identifier_text(*id);
                m.append(t.as_str());
                m
            },
            JobLookupError::Encoding(e) => e.message(),
        }
    }
}

/// The children that a lookup returns, given what the request's identifier
/// parses to; none where the lookup is refused.
pub open spec fn lookup_found(
    children: Map<u128, Seq<u128>>,
    request: Seq<char>,
    parsed: Result<u128, Seq<char>>,
) -> Option<Seq<u128>> {
    if request.len() == 0 {
        None
    } else {
        match parsed {
            Ok(id) => if children.contains_key(id) {
                Some(children[id])
            } else {
                None
            },
            Err(_) => None,
        }
    }
}

/// The error with which a lookup is refused: an empty identifier, then one
/// that does not parse (with the parser's text), then an unknown job.
pub open spec fn refused_with(
    children: Map<u128, Seq<u128>>,
    request: Seq<char>,
    parsed: Result<u128, Seq<char>>,
    e: JobLookupError,
) -> bool {
    if request.len() == 0 {
        e is NoIdentifierProvided
    } else {
        match parsed {
            Err(detail) => e matches JobLookupError::InvalidIdentifier(t) && t@ == detail,
            Ok(id) => !children.contains_key(id) && (e matches JobLookupError::IdentifierNotFound(x)
                && x == id),
        }
    }
}

/// The identifiers hold the hyphenated forms of the values, in order.
pub open spec fn texts_of(ids: Seq<Identifier>, values: Seq<u128>) -> bool {
    &&& ids.len() == values.len()
    &&& forall|i: int| 0 <= i < ids.len() ==> #[trigger] ids[i].uuid@ == hyphenated(values[i])
}

/// The job-dependency graph of a worker shard: an edge runs from a job to
/// each of its children.
pub struct JobGraph {
    graph: DiGraphMap<u128, ()>,
}

impl JobGraph {
    /// Each job to its children, in the order in which they were added.
    pub closed spec fn children(&self) -> Map<u128, Seq<u128>> {
        graph_children(self.graph)
    }

    pub fn new() -> (r: JobGraph)
        ensures
            r.children().is_empty(),
            r.edges().is_empty(),
    {
        JobGraph { graph: graph_new() }
    }

    /// Records a job, with no child if it is new.
    pub fn add_job(&mut self, id: u128)
        ensures
            final(self).edges() == old(self).edges(),
            final(self).children() == old(self).children().insert(
                id,
                children_or_empty(old(self).children(), id),
            ),
    {
        graph_add_node(&mut self.graph, id);
    }

    /// The dependency edges, parent to child.
    pub closed spec fn edges(&self) -> Set<(u128, u128)> {
        graph_edges(self.graph)
    }

    /// Records that `child` depends on `parent`; both jobs are recorded. A
    /// dependency that is recorded already changes nothing.
    pub fn add_dependency(&mut self, parent: u128, child: u128)
        ensures
            final(self).edges() == old(self).edges().insert((parent, child)),
            old(self).edges().contains((parent, child)) ==> final(self).children() == old(
                self,
            ).children(),
            !old(self).edges().contains((parent, child)) ==> final(self).children()
                == with_new_edge(old(self).children(), parent, child),
    {
        graph_add_edge(&mut self.graph, parent, child);
    }

    /// The children of the requested job, given what its identifier parses to.
    pub fn children_of(&self, request: &Identifier, parsed: Result<u128, String>) -> (r: Result<
        Vec<Identifier>,
        JobLookupError,
    >)
        ensures
            match lookup_found(self.children(), request.uuid@, parsed_view(parsed)) {
                Some(values) => r matches Ok(ids) && texts_of(ids@, values),
                None => r matches Err(e) && refused_with(
                    self.children(),
                    request.uuid@,
                    parsed_view(parsed),
                    e,
                ),
            },
    {
        if request.uuid.as_str().is_empty() {
            return Err(JobLookupError::NoIdentifierProvided);
        }
        let id = match parsed {
            Ok(id) => id,
            Err(detail) => {
                return Err(JobLookupError::InvalidIdentifier(detail));
            },
        };
        if !graph_contains_node(&self.graph, id) {
            return Err(JobLookupError::IdentifierNotFound(id));
        }
        let neighbors = graph_neighbors(&self.graph, id);
        let mut identifiers: Vec<Identifier> = Vec::new();
        let mut i: usize = 0;
        while i < neighbors.len()
            invariant
                i <= neighbors@.len(),
                texts_of(identifiers@, neighbors@.subrange(0, i as int)),
            decreases neighbors@.len() - i,
        {
            identifiers.push(Identifier { uuid: identifier_text(neighbors[i]) });
            i = i + 1;
        }
        proof {
            assert(neighbors@.subrange(0, neighbors@.len() as int) == neighbors@);
        }
        Ok(identifiers)
    }

    /// Looks up the children of a job and returns them with the checksum
    /// over them under `seed`.
    pub fn identifiers(&self, request: &Identifier, seed: u64) -> (r: Result<RunIdentifiers, JobLookupError>)
        ensures
            match lookup_found(self.children(), request.uuid@, uuid_parse(request.uuid@)) {
                Some(values) => r matches Ok(run) && texts_of(run.run_ids@, values) && run.checksum@
                    == be_bytes(wyhash_digest(seed, concat_wire(run.run_ids@))),
                None => r matches Err(e) && refused_with(
                    self.children(),
                    request.uuid@,
                    uuid_parse(request.uuid@),
                    e,
                ),
            },
    {
        let parsed = if request.uuid.as_str().is_empty() {
            Err(String::new())
        } else {
            parse_identifier(request.uuid.as_str())
        };
        let identifiers = match self.children_of(request, parsed) {
            Ok(ids) => ids,
            Err(e) => {
                return Err(e);
            },
        };
        let mut run = RunIdentifiers { run_ids: identifiers, checksum: Vec::new() };
        match Checksummable::checksum(&run, seed) {
            Ok(c) => {
                run.checksum = encode_checksum(c);
            },
            Err(e) => {
                return Err(JobLookupError::Encoding(e));
            },
        }
        Ok(run)
    }

    /// Moving the custody of an identifier to another shard is not done
    /// here: the request is answered with an empty identifier.
    pub fn remap(&self, _request: &Identifier) -> (r: Identifier)
        ensures
            r.uuid@.len() == 0,
    {
        Identifier { uuid: String::new() }
    }
}

} // verus!
