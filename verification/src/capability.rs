//! The capability graph: every value owns a root capability, which can be
//! lent for reading or writing and consumed by a move; a moved value is dead.
use vstd::prelude::*;
use crate::error::{SemanticError, Span};
use crate::net_verifier::{
    find_str_key, find_u32_key, first_key, keyed_insert, lemma_first_key, lemma_keyed_insert_finds,
    lemma_keyed_insert_has, lemma_keyed_insert_keeps, lemma_same_keys,
};
use crate::ownership_enforcement::append_decimal;
use crate::text::nat_decimal;

verus! {

/// The identity of a capability.
pub type CapabilityId = u32;

/// How a capability was obtained.
#[derive(Clone, Copy, Debug, PartialEq, Eq, Structural)]
pub enum CapabilityKind {
    Root,
    Read,
    Write,
    Move,
}

/// A capability handed from one holder to another.
#[derive(Clone, Copy, Debug)]
pub struct CapabilityEdge {
    pub from: CapabilityId,
    pub to: CapabilityId,
    pub kind: CapabilityKind,
    pub span: Span,
}

/// The root capability of a value.
#[derive(Clone, Debug)]
pub struct CapabilityNode {
    pub id: CapabilityId,
    pub name: String,
    pub alive: bool,
    pub consumed_at: Option<Span>,
}

/// The model of a node.
pub struct NodeModel {
    pub id: CapabilityId,
    pub name: Seq<char>,
    pub alive: bool,
    pub consumed_at: Option<Span>,
}

impl View for CapabilityNode {
    type V = NodeModel;

    open spec fn view(&self) -> NodeModel {
        NodeModel { id: self.id, name: self.name@, alive: self.alive, consumed_at: self.consumed_at }
    }
}

/// The capability graph: the nodes by identity, the edges in the order they
/// were added, and the identity of each value's root by name.
#[derive(Debug)]
pub struct CapabilityGraph {
    nodes: Vec<(CapabilityId, CapabilityNode)>,
    edges: Vec<CapabilityEdge>,
    by_value: Vec<(String, CapabilityId)>,
}

/// The model of the graph: keyed lists of nodes and of value names (a later
/// entry for a key replaces the earlier one in place), and the edges.
pub struct GraphModel {
    pub nodes: Seq<(CapabilityId, NodeModel)>,
    pub edges: Seq<CapabilityEdge>,
    pub names: Seq<(Seq<char>, CapabilityId)>,
}

/// The model of the keyed node list.
pub open spec fn nodes_view(v: Seq<(CapabilityId, CapabilityNode)>) -> Seq<(CapabilityId, NodeModel)> {
    Seq::new(v.len(), |i: int| (v[i].0, v[i].1@))
}

/// The model of the keyed name list.
pub open spec fn names_view(v: Seq<(String, CapabilityId)>) -> Seq<(Seq<char>, CapabilityId)> {
    Seq::new(v.len(), |i: int| (v[i].0@, v[i].1))
}

impl View for CapabilityGraph {
    type V = GraphModel;

    closed spec fn view(&self) -> GraphModel {
        GraphModel { nodes: nodes_view(self.nodes@), edges: self.edges@, names: names_view(self.by_value@) }
    }
}

/// The root capability of the value `name`.
pub open spec fn name_id(g: GraphModel, name: Seq<char>) -> Option<CapabilityId> {
    match first_key(g.names, name) {
        Some(i) => Some(g.names[i].1),
        None => None,
    }
}

/// The node of capability `id`.
pub open spec fn node_of(g: GraphModel, id: CapabilityId) -> Option<NodeModel> {
    match first_key(g.nodes, id) {
        Some(i) => Some(g.nodes[i].1),
        None => None,
    }
}

/// Every named value has a node.
pub open spec fn graph_wf(g: GraphModel) -> bool {
    forall|k: int| 0 <= k < g.names.len() ==> #[trigger] first_key(g.nodes, g.names[k].1) is Some
}

/// The graph after `alloc_root`: a live node for `id`, and `name` bound to it.
pub open spec fn with_root(g: GraphModel, id: CapabilityId, name: Seq<char>) -> GraphModel {
    GraphModel {
        nodes: keyed_insert(g.nodes, id, NodeModel { id, name, alive: true, consumed_at: None }),
        edges: g.edges,
        names: keyed_insert(g.names, name, id),
    }
}

/// The graph with one more edge.
pub open spec fn with_edge(g: GraphModel, e: CapabilityEdge) -> GraphModel {
    GraphModel { nodes: g.nodes, edges: g.edges.push(e), names: g.names }
}

/// The graph after `consume_move`: the move edge, and the source dead since
/// `span` when it has a node.
pub open spec fn with_move(g: GraphModel, from: CapabilityId, to: CapabilityId, span: Span) -> GraphModel {
    let e = CapabilityEdge { from, to, kind: CapabilityKind::Move, span };
    GraphModel {
        nodes: match first_key(g.nodes, from) {
            Some(i) => g.nodes.update(
                i,
                (from, NodeModel { id: g.nodes[i].1.id, name: g.nodes[i].1.name, alive: false, consumed_at: Some(span) }),
            ),
            None => g.nodes,
        },
        edges: g.edges.push(e),
        names: g.names,
    }
}

/// Where a dead value was consumed, as the use-after-move message says it.
pub open spec fn consumed_note(c: Option<Span>) -> Seq<char> {
    match c {
        Some(s) => " (consumed at byte offset "@ + nat_decimal(s.offset as nat) + " len "@ + nat_decimal(
            s.len as nat,
        ) + ")"@,
        None => Seq::empty(),
    }
}

/// What `ensure_alive` gives for `name`: its capability when it is alive, or
/// the message of the error.
pub open spec fn alive_check(g: GraphModel, name: Seq<char>) -> Result<CapabilityId, Seq<char>> {
    match name_id(g, name) {
        None => Err("unknown value '"@ + name + "'"@),
        Some(id) => match node_of(g, id) {
            Some(n) => if n.alive {
                Ok(id)
            } else {
                Err("use after move: '"@ + name + "'"@ + consumed_note(n.consumed_at))
            },
            None => Ok(id),
        },
    }
}

/// After `alloc_root`, the new value is alive, and every other value that was
/// alive still is.
pub proof fn lemma_with_root_alive(g: GraphModel, id: CapabilityId, name: Seq<char>, other: Seq<char>)
    ensures
        alive_check(with_root(g, id, name), name) is Ok,
        other != name && alive_check(g, other) is Ok ==> alive_check(with_root(g, id, name), other) is Ok,
{
    let node = NodeModel { id, name, alive: true, consumed_at: None };
    let h = with_root(g, id, name);
    lemma_keyed_insert_finds(g.names, name, id);
    lemma_keyed_insert_finds(g.nodes, id, node);
    if other != name && alive_check(g, other) is Ok {
        crate::net_verifier::lemma_keyed_insert_other(g.names, name, id, other);
        let oid = name_id(g, other)->0;
        if oid != id {
            crate::net_verifier::lemma_keyed_insert_other(g.nodes, id, node, oid);
        }
    }
}

impl CapabilityGraph {
    /// The graph is consistent: every named value has a node.
    pub closed spec fn wf(&self) -> bool {
        graph_wf(self@)
    }

    /// The empty graph.
    pub fn new() -> (r: Self)
        ensures
            r.wf(),
            r@.nodes.len() == 0,
            r@.edges.len() == 0,
            r@.names.len() == 0,
    {
        let r = CapabilityGraph { nodes: Vec::new(), edges: Vec::new(), by_value: Vec::new() };
        assert(r@.nodes =~= Seq::<(CapabilityId, NodeModel)>::empty());
        assert(r@.names =~= Seq::<(Seq<char>, CapabilityId)>::empty());
        r
    }

    /// Allocates the root capability `id` of the value `value_name`.
    pub fn alloc_root(&mut self, id: CapabilityId, value_name: &str)
        requires
            old(self).wf(),
        ensures
            final(self).wf(),
            final(self)@ == with_root(old(self)@, id, value_name@),
    {
        let ghost g0 = self@;
        let node = CapabilityNode { id, name: String::from_str(value_name), alive: true, consumed_at: None };
        proof {
            lemma_same_keys(self.nodes@, g0.nodes, id);
        }
        match find_u32_key(&self.nodes, id) {
            Some(i) => {
                proof {
                    assert(self.nodes@[i as int].0 == g0.nodes[i as int].0);
                }
                self.nodes.set(i, (id, node));
            },
            None => {
                self.nodes.push((id, node));
            },
        }
        assert(nodes_view(self.nodes@) =~= keyed_insert(g0.nodes, id, NodeModel { id, name: value_name@, alive: true, consumed_at: None }));
        let ghost nodes1 = nodes_view(self.nodes@);
        proof {
            crate::net_verifier::lemma_first_key(g0.names, value_name@);
        }
        match find_str_key(&self.by_value, value_name) {
            Some(i) => {
                proof {
                    crate::net_verifier::lemma_first_key_scan(g0.names, value_name@, i as int);
                }
                self.by_value.set(i, (String::from_str(value_name), id));
            },
            None => {
                proof {
                    assert forall|j: int| 0 <= j < g0.names.len() implies g0.names[j].0 != value_name@ by {
                        assert(g0.names[j].0 == self.by_value@[j].0@);
                    }
                    lemma_first_key(g0.names, value_name@);
                }
                self.by_value.push((String::from_str(value_name), id));
            },
        }
        assert(names_view(self.by_value@) =~= keyed_insert(g0.names, value_name@, id));
        proof {
            lemma_keyed_insert_has(g0.nodes, id, NodeModel { id, name: value_name@, alive: true, consumed_at: None });
            let g1 = self@;
            assert forall|k: int| 0 <= k < g1.names.len() implies #[trigger] first_key(g1.nodes, g1.names[k].1) is Some by {
                lemma_keyed_insert_names(g0.names, value_name@, id, k);
                if g1.names[k].1 != id {
                    let j = lemma_keyed_insert_from(g0.names, value_name@, id, k);
                    assert(first_key(g0.nodes, g0.names[j].1) is Some);
                    lemma_keyed_insert_keeps(g0.nodes, id, NodeModel { id, name: value_name@, alive: true, consumed_at: None }, g1.names[k].1);
                }
            }
        }
    }
}

impl CapabilityGraph {
    /// The root capability of `value_name` when the value is alive; an error
    /// when the name is unknown or the value was moved.
    pub fn ensure_alive(&self, value_name: &str, span: Span) -> (r: Result<CapabilityId, SemanticError>)
        requires
            self.wf(),
        ensures
            match alive_check(self@, value_name@) {
                Ok(id) => r == Ok::<CapabilityId, SemanticError>(id),
                Err(m) => r matches Err(e) && e.message@ == m && e.span == span,
            },
    {
        let ghost g = self@;
        proof {
            crate::net_verifier::lemma_first_key(g.names, value_name@);
        }
        let id = match find_str_key(&self.by_value, value_name) {
            Some(i) => {
                proof {
                    assert forall|j: int| 0 <= j < i implies g.names[j].0 != value_name@ by {
                        assert(g.names[j].0 == self.by_value@[j].0@);
                    }
                    crate::net_verifier::lemma_first_key_scan(g.names, value_name@, i as int);
                }
                self.by_value[i].1
            },
            None => {
                proof {
                    assert forall|j: int| 0 <= j < g.names.len() implies g.names[j].0 != value_name@ by {
                        assert(g.names[j].0 == self.by_value@[j].0@);
                    }
                    lemma_first_key(g.names, value_name@);
                }
                let mut m = String::from_str("unknown value '");
                m.append(value_name);
                m.append("'");
                return Err(SemanticError { message: m, span });
            },
        };
        proof {
            lemma_same_keys(self.nodes@, g.nodes, id);
            let k = first_key(g.names, value_name@)->0;
            assert(first_key(g.nodes, g.names[k].1) is Some);
        }
        match find_u32_key(&self.nodes, id) {
            Some(i) => {
                let node = &self.nodes[i].1;
                if !node.alive {
                    let mut m = String::from_str("use after move: '");
                    m.append(value_name);
                    m.append("'");
                    match node.consumed_at {
                        Some(s) => {
                            m.append(" (consumed at byte offset ");
                            append_decimal(&mut m, s.offset as u64);
                            m.append(" len ");
                            append_decimal(&mut m, s.len as u64);
                            m.append(")");
                        },
                        None => {},
                    }
                    return Err(SemanticError { message: m, span });
                }
                Ok(id)
            },
            None => Ok(id),
        }
    }

    /// Records that capability `from` lends read access to `to`.
    pub fn lend_read(&mut self, from: CapabilityId, to: CapabilityId, span: Span)
        requires
            old(self).wf(),
        ensures
            final(self).wf(),
            final(self)@ == with_edge(old(self)@, CapabilityEdge { from, to, kind: CapabilityKind::Read, span }),
    {
        self.edges.push(CapabilityEdge { from, to, kind: CapabilityKind::Read, span });
    }

    /// Records that capability `from` lends write access to `to`.
    pub fn lend_write(&mut self, from: CapabilityId, to: CapabilityId, span: Span)
        requires
            old(self).wf(),
        ensures
            final(self).wf(),
            final(self)@ == with_edge(old(self)@, CapabilityEdge { from, to, kind: CapabilityKind::Write, span }),
    {
        self.edges.push(CapabilityEdge { from, to, kind: CapabilityKind::Write, span });
    }

    /// Records that capability `from` moves to `to`: the value of `from` is
    /// dead from `span` on.
    pub fn consume_move(&mut self, from: CapabilityId, to: CapabilityId, span: Span)
        requires
            old(self).wf(),
        ensures
            final(self).wf(),
            final(self)@ == with_move(old(self)@, from, to, span),
    {
        let ghost g0 = self@;
        self.edges.push(CapabilityEdge { from, to, kind: CapabilityKind::Move, span });
        proof {
            lemma_same_keys(self.nodes@, g0.nodes, from);
        }
        match find_u32_key(&self.nodes, from) {
            Some(i) => {
                let k = self.nodes[i].0;
                let dead = CapabilityNode {
                    id: self.nodes[i].1.id,
                    name: String::from_str(self.nodes[i].1.name.as_str()),
                    alive: false,
                    consumed_at: Some(span),
                };
                proof {
                    lemma_first_key(self.nodes@, from);
                    assert(g0.nodes == nodes_view(self.nodes@));
                    assert(g0.nodes[i as int].1 == self.nodes@[i as int].1@);
                }
                let ghost name = self.nodes@[i as int].1.name@;
                self.nodes.set(i, (k, dead));
                assert(nodes_view(self.nodes@) =~= g0.nodes.update(
                    i as int,
                    (from, NodeModel { id: g0.nodes[i as int].1.id, name: g0.nodes[i as int].1.name, alive: false, consumed_at: Some(span) }),
                ));
            },
            None => {},
        }
        proof {
            let g1 = self@;
            assert forall|k: int| 0 <= k < g1.names.len() implies #[trigger] first_key(g1.nodes, g1.names[k].1) is Some by {
                assert(first_key(g0.nodes, g0.names[k].1) is Some);
                lemma_same_keys(g1.nodes, g0.nodes, g1.names[k].1);
            }
        }
    }
}

impl Default for CapabilityGraph {
    fn default() -> (r: Self)
        ensures
            r.wf(),
            r@.nodes.len() == 0,
            r@.edges.len() == 0,
            r@.names.len() == 0,
    {
        CapabilityGraph::new()
    }
}

/// A value whose root capability was just allocated is alive, with that
/// capability.
pub proof fn law_fresh_root_is_alive(g: GraphModel, id: CapabilityId, name: Seq<char>)
    requires
        graph_wf(g),
    ensures
        alive_check(with_root(g, id, name), name) == Ok::<CapabilityId, Seq<char>>(id),
{
    let node = NodeModel { id, name, alive: true, consumed_at: None };
    lemma_keyed_insert_finds(g.names, name, id);
    lemma_keyed_insert_finds(g.nodes, id, node);
}

/// Once a value's capability is moved, every use of the value is refused as
/// a use after move that names where it was consumed.
pub proof fn law_moved_value_is_dead(g: GraphModel, from: CapabilityId, to: CapabilityId, span: Span, name: Seq<char>)
    requires
        graph_wf(g),
        name_id(g, name) == Some(from),
    ensures
        alive_check(with_move(g, from, to, span), name) == Err::<CapabilityId, Seq<char>>(
            "use after move: '"@ + name + "'"@ + consumed_note(Some(span)),
        ),
{
    let g1 = with_move(g, from, to, span);
    lemma_first_key(g.names, name);
    let k = first_key(g.names, name)->0;
    assert(first_key(g.nodes, g.names[k].1) is Some);
    lemma_first_key(g.nodes, from);
    let i = first_key(g.nodes, from)->0;
    assert forall|j: int| 0 <= j < g.nodes.len() implies #[trigger] g1.nodes[j].0 == g.nodes[j].0 by {}
    lemma_same_keys(g1.nodes, g.nodes, from);
}

/// Lending a capability for reading or writing changes no value's liveness.
pub proof fn law_lending_keeps_liveness(g: GraphModel, e: CapabilityEdge, name: Seq<char>)
    requires
        e.kind == CapabilityKind::Read || e.kind == CapabilityKind::Write,
    ensures
        alive_check(with_edge(g, e), name) == alive_check(g, name),
{
}




/// Each entry after a keyed insert is the new one or an entry from before.
proof fn lemma_keyed_insert_names(s: Seq<(Seq<char>, CapabilityId)>, k: Seq<char>, v: CapabilityId, x: int)
    requires
        0 <= x < keyed_insert(s, k, v).len(),
    ensures
        keyed_insert(s, k, v)[x] == (k, v) || (x < s.len() && keyed_insert(s, k, v)[x] == s[x]),
{
    lemma_first_key(s, k);
}

/// An entry after a keyed insert whose value differs from the inserted one
/// was there before.
proof fn lemma_keyed_insert_from(s: Seq<(Seq<char>, CapabilityId)>, k: Seq<char>, v: CapabilityId, x: int) -> (j: int)
    requires
        0 <= x < keyed_insert(s, k, v).len(),
        keyed_insert(s, k, v)[x].1 != v,
    ensures
        0 <= j < s.len(),
        s[j].1 == keyed_insert(s, k, v)[x].1,
{
    lemma_first_key(s, k);
    x
}


} // verus!
