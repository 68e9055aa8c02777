//! The order in which declarations are taken: aliases behind the aliases they
//! mention, functions and constants behind those they refer to.
use crate::ast::{Declaration, FnBody, Ident, Node, Statement, StrId, TypeBody, TypeExpr};
use crate::decls::{
    alias_at, alias_edges, all_type_deps, call_edges, decl_at, edges_to, fan, name_at, places,
    refers_to, type_deps,
};
use crate::graph::{
    add_edge, add_node, components, components_of, edges_in, groups, new_graph, nodes_in,
    sinks_first, splits, strongly_connected,
};
use crate::shadows::{RefWalker, Walk};
use crate::walk::lemma_defined;
use petgraph::Directed;
use petgraph::stable_graph::StableGraph;
use std::collections::{HashMap, HashSet};
use vstd::prelude::*;

verus! {

broadcast use vstd::std_specs::hash::group_hash_axioms;

/// Whether all places are before `n`.
pub open spec fn below(places: Seq<usize>, n: nat) -> bool {
    forall|i: int| 0 <= i < places.len() ==> (#[trigger] places[i]) < n
}

/// The name of the declaration at a node.
pub fn decl_ident(body: &Vec<Node>, i: usize) -> (id: Ident)
    requires
        i < body@.len(),
    ensures
        id == name_at(body@, i),
{
    match &body[i] {
        Node::Statement(Statement::Declaration { decl, .. }) => match decl {
            Declaration::Function(f) => f.name,
            Declaration::Type(t) => t.name,
            Declaration::Const(c) => c.name,
        },
        _ => Ident { name: 0, span: body[i].span() },
    }
}

/// Add the names a type mentions to a list.
pub fn collect_type_ast_deps(t: &TypeExpr, out: &mut Vec<StrId>)
    ensures
        final(out)@ == old(out)@ + type_deps(*t),
    decreases *t, 0nat,
{
    match t {
        TypeExpr::Named { name, args } => {
            out.push(name.name);
            collect_all_deps(args, out);
            assert(out@ =~= old(out)@ + type_deps(*t));
        },
        TypeExpr::Function { params, ret } => {
            collect_all_deps(params, out);
            if let Some(r) = ret {
                collect_type_ast_deps(r, out);
            }
            assert(out@ =~= old(out)@ + type_deps(*t));
        },
        TypeExpr::Tuple { elements } => collect_all_deps(elements, out),
    }
}

fn collect_all_deps(ts: &Vec<TypeExpr>, out: &mut Vec<StrId>)
    ensures
        final(out)@ == old(out)@ + all_type_deps(ts@, ts@.len()),
    decreases ts@, 0nat,
{
    let ghost before = out@;
    let mut n: usize = 0;
    assert(out@ =~= before + all_type_deps(ts@, 0));
    while n < ts.len()
        invariant
            n <= ts.len(),
            out@ == before + all_type_deps(ts@, n as nat),
        decreases ts.len() - n,
    {
        collect_type_ast_deps(&ts[n], out);
        n = n + 1;
        assert(out@ =~= before + all_type_deps(ts@, n as nat));
    }
}

/// Every declaration has a place, and no place is past the last.
pub proof fn lemma_places(body: Seq<Node>, items: Seq<usize>, n: nat)
    requires
        n <= items.len(),
        items.len() <= usize::MAX,
    ensures
        forall|name: StrId| #[trigger]
            places(body, items, n).dom().contains(name) ==> places(body, items, n)[name] < n,
        forall|k: int|
            0 <= k < n ==> places(body, items, n).dom().contains(
                name_at(body, #[trigger] items[k]).name,
            ),
    decreases n,
{
    if n > 0 {
        lemma_places(body, items, (n - 1) as nat);
        let before = places(body, items, (n - 1) as nat);
        assert forall|name: StrId| #[trigger]
            places(body, items, n).dom().contains(name) implies places(body, items, n)[name]
            < n by {
            if name != name_at(body, items[n - 1]).name {
                assert(before.dom().contains(name));
            }
        }
    }
}

/// A graph with a node for each declaration, and their nodes by name.
fn start_graph(body: &Vec<Node>, items: &Vec<usize>) -> (res: (
    StableGraph<(), (), Directed, u32>,
    HashMap<StrId, usize>,
))
    requires
        below(items@, body@.len()),
        items@.len() < u32::MAX,
    ensures
        nodes_in(res.0).len() == items@.len(),
        edges_in(res.0) == Seq::<(usize, usize)>::empty(),
        res.1@ == places(body@, items@, items@.len()),
{
    let mut graph: StableGraph<(), (), Directed, u32> = new_graph();
    let mut at: HashMap<StrId, usize> = HashMap::new();
    let mut n: usize = 0;
    while n < items.len()
        invariant
            n <= items.len() < u32::MAX,
            below(items@, body@.len()),
            nodes_in(graph).len() == n,
            edges_in(graph) == Seq::<(usize, usize)>::empty(),
            at@ == places(body@, items@, n as nat),
        decreases items.len() - n,
    {
        let k: usize = add_node(&mut graph);
        at.insert(decl_ident(body, items[n]).name, k);
        n = n + 1;
    }
    (graph, at)
}

proof fn lemma_alias_edges_grow(body: Seq<Node>, items: Seq<usize>, k: nat, n: nat)
    requires
        k <= n,
    ensures
        alias_edges(body, items, k).len() <= alias_edges(body, items, n).len(),
    decreases n,
{
    if k < n {
        lemma_alias_edges_grow(body, items, k, (n - 1) as nat);
    }
}

proof fn lemma_edges_to_grow(
    at: Map<StrId, usize>,
    from: usize,
    deps: Seq<StrId>,
    k: nat,
    n: nat,
)
    requires
        k <= n,
    ensures
        edges_to(at, from, deps, k).len() <= edges_to(at, from, deps, n).len(),
    decreases n,
{
    if k < n {
        lemma_edges_to_grow(at, from, deps, k, (n - 1) as nat);
    }
}

/// The graph of aliases: an edge leads from each alias to every alias that it
/// mentions.
pub fn alias_graph(body: &Vec<Node>, items: &Vec<usize>) -> (res: (
    StableGraph<(), (), Directed, u32>,
    HashMap<StrId, usize>,
))
    requires
        below(items@, body@.len()),
        forall|k: int| 0 <= k < items@.len() ==> alias_at(body@, #[trigger] items@[k]) is Some,
        items@.len() < u32::MAX,
        alias_edges(body@, items@, items@.len()).len() < u32::MAX,
    ensures
        nodes_in(res.0).len() == items@.len(),
        edges_in(res.0) == alias_edges(body@, items@, items@.len()),
        res.1@ == places(body@, items@, items@.len()),
{
    let (mut graph, at): (StableGraph<(), (), Directed, u32>, HashMap<StrId, usize>) = start_graph(
        body,
        items,
    );
    let mut n: usize = 0;
    while n < items.len()
        invariant
            n <= items.len() < u32::MAX,
            below(items@, body@.len()),
            forall|k: int| 0 <= k < items@.len() ==> alias_at(body@, #[trigger] items@[k]) is Some,
            alias_edges(body@, items@, items@.len()).len() < u32::MAX,
            nodes_in(graph).len() == items@.len(),
            edges_in(graph) == alias_edges(body@, items@, n as nat),
            at@ == places(body@, items@, items@.len()),
        decreases items.len() - n,
    {
        proof {
            lemma_places(body@, items@, items@.len());
            lemma_alias_edges_grow(body@, items@, (n + 1) as nat, items@.len());
        }
        let name: StrId = decl_ident(body, items[n]).name;
        let from: usize = match at.get(&name) {
            Some(k) => *k,
            None => n,
        };
        assert(from == at@[name]);
        let mut deps: Vec<StrId> = Vec::new();
        if let Node::Statement(Statement::Declaration { decl, .. }) = &body[items[n]] {
            if let Declaration::Type(t) = decl {
                if let TypeBody::Alias(rhs, _) = &t.body {
                    collect_type_ast_deps(rhs, &mut deps);
                    assert(deps@ =~= type_deps(*rhs));
                }
            }
        }
        let ghost before = edges_in(graph);
        let mut k: usize = 0;
        assert(before + edges_to(at@, from, deps@, 0) =~= before);
        while k < deps.len()
            invariant
                k <= deps.len(),
                nodes_in(graph).len() == items@.len() < u32::MAX,
                from < items@.len(),
                before.len() + edges_to(at@, from, deps@, deps@.len()).len() < u32::MAX,
                edges_in(graph) == before + edges_to(at@, from, deps@, k as nat),
                at@ == places(body@, items@, items@.len()),
            decreases deps.len() - k,
        {
            proof {
                lemma_places(body@, items@, items@.len());
                lemma_edges_to_grow(at@, from, deps@, (k + 1) as nat, deps@.len());
            }
            if let Some(to) = at.get(&deps[k]) {
                add_edge(&mut graph, from, *to);
            }
            k = k + 1;
            assert(edges_in(graph) =~= before + edges_to(at@, from, deps@, k as nat));
        }
        n = n + 1;
    }
    (graph, at)
}

proof fn lemma_call_edges_grow(body: Seq<Node>, items: Seq<usize>, k: nat, n: nat)
    requires
        k <= n,
    ensures
        call_edges(body, items, k).len() <= call_edges(body, items, n).len(),
    decreases n,
{
    if k < n {
        lemma_call_edges_grow(body, items, k, (n - 1) as nat);
    }
}

/// What a declaration refers to.
fn references(at: &HashMap<StrId, usize>, node: &Node) -> (found: Vec<usize>)
    ensures
        found@ == refers_to(
            at@,
            match *node {
                Node::Statement(Statement::Declaration { decl, public }) => Some((decl, public)),
                _ => None,
            },
        ),
{
    let mut walker: RefWalker = RefWalker {
        targets: at,
        found: Vec::new(),
        shadowed: HashSet::new(),
        undo: Vec::new(),
    };
    if let Node::Statement(Statement::Declaration { decl, .. }) = node {
        match decl {
            Declaration::Function(f) => {
                if let FnBody::Block(body) = &f.body {
                    walker.define_all(&f.params);
                    walker.expr(body);
                }
            },
            Declaration::Const(c) => walker.expr(&c.init),
            Declaration::Type(_) => {},
        }
    }
    walker.found
}

/// Whether all found places are those of declarations.
proof fn lemma_found(at: Map<StrId, usize>, d: Option<(Declaration, bool)>, n: nat)
    requires
        forall|name: StrId| #[trigger] at.dom().contains(name) ==> at[name] < n,
    ensures
        below(refers_to(at, d), n),
{
    let w = Walk { targets: at, hidden: Set::empty(), found: Seq::empty() };
    match d {
        Some((Declaration::Function(f), _)) => match f.body {
            FnBody::Block(body) => {
                lemma_defined(w, f.params@, f.params@.len());
                crate::walk::lemma_targets(body, w.define_all(f.params@, f.params@.len()), n);
            },
            FnBody::Vm(_) => {},
        },
        Some((Declaration::Const(c), _)) => {
            crate::walk::lemma_targets(c.init, w, n);
        },
        _ => {},
    }
}

/// The groups of functions and constants that refer to one another, each behind
/// those it refers to. Each place is one of `items`.
pub fn build_call_graph_sccs(body: &Vec<Node>, items: &Vec<usize>) -> (res: Vec<Vec<usize>>)
    requires
        below(items@, body@.len()),
        items@.len() < u32::MAX,
        call_edges(body@, items@, items@.len()).len() < u32::MAX,
    ensures
        groups(res@) == components_of(
            items@.len(),
            call_edges(body@, items@, items@.len()),
        ),
        splits(items@.len(), groups(res@)),
        strongly_connected(call_edges(body@, items@, items@.len()), groups(res@)),
        sinks_first(call_edges(body@, items@, items@.len()), groups(res@)),
{
    let (mut graph, at): (StableGraph<(), (), Directed, u32>, HashMap<StrId, usize>) = start_graph(
        body,
        items,
    );
    let mut n: usize = 0;
    while n < items.len()
        invariant
            n <= items.len() < u32::MAX,
            below(items@, body@.len()),
            call_edges(body@, items@, items@.len()).len() < u32::MAX,
            nodes_in(graph).len() == items@.len(),
            edges_in(graph) == call_edges(body@, items@, n as nat),
            at@ == places(body@, items@, items@.len()),
        decreases items.len() - n,
    {
        proof {
            lemma_places(body@, items@, items@.len());
            lemma_call_edges_grow(body@, items@, (n + 1) as nat, items@.len());
            lemma_found(at@, decl_at(body@, items@[n as int]), items@.len());
        }
        let name: StrId = decl_ident(body, items[n]).name;
        let from: usize = match at.get(&name) {
            Some(k) => *k,
            None => n,
        };
        assert(from == at@[name]);
        let found: Vec<usize> = references(&at, &body[items[n]]);
        let ghost before = edges_in(graph);
        let mut k: usize = 0;
        assert(before + fan(from, found@).take(0) =~= before);
        while k < found.len()
            invariant
                k <= found.len(),
                nodes_in(graph).len() == items@.len() < u32::MAX,
                from < items@.len(),
                below(found@, items@.len()),
                before.len() + found@.len() < u32::MAX,
                edges_in(graph) == before + fan(from, found@).take(k as int),
            decreases found.len() - k,
        {
            add_edge(&mut graph, from, found[k]);
            k = k + 1;
            assert(edges_in(graph) =~= before + fan(from, found@).take(k as int));
        }
        assert(fan(from, found@).take(k as int) =~= fan(from, found@));
        n = n + 1;
    }
    components(&graph)
}

} // verus!
