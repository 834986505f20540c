//! Generic tree traversal with capability-based dispatch.
//!
//! A visitor opts in to the node kinds it cares about by giving those
//! callbacks a real body; a kind it does not care about gets a callback that
//! records nothing. The walker visits every node reachable from the root
//! exactly once, in pre-order: parent before children, children in
//! left-to-right source order. A callback's boolean result tells the walker
//! whether to descend into that node's children, so a rule that must not
//! double-report can skip nested scopes; nodes of kinds without a callback
//! are traversed through.

use vstd::prelude::*;

use crate::ast::Function;
use crate::ast::Module;
use crate::ast::Node;
use crate::diagnostics::DiagRecord;

verus! {

/// A traversal client: one rule's callbacks over the node kinds it observes.
///
/// `emitted` abstracts the visitor's state as the sequence of diagnostics it
/// has recorded so far. `function_output` and `arrow_output` say exactly what
/// one callback appends for a given node, and `function_descend` and
/// `arrow_descend` whether the walker is to go on into that node's children;
/// all four depend on the node alone, so a visitor is stateless in the sense
/// that earlier findings never change later ones.
pub trait Visit: Sized {
    spec fn emitted(&self) -> Seq<DiagRecord>;

    spec fn function_output(f: Function) -> Seq<DiagRecord>;

    spec fn function_descend(f: Function) -> bool;

    spec fn arrow_output(a: Function) -> Seq<DiagRecord>;

    spec fn arrow_descend(a: Function) -> bool;

    /// Callback for a classic function declaration or expression; the result
    /// tells the walker whether to descend into the body.
    fn visit_function(&mut self, f: &Function) -> (descend: bool)
        ensures
            final(self).emitted() == old(self).emitted() + Self::function_output(*f),
            descend == Self::function_descend(*f),
    ;

    /// Callback for an arrow-function expression; the result tells the
    /// walker whether to descend into the body.
    fn visit_arrow(&mut self, a: &Function) -> (descend: bool)
        ensures
            final(self).emitted() == old(self).emitted() + Self::arrow_output(*a),
            descend == Self::arrow_descend(*a),
    ;
}

/// Everything a full pre-order walk of `n` makes visitor `V` emit: the
/// node's own callback output first, then, if the callback descends, the
/// output for the children in source order.
pub open spec fn node_output<V: Visit>(n: Node) -> Seq<DiagRecord>
    decreases n,
{
    match n {
        Node::Function(f) => V::function_output(f) + if V::function_descend(f) {
            nodes_output::<V>(f.body@)
        } else {
            Seq::<DiagRecord>::empty()
        },
        Node::Arrow(a) => V::arrow_output(a) + if V::arrow_descend(a) {
            nodes_output::<V>(a.body@)
        } else {
            Seq::<DiagRecord>::empty()
        },
        Node::Other(_span, children) => nodes_output::<V>(children@),
    }
}

/// What walking each node of `ns` in order makes `V` emit.
pub open spec fn nodes_output<V: Visit>(ns: Seq<Node>) -> Seq<DiagRecord>
    decreases ns,
{
    if ns.len() == 0 {
        Seq::<DiagRecord>::empty()
    } else {
        node_output::<V>(ns[0]) + nodes_output::<V>(ns.subrange(1, ns.len() as int))
    }
}

/// What a walk of the whole module makes `V` emit.
pub open spec fn module_output<V: Visit>(m: Module) -> Seq<DiagRecord> {
    nodes_output::<V>(m.body@)
}

/// Walking a prefix and then one more node emits the prefix's output
/// followed by exactly that node's output.
pub proof fn lemma_nodes_output_snoc<V: Visit>(s: Seq<Node>, x: Node)
    ensures
        nodes_output::<V>(s.push(x)) == nodes_output::<V>(s) + node_output::<V>(x),
    decreases s.len(),
{
    let whole = s.push(x);
    assert(whole.len() == s.len() + 1);
    assert(nodes_output::<V>(whole) == node_output::<V>(whole[0]) + nodes_output::<V>(
        whole.subrange(1, whole.len() as int),
    ));
    if s.len() == 0 {
        assert(whole[0] == x);
        assert(whole.subrange(1, whole.len() as int) =~= Seq::<Node>::empty());
        assert(nodes_output::<V>(Seq::<Node>::empty()) == Seq::<DiagRecord>::empty());
        assert(nodes_output::<V>(s) == Seq::<DiagRecord>::empty());
        assert(node_output::<V>(x) + Seq::<DiagRecord>::empty() =~= node_output::<V>(x));
        assert(Seq::<DiagRecord>::empty() + node_output::<V>(x) =~= node_output::<V>(x));
    } else {
        let tail = s.subrange(1, s.len() as int);
        lemma_nodes_output_snoc::<V>(tail, x);
        assert(whole.subrange(1, whole.len() as int) =~= tail.push(x));
        assert(whole[0] == s[0]);
        assert(nodes_output::<V>(s) == node_output::<V>(s[0]) + nodes_output::<V>(tail));
        assert(node_output::<V>(s[0]) + (nodes_output::<V>(tail) + node_output::<V>(x)) =~= (
        node_output::<V>(s[0]) + nodes_output::<V>(tail)) + node_output::<V>(x));
    }
}

/// Walk one node: the callback for its kind first, then the children,
/// unless the callback said not to descend.
pub fn walk_node<V: Visit>(v: &mut V, n: &Node)
    ensures
        final(v).emitted() == old(v).emitted() + node_output::<V>(*n),
    decreases *n,
{
    match n {
        Node::Function(f) => {
            let descend = v.visit_function(f);
            if descend {
                walk_nodes(v, &f.body);
            } else {
                proof {
                    assert(old(v).emitted() + V::function_output(*f) =~= old(v).emitted()
                        + (V::function_output(*f) + Seq::<DiagRecord>::empty()));
                }
            }
            proof {
                assert((old(v).emitted() + V::function_output(*f)) + nodes_output::<V>(f.body@)
                    =~= old(v).emitted() + (V::function_output(*f) + nodes_output::<V>(
                    f.body@,
                )));
            }
        },
        Node::Arrow(a) => {
            let descend = v.visit_arrow(a);
            if descend {
                walk_nodes(v, &a.body);
            } else {
                proof {
                    assert(old(v).emitted() + V::arrow_output(*a) =~= old(v).emitted()
                        + (V::arrow_output(*a) + Seq::<DiagRecord>::empty()));
                }
            }
            proof {
                assert((old(v).emitted() + V::arrow_output(*a)) + nodes_output::<V>(a.body@)
                    =~= old(v).emitted() + (V::arrow_output(*a) + nodes_output::<V>(a.body@)));
            }
        },
        Node::Other(_span, children) => {
            walk_nodes(v, children);
        },
    }
}

/// Walk a sequence of sibling nodes in source order.
pub fn walk_nodes<V: Visit>(v: &mut V, ns: &Vec<Node>)
    ensures
        final(v).emitted() == old(v).emitted() + nodes_output::<V>(ns@),
    decreases ns@,
{
    let ghost pre = v.emitted();
    let mut i: usize = 0;
    while i < ns.len()
        invariant
            i <= ns.len(),
            v.emitted() == pre + nodes_output::<V>(ns@.subrange(0, i as int)),
        decreases ns.len() - i,
    {
        walk_node(v, &ns[i]);
        proof {
            lemma_nodes_output_snoc::<V>(ns@.subrange(0, i as int), ns@[i as int]);
            assert(ns@.subrange(0, i as int + 1) =~= ns@.subrange(0, i as int).push(
                ns@[i as int],
            ));
            assert(pre + (nodes_output::<V>(ns@.subrange(0, i as int)) + node_output::<V>(
                ns@[i as int],
            )) =~= (pre + nodes_output::<V>(ns@.subrange(0, i as int))) + node_output::<V>(
                ns@[i as int],
            ));
        }
        i = i + 1;
    }
    proof {
        assert(ns@.subrange(0, ns@.len() as int) =~= ns@);
    }
}

/// Walk the whole module: its top-level nodes in source order, each with
/// its subtree.
pub fn walk_module<V: Visit>(v: &mut V, m: &Module)
    ensures
        final(v).emitted() == old(v).emitted() + module_output::<V>(*m),
{
    walk_nodes(v, &m.body);
}

} // verus!
