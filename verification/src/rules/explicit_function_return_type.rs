//! Requires every classic function to declare an explicit return type.
//!
//! The rule observes only function-like nodes. For each classic function
//! declaration or expression without a return-type annotation it emits one
//! diagnostic, anchored at the function's own span, not the body's. Arrow
//! functions reach the walker as a kind of their own, not through the
//! classic function callback, so this rule leaves them alone; that matches
//! the parser's routing, where arrow expressions never reach the classic
//! function callback.

use vstd::prelude::*;

use crate::ast::node_has_function;
use crate::ast::node_span_starts;
use crate::ast::nodes_have_function;
use crate::ast::nodes_span_starts;
use crate::ast::Function;
use crate::ast::Module;
use crate::ast::Node;
use crate::diagnostics::Context;
use crate::diagnostics::DiagRecord;
use crate::diagnostics::Span;
use crate::rules::LintRule;
use crate::visit::module_output;
use crate::visit::node_output;
use crate::visit::nodes_output;
use crate::visit::walk_module;
use crate::visit::Visit;

verus! {

/// The diagnostic this rule emits for the function-like node at `span`.
pub open spec fn missing_return_type_diag(span: Span) -> DiagRecord {
    DiagRecord {
        code: "explicitFunctionReturnType"@,
        message: "Missing return type on function"@,
        span,
    }
}

/// Walks the tree for [`ExplicitFunctionReturnType`], carrying the
/// accumulator its findings go to.
pub struct ExplicitFunctionReturnTypeVisitor {
    context: Context,
}

impl ExplicitFunctionReturnTypeVisitor {
    /// Wrap `context` for one traversal.
    pub fn new(context: Context) -> (v: ExplicitFunctionReturnTypeVisitor)
        ensures
            v.emitted() == context@,
    {
        ExplicitFunctionReturnTypeVisitor { context }
    }

    /// Hand the accumulator back once the traversal is done.
    pub fn into_context(self) -> (context: Context)
        ensures
            context@ == self.emitted(),
    {
        self.context
    }
}

impl Visit for ExplicitFunctionReturnTypeVisitor {
    closed spec fn emitted(&self) -> Seq<DiagRecord> {
        self.context@
    }

    open spec fn function_output(f: Function) -> Seq<DiagRecord> {
        if f.has_return_type {
            Seq::<DiagRecord>::empty()
        } else {
            seq![missing_return_type_diag(f.span)]
        }
    }

    open spec fn function_descend(f: Function) -> bool {
        true
    }

    open spec fn arrow_output(a: Function) -> Seq<DiagRecord> {
        Seq::<DiagRecord>::empty()
    }

    open spec fn arrow_descend(a: Function) -> bool {
        true
    }

    fn visit_function(&mut self, f: &Function) -> (descend: bool) {
        if !f.has_return_type {
            self.context.add_diagnostic(
                f.span,
                "explicitFunctionReturnType",
                "Missing return type on function",
            );
            proof {
                assert(self.emitted() =~= old(self).emitted() + Self::function_output(*f));
            }
        } else {
            proof {
                assert(self.emitted() =~= old(self).emitted() + Self::function_output(*f));
            }
        }
        true
    }

    fn visit_arrow(&mut self, a: &Function) -> (descend: bool) {
        proof {
            assert(self.emitted() =~= old(self).emitted() + Self::arrow_output(*a));
        }
        true
    }
}

/// What this rule reports for a whole module: one diagnostic per classic
/// function node without a return-type annotation, in pre-order.
pub open spec fn rule_module_report(m: Module) -> Seq<DiagRecord> {
    module_output::<ExplicitFunctionReturnTypeVisitor>(m)
}

/// What this rule reports for one node and everything below it.
pub open spec fn rule_node_report(n: Node) -> Seq<DiagRecord> {
    node_output::<ExplicitFunctionReturnTypeVisitor>(n)
}

/// What this rule reports for a sequence of sibling nodes.
pub open spec fn rule_nodes_report(ns: Seq<Node>) -> Seq<DiagRecord> {
    nodes_output::<ExplicitFunctionReturnTypeVisitor>(ns)
}

/// The check that every classic function declares its return type.
pub struct ExplicitFunctionReturnType;

impl LintRule for ExplicitFunctionReturnType {
    open spec fn module_report(m: Module) -> Seq<DiagRecord> {
        rule_module_report(m)
    }

    fn new() -> (rule: Box<ExplicitFunctionReturnType>) {
        Box::new(ExplicitFunctionReturnType)
    }

    fn lint_module(&self, context: &mut Context, module: &Module) {
        let ctx = context.take();
        let mut visitor = ExplicitFunctionReturnTypeVisitor::new(ctx);
        walk_module(&mut visitor, module);
        *context = visitor.into_context();
    }
}

/// A function-like node without an explicit return-type annotation, alone in
/// a module, yields exactly one diagnostic: this rule's code and message,
/// anchored at the function's own declaration span.
pub proof fn lemma_missing_annotation_reported(m: Module, f: Function)
    requires
        !f.has_return_type,
        f.body@ == Seq::<Node>::empty(),
        m.body@ == seq![Node::Function(f)],
    ensures
        rule_module_report(m) == seq![missing_return_type_diag(f.span)],
        rule_module_report(m).len() == 1,
        rule_module_report(m)[0].code == "explicitFunctionReturnType"@,
        rule_module_report(m)[0].message == "Missing return type on function"@,
        rule_module_report(m)[0].span == f.span,
{
    let n = Node::Function(f);
    let own = seq![missing_return_type_diag(f.span)];
    assert(m.body@.subrange(1, 1) =~= Seq::<Node>::empty());
    assert(rule_nodes_report(Seq::<Node>::empty()) == Seq::<DiagRecord>::empty());
    assert(rule_node_report(n) == own + rule_nodes_report(f.body@));
    assert(own + Seq::<DiagRecord>::empty() =~= own);
    assert(rule_module_report(m) =~= rule_node_report(n) + Seq::<DiagRecord>::empty());
    assert(rule_node_report(n) + Seq::<DiagRecord>::empty() =~= rule_node_report(n));
}

/// A function-like node that does declare its return type, alone in a
/// module, yields no diagnostic at all.
pub proof fn lemma_annotated_not_reported(m: Module, f: Function)
    requires
        f.has_return_type,
        f.body@ == Seq::<Node>::empty(),
        m.body@ == seq![Node::Function(f)],
    ensures
        rule_module_report(m) == Seq::<DiagRecord>::empty(),
{
    let n = Node::Function(f);
    assert(m.body@.subrange(1, 1) =~= Seq::<Node>::empty());
    assert(rule_nodes_report(Seq::<Node>::empty()) == Seq::<DiagRecord>::empty());
    assert(rule_node_report(n) == Seq::<DiagRecord>::empty() + rule_nodes_report(f.body@));
    assert(Seq::<DiagRecord>::empty() + Seq::<DiagRecord>::empty() =~= Seq::<
        DiagRecord,
    >::empty());
    assert(rule_module_report(m) =~= rule_node_report(n) + Seq::<DiagRecord>::empty());
}

/// Running the rule is idempotent: `lint_module` leaves a fresh accumulator
/// holding exactly `rule_module_report` of the tree, so two runs over the
/// same tree, each into a fresh accumulator, produce element-wise identical
/// diagnostic sequences.
pub proof fn lemma_rule_idempotent(m: Module, first: Seq<DiagRecord>, second: Seq<DiagRecord>)
    requires
        first == rule_module_report(m),
        second == rule_module_report(m),
    ensures
        first.len() == second.len(),
        forall|i: int| 0 <= i < first.len() ==> first[i] == second[i],
{
}

/// A node with no classic function anywhere in its subtree contributes no
/// diagnostic.
pub proof fn lemma_node_without_function_silent(n: Node)
    requires
        !node_has_function(n),
    ensures
        rule_node_report(n) == Seq::<DiagRecord>::empty(),
    decreases n,
{
    match n {
        Node::Function(_f) => {
        },
        Node::Arrow(a) => {
            lemma_nodes_without_function_silent(a.body@);
            assert(Seq::<DiagRecord>::empty() + Seq::<DiagRecord>::empty() =~= Seq::<
                DiagRecord,
            >::empty());
        },
        Node::Other(_span, children) => {
            lemma_nodes_without_function_silent(children@);
        },
    }
}

/// Sibling nodes with no classic function anywhere below them contribute no
/// diagnostic.
pub proof fn lemma_nodes_without_function_silent(ns: Seq<Node>)
    requires
        !nodes_have_function(ns),
    ensures
        rule_nodes_report(ns) == Seq::<DiagRecord>::empty(),
    decreases ns,
{
    if ns.len() == 0 {
    } else {
        lemma_node_without_function_silent(ns[0]);
        lemma_nodes_without_function_silent(ns.subrange(1, ns.len() as int));
        assert(Seq::<DiagRecord>::empty() + Seq::<DiagRecord>::empty() =~= Seq::<
            DiagRecord,
        >::empty());
    }
}

/// A module with zero classic functions — in particular an empty module —
/// yields an empty diagnostic sequence.
pub proof fn lemma_no_functions_no_diagnostics(m: Module)
    requires
        !nodes_have_function(m.body@),
    ensures
        rule_module_report(m) == Seq::<DiagRecord>::empty(),
{
    lemma_nodes_without_function_silent(m.body@);
}

/// How many classic function nodes in `n`'s subtree lack a return-type
/// annotation.
pub open spec fn node_violations(n: Node) -> nat
    decreases n,
{
    match n {
        Node::Function(f) => (if f.has_return_type {
            0nat
        } else {
            1nat
        }) + nodes_violations(f.body@),
        Node::Arrow(a) => nodes_violations(a.body@),
        Node::Other(_span, children) => nodes_violations(children@),
    }
}

/// How many classic function nodes below sibling nodes lack a return-type
/// annotation.
pub open spec fn nodes_violations(ns: Seq<Node>) -> nat
    decreases ns,
{
    if ns.len() == 0 {
        0nat
    } else {
        node_violations(ns[0]) + nodes_violations(ns.subrange(1, ns.len() as int))
    }
}

proof fn lemma_node_report_counts(n: Node)
    ensures
        rule_node_report(n).len() == node_violations(n),
    decreases n,
{
    match n {
        Node::Function(f) => {
            lemma_nodes_report_counts(f.body@);
        },
        Node::Arrow(a) => {
            lemma_nodes_report_counts(a.body@);
        },
        Node::Other(_span, children) => {
            lemma_nodes_report_counts(children@);
        },
    }
}

proof fn lemma_nodes_report_counts(ns: Seq<Node>)
    ensures
        rule_nodes_report(ns).len() == nodes_violations(ns),
    decreases ns,
{
    if ns.len() == 0 {
    } else {
        lemma_node_report_counts(ns[0]);
        lemma_nodes_report_counts(ns.subrange(1, ns.len() as int));
    }
}

/// The rule reports exactly one diagnostic per violation instance: the
/// report is as long as the number of classic function nodes in the tree
/// that lack a return-type annotation.
pub proof fn lemma_one_diagnostic_per_violation(m: Module)
    ensures
        rule_module_report(m).len() == nodes_violations(m.body@),
{
    lemma_nodes_report_counts(m.body@);
}

proof fn lemma_node_report_shape(n: Node)
    ensures
        forall|k: int|
            0 <= k < rule_node_report(n).len() ==> (#[trigger] rule_node_report(n)[k])
                == missing_return_type_diag(rule_node_report(n)[k].span),
    decreases n,
{
    match n {
        Node::Function(f) => {
            lemma_nodes_report_shape(f.body@);
            let own = <ExplicitFunctionReturnTypeVisitor as Visit>::function_output(f);
            let rest = rule_nodes_report(f.body@);
            assert(rule_node_report(n) == own + rest);
            assert forall|k: int|
                0 <= k < rule_node_report(n).len() implies rule_node_report(n)[k]
                == missing_return_type_diag(rule_node_report(n)[k].span) by {
                if k < own.len() {
                    assert(rule_node_report(n)[k] == own[k]);
                    assert(own[k] == missing_return_type_diag(f.span));
                } else {
                    assert(rule_node_report(n)[k] == rest[k - own.len()]);
                    assert(rest[k - own.len()] == missing_return_type_diag(
                        rest[k - own.len()].span,
                    ));
                }
            }
        },
        Node::Arrow(a) => {
            lemma_nodes_report_shape(a.body@);
            let rest = rule_nodes_report(a.body@);
            assert(rule_node_report(n) =~= rest);
            assert forall|k: int|
                0 <= k < rule_node_report(n).len() implies rule_node_report(n)[k]
                == missing_return_type_diag(rule_node_report(n)[k].span) by {
                assert(rule_node_report(n)[k] == rest[k]);
                assert(rest[k] == missing_return_type_diag(rest[k].span));
            }
        },
        Node::Other(_span, children) => {
            lemma_nodes_report_shape(children@);
            let rest = rule_nodes_report(children@);
            assert(rule_node_report(n) == rest);
            assert forall|k: int|
                0 <= k < rule_node_report(n).len() implies rule_node_report(n)[k]
                == missing_return_type_diag(rule_node_report(n)[k].span) by {
                assert(rest[k] == missing_return_type_diag(rest[k].span));
            }
        },
    }
}

proof fn lemma_nodes_report_shape(ns: Seq<Node>)
    ensures
        forall|k: int|
            0 <= k < rule_nodes_report(ns).len() ==> (#[trigger] rule_nodes_report(ns)[k])
                == missing_return_type_diag(rule_nodes_report(ns)[k].span),
    decreases ns,
{
    if ns.len() == 0 {
    } else {
        let tail = ns.subrange(1, ns.len() as int);
        lemma_node_report_shape(ns[0]);
        lemma_nodes_report_shape(tail);
        let r1 = rule_node_report(ns[0]);
        let r2 = rule_nodes_report(tail);
        assert(rule_nodes_report(ns) == r1 + r2);
        assert forall|k: int|
            0 <= k < rule_nodes_report(ns).len() implies rule_nodes_report(ns)[k]
            == missing_return_type_diag(rule_nodes_report(ns)[k].span) by {
            if k < r1.len() {
                assert(rule_nodes_report(ns)[k] == r1[k]);
                assert(r1[k] == missing_return_type_diag(r1[k].span));
            } else {
                assert(rule_nodes_report(ns)[k] == r2[k - r1.len()]);
                assert(r2[k - r1.len()] == missing_return_type_diag(r2[k - r1.len()].span));
            }
        }
    }
}

/// Every diagnostic this rule reports, over any tree, is this rule's own:
/// the fixed code and message, anchored at the span of some node. One rule,
/// one code.
pub proof fn lemma_report_carries_rule_code(m: Module)
    ensures
        forall|k: int|
            0 <= k < rule_module_report(m).len() ==> (#[trigger] rule_module_report(m)[k]).code
                == "explicitFunctionReturnType"@,
        forall|k: int|
            0 <= k < rule_module_report(m).len() ==> (#[trigger] rule_module_report(m)[k]).message
                == "Missing return type on function"@,
{
    lemma_nodes_report_shape(m.body@);
    assert forall|k: int|
        0 <= k < rule_module_report(m).len() implies (rule_module_report(m)[k]).code
        == "explicitFunctionReturnType"@ && (rule_module_report(m)[k]).message
        == "Missing return type on function"@ by {
        assert(rule_nodes_report(m.body@)[k] == missing_return_type_diag(
            rule_nodes_report(m.body@)[k].span,
        ));
    }
}

/// The span starts of a diagnostic sequence, in report order.
pub open spec fn report_starts(ds: Seq<DiagRecord>) -> Seq<int> {
    ds.map(|i: int, d: DiagRecord| d.span.start as int)
}

/// A sequence of offsets that never goes down.
pub open spec fn ascending(s: Seq<int>) -> bool {
    forall|i: int, j: int| 0 <= i <= j < s.len() ==> s[i] <= s[j]
}

proof fn lemma_contains_in_cat(s1: Seq<int>, s2: Seq<int>, x: int)
    requires
        s1.contains(x) || s2.contains(x),
    ensures
        (s1 + s2).contains(x),
{
    if s1.contains(x) {
        let i = choose|i: int| 0 <= i < s1.len() && s1[i] == x;
        assert((s1 + s2)[i] == x);
    } else {
        let i = choose|i: int| 0 <= i < s2.len() && s2[i] == x;
        assert((s1 + s2)[s1.len() + i] == x);
    }
}

proof fn lemma_ascending_cat_split(s1: Seq<int>, s2: Seq<int>)
    requires
        ascending(s1 + s2),
    ensures
        ascending(s1),
        ascending(s2),
        forall|i: int, j: int| 0 <= i < s1.len() && 0 <= j < s2.len() ==> s1[i] <= s2[j],
{
    assert forall|i: int, j: int| 0 <= i <= j < s1.len() implies s1[i] <= s1[j] by {
        assert((s1 + s2)[i] == s1[i]);
        assert((s1 + s2)[j] == s1[j]);
    }
    assert forall|i: int, j: int| 0 <= i <= j < s2.len() implies s2[i] <= s2[j] by {
        assert((s1 + s2)[s1.len() + i] == s2[i]);
        assert((s1 + s2)[s1.len() + j] == s2[j]);
    }
    assert forall|i: int, j: int| 0 <= i < s1.len() && 0 <= j < s2.len() implies s1[i]
        <= s2[j] by {
        assert((s1 + s2)[i] == s1[i]);
        assert((s1 + s2)[s1.len() + j] == s2[j]);
    }
}

proof fn lemma_ascending_cat_join(s1: Seq<int>, s2: Seq<int>)
    requires
        ascending(s1),
        ascending(s2),
        forall|i: int, j: int| 0 <= i < s1.len() && 0 <= j < s2.len() ==> s1[i] <= s2[j],
    ensures
        ascending(s1 + s2),
{
    assert forall|i: int, j: int| 0 <= i <= j < (s1 + s2).len() implies (s1 + s2)[i] <= (s1
        + s2)[j] by {
        if j < s1.len() {
            assert((s1 + s2)[i] == s1[i]);
            assert((s1 + s2)[j] == s1[j]);
        } else if i >= s1.len() {
            assert((s1 + s2)[i] == s2[i - s1.len()]);
            assert((s1 + s2)[j] == s2[j - s1.len()]);
        } else {
            assert((s1 + s2)[i] == s1[i]);
            assert((s1 + s2)[j] == s2[j - s1.len()]);
            assert(s1[i] <= s2[j - s1.len()]);
        }
    }
}

/// Every span start the rule reports for `n`'s subtree occurs among the
/// subtree's own pre-order span starts.
proof fn lemma_node_report_within(n: Node)
    ensures
        forall|k: int|
            0 <= k < report_starts(rule_node_report(n)).len() ==> node_span_starts(n).contains(
                #[trigger] report_starts(rule_node_report(n))[k],
            ),
    decreases n,
{
    match n {
        Node::Function(f) => {
            lemma_nodes_report_within(f.body@);
            let own = <ExplicitFunctionReturnTypeVisitor as Visit>::function_output(f);
            let rest = rule_nodes_report(f.body@);
            let st = f.span.start as int;
            let child_starts = nodes_span_starts(f.body@);
            assert(rule_node_report(n) == own + rest);
            assert(node_span_starts(n) == seq![st] + child_starts);
            assert forall|k: int|
                0 <= k < report_starts(rule_node_report(n)).len() implies node_span_starts(
                n,
            ).contains(report_starts(rule_node_report(n))[k]) by {
                if k < own.len() {
                    assert(rule_node_report(n)[k] == own[k]);
                    assert(own[k].span == f.span);
                    assert(report_starts(rule_node_report(n))[k] == st);
                    assert((seq![st] + child_starts)[0] == st);
                } else {
                    let x = rest[k - own.len()].span.start as int;
                    assert(rule_node_report(n)[k] == rest[k - own.len()]);
                    assert(report_starts(rule_node_report(n))[k] == x);
                    assert(report_starts(rest)[k - own.len()] == x);
                    assert(child_starts.contains(x));
                    lemma_contains_in_cat(seq![st], child_starts, x);
                }
            }
        },
        Node::Arrow(a) => {
            lemma_nodes_report_within(a.body@);
            let rest = rule_nodes_report(a.body@);
            let st = a.span.start as int;
            let child_starts = nodes_span_starts(a.body@);
            assert(rule_node_report(n) =~= rest);
            assert(node_span_starts(n) == seq![st] + child_starts);
            assert forall|k: int|
                0 <= k < report_starts(rule_node_report(n)).len() implies node_span_starts(
                n,
            ).contains(report_starts(rule_node_report(n))[k]) by {
                let x = rest[k].span.start as int;
                assert(rule_node_report(n)[k] == rest[k]);
                assert(report_starts(rule_node_report(n))[k] == x);
                assert(report_starts(rest)[k] == x);
                assert(child_starts.contains(x));
                lemma_contains_in_cat(seq![st], child_starts, x);
            }
        },
        Node::Other(span, children) => {
            lemma_nodes_report_within(children@);
            let rest = rule_nodes_report(children@);
            let st = span.start as int;
            let child_starts = nodes_span_starts(children@);
            assert(rule_node_report(n) == rest);
            assert(node_span_starts(n) == seq![st] + child_starts);
            assert forall|k: int|
                0 <= k < report_starts(rule_node_report(n)).len() implies node_span_starts(
                n,
            ).contains(report_starts(rule_node_report(n))[k]) by {
                let x = rest[k].span.start as int;
                assert(report_starts(rest)[k] == x);
                assert(child_starts.contains(x));
                lemma_contains_in_cat(seq![st], child_starts, x);
            }
        },
    }
}

/// Every span start the rule reports for sibling subtrees occurs among the
/// siblings' pre-order span starts.
proof fn lemma_nodes_report_within(ns: Seq<Node>)
    ensures
        forall|k: int|
            0 <= k < report_starts(rule_nodes_report(ns)).len() ==> nodes_span_starts(
                ns,
            ).contains(#[trigger] report_starts(rule_nodes_report(ns))[k]),
    decreases ns,
{
    if ns.len() == 0 {
    } else {
        let tail = ns.subrange(1, ns.len() as int);
        lemma_node_report_within(ns[0]);
        lemma_nodes_report_within(tail);
        let r1 = rule_node_report(ns[0]);
        let r2 = rule_nodes_report(tail);
        let p1 = node_span_starts(ns[0]);
        let p2 = nodes_span_starts(tail);
        assert(rule_nodes_report(ns) == r1 + r2);
        assert(nodes_span_starts(ns) == p1 + p2);
        assert forall|k: int|
            0 <= k < report_starts(rule_nodes_report(ns)).len() implies nodes_span_starts(
            ns,
        ).contains(report_starts(rule_nodes_report(ns))[k]) by {
            if k < r1.len() {
                let x = r1[k].span.start as int;
                assert(rule_nodes_report(ns)[k] == r1[k]);
                assert(report_starts(rule_nodes_report(ns))[k] == x);
                assert(report_starts(r1)[k] == x);
                assert(p1.contains(x));
                lemma_contains_in_cat(p1, p2, x);
            } else {
                let x = r2[k - r1.len()].span.start as int;
                assert(rule_nodes_report(ns)[k] == r2[k - r1.len()]);
                assert(report_starts(rule_nodes_report(ns))[k] == x);
                assert(report_starts(r2)[k - r1.len()] == x);
                assert(p2.contains(x));
                lemma_contains_in_cat(p1, p2, x);
            }
        }
    }
}

/// If the pre-order span starts of `n`'s subtree never go down, the rule's
/// diagnostics for that subtree come out in ascending span-start order.
proof fn lemma_node_report_ascending(n: Node)
    requires
        ascending(node_span_starts(n)),
    ensures
        ascending(report_starts(rule_node_report(n))),
    decreases n,
{
    match n {
        Node::Function(f) => {
            let own = <ExplicitFunctionReturnTypeVisitor as Visit>::function_output(f);
            let rest = rule_nodes_report(f.body@);
            let st = f.span.start as int;
            let child_starts = nodes_span_starts(f.body@);
            assert(node_span_starts(n) == seq![st] + child_starts);
            lemma_ascending_cat_split(seq![st], child_starts);
            lemma_nodes_report_ascending(f.body@);
            lemma_nodes_report_within(f.body@);
            assert(rule_node_report(n) == own + rest);
            assert(report_starts(own + rest) =~= report_starts(own) + report_starts(rest));
            assert(ascending(report_starts(own)));
            assert forall|i: int, j: int|
                0 <= i < report_starts(own).len() && 0 <= j < report_starts(rest).len() implies
                report_starts(own)[i] <= report_starts(rest)[j] by {
                assert(own[i].span == f.span);
                assert(report_starts(own)[i] == st);
                let x = report_starts(rest)[j];
                assert(child_starts.contains(x));
                let w = choose|w: int| 0 <= w < child_starts.len() && child_starts[w] == x;
                assert(seq![st][0] <= child_starts[w]);
            }
            lemma_ascending_cat_join(report_starts(own), report_starts(rest));
        },
        Node::Arrow(a) => {
            let rest = rule_nodes_report(a.body@);
            let st = a.span.start as int;
            let child_starts = nodes_span_starts(a.body@);
            assert(node_span_starts(n) == seq![st] + child_starts);
            lemma_ascending_cat_split(seq![st], child_starts);
            lemma_nodes_report_ascending(a.body@);
            assert(rule_node_report(n) =~= rest);
        },
        Node::Other(span, children) => {
            let st = span.start as int;
            let child_starts = nodes_span_starts(children@);
            assert(node_span_starts(n) == seq![st] + child_starts);
            lemma_ascending_cat_split(seq![st], child_starts);
            lemma_nodes_report_ascending(children@);
            assert(rule_node_report(n) == rule_nodes_report(children@));
        },
    }
}

/// If the pre-order span starts of sibling subtrees never go down, the
/// rule's diagnostics for them come out in ascending span-start order.
proof fn lemma_nodes_report_ascending(ns: Seq<Node>)
    requires
        ascending(nodes_span_starts(ns)),
    ensures
        ascending(report_starts(rule_nodes_report(ns))),
    decreases ns,
{
    if ns.len() == 0 {
    } else {
        let tail = ns.subrange(1, ns.len() as int);
        let r1 = rule_node_report(ns[0]);
        let r2 = rule_nodes_report(tail);
        let p1 = node_span_starts(ns[0]);
        let p2 = nodes_span_starts(tail);
        assert(nodes_span_starts(ns) == p1 + p2);
        lemma_ascending_cat_split(p1, p2);
        lemma_node_report_ascending(ns[0]);
        lemma_nodes_report_ascending(tail);
        lemma_node_report_within(ns[0]);
        lemma_nodes_report_within(tail);
        assert(rule_nodes_report(ns) == r1 + r2);
        assert(report_starts(r1 + r2) =~= report_starts(r1) + report_starts(r2));
        assert forall|i: int, j: int|
            0 <= i < report_starts(r1).len() && 0 <= j < report_starts(r2).len() implies
            report_starts(r1)[i] <= report_starts(r2)[j] by {
            let x = report_starts(r1)[i];
            let y = report_starts(r2)[j];
            assert(p1.contains(x));
            assert(p2.contains(y));
            let w1 = choose|w1: int| 0 <= w1 < p1.len() && p1[w1] == x;
            let w2 = choose|w2: int| 0 <= w2 < p2.len() && p2[w2] == y;
            assert(p1[w1] <= p2[w2]);
        }
        lemma_ascending_cat_join(report_starts(r1), report_starts(r2));
    }
}

/// When the tree's nodes stand in source order — its pre-order span starts
/// never go down — the rule's diagnostics appear in source order too:
/// ascending span start, in the order the accumulator holds them.
pub proof fn lemma_report_in_source_order(m: Module)
    requires
        ascending(nodes_span_starts(m.body@)),
    ensures
        ascending(report_starts(rule_module_report(m))),
{
    lemma_nodes_report_ascending(m.body@);
}

} // verus!
