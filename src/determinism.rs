//! In deterministic mode a program graph lets at most one edge out of a
//! node be taken in any memory.

use vstd::prelude::*;
use crate::ast::{BExpr, Command, Commands, Guard, LogicOp, cmd_size, cmds_size, guards_size};
use crate::interpreter::{State, nexts_spec, nexts_upto, step_spec};
use crate::memory::MemoryModel;
use crate::pg::{
    Action, Determinism, Edge, LoopTargets, Node, ProgramGraph, cmd_edges, cmds_edges, cmds_prefix, graph_edges,
    guards_edges, lemma_cmds_size_mono,
};
use crate::semantics::beval;

verus! {

/// Taking edge `e` in memory `m` succeeds.
pub open spec fn enabled(e: Edge, m: MemoryModel) -> bool {
    step_spec(e.1, m) is Ok && step_spec(e.1, m)->Ok_0 is Some
}

/// `n` is a node numbered in `[lo, hi)`.
pub open spec fn fresh_in(n: Node, lo: int, hi: int) -> bool {
    match n {
        Node::Node(k) => lo <= k < hi,
        _ => false,
    }
}

/// Every edge leaves `s` or a node numbered in `[lo, hi)`.
pub open spec fn sources_within(es: Seq<Edge>, s: Node, lo: int, hi: int) -> bool {
    forall|i: int| 0 <= i < es.len() ==> (#[trigger] es[i]).0 == s || fresh_in(es[i].0, lo, hi)
}

/// No two edges out of one node are enabled in the same memory.
pub open spec fn exclusive(es: Seq<Edge>) -> bool {
    forall|i: int, j: int, m: MemoryModel|
        #![trigger enabled(es[i], m), enabled(es[j], m)]
        0 <= i < j < es.len() && es[i].0 == es[j].0 && enabled(es[i], m) ==> !enabled(es[j], m)
}

proof fn lemma_exclusive_concat(a: Seq<Edge>, b: Seq<Edge>)
    requires
        exclusive(a),
        exclusive(b),
        forall|i: int, j: int| 0 <= i < a.len() && 0 <= j < b.len() ==> (#[trigger] a[i]).0 != (#[trigger] b[j]).0,
    ensures
        exclusive(a + b),
{
    let c = a + b;
    assert forall|i: int, j: int, m: MemoryModel|
        0 <= i < j < c.len() && c[i].0 == c[j].0 && enabled(c[i], m) implies !enabled(c[j], m) by {
        if j < a.len() {
            assert(c[i] == a[i] && c[j] == a[j]);
        } else if i >= a.len() {
            assert(c[i] == b[i - a.len()] && c[j] == b[j - a.len()]);
        } else {
            assert(c[i] == a[i] && c[j] == b[j - a.len()]);
        }
    }
}

proof fn lemma_single_exclusive(e: Edge)
    ensures
        exclusive(seq![e]),
{
}

proof fn lemma_condition_enabled(b: BExpr, m: MemoryModel, t: Node, s: Node)
    ensures
        enabled(Edge(s, Action::Condition(b), t), m) == (beval(b, m) == Ok::<bool, crate::semantics::EvalError>(true)),
{
}

/// A guard's edge condition holds exactly when the guard holds and no
/// earlier one does.
proof fn lemma_guard_condition(b: BExpr, d: BExpr, m: MemoryModel)
    ensures
        (beval(BExpr::Logic(Box::new(b), LogicOp::Land, Box::new(BExpr::Not(Box::new(d)))), m)
            == Ok::<bool, crate::semantics::EvalError>(true))
            == (beval(b, m) == Ok::<bool, crate::semantics::EvalError>(true)
                && beval(d, m) == Ok::<bool, crate::semantics::EvalError>(false)),
{
    let nd = BExpr::Not(Box::new(d));
    assert(beval(nd, m) == match beval(d, m) {
        Err(e) => Err(e),
        Ok(v) => Ok::<bool, crate::semantics::EvalError>(!v),
    });
}

/// Once a guard holds, so does the disjunction that includes it.
proof fn lemma_disjunction(d: BExpr, b: BExpr, m: MemoryModel)
    ensures
        beval(d, m) == Ok::<bool, crate::semantics::EvalError>(true) ==> beval(
            BExpr::Logic(Box::new(d), LogicOp::Lor, Box::new(b)),
            m,
        ) == Ok::<bool, crate::semantics::EvalError>(true),
        beval(d, m) == Ok::<bool, crate::semantics::EvalError>(false) && beval(b, m) == Ok::<bool, crate::semantics::EvalError>(true) ==> beval(
            BExpr::Logic(Box::new(d), LogicOp::Lor, Box::new(b)),
            m,
        ) == Ok::<bool, crate::semantics::EvalError>(true),
{
}

proof fn lemma_cmd_det(c: Command, s: Node, t: Node, lc: LoopTargets, next: u64)
    requires
        !fresh_in(s, next as int, u64::MAX + 1),
        next + cmd_size(c) <= u64::MAX + 1,
    ensures
        ({
            let r = cmd_edges(c, s, t, lc, next, true);
            &&& next <= r.1
            &&& r.1 + 1 <= next + cmd_size(c)
            &&& sources_within(r.0, s, next as int, r.1 as int)
            &&& exclusive(r.0)
        }),
    decreases c, 0nat,
{
    match c {
        Command::If(gs) => {
            lemma_guards_det(gs@, gs@.len() as int, s, t, lc, next);
        },
        Command::Loop(gs) => {
            lemma_guards_det(gs@, gs@.len() as int, s, s, Some((t, s)), next);
            let g = guards_edges(gs@, gs@.len() as int, s, s, Some((t, s)), next, true);
            let done = Edge(s, Action::Condition(BExpr::Not(Box::new(g.2))), t);
            let es = g.0.push(done);
            assert forall|i: int, j: int, m: MemoryModel|
                0 <= i < j < es.len() && es[i].0 == es[j].0 && enabled(es[i], m) implies !enabled(es[j], m) by {
                if j < g.0.len() {
                    assert(es[i] == g.0[i] && es[j] == g.0[j]);
                } else {
                    assert(es[i] == g.0[i]);
                    assert(es[j] == done);
                    assert(g.0[i].0 == s);
                    assert(beval(g.2, m) == Ok::<bool, crate::semantics::EvalError>(true));
                    lemma_condition_enabled(BExpr::Not(Box::new(g.2)), m, t, s);
                }
            }
            assert forall|i: int| 0 <= i < es.len() implies (#[trigger] es[i]).0 == s || fresh_in(es[i].0, next as int, g.1 as int) by {
                if i < g.0.len() {
                    assert(es[i] == g.0[i]);
                }
            }
        },
        _ => {
            lemma_single_exclusive(cmd_edges(c, s, t, lc, next, true).0[0]);
            assert(cmd_edges(c, s, t, lc, next, true).0 =~= seq![cmd_edges(c, s, t, lc, next, true).0[0]]);
        },
    }
}

proof fn lemma_guards_det(gs: Seq<Guard>, n: int, s: Node, t: Node, lc: LoopTargets, next: u64)
    requires
        0 <= n <= gs.len(),
        !fresh_in(s, next as int, u64::MAX + 1),
        next + guards_size(gs, n) <= u64::MAX,
    ensures
        ({
            let r = guards_edges(gs, n, s, t, lc, next, true);
            &&& next <= r.1 <= next + guards_size(gs, n)
            &&& sources_within(r.0, s, next as int, r.1 as int)
            &&& exclusive(r.0)
            &&& forall|i: int, m: MemoryModel|
                0 <= i < r.0.len() && (#[trigger] r.0[i]).0 == s && #[trigger] enabled(r.0[i], m)
                    ==> beval(r.2, m) == Ok::<bool, crate::semantics::EvalError>(true)
        }),
    decreases gs, n,
{
    if n > 0 {
        lemma_guards_det(gs, n - 1, s, t, lc, next);
        let p = guards_edges(gs, n - 1, s, t, lc, next, true);
        let g = gs[n - 1];
        let q = Node::Node(p.1);
        assert(guards_size(gs, n) == guards_size(gs, n - 1) + 1 + cmds_size(g.1.0@, g.1.0@.len() as int));
        lemma_cmds_det(g.1.0@, q, t, lc, (p.1 + 1) as u64);
        let body = cmds_edges(g.1.0@, q, t, lc, (p.1 + 1) as u64, true);
        let cond = BExpr::Logic(Box::new(g.0), LogicOp::Land, Box::new(BExpr::Not(Box::new(p.2))));
        let ge = Edge(s, Action::Condition(cond), q);
        let d = BExpr::Logic(Box::new(p.2), LogicOp::Lor, Box::new(g.0));
        let head = p.0.push(ge);
        let es = head + body.0;
        assert(guards_edges(gs, n, s, t, lc, next, true) == (es, body.1, d));
        // the new guard is exclusive with the earlier ones
        assert forall|i: int, j: int, m: MemoryModel|
            0 <= i < j < head.len() && head[i].0 == head[j].0 && enabled(head[i], m) implies !enabled(head[j], m) by {
            if j < p.0.len() {
                assert(head[i] == p.0[i] && head[j] == p.0[j]);
            } else {
                assert(head[i] == p.0[i]);
                assert(head[j] == ge);
                if p.0[i].0 == s {
                    assert(beval(p.2, m) == Ok::<bool, crate::semantics::EvalError>(true));
                    lemma_condition_enabled(cond, m, q, s);
                    lemma_guard_condition(g.0, p.2, m);
                } else {
                    assert(fresh_in(p.0[i].0, next as int, p.1 as int));
                }
            }
        }
        assert forall|i: int, j: int| 0 <= i < head.len() && 0 <= j < body.0.len() implies (#[trigger] head[i]).0 != (#[trigger] body.0[j]).0 by {
            if i < p.0.len() {
                assert(head[i] == p.0[i]);
            }
        }
        lemma_exclusive_concat(head, body.0);
        assert forall|i: int| 0 <= i < es.len() implies (#[trigger] es[i]).0 == s || fresh_in(es[i].0, next as int, body.1 as int) by {
            if i < p.0.len() {
                assert(es[i] == p.0[i]);
            } else if i == p.0.len() {
                assert(es[i] == ge);
            } else {
                assert(es[i] == body.0[i - head.len()]);
            }
        }
        assert forall|i: int, m: MemoryModel|
            0 <= i < es.len() && (#[trigger] es[i]).0 == s && #[trigger] enabled(es[i], m)
                implies beval(d, m) == Ok::<bool, crate::semantics::EvalError>(true) by {
            lemma_disjunction(p.2, g.0, m);
            if i < p.0.len() {
                assert(es[i] == p.0[i]);
                assert(beval(p.2, m) == Ok::<bool, crate::semantics::EvalError>(true));
            } else if i == p.0.len() {
                assert(es[i] == ge);
                lemma_condition_enabled(cond, m, q, s);
                lemma_guard_condition(g.0, p.2, m);
            } else {
                assert(es[i] == body.0[i - head.len()]);
            }
        }
    } else {
        assert(guards_edges(gs, n, s, t, lc, next, true).0 =~= Seq::<Edge>::empty());
    }
}

proof fn lemma_cmds_prefix_det(cs: Seq<Command>, i: int, s: Node, t: Node, lc: LoopTargets, next: u64)
    requires
        0 <= i <= cs.len(),
        !fresh_in(s, next as int, u64::MAX + 1),
        next + cmds_size(cs, cs.len() as int) <= u64::MAX,
    ensures
        ({
            let r = cmds_prefix(cs, i, s, t, lc, next, true);
            &&& next <= r.1 <= next + cmds_size(cs, i)
            &&& sources_within(r.0, s, next as int, r.1 as int)
            &&& exclusive(r.0)
            &&& i == 0 ==> r.2 == s
            &&& 0 < i < cs.len() ==> fresh_in(r.2, next as int, r.1 as int) && forall|k: int| 0 <= k < r.0.len() ==> (#[trigger] r.0[k]).0 != r.2
        }),
    decreases cs, i,
{
    if i > 0 {
        lemma_cmds_prefix_det(cs, i - 1, s, t, lc, next);
        lemma_cmds_size_mono(cs, i, cs.len() as int);
        let p = cmds_prefix(cs, i - 1, s, t, lc, next, true);
        let last = i == cs.len();
        let to = if last { t } else { Node::Node(p.1) };
        let n1: u64 = if last { p.1 } else { (p.1 + 1) as u64 };
        assert(cmds_size(cs, i) == cmds_size(cs, i - 1) + cmd_size(cs[i - 1]));
        assert(cmd_size(cs[i - 1]) >= 1);
        lemma_cmd_det(cs[i - 1], p.2, to, lc, n1);
        let c = cmd_edges(cs[i - 1], p.2, to, lc, n1, true);
        let es = p.0 + c.0;
        assert(cmds_prefix(cs, i, s, t, lc, next, true) == (es, c.1, to));
        assert forall|a: int, b: int| 0 <= a < p.0.len() && 0 <= b < c.0.len() implies (#[trigger] p.0[a]).0 != (#[trigger] c.0[b]).0 by {
            if i - 1 == 0 {
                assert(p.0.len() == 0);
            }
        }
        lemma_exclusive_concat(p.0, c.0);
        assert forall|k: int| 0 <= k < es.len() implies (#[trigger] es[k]).0 == s || fresh_in(es[k].0, next as int, c.1 as int) by {
            if k < p.0.len() {
                assert(es[k] == p.0[k]);
            } else {
                assert(es[k] == c.0[k - p.0.len()]);
                if i - 1 == 0 {
                    assert(p.2 == s);
                }
            }
        }
        if 0 < i < cs.len() {
            assert forall|k: int| 0 <= k < es.len() implies (#[trigger] es[k]).0 != to by {
                if k < p.0.len() {
                    assert(es[k] == p.0[k]);
                } else {
                    assert(es[k] == c.0[k - p.0.len()]);
                    if i - 1 == 0 {
                        assert(p.2 == s);
                    }
                }
            }
        }
    } else {
        assert(cmds_prefix(cs, i, s, t, lc, next, true).0 =~= Seq::<Edge>::empty());
    }
}

proof fn lemma_cmds_det(cs: Seq<Command>, s: Node, t: Node, lc: LoopTargets, next: u64)
    requires
        !fresh_in(s, next as int, u64::MAX + 1),
        next + cmds_size(cs, cs.len() as int) <= u64::MAX,
    ensures
        ({
            let r = cmds_edges(cs, s, t, lc, next, true);
            &&& next <= r.1 <= next + cmds_size(cs, cs.len() as int)
            &&& sources_within(r.0, s, next as int, r.1 as int)
            &&& exclusive(r.0)
        }),
    decreases cs, cs.len() + 1,
{
    if cs.len() > 0 {
        lemma_cmds_prefix_det(cs, cs.len() as int, s, t, lc, next);
    } else {
        lemma_single_exclusive(Edge(s, Action::Skip, t));
    }
}

/// The deterministic graph of a program has exclusive edges.
pub(crate) proof fn lemma_graph_exclusive(cmds: Commands)
    requires
        cmds_size(cmds.0@, cmds.0@.len() as int) <= u64::MAX,
    ensures
        exclusive(graph_edges(cmds, Determinism::Deterministic)),
{
    lemma_cmds_det(cmds.0@, Node::Start, Node::End, None, 0);
}

/// Under exclusive edges, the successors along the first `k` edges number
/// at most one.
proof fn lemma_exclusive_nexts(es: Seq<Edge>, k: int, node: Node, m: MemoryModel)
    requires
        exclusive(es),
        0 <= k <= es.len(),
    ensures
        match nexts_upto(es, k, node, m) {
            Ok(v) => v.len() <= 1 && (v.len() == 1 ==> exists|i: int| 0 <= i < k && es[i].0 == node && #[trigger] enabled(es[i], m)),
            Err(_) => true,
        },
    decreases k,
{
    if k > 0 {
        lemma_exclusive_nexts(es, k - 1, node, m);
        match nexts_upto(es, k - 1, node, m) {
            Ok(prev) => {
                if es[k - 1].0 == node && enabled(es[k - 1], m) && prev.len() == 1 {
                    let i = choose|i: int| 0 <= i < k - 1 && es[i].0 == node && #[trigger] enabled(es[i], m);
                    assert(!enabled(es[k - 1], m));
                }
                if es[k - 1].0 == node && enabled(es[k - 1], m) {
                    assert(enabled(es[k - 1], m));
                }
            },
            Err(_) => {},
        }
    }
}

/// In a deterministic program graph every state has at most one
/// successor.
pub proof fn lemma_deterministic_graph(pg: &ProgramGraph, s: State)
    requires
        pg.wf(),
        pg.determinism_spec() == Determinism::Deterministic,
    ensures
        match nexts_spec(pg.edges_spec(), s) {
            Ok(v) => v.len() <= 1,
            Err(_) => true,
        },
{
    pg.lemma_wf();
    lemma_exclusive_nexts(pg.edges_spec(), pg.edges_spec().len() as int, s.0, s.1);
}

/// In deterministic mode a state has at most one successor.
pub proof fn lemma_deterministic_nexts(cmds: Commands, s: State)
    requires
        cmds_size(cmds.0@, cmds.0@.len() as int) <= u64::MAX,
    ensures
        match nexts_spec(graph_edges(cmds, Determinism::Deterministic), s) {
            Ok(v) => v.len() <= 1,
            Err(_) => true,
        },
{
    lemma_cmds_det(cmds.0@, Node::Start, Node::End, None, 0);
    let es = graph_edges(cmds, Determinism::Deterministic);
    lemma_exclusive_nexts(es, es.len() as int, s.0, s.1);
}

} // verus!
