//! Program graphs: the control-flow graph of a command, with a start node,
//! an end node and edges labelled by actions.

use vstd::prelude::*;
use vstd::string::*;
use crate::ast::{AExpr, Array, BExpr, Command, Commands, Guard, LogicOp, Variable, cmd_size, cmds_size, guards_size};

verus! {

/// A node of a program graph.
#[derive(Clone, Copy, Debug, PartialEq, Eq, Structural)]
pub enum Node {
    Start,
    End,
    Node(u64),
}

/// Whether at most one guard of an `if` or a loop may be enabled at once.
#[derive(Clone, Copy, Debug, PartialEq, Eq, Structural)]
pub enum Determinism {
    Deterministic,
    NonDeterministic,
}

/// What taking an edge does.
#[derive(Debug)]
pub enum Action {
    Assignment(Variable, AExpr),
    ArrayAssignment(Array, AExpr),
    Skip,
    Condition(BExpr),
}

/// An edge: its source, its action and its target.
#[derive(Debug)]
pub struct Edge(pub Node, pub Action, pub Node);

/// The control-flow graph of a command sequence.
#[derive(Debug)]
pub struct ProgramGraph {
    edges: Vec<Edge>,
    determinism: Determinism,
}

/// Where `break` and `continue` lead: the end and the start of the
/// innermost enclosing loop.
pub type LoopTargets = Option<(Node, Node)>;

/// The edges of a command from `s` to `t`, with fresh nodes numbered from
/// `next` on, and the next unused number.
pub open spec fn cmd_edges(c: Command, s: Node, t: Node, lc: LoopTargets, next: u64, det: bool) -> (Seq<Edge>, u64)
    decreases c, 0nat,
{
    match c {
        Command::Assignment(x, e) => (seq![Edge(s, Action::Assignment(x, e), t)], next),
        Command::ArrayAssignment(a, e) => (seq![Edge(s, Action::ArrayAssignment(a, e), t)], next),
        Command::Skip => (seq![Edge(s, Action::Skip, t)], next),
        Command::If(gs) => {
            let r = guards_edges(gs@, gs@.len() as int, s, t, lc, next, det);
            (r.0, r.1)
        },
        Command::Loop(gs) => {
            let r = guards_edges(gs@, gs@.len() as int, s, s, Some((t, s)), next, det);
            (r.0.push(Edge(s, Action::Condition(BExpr::Not(Box::new(r.2))), t)), r.1)
        },
        Command::Break => (seq![Edge(s, Action::Skip, match lc {
            Some((b, _)) => b,
            None => t,
        })], next),
        Command::Continue => (seq![Edge(s, Action::Skip, match lc {
            Some((_, c)) => c,
            None => t,
        })], next),
    }
}

/// The condition on the edge of a guard: in deterministic mode a guard is
/// taken only when no earlier guard of its list holds.
pub open spec fn guard_condition(b: BExpr, d: BExpr, det: bool) -> BExpr {
    if det {
        BExpr::Logic(Box::new(b), LogicOp::Land, Box::new(BExpr::Not(Box::new(d))))
    } else {
        b
    }
}

/// The edges of the first `n` guards of a list from `s` to `t`, the next
/// unused number, and the disjunction of their conditions.
pub open spec fn guards_edges(gs: Seq<Guard>, n: int, s: Node, t: Node, lc: LoopTargets, next: u64, det: bool) -> (Seq<Edge>, u64, BExpr)
    decreases gs, n,
{
    if n <= 0 || n > gs.len() {
        (Seq::empty(), next, BExpr::Bool(false))
    } else {
        let p = guards_edges(gs, n - 1, s, t, lc, next, det);
        let g = gs[n - 1];
        let q = Node::Node(p.1);
        let body = cmds_edges(g.1.0@, q, t, lc, (p.1 + 1) as u64, det);
        (
            p.0.push(Edge(s, Action::Condition(guard_condition(g.0, p.2, det)), q)) + body.0,
            body.1,
            BExpr::Logic(Box::new(p.2), LogicOp::Lor, Box::new(g.0)),
        )
    }
}

/// The edges of the first `i` commands of a sequence from `s` to `t`, the
/// next unused number, and the node where the next command starts.
pub open spec fn cmds_prefix(cs: Seq<Command>, i: int, s: Node, t: Node, lc: LoopTargets, next: u64, det: bool) -> (Seq<Edge>, u64, Node)
    decreases cs, i,
{
    if i <= 0 || i > cs.len() {
        (Seq::empty(), next, s)
    } else {
        let p = cmds_prefix(cs, i - 1, s, t, lc, next, det);
        let to = if i == cs.len() { t } else { Node::Node(p.1) };
        let n1 = if i == cs.len() { p.1 } else { (p.1 + 1) as u64 };
        let c = cmd_edges(cs[i - 1], p.2, to, lc, n1, det);
        (p.0 + c.0, c.1, to)
    }
}

/// The edges of a command sequence from `s` to `t`; an empty sequence is a
/// `skip`.
pub open spec fn cmds_edges(cs: Seq<Command>, s: Node, t: Node, lc: LoopTargets, next: u64, det: bool) -> (Seq<Edge>, u64)
    decreases cs, cs.len() + 1,
{
    if cs.len() == 0 {
        (seq![Edge(s, Action::Skip, t)], next)
    } else {
        let p = cmds_prefix(cs, cs.len() as int, s, t, lc, next, det);
        (p.0, p.1)
    }
}

/// The edges of the program graph of `cmds`.
pub open spec fn graph_edges(cmds: Commands, det: Determinism) -> Seq<Edge> {
    cmds_edges(cmds.0@, Node::Start, Node::End, None, 0, det == Determinism::Deterministic).0
}

struct Builder {
    edges: Vec<Edge>,
    next: u64,
    deterministic: bool,
}

impl Builder {
    fn fresh(&mut self) -> (r: Node)
        requires
            old(self).next < u64::MAX,
        ensures
            r == Node::Node(old(self).next),
            final(self).next == old(self).next + 1,
            final(self).edges == old(self).edges,
            final(self).deterministic == old(self).deterministic,
    {
        let n = self.next;
        self.next = self.next + 1;
        Node::Node(n)
    }

    fn add(&mut self, s: Node, a: Action, t: Node)
        ensures
            final(self).edges@ == old(self).edges@.push(Edge(s, a, t)),
            final(self).next == old(self).next,
            final(self).deterministic == old(self).deterministic,
    {
        self.edges.push(Edge(s, a, t));
    }

    fn command(&mut self, c: &Command, s: Node, t: Node, lc: LoopTargets)
        requires
            old(self).next + cmd_size(*c) <= u64::MAX + 1,
        ensures
            old(self).next <= final(self).next,
            final(self).next + 1 <= old(self).next + cmd_size(*c),
            final(self).deterministic == old(self).deterministic,
            final(self).edges@ == old(self).edges@ + cmd_edges(*c, s, t, lc, old(self).next, old(self).deterministic).0,
            final(self).next == cmd_edges(*c, s, t, lc, old(self).next, old(self).deterministic).1,
        decreases c, 0nat,
    {
        match c {
            Command::Assignment(x, e) => {
                self.add(s, Action::Assignment(Variable(x.0.clone()), e.copy()), t);
                assert(self.edges@ =~= old(self).edges@ + cmd_edges(*c, s, t, lc, old(self).next, old(self).deterministic).0);
            },
            Command::ArrayAssignment(a, e) => {
                self.add(s, Action::ArrayAssignment(a.copy(), e.copy()), t);
                assert(self.edges@ =~= old(self).edges@ + cmd_edges(*c, s, t, lc, old(self).next, old(self).deterministic).0);
            },
            Command::Skip => {
                self.add(s, Action::Skip, t);
                assert(self.edges@ =~= old(self).edges@ + cmd_edges(*c, s, t, lc, old(self).next, old(self).deterministic).0);
            },
            Command::If(gs) => {
                let _ = self.guards(gs, s, t, lc);
            },
            Command::Loop(gs) => {
                let ghost mid = self.edges@;
                let d = self.guards(gs, s, s, Some((t, s)));
                self.add(s, Action::Condition(BExpr::Not(Box::new(d))), t);
                assert(self.edges@ =~= old(self).edges@ + cmd_edges(*c, s, t, lc, old(self).next, old(self).deterministic).0);
            },
            Command::Break => {
                let target = match lc {
                    Some((b, _)) => b,
                    None => t,
                };
                self.add(s, Action::Skip, target);
                assert(self.edges@ =~= old(self).edges@ + cmd_edges(*c, s, t, lc, old(self).next, old(self).deterministic).0);
            },
            Command::Continue => {
                let target = match lc {
                    Some((_, c)) => c,
                    None => t,
                };
                self.add(s, Action::Skip, target);
                assert(self.edges@ =~= old(self).edges@ + cmd_edges(*c, s, t, lc, old(self).next, old(self).deterministic).0);
            },
        }
    }

    /// Adds the edges of a guard list from `s` to `t`, and returns the
    /// disjunction of the guards' conditions.
    fn guards(&mut self, gs: &Vec<Guard>, s: Node, t: Node, lc: LoopTargets) -> (d: BExpr)
        requires
            old(self).next + guards_size(gs@, gs@.len() as int) <= u64::MAX,
        ensures
            old(self).next <= final(self).next <= old(self).next + guards_size(
                gs@,
                gs@.len() as int,
            ),
            final(self).deterministic == old(self).deterministic,
            final(self).edges@ == old(self).edges@ + guards_edges(gs@, gs@.len() as int, s, t, lc, old(self).next, old(self).deterministic).0,
            final(self).next == guards_edges(gs@, gs@.len() as int, s, t, lc, old(self).next, old(self).deterministic).1,
            d == guards_edges(gs@, gs@.len() as int, s, t, lc, old(self).next, old(self).deterministic).2,
        decreases gs@, gs@.len() + 1,
    {
        let mut d = BExpr::Bool(false);
        let mut i: usize = 0;
        while i < gs.len()
            invariant
                i <= gs@.len(),
                old(self).next <= self.next <= old(self).next + guards_size(gs@, i as int),
                old(self).next + guards_size(gs@, gs@.len() as int) <= u64::MAX,
                self.deterministic == old(self).deterministic,
                self.edges@ == old(self).edges@ + guards_edges(gs@, i as int, s, t, lc, old(self).next, old(self).deterministic).0,
                self.next == guards_edges(gs@, i as int, s, t, lc, old(self).next, old(self).deterministic).1,
                d == guards_edges(gs@, i as int, s, t, lc, old(self).next, old(self).deterministic).2,
            decreases gs@.len() - i,
        {
            proof {
                lemma_guards_size_mono(gs@, i as int + 1, gs@.len() as int);
            }
            let g = &gs[i];
            let q = self.fresh();
            let b = g.0.copy();
            let cond = if self.deterministic {
                BExpr::Logic(Box::new(b), LogicOp::Land, Box::new(BExpr::Not(Box::new(d.copy()))))
            } else {
                b
            };
            self.add(s, Action::Condition(cond), q);
            assert(decreases_to!(gs@ => gs@[i as int]));
            self.commands(&g.1, q, t, lc);
            d = BExpr::Logic(Box::new(d), LogicOp::Lor, Box::new(g.0.copy()));
            assert(self.edges@ =~= old(self).edges@ + guards_edges(gs@, i + 1, s, t, lc, old(self).next, old(self).deterministic).0);
            i = i + 1;
        }
        d
    }

    /// Adds the edges of a command sequence from `s` to `t`.
    fn commands(&mut self, cs: &Commands, s: Node, t: Node, lc: LoopTargets)
        requires
            old(self).next + cmds_size(cs.0@, cs.0@.len() as int) <= u64::MAX,
        ensures
            old(self).next <= final(self).next <= old(self).next + cmds_size(
                cs.0@,
                cs.0@.len() as int,
            ),
            final(self).deterministic == old(self).deterministic,
            final(self).edges@ == old(self).edges@ + cmds_edges(cs.0@, s, t, lc, old(self).next, old(self).deterministic).0,
            final(self).next == cmds_edges(cs.0@, s, t, lc, old(self).next, old(self).deterministic).1,
        decreases cs.0@, cs.0@.len() + 1,
    {
        let n = cs.0.len();
        if n == 0 {
            self.add(s, Action::Skip, t);
            assert(self.edges@ =~= old(self).edges@ + cmds_edges(cs.0@, s, t, lc, old(self).next, old(self).deterministic).0);
            return;
        }
        let mut from = s;
        let mut i: usize = 0;
        while i < n
            invariant
                n == cs.0@.len(),
                i <= n,
                old(self).next <= self.next <= old(self).next + cmds_size(cs.0@, i as int),
                old(self).next + cmds_size(cs.0@, n as int) <= u64::MAX,
                self.deterministic == old(self).deterministic,
                self.edges@ == old(self).edges@ + cmds_prefix(cs.0@, i as int, s, t, lc, old(self).next, old(self).deterministic).0,
                self.next == cmds_prefix(cs.0@, i as int, s, t, lc, old(self).next, old(self).deterministic).1,
                from == cmds_prefix(cs.0@, i as int, s, t, lc, old(self).next, old(self).deterministic).2,
            decreases n - i,
        {
            proof {
                lemma_cmds_size_mono(cs.0@, i as int + 1, n as int);
                assert(cmds_size(cs.0@, i as int + 1) == cmds_size(cs.0@, i as int) + cmd_size(
                    cs.0@[i as int],
                ));
                assert(cmd_size(cs.0@[i as int]) >= 1);
            }
            let to = if i + 1 == n {
                t
            } else {
                self.fresh()
            };
            self.command(&cs.0[i], from, to, lc);
            assert(self.edges@ =~= old(self).edges@ + cmds_prefix(cs.0@, i + 1, s, t, lc, old(self).next, old(self).deterministic).0);
            from = to;
            i = i + 1;
        }
    }
}

impl ProgramGraph {
    /// The edges, in the order in which they were built.
    pub closed spec fn edges_spec(&self) -> Seq<Edge> {
        self.edges@
    }

    pub closed spec fn determinism_spec(&self) -> Determinism {
        self.determinism
    }

    /// In deterministic mode no two edges out of one node are enabled in
    /// the same memory.
    pub closed spec fn wf(&self) -> bool {
        self.determinism == Determinism::Deterministic ==> crate::determinism::exclusive(self.edges@)
    }

    /// What a well-formed graph knows of its edges.
    pub proof fn lemma_wf(&self)
        requires
            self.wf(),
        ensures
            self.determinism_spec() == Determinism::Deterministic ==> crate::determinism::exclusive(
                self.edges_spec(),
            ),
    {
    }

    /// Builds the graph of `cmds`, from `Node::Start` to `Node::End`.
    /// Node ids are 64-bit, which bounds the size of the program.
    pub fn new(determinism: Determinism, cmds: &Commands) -> (r: ProgramGraph)
        requires
            cmds_size(cmds.0@, cmds.0@.len() as int) <= u64::MAX,
        ensures
            r.determinism_spec() == determinism,
            r.edges_spec() == graph_edges(*cmds, determinism),
            r.wf(),
    {
        proof {
            crate::determinism::lemma_graph_exclusive(*cmds);
        }
        let mut b = Builder {
            edges: Vec::new(),
            next: 0,
            deterministic: determinism == Determinism::Deterministic,
        };
        b.commands(cmds, Node::Start, Node::End, None);
        ProgramGraph { edges: b.edges, determinism }
    }

    pub fn determinism(&self) -> (r: Determinism)
        ensures
            r == self.determinism_spec(),
    {
        self.determinism
    }

    /// The number of edges.
    pub fn edge_count(&self) -> (r: usize)
        ensures
            r == self.edges_spec().len(),
    {
        self.edges.len()
    }

    /// The edge at position `i`.
    pub fn edge(&self, i: usize) -> (r: &Edge)
        requires
            i < self.edges_spec().len(),
        ensures
            *r == self.edges_spec()[i as int],
    {
        &self.edges[i]
    }
}

/// The decimal digits of `n`.
pub open spec fn decimal_spec(n: nat) -> Seq<char>
    decreases n,
{
    if n < 10 {
        seq![digit_char(n)]
    } else {
        decimal_spec(n / 10) + seq![digit_char(n % 10)]
    }
}

pub open spec fn digit_char(d: nat) -> char {
    if d == 0 { '0' } else if d == 1 { '1' } else if d == 2 { '2' } else if d == 3 { '3' }
    else if d == 4 { '4' } else if d == 5 { '5' } else if d == 6 { '6' } else if d == 7 { '7' }
    else if d == 8 { '8' } else { '9' }
}

fn digit_str(d: u64) -> (r: &'static str)
    requires
        d < 10,
    ensures
        r@ == seq![digit_char(d as nat)],
{
    proof {
        reveal_strlit("0");
        reveal_strlit("1");
        reveal_strlit("2");
        reveal_strlit("3");
        reveal_strlit("4");
        reveal_strlit("5");
        reveal_strlit("6");
        reveal_strlit("7");
        reveal_strlit("8");
        reveal_strlit("9");
    }
    if d == 0 { "0" } else if d == 1 { "1" } else if d == 2 { "2" } else if d == 3 { "3" }
    else if d == 4 { "4" } else if d == 5 { "5" } else if d == 6 { "6" } else if d == 7 { "7" }
    else if d == 8 { "8" } else { "9" }
}

/// `n` in decimal.
pub fn decimal(n: u64) -> (r: String)
    ensures
        r@ == decimal_spec(n as nat),
    decreases n,
{
    if n < 10 {
        String::from_str(digit_str(n))
    } else {
        let mut s = decimal(n / 10);
        s.append(digit_str(n % 10));
        s
    }
}

/// The name of a node.
pub open spec fn node_name(n: Node) -> Seq<char> {
    match n {
        Node::Start => "qStart"@,
        Node::End => "qFinal"@,
        Node::Node(k) => seq!['q'] + decimal_spec(k as nat),
    }
}

impl Node {
    /// The name of the node: `qStart`, `qFinal`, or `q` and its number.
    pub fn name(&self) -> (r: String)
        ensures
            r@ == node_name(*self),
    {
        match self {
            Node::Start => {
                proof {
                    reveal_strlit("qStart");
                }
                String::from_str("qStart")
            },
            Node::End => {
                proof {
                    reveal_strlit("qFinal");
                }
                String::from_str("qFinal")
            },
            Node::Node(k) => {
                proof {
                    reveal_strlit("q");
                }
                let mut s = String::from_str("q");
                let d = decimal(*k);
                s.append(d.as_str());
                s
            },
        }
    }
}

pub(crate) proof fn lemma_guards_size_mono(gs: Seq<Guard>, i: int, n: int)
    requires
        0 <= i <= n <= gs.len(),
    ensures
        guards_size(gs, i) <= guards_size(gs, n),
    decreases n - i,
{
    if i < n {
        lemma_guards_size_mono(gs, i, n - 1);
    }
}

pub(crate) proof fn lemma_cmds_size_mono(cs: Seq<Command>, i: int, n: int)
    requires
        0 <= i <= n <= cs.len(),
    ensures
        cmds_size(cs, i) + i <= cmds_size(cs, n) + n,
        cmds_size(cs, i) <= cmds_size(cs, n),
    decreases n - i,
{
    if i < n {
        lemma_cmds_size_mono(cs, i, n - 1);
    }
}

} // verus!
