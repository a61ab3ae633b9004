//! Text of expressions and actions, and of program graphs in the DOT
//! format.

use vstd::prelude::*;
use vstd::string::*;
use crate::ast::{AExpr, AOp, Array, BExpr, LogicOp, RelOp, Variable, cmds_size, Commands};
use crate::pg::{Action, Determinism, Edge, ProgramGraph, decimal, decimal_spec, graph_edges, node_name};

verus! {

/// An integer in decimal, with a leading `-` when negative.
pub open spec fn int_text(n: i64) -> Seq<char> {
    if n < 0 {
        seq!['-'] + decimal_spec((-n) as nat)
    } else {
        decimal_spec(n as nat)
    }
}

pub open spec fn aop_text(op: AOp) -> Seq<char> {
    match op {
        AOp::Plus => "+"@,
        AOp::Minus => "-"@,
        AOp::Times => "*"@,
        AOp::Divide => "/"@,
        AOp::Pow => "^"@,
    }
}

pub open spec fn relop_text(op: RelOp) -> Seq<char> {
    match op {
        RelOp::Eq => "="@,
        RelOp::Ne => "!="@,
        RelOp::Gt => ">"@,
        RelOp::Ge => ">="@,
        RelOp::Lt => "<"@,
        RelOp::Le => "<="@,
    }
}

pub open spec fn logic_text(op: LogicOp) -> Seq<char> {
    match op {
        LogicOp::And => "&"@,
        LogicOp::Land => "&&"@,
        LogicOp::Or => "|"@,
        LogicOp::Lor => "||"@,
    }
}

/// An arithmetic expression, every operation in parentheses.
pub open spec fn show_a(e: AExpr) -> Seq<char>
    decreases e,
{
    match e {
        AExpr::Number(n) => int_text(n),
        AExpr::Variable(x) => x@,
        AExpr::Array(Array(a, i)) => a@ + "["@ + show_a(*i) + "]"@,
        AExpr::Binary(l, op, r) => "("@ + show_a(*l) + " "@ + aop_text(op) + " "@ + show_a(*r) + ")"@,
        AExpr::Minus(x) => "(-"@ + show_a(*x) + ")"@,
    }
}

/// A boolean expression, every operation in parentheses.
pub open spec fn show_b(b: BExpr) -> Seq<char>
    decreases b,
{
    match b {
        BExpr::Bool(v) => if v { "true"@ } else { "false"@ },
        BExpr::Rel(l, op, r) => "("@ + show_a(l) + " "@ + relop_text(op) + " "@ + show_a(r) + ")"@,
        BExpr::Logic(l, op, r) => "("@ + show_b(*l) + " "@ + logic_text(op) + " "@ + show_b(*r) + ")"@,
        BExpr::Not(x) => "!"@ + show_b(*x),
    }
}

/// The label of an action.
pub open spec fn action_text(a: Action) -> Seq<char> {
    match a {
        Action::Assignment(Variable(x), e) => x@ + " := "@ + show_a(e),
        Action::ArrayAssignment(Array(arr, i), e) => arr@ + "["@ + show_a(*i) + "] := "@ + show_a(e),
        Action::Skip => "skip"@,
        Action::Condition(b) => show_b(b),
    }
}

/// The line of an edge.
pub open spec fn edge_text(e: Edge) -> Seq<char> {
    "  "@ + node_name(e.0) + " -> "@ + node_name(e.2) + " [label=\""@ + action_text(e.1) + "\"];\n"@
}

/// The lines of the first `n` edges.
pub open spec fn edges_text(edges: Seq<Edge>, n: int) -> Seq<char>
    decreases n,
{
    if n <= 0 || n > edges.len() {
        Seq::empty()
    } else {
        edges_text(edges, n - 1) + edge_text(edges[n - 1])
    }
}

/// A program graph in the DOT format, one line per edge in edge order.
pub open spec fn dot_spec(edges: Seq<Edge>) -> Seq<char> {
    "digraph program_graph {\n"@ + edges_text(edges, edges.len() as int) + "}\n"@
}

pub fn write_int(n: i64, out: &mut String)
    ensures
        final(out)@ == old(out)@ + int_text(n),
{
    if n < 0 {
        out.append("-");
        proof {
            reveal_strlit("-");
        }
        let m: u64 = (0i64 - (n + 1)) as u64 + 1;
        let d = decimal(m);
        out.append(d.as_str());
        assert(m == (-n) as nat);
    } else {
        let d = decimal(n as u64);
        out.append(d.as_str());
    }
}

fn aop_str(op: AOp) -> (r: &'static str)
    ensures
        r@ == aop_text(op),
{
    match op {
        AOp::Plus => "+",
        AOp::Minus => "-",
        AOp::Times => "*",
        AOp::Divide => "/",
        AOp::Pow => "^",
    }
}

fn relop_str(op: RelOp) -> (r: &'static str)
    ensures
        r@ == relop_text(op),
{
    match op {
        RelOp::Eq => "=",
        RelOp::Ne => "!=",
        RelOp::Gt => ">",
        RelOp::Ge => ">=",
        RelOp::Lt => "<",
        RelOp::Le => "<=",
    }
}

fn logic_str(op: LogicOp) -> (r: &'static str)
    ensures
        r@ == logic_text(op),
{
    match op {
        LogicOp::And => "&",
        LogicOp::Land => "&&",
        LogicOp::Or => "|",
        LogicOp::Lor => "||",
    }
}

/// Appends the text of an arithmetic expression.
pub fn write_aexpr(e: &AExpr, out: &mut String)
    ensures
        final(out)@ == old(out)@ + show_a(*e),
    decreases e,
{
    match e {
        AExpr::Number(n) => write_int(*n, out),
        AExpr::Variable(x) => out.append(x.as_str()),
        AExpr::Array(Array(a, i)) => {
            out.append(a.as_str());
            out.append("[");
            write_aexpr(i, out);
            out.append("]");
            assert(out@ =~= old(out)@ + show_a(*e));
        },
        AExpr::Binary(l, op, r) => {
            out.append("(");
            write_aexpr(l, out);
            out.append(" ");
            out.append(aop_str(*op));
            out.append(" ");
            write_aexpr(r, out);
            out.append(")");
            assert(out@ =~= old(out)@ + show_a(*e));
        },
        AExpr::Minus(x) => {
            out.append("(-");
            write_aexpr(x, out);
            out.append(")");
            assert(out@ =~= old(out)@ + show_a(*e));
        },
    }
}

/// Appends the text of a boolean expression.
pub fn write_bexpr(b: &BExpr, out: &mut String)
    ensures
        final(out)@ == old(out)@ + show_b(*b),
    decreases b,
{
    match b {
        BExpr::Bool(v) => {
            if *v {
                out.append("true");
            } else {
                out.append("false");
            }
        },
        BExpr::Rel(l, op, r) => {
            out.append("(");
            write_aexpr(l, out);
            out.append(" ");
            out.append(relop_str(*op));
            out.append(" ");
            write_aexpr(r, out);
            out.append(")");
            assert(out@ =~= old(out)@ + show_b(*b));
        },
        BExpr::Logic(l, op, r) => {
            out.append("(");
            write_bexpr(l, out);
            out.append(" ");
            out.append(logic_str(*op));
            out.append(" ");
            write_bexpr(r, out);
            out.append(")");
            assert(out@ =~= old(out)@ + show_b(*b));
        },
        BExpr::Not(x) => {
            out.append("!");
            write_bexpr(x, out);
            assert(out@ =~= old(out)@ + show_b(*b));
        },
    }
}

/// Appends the label of an action.
pub fn write_action(a: &Action, out: &mut String)
    ensures
        final(out)@ == old(out)@ + action_text(*a),
{
    match a {
        Action::Assignment(Variable(x), e) => {
            out.append(x.as_str());
            out.append(" := ");
            write_aexpr(e, out);
            assert(out@ =~= old(out)@ + action_text(*a));
        },
        Action::ArrayAssignment(Array(arr, i), e) => {
            out.append(arr.as_str());
            out.append("[");
            write_aexpr(i, out);
            out.append("] := ");
            write_aexpr(e, out);
            assert(out@ =~= old(out)@ + action_text(*a));
        },
        Action::Skip => out.append("skip"),
        Action::Condition(b) => write_bexpr(b, out),
    }
}

impl ProgramGraph {
    /// The graph in the DOT format.
    pub fn dot(&self) -> (r: String)
        ensures
            r@ == dot_spec(self.edges_spec()),
    {
        let mut out = String::from_str("digraph program_graph {\n");
        let n = self.edge_count();
        let mut i: usize = 0;
        while i < n
            invariant
                n == self.edges_spec().len(),
                i <= n,
                out@ == "digraph program_graph {\n"@ + edges_text(self.edges_spec(), i as int),
            decreases n - i,
        {
            let e = self.edge(i);
            let ghost before = out@;
            out.append("  ");
            let s = e.0.name();
            out.append(s.as_str());
            out.append(" -> ");
            let t = e.2.name();
            out.append(t.as_str());
            out.append(" [label=\"");
            write_action(&e.1, &mut out);
            out.append("\"];\n");
            assert(out@ =~= before + edge_text(self.edges_spec()[i as int]));
            i = i + 1;
        }
        out.append("}\n");
        out
    }
}

/// The rendering of a program's graph.
#[derive(Debug)]
pub struct GraphOutput {
    pub dot: String,
}

/// The graph of `commands` in the mode `determinism`, in the DOT format.
pub fn render_graph(commands: &Commands, determinism: Determinism) -> (r: GraphOutput)
    requires
        cmds_size(commands.0@, commands.0@.len() as int) <= u64::MAX,
    ensures
        r.dot@ == dot_spec(graph_edges(*commands, determinism)),
{
    let pg = ProgramGraph::new(determinism, commands);
    GraphOutput { dot: pg.dot() }
}

} // verus!
