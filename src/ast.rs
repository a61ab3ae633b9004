//! The program model: expressions, commands and guards.

use vstd::prelude::*;

verus! {

/// An arithmetic operator.
#[derive(Clone, Copy, Debug, PartialEq, Eq, Structural)]
pub enum AOp {
    Plus,
    Minus,
    Times,
    Divide,
    Pow,
}

/// A relational operator.
#[derive(Clone, Copy, Debug, PartialEq, Eq, Structural)]
pub enum RelOp {
    Eq,
    Ne,
    Gt,
    Ge,
    Lt,
    Le,
}

/// A logical operator: `&` and `|` evaluate both sides, `&&` and `||`
/// stop as soon as the result is known.
#[derive(Clone, Copy, Debug, PartialEq, Eq, Structural)]
pub enum LogicOp {
    And,
    Land,
    Or,
    Lor,
}

/// A variable, as the target of an assignment.
#[derive(Debug)]
pub struct Variable(pub String);

/// An element of an array: the array's name and the index expression.
#[derive(Debug)]
pub struct Array(pub String, pub Box<AExpr>);

/// An arithmetic expression.
#[derive(Debug)]
pub enum AExpr {
    Number(i64),
    Variable(String),
    Array(Array),
    Binary(Box<AExpr>, AOp, Box<AExpr>),
    Minus(Box<AExpr>),
}

/// A boolean expression.
#[derive(Debug)]
pub enum BExpr {
    Bool(bool),
    Rel(AExpr, RelOp, AExpr),
    Logic(Box<BExpr>, LogicOp, Box<BExpr>),
    Not(Box<BExpr>),
}

/// A command.
#[derive(Debug)]
pub enum Command {
    Assignment(Variable, AExpr),
    ArrayAssignment(Array, AExpr),
    Skip,
    If(Vec<Guard>),
    Loop(Vec<Guard>),
    Break,
    Continue,
}

/// A guarded command: a condition and the commands it guards.
#[derive(Debug)]
pub struct Guard(pub BExpr, pub Commands);

/// A sequence of commands.
#[derive(Debug)]
pub struct Commands(pub Vec<Command>);

impl AExpr {
    /// A copy of the expression, equal to it.
    pub fn copy(&self) -> (r: AExpr)
        ensures
            r == *self,
        decreases self,
    {
        match self {
            AExpr::Number(n) => AExpr::Number(*n),
            AExpr::Variable(x) => AExpr::Variable(x.clone()),
            AExpr::Array(Array(a, i)) => AExpr::Array(Array(a.clone(), Box::new(i.copy()))),
            AExpr::Binary(l, op, r) => AExpr::Binary(Box::new(l.copy()), *op, Box::new(r.copy())),
            AExpr::Minus(e) => AExpr::Minus(Box::new(e.copy())),
        }
    }
}

impl Array {
    /// A copy of the array element, equal to it.
    pub fn copy(&self) -> (r: Array)
        ensures
            r == *self,
    {
        Array(self.0.clone(), Box::new(self.1.copy()))
    }
}

impl BExpr {
    /// A copy of the expression, equal to it.
    pub fn copy(&self) -> (r: BExpr)
        ensures
            r == *self,
        decreases self,
    {
        match self {
            BExpr::Bool(b) => BExpr::Bool(*b),
            BExpr::Rel(l, op, r) => BExpr::Rel(l.copy(), *op, r.copy()),
            BExpr::Logic(l, op, r) => BExpr::Logic(Box::new(l.copy()), *op, Box::new(r.copy())),
            BExpr::Not(e) => BExpr::Not(Box::new(e.copy())),
        }
    }
}

} // verus!

verus! {

/// The number of commands and guards in a command.
pub open spec fn cmd_size(c: Command) -> nat
    decreases c, 0nat,
{
    match c {
        Command::If(gs) => 1 + guards_size(gs@, gs@.len() as int),
        Command::Loop(gs) => 1 + guards_size(gs@, gs@.len() as int),
        _ => 1,
    }
}

/// The size of the first `n` guards.
pub open spec fn guards_size(gs: Seq<Guard>, n: int) -> nat
    decreases gs, n,
{
    if n <= 0 || n > gs.len() {
        0
    } else {
        guards_size(gs, n - 1) + 1 + cmds_size(gs[n - 1].1.0@, gs[n - 1].1.0@.len() as int)
    }
}

/// The size of the first `n` commands.
pub open spec fn cmds_size(cs: Seq<Command>, n: int) -> nat
    decreases cs, n,
{
    if n <= 0 || n > cs.len() {
        0
    } else {
        cmds_size(cs, n - 1) + cmd_size(cs[n - 1])
    }
}

} // verus!

verus! {

proof fn lemma_cmds_size_prefix(cs: Seq<Command>, c: Command, i: int)
    requires
        0 <= i <= cs.len(),
    ensures
        cmds_size(cs.push(c), i) == cmds_size(cs, i),
    decreases i,
{
    if i > 0 {
        lemma_cmds_size_prefix(cs, c, i - 1);
        assert(cs.push(c)[i - 1] == cs[i - 1]);
    }
}

/// Appending a command adds its size.
pub proof fn lemma_cmds_size_push(cs: Seq<Command>, c: Command)
    ensures
        cmds_size(cs.push(c), cs.len() as int + 1) == cmds_size(cs, cs.len() as int) + cmd_size(c),
{
    lemma_cmds_size_prefix(cs, c, cs.len() as int);
    assert(cs.push(c)[cs.len() as int] == c);
}

proof fn lemma_guards_size_prefix(gs: Seq<Guard>, g: Guard, i: int)
    requires
        0 <= i <= gs.len(),
    ensures
        guards_size(gs.push(g), i) == guards_size(gs, i),
    decreases i,
{
    if i > 0 {
        lemma_guards_size_prefix(gs, g, i - 1);
        assert(gs.push(g)[i - 1] == gs[i - 1]);
    }
}

/// Appending a guard adds one and the size of its commands.
pub proof fn lemma_guards_size_push(gs: Seq<Guard>, g: Guard)
    ensures
        guards_size(gs.push(g), gs.len() as int + 1) == guards_size(gs, gs.len() as int) + 1 + cmds_size(
            g.1.0@,
            g.1.0@.len() as int,
        ),
{
    lemma_guards_size_prefix(gs, g, gs.len() as int);
    assert(gs.push(g)[gs.len() as int] == g);
}

} // verus!
