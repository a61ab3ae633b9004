//! Random generation of programs, bounded by fuel so that it always ends.

use vstd::prelude::*;
use vstd::string::*;
use rand::Rng;
use rand::distributions::Distribution;
use rand::rngs::SmallRng;
use crate::ast::{
    AExpr, AOp, Array, BExpr, Command, Commands, Guard, LogicOp, RelOp, Variable, cmd_size, cmds_size,
    guards_size, lemma_cmds_size_push, lemma_guards_size_push,
};
use crate::flows::{
    Flow, FlowModel, add_name, flow, fv_a, name_set, names_distinct,
    program_fv,
};
use crate::interpreter::Input;
use crate::memory::Memory;
use crate::names::{NameMap, str_eq};
use crate::pg::Determinism;
use crate::security::{SecurityClass, SecurityInput, SecurityLatticeInput};

verus! {

#[verifier::external_type_specification]
#[verifier::external_body]
pub struct ExSmallRng(SmallRng);

/// The sum of a sequence of weights.
pub open spec fn weight_sum(w: Seq<u32>) -> int
    decreases w.len(),
{
    if w.len() == 0 {
        0
    } else {
        weight_sum(w.drop_last()) + w.last()
    }
}

/// What `str::to_uppercase` makes of a string.
pub uninterp spec fn upper_of(s: Seq<char>) -> Seq<char>;

/// Relies on rand's `Rng::gen_range` over an inclusive range: a value
/// between the bounds. It panics on an empty range, which `requires`
/// excludes.
#[verifier::external_body]
fn random_in(rng: &mut SmallRng, lo: i64, hi: i64) -> (r: i64)
    requires
        lo <= hi,
    ensures
        lo <= r <= hi,
{
    rng.gen_range(lo..=hi)
}

/// Relies on rand's `Rng::gen` for `bool`.
#[verifier::external_body]
fn random_bool(rng: &mut SmallRng) -> bool {
    rng.gen::<bool>()
}

/// Relies on rand's `WeightedIndex`: the index of one of the weights,
/// never of a zero weight. `WeightedIndex::new` fails on an empty list or
/// a zero total, and its running total must fit, which `requires`
/// excludes.
#[verifier::external_body]
fn weighted_pick(rng: &mut SmallRng, weights: &Vec<u32>) -> (r: usize)
    requires
        weights@.len() > 0,
        0 < weight_sum(weights@) <= u32::MAX,
    ensures
        r < weights@.len(),
        weights@[r as int] > 0,
{
    rand::distributions::WeightedIndex::new(weights.iter()).unwrap().sample(rng)
}

/// Relies on `str::to_uppercase`: its result depends on the string alone.
#[verifier::external_body]
fn uppercase(s: &str) -> (r: String)
    ensures
        r@ == upper_of(s@),
{
    s.to_uppercase()
}

/// The state of a generation: the fuel left, and the limits on the depth
/// of expressions and on consecutive negations.
pub struct Context {
    fuel: u32,
    recursion_limit: u32,
    negation_limit: u32,
    names: Vec<String>,
}

impl Context {
    pub closed spec fn wf(&self) -> bool {
        self.names@.len() < 1000
    }

    pub closed spec fn fuel_spec(&self) -> u32 {
        self.fuel
    }

    /// How much deeper expressions may nest.
    pub closed spec fn depth_spec(&self) -> u32 {
        self.recursion_limit
    }

    /// How many more negations may nest.
    pub closed spec fn negation_spec(&self) -> u32 {
        self.negation_limit
    }

    /// The pool of variable names; arrays take them upper-cased.
    pub closed spec fn names_spec(&self) -> Seq<String> {
        self.names@
    }

    /// The pool's names as text.
    pub open spec fn pool_spec(&self) -> Seq<Seq<char>> {
        self.names_spec().map_values(|s: String| s@)
    }

    /// A context with `fuel` and the names `a`, `b`, `c` and `d`.
    pub fn new(fuel: u32) -> (r: Context)
        ensures
            r.wf(),
            r.fuel_spec() == fuel,
            r.names_spec().len() == 4,
            r.pool_spec() == base_pool(),
    {
        let names = vec![String::from_str("a"), String::from_str("b"), String::from_str("c"), String::from_str("d")];
        let r = Context { fuel, recursion_limit: fuel, negation_limit: fuel, names };
        assert(r.pool_spec() =~= base_pool());
        r
    }

    /// A context with `fuel` and no names, for expressions without
    /// variables.
    pub fn unnamed(fuel: u32) -> (r: Context)
        ensures
            r.wf(),
            r.fuel_spec() == fuel,
            r.names_spec().len() == 0,
            r.pool_spec() == Seq::<Seq<char>>::empty(),
    {
        let r = Context { fuel, recursion_limit: fuel, negation_limit: fuel, names: Vec::new() };
        assert(r.pool_spec() =~= Seq::<Seq<char>>::empty());
        r
    }

    /// The fuel left.
    pub fn fuel(&self) -> (r: u32)
        ensures
            r == self.fuel_spec(),
    {
        self.fuel
    }

    fn var_name(&self, rng: &mut SmallRng) -> (r: String)
        requires
            self.wf(),
            self.names_spec().len() > 0,
        ensures
            pool_var(self.pool_spec(), r@),
    {
        let k = random_in(rng, 0, (self.names.len() - 1) as i64) as usize;
        let r = self.names[k].clone();
        assert(r@ == self.pool_spec()[k as int]);
        r
    }

    fn array_name(&self, rng: &mut SmallRng) -> (r: String)
        requires
            self.wf(),
            self.names_spec().len() > 0,
        ensures
            pool_array(self.pool_spec(), r@),
    {
        let k = random_in(rng, 0, (self.names.len() - 1) as i64) as usize;
        let r = uppercase(self.names[k].as_str());
        assert(r@ == upper_of(self.pool_spec()[k as int]));
        r
    }

    /// Draws how many items a sequence gets, between `min` and `max` but
    /// no more than the fuel left unless `min` asks for more, and debits
    /// the fuel by that count.
    pub fn many(&mut self, min: u32, max: u32, rng: &mut SmallRng) -> (n: u32)
        ensures
            min <= n,
            n <= min || n <= max && n <= old(self).fuel_spec(),
            final(self).fuel_spec() == if old(self).fuel_spec() < n { 0 } else { old(self).fuel_spec() - n },
            final(self).names_spec() == old(self).names_spec(),
            final(self).wf() == old(self).wf(),
    {
        let capped = if max < self.fuel { max } else { self.fuel };
        let hi = if capped < min { min } else { capped };
        let n = random_in(rng, min as i64, hi as i64) as u32;
        if self.fuel < n {
            self.fuel = 0;
        } else {
            self.fuel = self.fuel - n;
        }
        n
    }

    fn reset_limits(&mut self)
        ensures
            final(self).recursion_limit == 5,
            final(self).negation_limit == 3,
            final(self).fuel == old(self).fuel,
            final(self).names@ == old(self).names@,
    {
        self.recursion_limit = 5;
        self.negation_limit = 3;
    }
}

/// Checks weights for a draw.
proof fn lemma_weight_sum4(a: u32, b: u32, c: u32, d: u32)
    ensures
        weight_sum(seq![a, b, c, d]) == a + b + c + d,
{
    assert(seq![a].drop_last() =~= Seq::<u32>::empty());
    assert(weight_sum(Seq::<u32>::empty()) == 0);
    assert(seq![a].last() == a);
    assert(weight_sum(seq![a]) == a);
    assert(seq![a, b].drop_last() =~= seq![a]);
    assert(weight_sum(seq![a, b]) == a + b);
    assert(seq![a, b, c].drop_last() =~= seq![a, b]);
    assert(weight_sum(seq![a, b, c]) == a + b + c);
    assert(seq![a, b, c, d].drop_last() =~= seq![a, b, c]);
}

proof fn lemma_weight_sum5(a: u32, b: u32, c: u32, d: u32, e: u32)
    ensures
        weight_sum(seq![a, b, c, d, e]) == a + b + c + d + e,
{
    assert(seq![a, b, c, d, e].drop_last() =~= seq![a, b, c, d]);
    lemma_weight_sum4(a, b, c, d);
}

proof fn lemma_weight_sum6(a: u32, b: u32, c: u32, d: u32, e: u32, f: u32)
    ensures
        weight_sum(seq![a, b, c, d, e, f]) == a + b + c + d + e + f,
{
    assert(seq![a, b, c, d, e, f].drop_last() =~= seq![a, b, c, d, e]);
    lemma_weight_sum5(a, b, c, d, e);
}

/// Draws one of four productions by weight.
fn pick4(rng: &mut SmallRng, a: u32, b: u32, c: u32, d: u32) -> (r: usize)
    requires
        a > 0,
        a + b + c + d <= u32::MAX,
    ensures
        r < 4,
        r == 1 ==> b > 0,
        r == 2 ==> c > 0,
        r == 3 ==> d > 0,
{
    let w = vec![a, b, c, d];
    proof {
        lemma_weight_sum4(a, b, c, d);
        assert(w@ == seq![a, b, c, d]);
    }
    weighted_pick(rng, &w)
}

impl AOp {
    pub fn gen(rng: &mut SmallRng) -> AOp {
        let w = vec![5u32, 4, 4, 1, 3];
        proof {
            lemma_weight_sum5(5, 4, 4, 1, 3);
            assert(w@ == seq![5u32, 4, 4, 1, 3]);
        }
        match weighted_pick(rng, &w) {
            0 => AOp::Plus,
            1 => AOp::Minus,
            2 => AOp::Times,
            3 => AOp::Pow,
            _ => AOp::Divide,
        }
    }
}

impl RelOp {
    pub fn gen(rng: &mut SmallRng) -> RelOp {
        let w = vec![3u32, 3, 3, 3, 3, 3];
        proof {
            lemma_weight_sum6(3, 3, 3, 3, 3, 3);
            assert(w@ == seq![3u32, 3, 3, 3, 3, 3]);
        }
        match weighted_pick(rng, &w) {
            0 => RelOp::Eq,
            1 => RelOp::Gt,
            2 => RelOp::Ge,
            3 => RelOp::Lt,
            4 => RelOp::Le,
            _ => RelOp::Ne,
        }
    }
}

impl LogicOp {
    pub fn gen(rng: &mut SmallRng) -> LogicOp {
        match pick4(rng, 3, 3, 3, 3) {
            0 => LogicOp::And,
            1 => LogicOp::Land,
            2 => LogicOp::Or,
            _ => LogicOp::Lor,
        }
    }
}

/// The base pool of variable names.
pub open spec fn base_pool() -> Seq<Seq<char>> {
    seq!["a"@, "b"@, "c"@, "d"@]
}

/// `x` names a variable of the pool.
pub open spec fn pool_var(pool: Seq<Seq<char>>, x: Seq<char>) -> bool {
    exists|i: int| 0 <= i < pool.len() && #[trigger] pool[i] == x
}

/// `x` names an array of the pool: a pool name upper-cased.
pub open spec fn pool_array(pool: Seq<Seq<char>>, x: Seq<char>) -> bool {
    exists|i: int| 0 <= i < pool.len() && x == upper_of(#[trigger] pool[i])
}

/// Every variable the expression reads is a pool name, and every array it
/// reads is an upper-cased pool name.
pub open spec fn a_drawn(e: AExpr, pool: Seq<Seq<char>>) -> bool
    decreases e,
{
    match e {
        AExpr::Number(_) => true,
        AExpr::Variable(x) => pool_var(pool, x@),
        AExpr::Array(Array(a, i)) => pool_array(pool, a@) && a_drawn(*i, pool),
        AExpr::Binary(l, _, r) => a_drawn(*l, pool) && a_drawn(*r, pool),
        AExpr::Minus(x) => a_drawn(*x, pool),
    }
}

/// Every variable and array the expression reads comes from the pool, as
/// for arithmetic expressions.
pub open spec fn b_drawn(b: BExpr, pool: Seq<Seq<char>>) -> bool
    decreases b,
{
    match b {
        BExpr::Bool(_) => true,
        BExpr::Rel(l, _, r) => a_drawn(l, pool) && a_drawn(r, pool),
        BExpr::Logic(l, _, r) => b_drawn(*l, pool) && b_drawn(*r, pool),
        BExpr::Not(x) => b_drawn(*x, pool),
    }
}

/// A command built as the generator builds them: an assignment to a pool
/// variable, an assignment to an element of a pool array, or an `if` or
/// loop with at least one guard, each with a non-empty body of such
/// commands; every expression reads only pool names.
pub open spec fn cmd_drawn(c: Command, pool: Seq<Seq<char>>) -> bool
    decreases c, 0nat,
{
    match c {
        Command::Assignment(Variable(x), e) => pool_var(pool, x@) && a_drawn(e, pool),
        Command::ArrayAssignment(Array(a, i), e) => pool_array(pool, a@) && a_drawn(*i, pool) && a_drawn(e, pool),
        Command::If(gs) => gs@.len() > 0 && guards_drawn(gs@, gs@.len() as int, pool),
        Command::Loop(gs) => gs@.len() > 0 && guards_drawn(gs@, gs@.len() as int, pool),
        _ => false,
    }
}

/// The first `n` guards are built as the generator builds them.
pub open spec fn guards_drawn(gs: Seq<Guard>, n: int, pool: Seq<Seq<char>>) -> bool
    decreases gs, n,
{
    if n <= 0 || n > gs.len() {
        true
    } else {
        guards_drawn(gs, n - 1, pool) && b_drawn(gs[n - 1].0, pool) && gs[n - 1].1.0@.len() > 0
            && cmds_drawn(gs[n - 1].1.0@, gs[n - 1].1.0@.len() as int, pool)
    }
}

/// The first `n` commands are built as the generator builds them.
pub open spec fn cmds_drawn(cs: Seq<Command>, n: int, pool: Seq<Seq<char>>) -> bool
    decreases cs, n,
{
    if n <= 0 || n > cs.len() {
        true
    } else {
        cmds_drawn(cs, n - 1, pool) && cmd_drawn(cs[n - 1], pool)
    }
}

proof fn lemma_cmds_drawn_prefix(cs: Seq<Command>, c: Command, i: int, pool: Seq<Seq<char>>)
    requires
        0 <= i <= cs.len(),
    ensures
        cmds_drawn(cs.push(c), i, pool) == cmds_drawn(cs, i, pool),
    decreases i,
{
    if i > 0 {
        lemma_cmds_drawn_prefix(cs, c, i - 1, pool);
        assert(cs.push(c)[i - 1] == cs[i - 1]);
    }
}

proof fn lemma_cmds_drawn_push(cs: Seq<Command>, c: Command, pool: Seq<Seq<char>>)
    ensures
        cmds_drawn(cs.push(c), cs.len() as int + 1, pool) == (cmds_drawn(cs, cs.len() as int, pool) && cmd_drawn(c, pool)),
{
    lemma_cmds_drawn_prefix(cs, c, cs.len() as int, pool);
    assert(cs.push(c)[cs.len() as int] == c);
}

proof fn lemma_guards_drawn_prefix(gs: Seq<Guard>, g: Guard, i: int, pool: Seq<Seq<char>>)
    requires
        0 <= i <= gs.len(),
    ensures
        guards_drawn(gs.push(g), i, pool) == guards_drawn(gs, i, pool),
    decreases i,
{
    if i > 0 {
        lemma_guards_drawn_prefix(gs, g, i - 1, pool);
        assert(gs.push(g)[i - 1] == gs[i - 1]);
    }
}

proof fn lemma_guards_drawn_push(gs: Seq<Guard>, g: Guard, pool: Seq<Seq<char>>)
    ensures
        guards_drawn(gs.push(g), gs.len() as int + 1, pool) == (guards_drawn(gs, gs.len() as int, pool)
            && b_drawn(g.0, pool) && g.1.0@.len() > 0 && cmds_drawn(g.1.0@, g.1.0@.len() as int, pool)),
{
    lemma_guards_drawn_prefix(gs, g, gs.len() as int, pool);
    assert(gs.push(g)[gs.len() as int] == g);
}

/// An expression that reads from an empty pool reads no names.
proof fn lemma_drawn_from_nothing(e: AExpr)
    requires
        a_drawn(e, Seq::empty()),
    ensures
        fv_a(e) == Set::<Seq<char>>::empty(),
    decreases e,
{
    match e {
        AExpr::Array(Array(a, i)) => {
            lemma_drawn_from_nothing(*i);
        },
        AExpr::Binary(l, _, r) => {
            lemma_drawn_from_nothing(*l);
            lemma_drawn_from_nothing(*r);
            assert(fv_a(e) =~= Set::<Seq<char>>::empty());
        },
        AExpr::Minus(x) => {
            lemma_drawn_from_nothing(*x);
        },
        _ => {
            assert(fv_a(e) =~= Set::<Seq<char>>::empty());
        },
    }
}

/// The number of binary operations in an expression.
pub open spec fn a_ops(e: AExpr) -> nat
    decreases e,
{
    match e {
        AExpr::Binary(l, _, r) => 1 + a_ops(*l) + a_ops(*r),
        AExpr::Array(Array(_, i)) => a_ops(*i),
        AExpr::Minus(x) => a_ops(*x),
        _ => 0,
    }
}

/// The number of array accesses in an expression.
pub open spec fn a_arrays(e: AExpr) -> nat
    decreases e,
{
    match e {
        AExpr::Binary(l, _, r) => a_arrays(*l) + a_arrays(*r),
        AExpr::Array(Array(_, i)) => 1 + a_arrays(*i),
        AExpr::Minus(x) => a_arrays(*x),
        _ => 0,
    }
}

/// Every number of the expression lies in `[-100, 100]`.
pub open spec fn a_numbers_small(e: AExpr) -> bool
    decreases e,
{
    match e {
        AExpr::Number(n) => -100 <= n <= 100,
        AExpr::Variable(_) => true,
        AExpr::Binary(l, _, r) => a_numbers_small(*l) && a_numbers_small(*r),
        AExpr::Array(Array(_, i)) => a_numbers_small(*i),
        AExpr::Minus(x) => a_numbers_small(*x),
    }
}

/// The number of nodes of a boolean expression that use up depth:
/// comparisons, connectives, and the operations and array accesses of
/// the arithmetic expressions inside.
pub open spec fn b_nodes(b: BExpr) -> nat
    decreases b,
{
    match b {
        BExpr::Bool(_) => 0,
        BExpr::Rel(l, _, r) => 1 + a_ops(l) + a_arrays(l) + a_ops(r) + a_arrays(r),
        BExpr::Logic(l, _, r) => 1 + b_nodes(*l) + b_nodes(*r),
        BExpr::Not(x) => b_nodes(*x),
    }
}

/// The number of negations in a boolean expression.
pub open spec fn b_negations(b: BExpr) -> nat
    decreases b,
{
    match b {
        BExpr::Logic(l, _, r) => b_negations(*l) + b_negations(*r),
        BExpr::Not(x) => 1 + b_negations(*x),
        _ => 0,
    }
}

/// Every number of the expression lies in `[-100, 100]`.
pub open spec fn b_numbers_small(b: BExpr) -> bool
    decreases b,
{
    match b {
        BExpr::Bool(_) => true,
        BExpr::Rel(l, _, r) => a_numbers_small(l) && a_numbers_small(r),
        BExpr::Logic(l, _, r) => b_numbers_small(*l) && b_numbers_small(*r),
        BExpr::Not(x) => b_numbers_small(*x),
    }
}

impl Variable {
    pub fn gen(cx: &Context, rng: &mut SmallRng) -> (r: Variable)
        requires
            cx.wf(),
            cx.names_spec().len() > 0,
        ensures
            pool_var(cx.pool_spec(), r.0@),
    {
        Variable(cx.var_name(rng))
    }
}

impl Array {
    /// An element of an array of the pool, at a generated index.
    pub fn gen(cx: &mut Context, rng: &mut SmallRng) -> (r: Array)
        requires
            old(cx).wf(),
            old(cx).names_spec().len() > 0,
        ensures
            final(cx).wf(),
            final(cx).fuel_spec() == old(cx).fuel_spec(),
            final(cx).names_spec() == old(cx).names_spec(),
            final(cx).negation_spec() == old(cx).negation_spec(),
            pool_array(old(cx).pool_spec(), r.0@),
            a_drawn(*r.1, old(cx).pool_spec()),
            a_numbers_small(*r.1),
            a_ops(*r.1) + a_arrays(*r.1) + final(cx).depth_spec() <= old(cx).depth_spec(),
            old(cx).fuel_spec() == 0 ==> a_ops(*r.1) == 0,
        decreases old(cx).fuel_spec(), 0nat, old(cx).depth_spec() + old(cx).negation_spec(), 3nat,
    {
        let name = cx.array_name(rng);
        Array(name, Box::new(AExpr::gen(cx, rng)))
    }
}

impl AExpr {
    /// An arithmetic expression. Each operation and array access uses up
    /// one unit of the recursion limit; once fuel runs out no operation
    /// is drawn. Numbers lie in `[-100, 100]`; variables are pool names and
    /// arrays upper-cased pool names.
    pub fn gen(cx: &mut Context, rng: &mut SmallRng) -> (r: AExpr)
        requires
            old(cx).wf(),
        ensures
            final(cx).wf(),
            final(cx).fuel_spec() == old(cx).fuel_spec(),
            final(cx).names_spec() == old(cx).names_spec(),
            final(cx).negation_spec() == old(cx).negation_spec(),
            a_drawn(r, old(cx).pool_spec()),
            a_numbers_small(r),
            a_ops(r) + a_arrays(r) + final(cx).depth_spec() <= old(cx).depth_spec(),
            old(cx).fuel_spec() == 0 ==> a_ops(r) == 0,
        decreases old(cx).fuel_spec(), 0nat, old(cx).depth_spec() + old(cx).negation_spec(), 2nat,
    {
        let named = cx.names.len() > 0;
        let deep = cx.recursion_limit > 0;
        let w_var: u32 = if named { 7 } else { 0 };
        let w_array: u32 = if deep && named { 1 } else { 0 };
        let w_binary: u32 = if deep && cx.fuel > 0 { 5 } else { 0 };
        let k = pick4(rng, 4, w_var, w_array, w_binary);
        AExpr::production(k, cx, rng)
    }

    /// The production drawn as `k`: a number, a variable, an array
    /// element, or a binary operation.
    pub fn production(k: usize, cx: &mut Context, rng: &mut SmallRng) -> (r: AExpr)
        requires
            old(cx).wf(),
            k < 4,
            k == 1 ==> old(cx).names_spec().len() > 0,
            k == 2 ==> old(cx).names_spec().len() > 0 && old(cx).depth_spec() > 0,
            k == 3 ==> old(cx).depth_spec() > 0 && old(cx).fuel_spec() > 0,
        ensures
            k == 0 ==> r is Number,
            k == 1 ==> r is Variable,
            k == 2 ==> r is Array,
            k == 3 ==> r is Binary,
            final(cx).wf(),
            final(cx).fuel_spec() == old(cx).fuel_spec(),
            final(cx).names_spec() == old(cx).names_spec(),
            final(cx).negation_spec() == old(cx).negation_spec(),
            a_drawn(r, old(cx).pool_spec()),
            a_numbers_small(r),
            a_ops(r) + a_arrays(r) + final(cx).depth_spec() <= old(cx).depth_spec(),
            old(cx).fuel_spec() == 0 ==> a_ops(r) == 0,
        decreases old(cx).fuel_spec(), 0nat, old(cx).depth_spec() + old(cx).negation_spec(), 1nat,
    {
        if k == 0 {
            AExpr::Number(random_in(rng, -100, 100))
        } else if k == 1 {
            AExpr::Variable(cx.var_name(rng))
        } else if k == 2 {
            cx.recursion_limit = cx.recursion_limit - 1;
            AExpr::Array(Array::gen(cx, rng))
        } else {
            cx.recursion_limit = cx.recursion_limit - 1;
            let l = AExpr::gen(cx, rng);
            let op = AOp::gen(rng);
            let r = AExpr::gen(cx, rng);
            AExpr::Binary(Box::new(l), op, Box::new(r))
        }
    }
}

impl BExpr {
    /// A boolean expression. Each comparison, connective, and arithmetic
    /// operation or array access inside uses up one unit of the recursion
    /// limit, and each negation one unit of the negation limit. Numbers
    /// lie in `[-100, 100]`; variables are pool names and arrays
    /// upper-cased pool names.
    pub fn gen(cx: &mut Context, rng: &mut SmallRng) -> (r: BExpr)
        requires
            old(cx).wf(),
        ensures
            final(cx).wf(),
            final(cx).fuel_spec() == old(cx).fuel_spec(),
            final(cx).names_spec() == old(cx).names_spec(),
            b_drawn(r, old(cx).pool_spec()),
            b_numbers_small(r),
            b_nodes(r) + final(cx).depth_spec() <= old(cx).depth_spec(),
            b_negations(r) + final(cx).negation_spec() <= old(cx).negation_spec(),
        decreases old(cx).fuel_spec(), 0nat, old(cx).depth_spec() + old(cx).negation_spec(), 2nat,
    {
        let deep: u32 = if cx.recursion_limit > 0 { 7 } else { 0 };
        let neg: u32 = if cx.negation_limit > 0 { 4 } else { 0 };
        let k = pick4(rng, 2, deep, deep, neg);
        BExpr::production(k, cx, rng)
    }

    /// The production drawn as `k`: a constant, a comparison, a
    /// connective, or a negation.
    pub fn production(k: usize, cx: &mut Context, rng: &mut SmallRng) -> (r: BExpr)
        requires
            old(cx).wf(),
            k < 4,
            k == 1 || k == 2 ==> old(cx).depth_spec() > 0,
            k == 3 ==> old(cx).negation_spec() > 0,
        ensures
            k == 0 ==> r is Bool,
            k == 1 ==> r is Rel,
            k == 2 ==> r is Logic,
            k == 3 ==> r is Not,
            final(cx).wf(),
            final(cx).fuel_spec() == old(cx).fuel_spec(),
            final(cx).names_spec() == old(cx).names_spec(),
            b_drawn(r, old(cx).pool_spec()),
            b_numbers_small(r),
            b_nodes(r) + final(cx).depth_spec() <= old(cx).depth_spec(),
            b_negations(r) + final(cx).negation_spec() <= old(cx).negation_spec(),
        decreases old(cx).fuel_spec(), 0nat, old(cx).depth_spec() + old(cx).negation_spec(), 1nat,
    {
        if k == 0 {
            BExpr::Bool(random_bool(rng))
        } else if k == 1 {
            cx.recursion_limit = cx.recursion_limit - 1;
            let l = AExpr::gen(cx, rng);
            let op = RelOp::gen(rng);
            let r = AExpr::gen(cx, rng);
            BExpr::Rel(l, op, r)
        } else if k == 2 {
            cx.recursion_limit = cx.recursion_limit - 1;
            let l = BExpr::gen(cx, rng);
            let op = LogicOp::gen(rng);
            let r = BExpr::gen(cx, rng);
            BExpr::Logic(Box::new(l), op, Box::new(r))
        } else {
            cx.negation_limit = cx.negation_limit - 1;
            BExpr::Not(Box::new(BExpr::gen(cx, rng)))
        }
    }
}

impl Command {
    /// A command: an assignment, an array assignment, or, while fuel
    /// lasts, an `if` or a loop with one or more guards.
    pub fn gen(cx: &mut Context, rng: &mut SmallRng) -> (r: Command)
        requires
            old(cx).wf(),
            old(cx).names_spec().len() > 0,
        ensures
            final(cx).wf(),
            final(cx).fuel_spec() <= old(cx).fuel_spec(),
            final(cx).names_spec() == old(cx).names_spec(),
            cmd_size(r) + 3 * final(cx).fuel_spec() <= 1 + 3 * old(cx).fuel_spec(),
            r is Assignment || r is ArrayAssignment || ((r is If || r is Loop) && old(cx).fuel_spec() > 0),
            cmd_drawn(r, old(cx).pool_spec()),
        decreases old(cx).fuel_spec(), 2nat, 1nat, 0nat,
    {
        cx.reset_limits();
        let w_nested: u32 = if cx.fuel > 0 { 3 } else { 0 };
        let k = pick4(rng, 7, 3, w_nested, w_nested);
        Command::production(k, cx, rng)
    }

    /// The production drawn as `k`: an assignment, an array assignment, an
    /// `if` or a loop.
    pub fn production(k: usize, cx: &mut Context, rng: &mut SmallRng) -> (r: Command)
        requires
            old(cx).wf(),
            old(cx).names_spec().len() > 0,
            k < 4,
            k >= 2 ==> old(cx).fuel_spec() > 0,
        ensures
            k == 0 ==> r is Assignment,
            k == 1 ==> r is ArrayAssignment,
            k == 2 ==> r is If,
            k == 3 ==> r is Loop,
            final(cx).wf(),
            final(cx).fuel_spec() <= old(cx).fuel_spec(),
            final(cx).names_spec() == old(cx).names_spec(),
            cmd_size(r) + 3 * final(cx).fuel_spec() <= 1 + 3 * old(cx).fuel_spec(),
            cmd_drawn(r, old(cx).pool_spec()),
        decreases old(cx).fuel_spec(), 2nat, 0nat, 0nat,
    {
        if k == 0 {
            let x = Variable::gen(cx, rng);
            Command::Assignment(x, AExpr::gen(cx, rng))
        } else if k == 1 {
            let a = Array::gen(cx, rng);
            Command::ArrayAssignment(a, AExpr::gen(cx, rng))
        } else {
            let gs = Guard::gen_many(cx, rng);
            if k == 2 {
                Command::If(gs)
            } else {
                Command::Loop(gs)
            }
        }
    }
}

impl Guard {
    /// Between one and ten guards, the count debited from the fuel, which
    /// must not be spent.
    fn gen_many(cx: &mut Context, rng: &mut SmallRng) -> (r: Vec<Guard>)
        requires
            old(cx).wf(),
            old(cx).names_spec().len() > 0,
            old(cx).fuel_spec() > 0,
        ensures
            final(cx).wf(),
            final(cx).fuel_spec() < old(cx).fuel_spec(),
            final(cx).names_spec() == old(cx).names_spec(),
            r@.len() >= 1,
            guards_size(r@, r@.len() as int) + 3 * final(cx).fuel_spec() + 1 <= 3 * old(cx).fuel_spec(),
            guards_drawn(r@, r@.len() as int, old(cx).pool_spec()),
            final(cx).fuel_spec() + r@.len() <= old(cx).fuel_spec(),
        decreases old(cx).fuel_spec(), 1nat, 0nat, 0nat,
    {
        let n = cx.many(1, 10, rng);
        let ghost f1 = cx.fuel;
        let mut gs: Vec<Guard> = Vec::new();
        let mut i: u32 = 0;
        while i < n
            invariant
                cx.wf(),
                cx.fuel <= f1,
                f1 < old(cx).fuel_spec(),
                f1 + n == old(cx).fuel_spec(),
                n >= 1,
                cx.names@ == old(cx).names_spec(),
                cx.names@.len() > 0,
                i <= n,
                gs@.len() == i,
                guards_size(gs@, i as int) + 3 * cx.fuel <= 2 * i + 3 * f1,
                guards_drawn(gs@, i as int, old(cx).pool_spec()),
            decreases n - i,
        {
            let g = Guard::gen(cx, rng);
            proof {
                lemma_guards_size_push(gs@, g);
                lemma_guards_drawn_push(gs@, g, old(cx).pool_spec());
            }
            gs.push(g);
            i = i + 1;
        }
        gs
    }

    /// A guard: a condition and one or more generated commands.
    pub fn gen(cx: &mut Context, rng: &mut SmallRng) -> (r: Guard)
        requires
            old(cx).wf(),
            old(cx).names_spec().len() > 0,
        ensures
            final(cx).wf(),
            final(cx).fuel_spec() <= old(cx).fuel_spec(),
            final(cx).names_spec() == old(cx).names_spec(),
            1 + cmds_size(r.1.0@, r.1.0@.len() as int) + 3 * final(cx).fuel_spec() <= 2 + 3 * old(cx).fuel_spec(),
            r.1.0@.len() >= 1,
            b_drawn(r.0, old(cx).pool_spec()),
            cmds_drawn(r.1.0@, r.1.0@.len() as int, old(cx).pool_spec()),
        decreases old(cx).fuel_spec(), 4nat, 0nat, 0nat,
    {
        cx.reset_limits();
        let b = BExpr::gen(cx, rng);
        Guard(b, Commands::gen(cx, rng))
    }
}

impl Commands {
    /// Between one and ten generated commands, the count debited from the
    /// fuel.
    pub fn gen(cx: &mut Context, rng: &mut SmallRng) -> (r: Commands)
        requires
            old(cx).wf(),
            old(cx).names_spec().len() > 0,
        ensures
            final(cx).wf(),
            final(cx).fuel_spec() <= old(cx).fuel_spec(),
            final(cx).names_spec() == old(cx).names_spec(),
            r.0@.len() >= 1,
            cmds_size(r.0@, r.0@.len() as int) + 3 * final(cx).fuel_spec() <= 1 + 3 * old(cx).fuel_spec(),
            cmds_drawn(r.0@, r.0@.len() as int, old(cx).pool_spec()),
            old(cx).fuel_spec() >= r.0@.len() ==> final(cx).fuel_spec() + r.0@.len() <= old(cx).fuel_spec(),
        decreases old(cx).fuel_spec(), 3nat, 0nat, 0nat,
    {
        let n = cx.many(1, 10, rng);
        let ghost f1 = cx.fuel;
        let mut cs: Vec<Command> = Vec::new();
        let mut i: u32 = 0;
        while i < n
            invariant
                cx.wf(),
                cx.fuel <= f1,
                f1 <= old(cx).fuel_spec(),
                n + 3 * f1 <= 1 + 3 * old(cx).fuel_spec(),
                cx.names@ == old(cx).names_spec(),
                cx.names@.len() > 0,
                i <= n,
                cs@.len() == i,
                cmds_size(cs@, i as int) + 3 * cx.fuel <= i + 3 * f1,
                cmds_drawn(cs@, i as int, old(cx).pool_spec()),
                old(cx).fuel_spec() >= n ==> f1 + n == old(cx).fuel_spec(),
            decreases n - i,
        {
            let c = Command::gen(cx, rng);
            proof {
                lemma_cmds_size_push(cs@, c);
                lemma_cmds_drawn_push(cs@, c, old(cx).pool_spec());
            }
            cs.push(c);
            i = i + 1;
        }
        Commands(cs)
    }
}

impl Context {
    /// Whether `x` is a variable name of the pool.
    pub fn is_variable_name(&self, x: &str) -> (r: bool)
        ensures
            r == exists|i: int| 0 <= i < self.names_spec().len() && #[trigger] self.names_spec()[i]@ == x@,
    {
        let mut i: usize = 0;
        while i < self.names.len()
            invariant
                i <= self.names@.len(),
                forall|j: int| 0 <= j < i ==> #[trigger] self.names@[j]@ != x@,
            decreases self.names@.len() - i,
        {
            if str_eq(self.names[i].as_str(), x) {
                assert(self.names_spec()[i as int]@ == x@);
                return true;
            }
            i = i + 1;
        }
        false
    }
}

/// The fuel of a generated program.
pub const PROGRAM_FUEL: u32 = 10;

/// A name of the program has a starting value: a variable in `[-10, 10]`
/// or an array of five to ten such values.
pub open spec fn initialised(m: crate::memory::MemoryModel, x: Seq<char>) -> bool {
    (m.0.contains_key(x) && -10 <= m.0[x] <= 10) || (m.1.contains_key(x) && 5 <= m.1[x].len() <= 10
        && forall|k: int| 0 <= k < m.1[x].len() ==> -10 <= #[trigger] m.1[x][k] <= 10)
}

/// A random interpreter input: a program, a memory that gives each of its
/// variables a value in `[-10, 10]` and each of its arrays five to ten
/// such values, a mode, and a trace length in `[10, 15]`.
pub fn generate_interpreter_input(rng: &mut SmallRng) -> (r: Input)
    ensures
        r.assignment.wf(),
        10 <= r.trace_length <= 15,
        r.commands.0@.len() >= 1,
        cmds_size(r.commands.0@, r.commands.0@.len() as int) <= 1 + 3 * PROGRAM_FUEL,
        cmds_drawn(r.commands.0@, r.commands.0@.len() as int, base_pool()),
        forall|x: Seq<char>| #[trigger] program_fv(r.commands).contains(x) ==> initialised(r.assignment@, x),
{
    let mut cx = Context::new(PROGRAM_FUEL);
    let commands = Commands::gen(&mut cx, rng);
    let names = commands.fv();
    let mut memory = Memory::new();
    let mut i: usize = 0;
    while i < names.len()
        invariant
            memory.wf(),
            cx.wf(),
            i <= names@.len(),
            names_distinct(names@),
            forall|j: int| 0 <= j < i ==> #[trigger] initialised(memory@, names@[j]@),
        decreases names@.len() - i,
    {
        let x = names[i].clone();
        let ghost before = memory@;
        if cx.is_variable_name(x.as_str()) {
            let v = random_in(rng, -10, 10);
            memory.set_variable(x, v);
            assert forall|j: int| 0 <= j < i + 1 implies #[trigger] initialised(memory@, names@[j]@) by {
                if j < i {
                    assert(names@[j]@ != names@[i as int]@);
                    assert(initialised(before, names@[j]@));
                }
            }
        } else {
            let len = random_in(rng, 5, 10);
            let mut values: Vec<i64> = Vec::new();
            let mut k: i64 = 0;
            while k < len
                invariant
                    0 <= k <= len,
                    values@.len() == k,
                    forall|q: int| 0 <= q < values@.len() ==> -10 <= #[trigger] values@[q] <= 10,
                decreases len - k,
            {
                values.push(random_in(rng, -10, 10));
                k = k + 1;
            }
            memory.set_array(x, values);
            assert forall|j: int| 0 <= j < i + 1 implies #[trigger] initialised(memory@, names@[j]@) by {
                if j < i {
                    assert(names@[j]@ != names@[i as int]@);
                    assert(initialised(before, names@[j]@));
                }
            }
        }
        i = i + 1;
    }
    assert forall|x: Seq<char>| #[trigger] program_fv(commands).contains(x) implies initialised(memory@, x) by {
        assert(name_set(names@).contains(x));
        let j = choose|j: int| 0 <= j < names@.len() && #[trigger] names@[j]@ == x;
        assert(initialised(memory@, names@[j]@));
    }
    let determinism = if random_in(rng, 0, 1) == 0 {
        Determinism::Deterministic
    } else {
        Determinism::NonDeterministic
    };
    let trace_length = random_in(rng, 10, 15) as u64;
    Input { commands, determinism, assignment: memory, trace_length }
}

/// The rules of the lattices that generated inputs use, by number.
pub open spec fn lattice_rules(k: int) -> Seq<FlowModel> {
    if k == 0 {
        seq![("public"@, "private"@)]
    } else if k == 1 {
        seq![("unclassified"@, "classified"@), ("classified"@, "secret"@), ("secret"@, "top_secret"@)]
    } else if k == 2 {
        seq![("trusted"@, "dubious"@)]
    } else if k == 3 {
        seq![("known_facts"@, "conjecture"@), ("conjecture"@, "alternative_facts"@)]
    } else if k == 4 {
        seq![("low"@, "high"@)]
    } else {
        seq![("clean"@, "Facebook"@), ("clean"@, "Google"@), ("clean"@, "Microsoft"@)]
    }
}

/// The views of a list of flows.
pub open spec fn flow_views(v: Seq<Flow>) -> Seq<FlowModel> {
    v.map_values(|f: Flow| f@)
}

/// The classes that some rule names.
pub open spec fn rule_classes(rules: Seq<Flow>) -> Set<Seq<char>> {
    Set::new(|c: Seq<char>| exists|j: int| 0 <= j < rules.len() && (#[trigger] rules[j]@.0 == c || rules[j]@.1 == c))
}

/// The rules of one of the lattices that generated inputs use.
fn lattice_option(k: i64) -> (r: Vec<Flow>)
    requires
        0 <= k <= 5,
    ensures
        flow_views(r@) == lattice_rules(k as int),
        0 < r@.len() <= 3,
{
    let r = if k == 0 {
        vec![flow("public", "private")]
    } else if k == 1 {
        vec![flow("unclassified", "classified"), flow("classified", "secret"), flow("secret", "top_secret")]
    } else if k == 2 {
        vec![flow("trusted", "dubious")]
    } else if k == 3 {
        vec![flow("known_facts", "conjecture"), flow("conjecture", "alternative_facts")]
    } else if k == 4 {
        vec![flow("low", "high")]
    } else {
        vec![flow("clean", "Facebook"), flow("clean", "Google"), flow("clean", "Microsoft")]
    };
    assert(flow_views(r@) =~= lattice_rules(k as int));
    r
}

/// A random security input: a program, one of six lattices, and a class
/// named by that lattice's rules for each name of the program.
pub fn generate_security_input(rng: &mut SmallRng) -> (r: SecurityInput)
    ensures
        r.classification.wf(),
        r.commands.0@.len() >= 1,
        exists|k: int| 0 <= k < 6 && flow_views(r.lattice.rules@) == #[trigger] lattice_rules(k),
        program_fv(r.commands).subset_of(r.classification@.dom()),
        forall|x: Seq<char>| #[trigger] r.classification@.contains_key(x) ==> rule_classes(r.lattice.rules@).contains(
            r.classification@[x],
        ),
        cmds_size(r.commands.0@, r.commands.0@.len() as int) <= 1 + 3 * PROGRAM_FUEL,
        cmds_drawn(r.commands.0@, r.commands.0@.len() as int, base_pool()),
{
    let mut cx = Context::new(PROGRAM_FUEL);
    let commands = Commands::gen(&mut cx, rng);
    let choice = random_in(rng, 0, 5);
    let rules = lattice_option(choice);
    let ghost rc = rule_classes(rules@);
    let mut classes: Vec<String> = Vec::new();
    let mut k: usize = 0;
    while k < rules.len()
        invariant
            k <= rules@.len(),
            0 < rules@.len() <= 3,
            rc == rule_classes(rules@),
            names_distinct(classes@),
            k > 0 ==> classes@.len() > 0,
            classes@.len() <= 2 * k,
            forall|c: int| 0 <= c < classes@.len() ==> rc.contains(#[trigger] classes@[c]@),
        decreases rules@.len() - k,
    {
        let ghost before = classes@;
        add_name(&mut classes, rules[k].from.as_str());
        proof {
            assert(rules@[k as int]@.0 == rules@[k as int].from@);
            assert forall|c: int| 0 <= c < classes@.len() implies rc.contains(#[trigger] classes@[c]@) by {
                assert(name_set(classes@).contains(classes@[c]@));
                if classes@[c]@ != rules@[k as int].from@ {
                    assert(name_set(before).contains(classes@[c]@));
                    let d = choose|d: int| 0 <= d < before.len() && #[trigger] before[d]@ == classes@[c]@;
                }
            }
        }
        let ghost before2 = classes@;
        add_name(&mut classes, rules[k].into.as_str());
        proof {
            assert(rules@[k as int]@.1 == rules@[k as int].into@);
            assert forall|c: int| 0 <= c < classes@.len() implies rc.contains(#[trigger] classes@[c]@) by {
                assert(name_set(classes@).contains(classes@[c]@));
                if classes@[c]@ != rules@[k as int].into@ {
                    assert(name_set(before2).contains(classes@[c]@));
                    let d = choose|d: int| 0 <= d < before2.len() && #[trigger] before2[d]@ == classes@[c]@;
                }
            }
            assert(name_set(classes@).contains(rules@[k as int].from@));
        }
        k = k + 1;
    }
    let names = commands.fv();
    let mut classification: NameMap<SecurityClass> = NameMap::new();
    let mut i: usize = 0;
    while i < names.len()
        invariant
            classification.wf(),
            0 < classes@.len() <= 6,
            i <= names@.len(),
            forall|c: int| 0 <= c < classes@.len() ==> rc.contains(#[trigger] classes@[c]@),
            forall|j: int| 0 <= j < i ==> classification@.contains_key(#[trigger] names@[j]@),
            forall|x: Seq<char>| #[trigger] classification@.contains_key(x) ==> rc.contains(classification@[x]),
        decreases names@.len() - i,
    {
        let c = random_in(rng, 0, (classes.len() - 1) as i64) as usize;
        let class = SecurityClass(classes[c].clone());
        assert(class@ == classes@[c as int]@);
        classification.insert(names[i].clone(), class);
        i = i + 1;
    }
    assert forall|x: Seq<char>| program_fv(commands).contains(x) implies classification@.dom().contains(x) by {
        assert(name_set(names@).contains(x));
        let j = choose|j: int| 0 <= j < names@.len() && #[trigger] names@[j]@ == x;
        assert(classification@.contains_key(names@[j]@));
    }
    let r = SecurityInput { commands, classification, lattice: SecurityLatticeInput { rules } };
    assert(0 <= choice < 6 && flow_views(r.lattice.rules@) == lattice_rules(choice as int));
    r
}

/// The fuel of a generated arithmetic expression.
pub const EXPRESSION_FUEL: u32 = 25;

/// The number of extra samples drawn to find an expression that evaluates.
pub const EXPRESSION_RETRIES: u32 = 10;

/// A random arithmetic expression without variables. Samples are drawn
/// until one evaluates, at most one plus the retry count; the last is
/// kept even if it fails.
pub fn generate_calc_input(rng: &mut SmallRng) -> (r: AExpr)
    ensures
        fv_a(r) == Set::<Seq<char>>::empty(),
        a_numbers_small(r),
{
    let mut cx = Context::unnamed(EXPRESSION_FUEL);
    let mut expr = AExpr::gen(&mut cx, rng);
    let empty = Memory::new();
    let mut k: u32 = 0;
    while k < EXPRESSION_RETRIES
        invariant
            empty.wf(),
            a_drawn(expr, Seq::<Seq<char>>::empty()),
            a_numbers_small(expr),
        decreases EXPRESSION_RETRIES - k,
    {
        if crate::semantics::eval_aexpr(&expr, &empty).is_ok() {
            break;
        }
        let mut cx = Context::unnamed(EXPRESSION_FUEL);
        expr = AExpr::gen(&mut cx, rng);
        k = k + 1;
    }
    proof {
        lemma_drawn_from_nothing(expr);
    }
    expr
}

} // verus!
