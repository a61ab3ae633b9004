//! Free variables and information flows of commands.

use vstd::prelude::*;
use crate::ast::{AExpr, Array, BExpr, Command, Commands, Guard, Variable};
use crate::names::str_eq;

verus! {

/// A flow of information from one name into another.
#[derive(Debug)]
pub struct Flow {
    pub from: String,
    pub into: String,
}

/// A flow as a pair of names.
pub type FlowModel = (Seq<char>, Seq<char>);

impl View for Flow {
    type V = FlowModel;

    open spec fn view(&self) -> FlowModel {
        (self.from@, self.into@)
    }
}

/// The flow from `from` into `into`.
pub fn flow(from: &str, into: &str) -> (r: Flow)
    ensures
        r@ == (from@, into@),
{
    Flow { from: from.to_string(), into: into.to_string() }
}

impl Flow {
    /// A copy of the flow.
    pub fn copy(&self) -> (r: Flow)
        ensures
            r@ == self@,
    {
        Flow { from: self.from.clone(), into: self.into.clone() }
    }
}

/// The set of flows in a sequence.
pub open spec fn flow_set(v: Seq<Flow>) -> Set<FlowModel> {
    Set::new(|f: FlowModel| exists|i: int| 0 <= i < v.len() && #[trigger] v[i]@ == f)
}

/// No flow occurs twice.
pub open spec fn flows_distinct(v: Seq<Flow>) -> bool {
    forall|i: int, j: int| 0 <= i < j < v.len() ==> v[i]@ != v[j]@
}

/// The set of names in a sequence.
pub open spec fn name_set(v: Seq<String>) -> Set<Seq<char>> {
    Set::new(|x: Seq<char>| exists|i: int| 0 <= i < v.len() && #[trigger] v[i]@ == x)
}

/// No name occurs twice.
pub open spec fn names_distinct(v: Seq<String>) -> bool {
    forall|i: int, j: int| 0 <= i < j < v.len() ==> v[i]@ != v[j]@
}

/// The variables and arrays that an arithmetic expression reads.
pub open spec fn fv_a(e: AExpr) -> Set<Seq<char>>
    decreases e,
{
    match e {
        AExpr::Number(_) => Set::empty(),
        AExpr::Variable(x) => set![x@],
        AExpr::Array(Array(a, i)) => fv_a(*i).insert(a@),
        AExpr::Binary(l, _, r) => fv_a(*l) + fv_a(*r),
        AExpr::Minus(x) => fv_a(*x),
    }
}

/// The variables and arrays that a boolean expression reads.
pub open spec fn fv_b(b: BExpr) -> Set<Seq<char>>
    decreases b,
{
    match b {
        BExpr::Bool(_) => Set::empty(),
        BExpr::Rel(l, _, r) => fv_a(l) + fv_a(r),
        BExpr::Logic(l, _, r) => fv_b(*l) + fv_b(*r),
        BExpr::Not(x) => fv_b(*x),
    }
}

/// The variables and arrays that a command reads or writes.
pub open spec fn cmd_fv(c: Command) -> Set<Seq<char>>
    decreases c, 0nat,
{
    match c {
        Command::Assignment(Variable(x), e) => fv_a(e).insert(x@),
        Command::ArrayAssignment(Array(a, i), e) => (fv_a(*i) + fv_a(e)).insert(a@),
        Command::If(gs) => guards_fv(gs@, gs@.len() as int),
        Command::Loop(gs) => guards_fv(gs@, gs@.len() as int),
        _ => Set::empty(),
    }
}

/// The names of the first `n` guards of a list.
pub open spec fn guards_fv(gs: Seq<Guard>, n: int) -> Set<Seq<char>>
    decreases gs, n,
{
    if n <= 0 || n > gs.len() {
        Set::empty()
    } else {
        guards_fv(gs, n - 1) + fv_b(gs[n - 1].0) + cmds_fv(
            gs[n - 1].1.0@,
            gs[n - 1].1.0@.len() as int,
        )
    }
}

/// The names of the first `n` commands of a sequence.
pub open spec fn cmds_fv(cs: Seq<Command>, n: int) -> Set<Seq<char>>
    decreases cs, n,
{
    if n <= 0 || n > cs.len() {
        Set::empty()
    } else {
        cmds_fv(cs, n - 1) + cmd_fv(cs[n - 1])
    }
}

/// The flows from every name of `src` into `x`.
pub open spec fn flows_into(src: Set<Seq<char>>, x: Seq<char>) -> Set<FlowModel> {
    Set::new(|f: FlowModel| src.contains(f.0) && f.1 == x)
}

/// The flows of a command when the names in `imp` have influenced
/// control flow: explicit flows from what an assignment reads, implicit
/// ones from `imp` and the conditions of enclosing guards.
pub open spec fn cmd_flows(c: Command, imp: Set<Seq<char>>) -> Set<FlowModel>
    decreases c, 0nat,
{
    match c {
        Command::Assignment(Variable(x), e) => flows_into(imp + fv_a(e), x@),
        Command::ArrayAssignment(Array(a, i), e) => flows_into(imp + fv_a(e) + fv_a(*i), a@),
        Command::If(gs) => guards_flows(gs@, gs@.len() as int, imp).1,
        Command::Loop(gs) => guards_flows(gs@, gs@.len() as int, imp).1,
        _ => Set::empty(),
    }
}

/// Processes the first `n` guards left to right: each guard's condition
/// joins the implicit names before its body is processed. Returns the
/// implicit names after them and the flows of their bodies.
pub open spec fn guards_flows(gs: Seq<Guard>, n: int, imp: Set<Seq<char>>) -> (Set<Seq<char>>, Set<FlowModel>)
    decreases gs, n,
{
    if n <= 0 || n > gs.len() {
        (imp, Set::empty())
    } else {
        let p = guards_flows(gs, n - 1, imp);
        let imp2 = p.0 + fv_b(gs[n - 1].0);
        (imp2, p.1 + cmds_flows(gs[n - 1].1.0@, gs[n - 1].1.0@.len() as int, imp2))
    }
}

/// The flows of the first `n` commands of a sequence.
pub open spec fn cmds_flows(cs: Seq<Command>, n: int, imp: Set<Seq<char>>) -> Set<FlowModel>
    decreases cs, n,
{
    if n <= 0 || n > cs.len() {
        Set::empty()
    } else {
        cmds_flows(cs, n - 1, imp) + cmd_flows(cs[n - 1], imp)
    }
}

/// The flows of a program.
pub open spec fn program_flows(cmds: Commands) -> Set<FlowModel> {
    cmds_flows(cmds.0@, cmds.0@.len() as int, Set::empty())
}

/// The names of a program.
pub open spec fn program_fv(cmds: Commands) -> Set<Seq<char>> {
    cmds_fv(cmds.0@, cmds.0@.len() as int)
}

/// Adds `x` to `out` unless it is there.
pub fn add_name(out: &mut Vec<String>, x: &str)
    requires
        names_distinct(old(out)@),
    ensures
        names_distinct(final(out)@),
        name_set(final(out)@) == name_set(old(out)@).insert(x@),
        final(out)@.len() <= old(out)@.len() + 1,
{
    let mut i: usize = 0;
    while i < out.len()
        invariant
            i <= out@.len(),
            out@ == old(out)@,
            names_distinct(out@),
            forall|j: int| 0 <= j < i ==> #[trigger] out@[j]@ != x@,
        decreases out@.len() - i,
    {
        if str_eq(out[i].as_str(), x) {
            assert(out@[i as int]@ == x@);
            assert(name_set(out@) =~= name_set(out@).insert(x@));
            return;
        }
        i = i + 1;
    }
    let ghost before = out@;
    out.push(x.to_string());
    assert forall|y: Seq<char>| name_set(out@).contains(y) <==> name_set(before).insert(x@).contains(y) by {
        if name_set(out@).contains(y) {
            let j = choose|j: int| 0 <= j < out@.len() && #[trigger] out@[j]@ == y;
            if j < before.len() {
                assert(before[j]@ == y);
            }
        }
        if y == x@ {
            assert(out@[before.len() as int]@ == y);
        } else if name_set(before).contains(y) {
            let j = choose|j: int| 0 <= j < before.len() && #[trigger] before[j]@ == y;
            assert(out@[j]@ == y);
        }
    }
    assert(name_set(out@) =~= name_set(before).insert(x@));
}

/// Adds the flow from `from` into `into` to `out` unless it is there.
pub fn add_flow(out: &mut Vec<Flow>, from: &str, into: &str)
    requires
        flows_distinct(old(out)@),
    ensures
        flows_distinct(final(out)@),
        flow_set(final(out)@) == flow_set(old(out)@).insert((from@, into@)),
        flow_set(old(out)@).contains((from@, into@)) ==> final(out)@ == old(out)@,
        !flow_set(old(out)@).contains((from@, into@)) ==> final(out)@.len() == old(out)@.len() + 1
            && final(out)@[old(out)@.len() as int]@ == (from@, into@),
        forall|i: int| 0 <= i < old(out)@.len() ==> #[trigger] final(out)@[i] == old(out)@[i],
{
    let mut i: usize = 0;
    while i < out.len()
        invariant
            i <= out@.len(),
            out@ == old(out)@,
            flows_distinct(out@),
            forall|j: int| 0 <= j < i ==> #[trigger] out@[j]@ != (from@, into@),
        decreases out@.len() - i,
    {
        if str_eq(out[i].from.as_str(), from) && str_eq(out[i].into.as_str(), into) {
            assert(out@[i as int]@ == (from@, into@));
            assert(flow_set(out@) =~= flow_set(out@).insert((from@, into@)));
            return;
        }
        i = i + 1;
    }
    let ghost before = out@;
    out.push(flow(from, into));
    assert forall|f: FlowModel| flow_set(out@).contains(f) <==> flow_set(before).insert((from@, into@)).contains(f) by {
        if flow_set(out@).contains(f) {
            let j = choose|j: int| 0 <= j < out@.len() && #[trigger] out@[j]@ == f;
            if j < before.len() {
                assert(before[j]@ == f);
            }
        }
        if f == (from@, into@) {
            assert(out@[before.len() as int]@ == f);
        } else if flow_set(before).contains(f) {
            let j = choose|j: int| 0 <= j < before.len() && #[trigger] before[j]@ == f;
            assert(out@[j]@ == f);
        }
    }
    assert(flow_set(out@) =~= flow_set(before).insert((from@, into@)));
}

/// Adds the names that an arithmetic expression reads.
pub fn collect_fv_a(e: &AExpr, out: &mut Vec<String>)
    requires
        names_distinct(old(out)@),
    ensures
        names_distinct(final(out)@),
        name_set(final(out)@) == name_set(old(out)@) + fv_a(*e),
    decreases e,
{
    match e {
        AExpr::Number(_) => {
            assert(name_set(out@) =~= name_set(out@) + fv_a(*e));
        },
        AExpr::Variable(x) => {
            add_name(out, x.as_str());
            assert(name_set(out@) =~= name_set(old(out)@) + fv_a(*e));
        },
        AExpr::Array(Array(a, i)) => {
            collect_fv_a(i, out);
            add_name(out, a.as_str());
            assert(name_set(out@) =~= name_set(old(out)@) + fv_a(*e));
        },
        AExpr::Binary(l, _, r) => {
            collect_fv_a(l, out);
            collect_fv_a(r, out);
            assert(name_set(out@) =~= name_set(old(out)@) + fv_a(*e));
        },
        AExpr::Minus(x) => {
            collect_fv_a(x, out);
        },
    }
}

/// Adds the names that a boolean expression reads.
pub fn collect_fv_b(b: &BExpr, out: &mut Vec<String>)
    requires
        names_distinct(old(out)@),
    ensures
        names_distinct(final(out)@),
        name_set(final(out)@) == name_set(old(out)@) + fv_b(*b),
    decreases b,
{
    match b {
        BExpr::Bool(_) => {
            assert(name_set(out@) =~= name_set(out@) + fv_b(*b));
        },
        BExpr::Rel(l, _, r) => {
            collect_fv_a(l, out);
            collect_fv_a(r, out);
            assert(name_set(out@) =~= name_set(old(out)@) + fv_b(*b));
        },
        BExpr::Logic(l, _, r) => {
            collect_fv_b(l, out);
            collect_fv_b(r, out);
            assert(name_set(out@) =~= name_set(old(out)@) + fv_b(*b));
        },
        BExpr::Not(x) => {
            collect_fv_b(x, out);
        },
    }
}

/// A copy of a list of names.
fn copy_names(v: &Vec<String>) -> (r: Vec<String>)
    ensures
        r@ == v@,
{
    let mut r: Vec<String> = Vec::new();
    let mut i: usize = 0;
    while i < v.len()
        invariant
            i <= v@.len(),
            r@ == v@.subrange(0, i as int),
        decreases v@.len() - i,
    {
        r.push(v[i].clone());
        i = i + 1;
        assert(r@ =~= v@.subrange(0, i as int));
    }
    assert(r@ =~= v@);
    r
}

/// Adds a flow from each name of `src` into `x`.
fn add_flows_into(out: &mut Vec<Flow>, src: &Vec<String>, x: &str)
    requires
        flows_distinct(old(out)@),
    ensures
        flows_distinct(final(out)@),
        flow_set(final(out)@) == flow_set(old(out)@) + flows_into(name_set(src@), x@),
{
    let mut i: usize = 0;
    while i < src.len()
        invariant
            i <= src@.len(),
            flows_distinct(out@),
            flow_set(out@) == flow_set(old(out)@) + flows_into(name_set(src@.subrange(0, i as int)), x@),
        decreases src@.len() - i,
    {
        add_flow(out, src[i].as_str(), x);
        proof {
            let a = name_set(src@.subrange(0, i as int));
            let b = name_set(src@.subrange(0, i + 1));
            assert(b =~= a.insert(src@[i as int]@)) by {
                assert forall|y: Seq<char>| b.contains(y) <==> a.insert(src@[i as int]@).contains(y) by {
                    if b.contains(y) {
                        let j = choose|j: int| 0 <= j < i + 1 && #[trigger] src@.subrange(0, i + 1)[j]@ == y;
                        if j < i {
                            assert(src@.subrange(0, i as int)[j]@ == y);
                        }
                    }
                    if a.contains(y) {
                        let j = choose|j: int| 0 <= j < i && #[trigger] src@.subrange(0, i as int)[j]@ == y;
                        assert(src@.subrange(0, i + 1)[j]@ == y);
                    }
                    if y == src@[i as int]@ {
                        assert(src@.subrange(0, i + 1)[i as int]@ == y);
                    }
                }
            }
            assert(flow_set(out@) =~= flow_set(old(out)@) + flows_into(b, x@));
        }
        i = i + 1;
    }
    assert(src@.subrange(0, src@.len() as int) =~= src@);
}

impl Command {
    /// Adds the flows of the command, with `implicit` the names that have
    /// influenced control flow so far.
    fn sec(&self, implicit: &Vec<String>, out: &mut Vec<Flow>)
        requires
            names_distinct(implicit@),
            flows_distinct(old(out)@),
        ensures
            flows_distinct(final(out)@),
            flow_set(final(out)@) == flow_set(old(out)@) + cmd_flows(*self, name_set(implicit@)),
        decreases self, 0nat,
    {
        match self {
            Command::Assignment(Variable(x), e) => {
                let mut src = copy_names(implicit);
                collect_fv_a(e, &mut src);
                add_flows_into(out, &src, x.as_str());
            },
            Command::ArrayAssignment(Array(a, i), e) => {
                let mut src = copy_names(implicit);
                collect_fv_a(e, &mut src);
                collect_fv_a(i, &mut src);
                add_flows_into(out, &src, a.as_str());
            },
            Command::If(gs) | Command::Loop(gs) => {
                guards_sec(gs, implicit, out);
            },
            _ => {
                assert(flow_set(out@) =~= flow_set(old(out)@) + cmd_flows(*self, name_set(implicit@)));
            },
        }
    }
}

/// Adds the flows of a guard list, left to right.
fn guards_sec(gs: &Vec<Guard>, implicit: &Vec<String>, out: &mut Vec<Flow>)
    requires
        names_distinct(implicit@),
        flows_distinct(old(out)@),
    ensures
        flows_distinct(final(out)@),
        flow_set(final(out)@) == flow_set(old(out)@) + guards_flows(
            gs@,
            gs@.len() as int,
            name_set(implicit@),
        ).1,
    decreases gs@, gs@.len() + 3,
{
    let ghost imp0 = name_set(implicit@);
    let mut imp = copy_names(implicit);
    let mut k: usize = 0;
    while k < gs.len()
        invariant
            k <= gs@.len(),
            names_distinct(imp@),
            flows_distinct(out@),
            name_set(imp@) == guards_flows(gs@, k as int, imp0).0,
            flow_set(out@) == flow_set(old(out)@) + guards_flows(gs@, k as int, imp0).1,
        decreases gs@.len() - k,
    {
        assert(decreases_to!(gs@ => gs@[k as int]));
        gs[k].sec2(&mut imp, out);
        assert(flow_set(out@) =~= flow_set(old(out)@) + guards_flows(gs@, k + 1, imp0).1);
        k = k + 1;
    }
}

impl Guard {
    /// Adds the names of the condition to `implicit`, then the flows of the
    /// body under them.
    fn sec2(&self, implicit: &mut Vec<String>, out: &mut Vec<Flow>)
        requires
            names_distinct(old(implicit)@),
            flows_distinct(old(out)@),
        ensures
            names_distinct(final(implicit)@),
            name_set(final(implicit)@) == name_set(old(implicit)@) + fv_b(self.0),
            flows_distinct(final(out)@),
            flow_set(final(out)@) == flow_set(old(out)@) + cmds_flows(
                self.1.0@,
                self.1.0@.len() as int,
                name_set(old(implicit)@) + fv_b(self.0),
            ),
        decreases self.1.0@, self.1.0@.len() + 2,
    {
        collect_fv_b(&self.0, implicit);
        self.1.sec(implicit, out);
    }
}

impl Commands {
    /// The flows of the program, each once.
    pub fn flows(&self) -> (r: Vec<Flow>)
        ensures
            flows_distinct(r@),
            flow_set(r@) == program_flows(*self),
    {
        let mut out: Vec<Flow> = Vec::new();
        let implicit: Vec<String> = Vec::new();
        proof {
            assert(name_set(implicit@) =~= Set::<Seq<char>>::empty());
            assert(flow_set(out@) =~= Set::<FlowModel>::empty());
        }
        self.sec(&implicit, &mut out);
        assert(flow_set(out@) =~= program_flows(*self));
        out
    }

    /// Adds the flows of the sequence under the implicit names `implicit`.
    fn sec(&self, implicit: &Vec<String>, out: &mut Vec<Flow>)
        requires
            names_distinct(implicit@),
            flows_distinct(old(out)@),
        ensures
            flows_distinct(final(out)@),
            flow_set(final(out)@) == flow_set(old(out)@) + cmds_flows(
                self.0@,
                self.0@.len() as int,
                name_set(implicit@),
            ),
        decreases self.0@, self.0@.len() + 1,
    {
        let mut k: usize = 0;
        while k < self.0.len()
            invariant
                k <= self.0@.len(),
                names_distinct(implicit@),
                flows_distinct(out@),
                flow_set(out@) == flow_set(old(out)@) + cmds_flows(self.0@, k as int, name_set(implicit@)),
            decreases self.0@.len() - k,
        {
            self.0[k].sec(implicit, out);
            assert(flow_set(out@) =~= flow_set(old(out)@) + cmds_flows(self.0@, k + 1, name_set(implicit@)));
            k = k + 1;
        }
    }
}

impl Command {
    /// Adds the names that the command reads or writes.
    fn collect_fv(&self, out: &mut Vec<String>)
        requires
            names_distinct(old(out)@),
        ensures
            names_distinct(final(out)@),
            name_set(final(out)@) == name_set(old(out)@) + cmd_fv(*self),
        decreases self, 0nat,
    {
        match self {
            Command::Assignment(Variable(x), e) => {
                collect_fv_a(e, out);
                add_name(out, x.as_str());
                assert(name_set(out@) =~= name_set(old(out)@) + cmd_fv(*self));
            },
            Command::ArrayAssignment(Array(a, i), e) => {
                collect_fv_a(i, out);
                collect_fv_a(e, out);
                add_name(out, a.as_str());
                assert(name_set(out@) =~= name_set(old(out)@) + cmd_fv(*self));
            },
            Command::If(gs) | Command::Loop(gs) => {
                guards_fv_into(gs, out);
            },
            _ => {
                assert(name_set(out@) =~= name_set(old(out)@) + cmd_fv(*self));
            },
        }
    }
}

/// Adds the names of a guard list.
fn guards_fv_into(gs: &Vec<Guard>, out: &mut Vec<String>)
    requires
        names_distinct(old(out)@),
    ensures
        names_distinct(final(out)@),
        name_set(final(out)@) == name_set(old(out)@) + guards_fv(gs@, gs@.len() as int),
    decreases gs@, gs@.len() + 3,
{
    let mut k: usize = 0;
    while k < gs.len()
        invariant
            k <= gs@.len(),
            names_distinct(out@),
            name_set(out@) == name_set(old(out)@) + guards_fv(gs@, k as int),
        decreases gs@.len() - k,
    {
        assert(decreases_to!(gs@ => gs@[k as int]));
        collect_fv_b(&gs[k].0, out);
        gs[k].1.collect_fv(out);
        assert(name_set(out@) =~= name_set(old(out)@) + guards_fv(gs@, k + 1));
        k = k + 1;
    }
}

impl Commands {
    /// The names that the program reads or writes, each once.
    pub fn fv(&self) -> (r: Vec<String>)
        ensures
            names_distinct(r@),
            name_set(r@) == program_fv(*self),
    {
        let mut out: Vec<String> = Vec::new();
        assert(name_set(out@) =~= Set::<Seq<char>>::empty());
        self.collect_fv(&mut out);
        assert(name_set(out@) =~= program_fv(*self));
        out
    }

    /// Adds the names of the sequence.
    fn collect_fv(&self, out: &mut Vec<String>)
        requires
            names_distinct(old(out)@),
        ensures
            names_distinct(final(out)@),
            name_set(final(out)@) == name_set(old(out)@) + cmds_fv(self.0@, self.0@.len() as int),
        decreases self.0@, self.0@.len() + 1,
    {
        let mut k: usize = 0;
        while k < self.0.len()
            invariant
                k <= self.0@.len(),
                names_distinct(out@),
                name_set(out@) == name_set(old(out)@) + cmds_fv(self.0@, k as int),
            decreases self.0@.len() - k,
        {
            self.0[k].collect_fv(out);
            assert(name_set(out@) =~= name_set(old(out)@) + cmds_fv(self.0@, k + 1));
            k = k + 1;
        }
    }
}

} // verus!
