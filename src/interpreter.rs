//! Nondeterministic execution over a program graph.

use vstd::prelude::*;
use crate::ast::{Array, Commands, Variable, cmds_size};
use crate::memory::{Memory, MemoryModel};
use crate::pg::{Action, Determinism, Edge, Node, ProgramGraph, graph_edges, node_name};
use crate::render::dot_spec;
use crate::semantics::{EvalError, aeval, beval, eval_aexpr, eval_bexpr};

verus! {

/// A node and a memory.
pub type State = (Node, MemoryModel);

/// What taking an edge with action `a` does to memory `m`: `Ok(None)` when
/// the action is a condition that does not hold.
pub open spec fn step_spec(a: Action, m: MemoryModel) -> Result<Option<MemoryModel>, EvalError> {
    match a {
        Action::Assignment(Variable(x), e) => match aeval(e, m) {
            Err(err) => Err(err),
            Ok(v) => Ok(Some((m.0.insert(x@, v), m.1))),
        },
        Action::ArrayAssignment(Array(arr, i), e) => match aeval(*i, m) {
            Err(err) => Err(err),
            Ok(idx) => match aeval(e, m) {
                Err(err) => Err(err),
                Ok(v) => if !m.1.contains_key(arr@) {
                    Err(EvalError::UnknownArray)
                } else if idx < 0 || idx >= m.1[arr@].len() {
                    Err(EvalError::IndexOutOfBounds)
                } else {
                    Ok(Some((m.0, m.1.insert(arr@, m.1[arr@].update(idx as int, v)))))
                },
            },
        },
        Action::Skip => Ok(Some(m)),
        Action::Condition(b) => match beval(b, m) {
            Err(err) => Err(err),
            Ok(v) => Ok(if v { Some(m) } else { None }),
        },
    }
}

/// The successors of `(node, m)` along the first `n` edges, in edge order;
/// the first edge out of `node` whose action fails decides the result.
pub open spec fn nexts_upto(edges: Seq<Edge>, n: int, node: Node, m: MemoryModel) -> Result<Seq<State>, EvalError>
    decreases n,
{
    if n <= 0 || n > edges.len() {
        Ok(Seq::empty())
    } else {
        match nexts_upto(edges, n - 1, node, m) {
            Err(err) => Err(err),
            Ok(prev) => if edges[n - 1].0 != node {
                Ok(prev)
            } else {
                match step_spec(edges[n - 1].1, m) {
                    Err(err) => Err(err),
                    Ok(None) => Ok(prev),
                    Ok(Some(m2)) => Ok(prev.push((edges[n - 1].2, m2))),
                }
            },
        }
    }
}

/// A failure on one edge is the result whatever the later edges do.
proof fn lemma_nexts_err(edges: Seq<Edge>, k: int, n: int, node: Node, m: MemoryModel)
    requires
        0 <= k <= n <= edges.len(),
        nexts_upto(edges, k, node, m) is Err,
    ensures
        nexts_upto(edges, n, node, m) == nexts_upto(edges, k, node, m),
    decreases n - k,
{
    if k < n {
        lemma_nexts_err(edges, k, n - 1, node, m);
    }
}

/// The successors of a state, one per enabled outgoing edge, in edge order.
pub open spec fn nexts_spec(edges: Seq<Edge>, s: State) -> Result<Seq<State>, EvalError> {
    nexts_upto(edges, edges.len() as int, s.0, s.1)
}

/// A state that is not at the end and has no enabled outgoing edge. A
/// state where evaluating an outgoing edge fails is not stuck: its
/// failure is reported as such.
pub open spec fn stuck_spec(edges: Seq<Edge>, s: State) -> bool {
    s.0 != Node::End && match nexts_spec(edges, s) {
        Ok(v) => v.len() == 0,
        Err(_) => false,
    }
}

/// How an execution stands.
#[derive(Clone, Copy, Debug, PartialEq, Eq, Structural)]
pub enum TerminationState {
    Running,
    Stuck,
    Terminated,
}

pub open spec fn state_spec(edges: Seq<Edge>, s: State) -> TerminationState {
    if s.0 == Node::End {
        TerminationState::Terminated
    } else if stuck_spec(edges, s) {
        TerminationState::Stuck
    } else {
        TerminationState::Running
    }
}

/// An execution: the current node and memory.
#[derive(Debug)]
pub struct Execution {
    node: Node,
    memory: Memory,
}

impl View for Execution {
    type V = State;

    closed spec fn view(&self) -> State {
        (self.node, self.memory@)
    }
}

/// The states of a sequence of executions.
pub open spec fn states(v: Seq<Execution>) -> Seq<State> {
    v.map_values(|e: Execution| e@)
}

/// Performs an action on a memory.
pub fn apply_action(a: &Action, m: &Memory) -> (r: Result<Option<Memory>, EvalError>)
    requires
        m.wf(),
    ensures
        match r {
            Ok(Some(m2)) => m2.wf() && step_spec(*a, m@) == Ok::<Option<MemoryModel>, EvalError>(Some(m2@)),
            Ok(None) => step_spec(*a, m@) == Ok::<Option<MemoryModel>, EvalError>(None),
            Err(e) => step_spec(*a, m@) == Err::<Option<MemoryModel>, EvalError>(e),
        },
{
    match a {
        Action::Assignment(Variable(x), e) => {
            let v = eval_aexpr(e, m)?;
            let mut m2 = m.copy();
            m2.set_variable(x.clone(), v);
            Ok(Some(m2))
        },
        Action::ArrayAssignment(Array(arr, i), e) => {
            let idx = eval_aexpr(i, m)?;
            let v = eval_aexpr(e, m)?;
            let len = match m.array(arr.as_str()) {
                None => {
                    return Err(EvalError::UnknownArray);
                },
                Some(vals) => vals.len(),
            };
            if idx < 0 || idx as u64 >= len as u64 {
                return Err(EvalError::IndexOutOfBounds);
            }
            let mut m2 = m.copy();
            let k = idx as u64;
            m2.set_element(arr.as_str(), k as usize, v);
            Ok(Some(m2))
        },
        Action::Skip => Ok(Some(m.copy())),
        Action::Condition(b) => {
            if eval_bexpr(b, m)? {
                Ok(Some(m.copy()))
            } else {
                Ok(None)
            }
        },
    }
}

impl Execution {
    pub closed spec fn wf(&self) -> bool {
        self.memory.wf()
    }

    /// An execution at the start node with memory `memory`.
    pub fn start(memory: Memory) -> (r: Execution)
        requires
            memory.wf(),
        ensures
            r.wf(),
            r@ == (Node::Start, memory@),
    {
        Execution { node: Node::Start, memory }
    }

    /// A copy of the execution.
    pub fn copy(&self) -> (r: Execution)
        requires
            self.wf(),
        ensures
            r.wf(),
            r@ == self@,
    {
        Execution { node: self.node, memory: self.memory.copy() }
    }

    pub fn node(&self) -> (r: Node)
        ensures
            r == self@.0,
    {
        self.node
    }

    pub fn memory(&self) -> (r: &Memory)
        ensures
            r@ == self@.1,
            self.wf() ==> r.wf(),
    {
        &self.memory
    }

    /// Whether the execution is at the end node.
    pub fn is_finished(&self) -> (r: bool)
        ensures
            r == (self@.0 == Node::End),
    {
        self.node == Node::End
    }

    /// One successor per outgoing edge that is enabled in the current
    /// memory, in edge order; the first failing evaluation is an error.
    pub fn nexts(&self, pg: &ProgramGraph) -> (r: Result<Vec<Execution>, EvalError>)
        requires
            self.wf(),
        ensures
            match r {
                Ok(v) => nexts_spec(pg.edges_spec(), self@) == Ok::<Seq<State>, EvalError>(states(v@))
                    && forall|i: int| 0 <= i < v@.len() ==> #[trigger] v@[i].wf(),
                Err(e) => nexts_spec(pg.edges_spec(), self@) == Err::<Seq<State>, EvalError>(e),
            },
            r is Ok && pg.wf() && pg.determinism_spec() == Determinism::Deterministic ==> r->Ok_0@.len() <= 1,
    {
        proof {
            if pg.wf() && pg.determinism_spec() == Determinism::Deterministic {
                crate::determinism::lemma_deterministic_graph(pg, self@);
            }
        }
        let mut out: Vec<Execution> = Vec::new();
        assert(states(out@) =~= Seq::<State>::empty());
        let n = pg.edge_count();
        let mut i: usize = 0;
        while i < n
            invariant
                self.wf(),
                n == pg.edges_spec().len(),
                i <= n,
                nexts_upto(pg.edges_spec(), i as int, self@.0, self@.1) == Ok::<Seq<State>, EvalError>(states(out@)),
                forall|j: int| 0 <= j < out@.len() ==> #[trigger] out@[j].wf(),
            decreases n - i,
        {
            let e = pg.edge(i);
            if e.0 == self.node {
                match apply_action(&e.1, &self.memory) {
                    Err(err) => {
                        proof {
                            lemma_nexts_err(pg.edges_spec(), i as int + 1, n as int, self@.0, self@.1);
                        }
                        return Err(err);
                    },
                    Ok(None) => {},
                    Ok(Some(m2)) => {
                        let ghost before = out@;
                        out.push(Execution { node: e.2, memory: m2 });
                        assert(states(out@) =~= states(before).push((e.2, m2@)));
                    },
                }
            }
            i = i + 1;
        }
        Ok(out)
    }

    /// Whether the execution is not at the end and no outgoing edge is
    /// enabled; a failing evaluation is reported by `nexts` instead.
    pub fn is_stuck(&self, pg: &ProgramGraph) -> (r: bool)
        requires
            self.wf(),
        ensures
            r == stuck_spec(pg.edges_spec(), self@),
    {
        if self.node == Node::End {
            return false;
        }
        match self.nexts(pg) {
            Ok(v) => v.len() == 0,
            Err(_) => false,
        }
    }

    /// How the execution stands.
    pub fn state(&self, pg: &ProgramGraph) -> (r: TerminationState)
        requires
            self.wf(),
        ensures
            r == state_spec(pg.edges_spec(), self@),
    {
        if self.node == Node::End {
            TerminationState::Terminated
        } else if self.is_stuck(pg) {
            TerminationState::Stuck
        } else {
            TerminationState::Running
        }
    }
}

/// The states visited by a run of at most `k` steps from `s` that always
/// takes the first successor; it stops early where there is none.
pub open spec fn trace_spec(edges: Seq<Edge>, s: State, k: nat) -> Seq<State>
    decreases k,
{
    if k == 0 {
        Seq::empty()
    } else {
        match nexts_spec(edges, s) {
            Ok(v) => if v.len() > 0 {
                seq![v[0]] + trace_spec(edges, v[0], (k - 1) as nat)
            } else {
                Seq::empty()
            },
            Err(_) => Seq::empty(),
        }
    }
}

/// The state reached after the steps `t` from `s`.
pub open spec fn last_state(s: State, t: Seq<State>) -> State {
    if t.len() == 0 {
        s
    } else {
        t.last()
    }
}

/// One step of a trace: the node reached and the memory there.
#[derive(Debug)]
pub struct Step {
    pub node: Node,
    pub memory: Memory,
}

/// The states of a trace.
pub open spec fn step_states(v: Seq<Step>) -> Seq<State> {
    v.map_values(|st: Step| (st.node, st.memory@))
}

/// The memories of a trace.
pub open spec fn step_memories(v: Seq<Step>) -> Seq<MemoryModel> {
    v.map_values(|st: Step| st.memory@)
}

/// Every memory of a trace is well formed.
pub open spec fn steps_wf(v: Seq<Step>) -> bool {
    forall|i: int| 0 <= i < v.len() ==> #[trigger] v[i].memory.wf()
}

proof fn lemma_trace_unfold(edges: Seq<Edge>, s: State, k: nat)
    requires
        k > 0,
    ensures
        trace_spec(edges, s, k) == match nexts_spec(edges, s) {
            Ok(v) => if v.len() > 0 {
                seq![v[0]] + trace_spec(edges, v[0], (k - 1) as nat)
            } else {
                Seq::empty()
            },
            Err(_) => Seq::empty(),
        },
{
}

/// Runs from the start node with memory `initial` for at most
/// `trace_length` steps, each time taking the first enabled edge, and
/// returns the steps taken and the final execution.
pub fn execute(pg: &ProgramGraph, initial: Memory, trace_length: u64) -> (r: (Vec<Step>, Execution))
    requires
        initial.wf(),
    ensures
        step_states(r.0@) == trace_spec(pg.edges_spec(), (Node::Start, initial@), trace_length as nat),
        steps_wf(r.0@),
        r.1.wf(),
        r.1@ == last_state((Node::Start, initial@), step_states(r.0@)),
{
    let ghost s0: State = (Node::Start, initial@);
    let ghost edges = pg.edges_spec();
    let mut exe = Execution::start(initial);
    let mut trace: Vec<Step> = Vec::new();
    let mut i: u64 = 0;
    let mut done = false;
    assert(step_states(trace@) =~= Seq::<State>::empty());
    while i < trace_length
        invariant
            i <= trace_length,
            done ==> step_states(trace@) == trace_spec(edges, s0, trace_length as nat),
            exe.wf(),
            edges == pg.edges_spec(),
            steps_wf(trace@),
            step_states(trace@) + trace_spec(edges, exe@, (trace_length - i) as nat) == trace_spec(edges, s0, trace_length as nat),
            exe@ == last_state(s0, step_states(trace@)),
        decreases trace_length - i,
    {
        proof {
            lemma_trace_unfold(edges, exe@, (trace_length - i) as nat);
        }
        match exe.nexts(pg) {
            Ok(mut v) => {
                if v.len() == 0 {
                    assert(step_states(trace@) =~= trace_spec(edges, s0, trace_length as nat));
                    done = true;
                    i = trace_length;
                } else {
                let ghost vs = states(v@);
                assert(vs[0] == v@[0]@);
                assert(v@[0].wf());
                let next = v.remove(0);
                let ghost before = trace@;
                trace.push(Step { node: next.node, memory: next.memory.copy() });
                assert(step_states(trace@) =~= step_states(before).push(next@));
                assert(step_states(trace@) + trace_spec(edges, next@, (trace_length - i - 1) as nat)
                    =~= step_states(before) + (seq![next@] + trace_spec(edges, next@, (trace_length - i - 1) as nat)));
                exe = next;
                i = i + 1;
                }
            },
            Err(_) => {
                assert(step_states(trace@) =~= trace_spec(edges, s0, trace_length as nat));
                done = true;
                i = trace_length;
            },
        }
    }
    if !done {
        assert(trace_spec(edges, exe@, 0) == Seq::<State>::empty());
        assert(step_states(trace@) =~= trace_spec(edges, s0, trace_length as nat));
    }
    (trace, exe)
}

/// A run to perform: the program, the graph's mode, the initial memory,
/// and the most steps to take.
#[derive(Debug)]
pub struct Input {
    pub commands: Commands,
    pub determinism: Determinism,
    pub assignment: Memory,
    pub trace_length: u64,
}

/// The outcome of a run: the names of the start and end nodes, the graph
/// in the DOT format, the steps taken and how the run stands.
#[derive(Debug)]
pub struct Output {
    pub initial_node: String,
    pub final_node: String,
    pub dot: String,
    pub trace: Vec<Step>,
    pub termination: TerminationState,
    /// Why the run stopped before its length: evaluating an edge out of
    /// the last state failed.
    pub error: Option<EvalError>,
}

/// The failure that stops a run with trace `t`, asked for `len` steps.
pub open spec fn run_error(edges: Seq<Edge>, s0: State, t: Seq<State>, len: nat) -> Option<EvalError> {
    if t.len() < len {
        match nexts_spec(edges, last_state(s0, t)) {
            Err(e) => Some(e),
            Ok(_) => None,
        }
    } else {
        None
    }
}

/// The graph's edges and the initial state of a run.
pub open spec fn input_edges(input: Input) -> Seq<Edge> {
    graph_edges(input.commands, input.determinism)
}

/// Runs the program of `input` from its initial memory, taking the first
/// enabled edge each time, for at most `trace_length` steps.
pub fn run(input: &Input) -> (r: Output)
    requires
        cmds_size(input.commands.0@, input.commands.0@.len() as int) <= u64::MAX,
        input.assignment.wf(),
    ensures
        ({
            let edges = input_edges(*input);
            let s0 = (Node::Start, input.assignment@);
            let t = trace_spec(edges, s0, input.trace_length as nat);
            &&& step_states(r.trace@) == t
            &&& steps_wf(r.trace@)
            &&& r.termination == state_spec(edges, last_state(s0, t))
            &&& r.initial_node@ == node_name(Node::Start)
            &&& r.final_node@ == node_name(Node::End)
            &&& r.dot@ == dot_spec(edges)
            &&& r.error == run_error(edges, s0, t, input.trace_length as nat)
        }),
{
    let pg = ProgramGraph::new(input.determinism, &input.commands);
    let (trace, exe) = execute(&pg, input.assignment.copy(), input.trace_length);
    let termination = exe.state(&pg);
    let error = if (trace.len() as u64) < input.trace_length {
        match exe.nexts(&pg) {
            Err(e) => Some(e),
            Ok(_) => None,
        }
    } else {
        None
    };
    Output {
        initial_node: Node::Start.name(),
        final_node: Node::End.name(),
        dot: pg.dot(),
        trace,
        termination,
        error,
    }
}

} // verus!
