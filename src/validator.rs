//! Validation of a trace produced elsewhere against every execution that
//! the program graph allows.

use vstd::prelude::*;
use vstd::string::*;
use crate::ast::cmds_size;
use crate::interpreter::{
    Execution, Input, Output, State, input_edges, Step, TerminationState, last_state, nexts_spec, state_spec, states,
    step_memories, step_states, steps_wf, stuck_spec, trace_spec,
};
use crate::memory::{Memory, MemoryModel};
use crate::pg::{Edge, Node, ProgramGraph};

verus! {

/// The verdict on a candidate output.
#[derive(Debug)]
pub enum ValidationResult {
    CorrectTerminated,
    CorrectNonTerminated { iterations: u64 },
    Mismatch { reason: String },
    TimeOut,
}

/// What a verdict says, with the reason of a mismatch as text.
pub enum Verdict {
    CorrectTerminated,
    CorrectNonTerminated(u64),
    Mismatch(Seq<char>),
    TimeOut,
}

impl View for ValidationResult {
    type V = Verdict;

    open spec fn view(&self) -> Verdict {
        match self {
            ValidationResult::CorrectTerminated => Verdict::CorrectTerminated,
            ValidationResult::CorrectNonTerminated { iterations } => Verdict::CorrectNonTerminated(
                *iterations,
            ),
            ValidationResult::Mismatch { reason } => Verdict::Mismatch(reason@),
            ValidationResult::TimeOut => Verdict::TimeOut,
        }
    }
}

/// The successors of a state as a set; a state whose successors cannot
/// be evaluated has none.
pub open spec fn succ_set(edges: Seq<Edge>, s: State) -> Set<State> {
    match nexts_spec(edges, s) {
        Ok(v) => v.to_set(),
        Err(_) => Set::empty(),
    }
}

/// The states that some execution from `(Start, init)` can be in after
/// `k` steps whose memories are the first `k` of `mems`.
pub open spec fn candidates(edges: Seq<Edge>, init: MemoryModel, mems: Seq<MemoryModel>, k: nat) -> Set<State>
    decreases k,
{
    if k == 0 {
        set![(Node::Start, init)]
    } else {
        Set::new(
            |t: State|
                t.1 == mems[k - 1] && exists|s: State|
                    #[trigger] candidates(edges, init, mems, (k - 1) as nat).contains(s)
                        && succ_set(edges, s).contains(t),
        )
    }
}

pub open spec fn no_execution_text() -> Seq<char> {
    "No possible execution found"@
}

pub open spec fn not_ended_text() -> Seq<char> {
    "No execution reached the end"@
}

pub open spec fn not_stuck_text() -> Seq<char> {
    "No stuck execution found"@
}

/// The verdict on a trace with memories `mems` that declares termination
/// `declared`, for a run that was asked for `trace_length` steps.
pub open spec fn verdict(
    edges: Seq<Edge>,
    init: MemoryModel,
    mems: Seq<MemoryModel>,
    declared: TerminationState,
    trace_length: u64,
) -> Verdict {
    let c = candidates(edges, init, mems, mems.len());
    if c.is_empty() {
        Verdict::Mismatch(no_execution_text())
    } else if declared == TerminationState::Running {
        Verdict::CorrectNonTerminated(mems.len() as u64)
    } else if declared == TerminationState::Terminated {
        if exists|s: State| c.contains(s) && s.0 == Node::End {
            Verdict::CorrectTerminated
        } else {
            Verdict::Mismatch(not_ended_text())
        }
    } else if mems.len() < trace_length || declared == TerminationState::Stuck {
        if exists|s: State| c.contains(s) && stuck_spec(edges, s) {
            Verdict::CorrectTerminated
        } else {
            Verdict::Mismatch(not_stuck_text())
        }
    } else {
        Verdict::CorrectTerminated
    }
}

/// `path` is a sequence of states each of which is a successor of the one
/// before it, starting from a successor of `(Start, init)`.
pub open spec fn is_run(edges: Seq<Edge>, init: MemoryModel, path: Seq<State>) -> bool {
    forall|i: int|
        0 <= i < path.len() ==> #[trigger] succ_set(
            edges,
            last_state((Node::Start, init), path.take(i)),
        ).contains(path[i])
}

/// The memories along a path.
pub open spec fn memories(path: Seq<State>) -> Seq<MemoryModel> {
    path.map_values(|s: State| s.1)
}

/// Every prefix of a run ends in a state that the validator keeps as a
/// candidate.
pub proof fn lemma_run_state_is_candidate(edges: Seq<Edge>, init: MemoryModel, path: Seq<State>, k: nat)
    requires
        is_run(edges, init, path),
        k <= path.len(),
    ensures
        candidates(edges, init, memories(path), k).contains(
            last_state((Node::Start, init), path.take(k as int)),
        ),
    decreases k,
{
    if k > 0 {
        lemma_run_state_is_candidate(edges, init, path, (k - 1) as nat);
        let prev = last_state((Node::Start, init), path.take(k - 1));
        assert(path.take(k as int).last() == path[k - 1]);
        assert(succ_set(edges, prev).contains(path[k - 1]));
        assert(memories(path)[k - 1] == path[k - 1].1);
    } else {
        assert(path.take(0).len() == 0);
    }
}

/// A trace whose memories follow a run of the program graph is accepted
/// as a consistent prefix when it declares that it is still running.
pub proof fn lemma_run_prefix_accepted(edges: Seq<Edge>, init: MemoryModel, path: Seq<State>, trace_length: u64)
    requires
        is_run(edges, init, path),
    ensures
        verdict(edges, init, memories(path), TerminationState::Running, trace_length)
            == Verdict::CorrectNonTerminated(path.len() as u64),
{
    lemma_run_state_is_candidate(edges, init, path, path.len());
    assert(path.take(path.len() as int) =~= path);
}

/// A trace in which some memory cannot be reached from any candidate of
/// the step before is rejected, whatever it declares.
pub proof fn lemma_unreachable_rejected(
    edges: Seq<Edge>,
    init: MemoryModel,
    mems: Seq<MemoryModel>,
    k: nat,
    declared: TerminationState,
    trace_length: u64,
)
    requires
        k < mems.len(),
        forall|s: State, t: State|
            #[trigger] candidates(edges, init, mems, k).contains(s) && #[trigger] succ_set(edges, s).contains(t)
                ==> t.1 != mems[k as int],
    ensures
        verdict(edges, init, mems, declared, trace_length) == Verdict::Mismatch(no_execution_text()),
{
    assert forall|t: State| !#[trigger] candidates(edges, init, mems, k + 1).contains(t) by {
        if candidates(edges, init, mems, k + 1).contains(t) {
            let s = choose|s: State|
                #[trigger] candidates(edges, init, mems, k).contains(s) && succ_set(edges, s).contains(t);
            assert(t.1 != mems[k as int]);
        }
    }
    assert(candidates(edges, init, mems, k + 1) =~= Set::empty());
    lemma_candidates_empty(edges, init, mems, k + 1, mems.len());
}

/// The trace of a run that always takes the first successor is a run.
pub proof fn lemma_trace_is_run(edges: Seq<Edge>, s: State, k: nat)
    ensures
        forall|i: int|
            0 <= i < trace_spec(edges, s, k).len() ==> #[trigger] succ_set(
                edges,
                last_state(s, trace_spec(edges, s, k).take(i)),
            ).contains(trace_spec(edges, s, k)[i]),
    decreases k,
{
    if k > 0 {
        match nexts_spec(edges, s) {
            Ok(v) => {
                if v.len() > 0 {
                    let rest = trace_spec(edges, v[0], (k - 1) as nat);
                    lemma_trace_is_run(edges, v[0], (k - 1) as nat);
                    let t = trace_spec(edges, s, k);
                    assert(t == seq![v[0]] + rest);
                    assert forall|i: int| 0 <= i < t.len() implies #[trigger] succ_set(
                        edges,
                        last_state(s, t.take(i)),
                    ).contains(t[i]) by {
                        if i == 0 {
                            assert(t.take(0).len() == 0);
                            assert(v.to_set().contains(v[0]));
                        } else {
                            assert(t.take(i).last() == t[i - 1]);
                            assert(rest.take(i - 1).len() == i - 1);
                            if i - 1 > 0 {
                                assert(rest.take(i - 1).last() == rest[i - 2]);
                            }
                            assert(last_state(s, t.take(i)) == last_state(v[0], rest.take(i - 1)));
                            assert(t[i] == rest[i - 1]);
                        }
                    }
                }
            },
            Err(_) => {},
        }
    }
}

/// The validator accepts the output of the reference run itself: the
/// trace of a run that always takes the first successor, with the
/// termination state in which it ends, is judged correct.
pub proof fn lemma_reference_accepted(edges: Seq<Edge>, init: MemoryModel, trace_length: u64)
    ensures
        ({
            let s0 = (Node::Start, init);
            let t = trace_spec(edges, s0, trace_length as nat);
            let v = verdict(edges, init, memories(t), state_spec(edges, last_state(s0, t)), trace_length);
            v == Verdict::CorrectTerminated || v == Verdict::CorrectNonTerminated(t.len() as u64)
        }),
{
    let s0 = (Node::Start, init);
    let t = trace_spec(edges, s0, trace_length as nat);
    lemma_trace_is_run(edges, s0, trace_length as nat);
    assert(is_run(edges, init, t));
    lemma_run_state_is_candidate(edges, init, t, t.len());
    assert(t.take(t.len() as int) =~= t);
    let last = last_state(s0, t);
    let c = candidates(edges, init, memories(t), memories(t).len());
    assert(c.contains(last));
}

/// The validator accepts the interpreter's own output, for every input:
/// the trace that `run` produces, with the termination state it reports,
/// is judged correct.
pub proof fn lemma_run_output_accepted(input: Input, output: Output)
    requires
        step_states(output.trace@) == trace_spec(
            input_edges(input),
            (Node::Start, input.assignment@),
            input.trace_length as nat,
        ),
        output.termination == state_spec(
            input_edges(input),
            last_state((Node::Start, input.assignment@), step_states(output.trace@)),
        ),
    ensures
        ({
            let v = verdict(
                input_edges(input),
                input.assignment@,
                step_memories(output.trace@),
                output.termination,
                input.trace_length,
            );
            v == Verdict::CorrectTerminated || v == Verdict::CorrectNonTerminated(output.trace@.len() as u64)
        }),
{
    let t = step_states(output.trace@);
    assert(step_memories(output.trace@) =~= memories(t));
    lemma_reference_accepted(input_edges(input), input.assignment@, input.trace_length);
}

/// The set of states of a sequence of executions.
pub open spec fn state_set(v: Seq<Execution>) -> Set<State> {
    Set::new(|s: State| exists|i: int| 0 <= i < v.len() && #[trigger] v[i]@ == s)
}

proof fn lemma_candidates_empty(edges: Seq<Edge>, init: MemoryModel, mems: Seq<MemoryModel>, k: nat, n: nat)
    requires
        k <= n,
        candidates(edges, init, mems, k).is_empty(),
    ensures
        candidates(edges, init, mems, n).is_empty(),
    decreases n - k,
{
    if k < n {
        lemma_candidates_empty(edges, init, mems, k, (n - 1) as nat);
        assert(candidates(edges, init, mems, n) =~= Set::empty());
    }
}

/// Whether some execution of `v` is in state `s`.
fn contains_state(v: &Vec<Execution>, e: &Execution) -> (r: bool)
    requires
        e.wf(),
        forall|i: int| 0 <= i < v@.len() ==> #[trigger] v@[i].wf(),
    ensures
        r == state_set(v@).contains(e@),
{
    let mut i: usize = 0;
    while i < v.len()
        invariant
            e.wf(),
            forall|j: int| 0 <= j < v@.len() ==> #[trigger] v@[j].wf(),
            i <= v@.len(),
            forall|j: int| 0 <= j < i ==> #[trigger] v@[j]@ != e@,
        decreases v@.len() - i,
    {
        let x = &v[i];
        if x.node() == e.node() && x.memory().same_as(e.memory()) {
            return true;
        }
        i = i + 1;
    }
    false
}

/// Replaces the candidates by those of their successors whose memory is
/// `target`, each state once.
fn advance(pg: &ProgramGraph, cur: &Vec<Execution>, target: &Memory) -> (r: Vec<Execution>)
    requires
        target.wf(),
        forall|i: int| 0 <= i < cur@.len() ==> #[trigger] cur@[i].wf(),
    ensures
        forall|i: int| 0 <= i < r@.len() ==> #[trigger] r@[i].wf(),
        state_set(r@) == Set::new(
            |t: State|
                t.1 == target@ && exists|s: State|
                    #[trigger] state_set(cur@).contains(s) && succ_set(pg.edges_spec(), s).contains(t),
        ),
{
    let ghost edges = pg.edges_spec();
    let mut out: Vec<Execution> = Vec::new();
    let mut j: usize = 0;
    while j < cur.len()
        invariant
            target.wf(),
            edges == pg.edges_spec(),
            forall|i: int| 0 <= i < cur@.len() ==> #[trigger] cur@[i].wf(),
            forall|i: int| 0 <= i < out@.len() ==> #[trigger] out@[i].wf(),
            j <= cur@.len(),
            forall|t: State|
                state_set(out@).contains(t) <==> (t.1 == target@ && exists|i: int|
                    0 <= i < j && #[trigger] succ_set(edges, cur@[i]@).contains(t)),
        decreases cur@.len() - j,
    {
        match cur[j].nexts(pg) {
            Err(_) => {
                assert forall|t: State|
                    state_set(out@).contains(t) <==> (t.1 == target@ && exists|i: int|
                        0 <= i < j + 1 && #[trigger] succ_set(edges, cur@[i]@).contains(t)) by {
                    if t.1 == target@ && exists|i: int|
                        0 <= i < j + 1 && #[trigger] succ_set(edges, cur@[i]@).contains(t) {
                        let i = choose|i: int|
                            0 <= i < j + 1 && #[trigger] succ_set(edges, cur@[i]@).contains(t);
                        assert(i < j);
                    }
                }
            },
            Ok(v) => {
                let ghost vs = states(v@);
                let mut l: usize = 0;
                while l < v.len()
                    invariant
                        target.wf(),
                        edges == pg.edges_spec(),
                        forall|i: int| 0 <= i < out@.len() ==> #[trigger] out@[i].wf(),
                        forall|i: int| 0 <= i < v@.len() ==> #[trigger] v@[i].wf(),
                        vs == states(v@),
                        succ_set(edges, cur@[j as int]@) == vs.to_set(),
                        j < cur@.len(),
                        l <= v@.len(),
                        forall|t: State|
                            state_set(out@).contains(t) <==> (t.1 == target@ && ((exists|i: int|
                                0 <= i < j && #[trigger] succ_set(edges, cur@[i]@).contains(t))
                                || exists|m: int| 0 <= m < l && vs[m] == t)),
                    decreases v@.len() - l,
                {
                    let e = &v[l];
                    assert(vs[l as int] == e@);
                    let ghost before = out@;
                    let same = e.memory().same_as(target);
                    let present = contains_state(&out, e);
                    assert(same == (e@.1 == target@));
                    if same && !present {
                        out.push(e.copy());
                        assert forall|t: State|
                            state_set(out@).contains(t) <==> (state_set(before).contains(t) || t
                                == e@) by {
                            if state_set(out@).contains(t) {
                                let i = choose|i: int| 0 <= i < out@.len() && #[trigger] out@[i]@ == t;
                                if i < before.len() {
                                    assert(before[i]@ == t);
                                }
                            }
                            if t == e@ {
                                assert(out@[before.len() as int]@ == t);
                            }
                            if state_set(before).contains(t) {
                                let i = choose|i: int| 0 <= i < before.len() && #[trigger] before[i]@ == t;
                                assert(out@[i]@ == t);
                            }
                        }
                    }
                    assert forall|t: State|
                        state_set(out@).contains(t) <==> (t.1 == target@ && ((exists|i: int|
                            0 <= i < j && #[trigger] succ_set(edges, cur@[i]@).contains(t))
                            || exists|m: int| 0 <= m < l + 1 && vs[m] == t)) by {
                        let a = exists|i: int|
                            0 <= i < j && #[trigger] succ_set(edges, cur@[i]@).contains(t);
                        let bl = exists|m: int| 0 <= m < l && vs[m] == t;
                        let bl1 = exists|m: int| 0 <= m < l + 1 && vs[m] == t;
                        if bl1 {
                            let m = choose|m: int| 0 <= m < l + 1 && vs[m] == t;
                            if m < l {
                                assert(bl);
                            }
                        }
                        if bl {
                            let m = choose|m: int| 0 <= m < l && vs[m] == t;
                            assert(0 <= m < l + 1 && vs[m] == t);
                        }
                        if vs[l as int] == t {
                            assert(bl1);
                        }
                        assert(bl1 == (bl || vs[l as int] == t));
                        assert(state_set(before).contains(t) == (t.1 == target@ && (a || bl)));
                        if same && !present {
                            assert(state_set(out@).contains(t) == (state_set(before).contains(t)
                                || t == e@));
                        } else {
                            assert(out@ == before);
                            if t == e@ && same {
                                assert(state_set(before).contains(e@));
                            }
                        }
                    }
                    l = l + 1;
                }
                assert forall|t: State|
                    state_set(out@).contains(t) <==> (t.1 == target@ && exists|i: int|
                        0 <= i < j + 1 && #[trigger] succ_set(edges, cur@[i]@).contains(t)) by {
                    if succ_set(edges, cur@[j as int]@).contains(t) {
                        assert(vs.to_set().contains(t));
                        let m = choose|m: int| 0 <= m < vs.len() && vs[m] == t;
                    }
                    if exists|m: int| 0 <= m < vs.len() && vs[m] == t {
                        let m = choose|m: int| 0 <= m < vs.len() && vs[m] == t;
                        assert(vs.to_set().contains(t));
                    }
                    if t.1 == target@ && exists|i: int|
                        0 <= i < j + 1 && #[trigger] succ_set(edges, cur@[i]@).contains(t) {
                        let i = choose|i: int|
                            0 <= i < j + 1 && #[trigger] succ_set(edges, cur@[i]@).contains(t);
                        if i < j {
                            assert(exists|i: int| 0 <= i < j && #[trigger] succ_set(edges, cur@[i]@).contains(t));
                        }
                    }
                }
            },
        }
        j = j + 1;
    }
    let ghost goal = Set::new(
        |t: State|
            t.1 == target@ && exists|s: State|
                #[trigger] state_set(cur@).contains(s) && succ_set(pg.edges_spec(), s).contains(t),
    );
    assert forall|t: State| state_set(out@).contains(t) <==> goal.contains(t) by {
        if state_set(out@).contains(t) {
            let i = choose|i: int| 0 <= i < cur@.len() && #[trigger] succ_set(edges, cur@[i]@).contains(t);
            assert(state_set(cur@).contains(cur@[i]@));
        }
        if goal.contains(t) {
            let s = choose|s: State| #[trigger] state_set(cur@).contains(s) && succ_set(pg.edges_spec(), s).contains(t);
            let i = choose|i: int| 0 <= i < cur@.len() && #[trigger] cur@[i]@ == s;
            assert(succ_set(edges, cur@[i]@).contains(t));
        }
    }
    assert(state_set(out@) =~= goal);
    out
}

/// Whether some execution of `v` is at the end node.
fn any_finished(v: &Vec<Execution>) -> (r: bool)
    ensures
        r == exists|s: State| state_set(v@).contains(s) && s.0 == Node::End,
{
    let mut i: usize = 0;
    while i < v.len()
        invariant
            i <= v@.len(),
            forall|j: int| 0 <= j < i ==> #[trigger] v@[j]@.0 != Node::End,
        decreases v@.len() - i,
    {
        if v[i].is_finished() {
            assert(state_set(v@).contains(v@[i as int]@));
            return true;
        }
        i = i + 1;
    }
    assert forall|s: State| state_set(v@).contains(s) implies s.0 != Node::End by {
        let j = choose|j: int| 0 <= j < v@.len() && #[trigger] v@[j]@ == s;
    }
    false
}

/// Whether some execution of `v` is stuck.
fn any_stuck(pg: &ProgramGraph, v: &Vec<Execution>) -> (r: bool)
    requires
        forall|i: int| 0 <= i < v@.len() ==> #[trigger] v@[i].wf(),
    ensures
        r == exists|s: State| state_set(v@).contains(s) && stuck_spec(pg.edges_spec(), s),
{
    let mut i: usize = 0;
    while i < v.len()
        invariant
            forall|j: int| 0 <= j < v@.len() ==> #[trigger] v@[j].wf(),
            i <= v@.len(),
            forall|j: int| 0 <= j < i ==> !stuck_spec(pg.edges_spec(), #[trigger] v@[j]@),
        decreases v@.len() - i,
    {
        if v[i].is_stuck(pg) {
            assert(state_set(v@).contains(v@[i as int]@));
            return true;
        }
        i = i + 1;
    }
    assert forall|s: State| state_set(v@).contains(s) implies !stuck_spec(pg.edges_spec(), s) by {
        let j = choose|j: int| 0 <= j < v@.len() && #[trigger] v@[j]@ == s;
    }
    false
}

/// Checks a trace against the executions of `pg` from memory `initial`:
/// the trace is consistent when each of its memories can be reached in
/// turn, and its declared termination is then checked as the verdict
/// describes.
pub fn validate_trace(
    pg: &ProgramGraph,
    initial: &Memory,
    trace: &Vec<Step>,
    declared: TerminationState,
    trace_length: u64,
) -> (r: ValidationResult)
    requires
        initial.wf(),
        steps_wf(trace@),
    ensures
        r@ == verdict(pg.edges_spec(), initial@, step_memories(trace@), declared, trace_length),
{
    let ghost edges = pg.edges_spec();
    let ghost mems = step_memories(trace@);
    let mut cur: Vec<Execution> = Vec::new();
    cur.push(Execution::start(initial.copy()));
    proof {
        assert forall|s: State| state_set(cur@).contains(s) <==> s == (Node::Start, initial@) by {
            if s == (Node::Start, initial@) {
                assert(cur@[0]@ == s);
            }
        }
        assert(state_set(cur@) =~= candidates(edges, initial@, mems, 0));
    }
    let mut k: usize = 0;
    while k < trace.len()
        invariant
            edges == pg.edges_spec(),
            mems == step_memories(trace@),
            steps_wf(trace@),
            k <= trace@.len(),
            forall|i: int| 0 <= i < cur@.len() ==> #[trigger] cur@[i].wf(),
            state_set(cur@) == candidates(edges, initial@, mems, k as nat),
            cur@.len() > 0,
        decreases trace@.len() - k,
    {
        assert(trace@[k as int].memory.wf());
        let next = advance(pg, &cur, &trace[k].memory);
        proof {
            assert(mems[k as int] == trace@[k as int].memory@);
            assert(state_set(next@) =~= candidates(edges, initial@, mems, (k + 1) as nat));
        }
        if next.len() == 0 {
            proof {
                assert(candidates(edges, initial@, mems, (k + 1) as nat) =~= Set::empty()) by {
                    assert forall|s: State| !state_set(next@).contains(s) by {}
                }
                lemma_candidates_empty(edges, initial@, mems, (k + 1) as nat, mems.len());
                reveal_strlit("No possible execution found");
            }
            return ValidationResult::Mismatch { reason: String::from_str("No possible execution found") };
        }
        cur = next;
        k = k + 1;
    }
    proof {
        assert(state_set(cur@).contains(cur@[0]@));
    }
    if declared == TerminationState::Running {
        return ValidationResult::CorrectNonTerminated { iterations: trace.len() as u64 };
    }
    if declared == TerminationState::Terminated {
        if any_finished(&cur) {
            return ValidationResult::CorrectTerminated;
        }
        proof {
            reveal_strlit("No execution reached the end");
        }
        return ValidationResult::Mismatch { reason: String::from_str("No execution reached the end") };
    }
    if (trace.len() as u64) < trace_length || declared == TerminationState::Stuck {
        if any_stuck(pg, &cur) {
            return ValidationResult::CorrectTerminated;
        }
        proof {
            reveal_strlit("No stuck execution found");
        }
        return ValidationResult::Mismatch { reason: String::from_str("No stuck execution found") };
    }
    ValidationResult::CorrectTerminated
}

/// Checks a candidate output of the interpreter against the program and
/// initial memory of `input`.
pub fn validate(input: &Input, output: &Output) -> (r: ValidationResult)
    requires
        cmds_size(input.commands.0@, input.commands.0@.len() as int) <= u64::MAX,
        input.assignment.wf(),
        steps_wf(output.trace@),
    ensures
        r@ == verdict(
            input_edges(*input),
            input.assignment@,
            step_memories(output.trace@),
            output.termination,
            input.trace_length,
        ),
{
    let pg = ProgramGraph::new(input.determinism, &input.commands);
    validate_trace(&pg, &input.assignment, &output.trace, output.termination, input.trace_length)
}

} // verus!
