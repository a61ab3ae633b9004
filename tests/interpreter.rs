use rand::SeedableRng;
use gcl_core::ast::{AExpr, AOp, Array, BExpr, Command, Commands, Guard, LogicOp, RelOp, Variable};
use gcl_core::interpreter::{execute, run, Execution, Input, Output, Step, TerminationState};
use gcl_core::memory::Memory;
use gcl_core::pg::{decimal, Determinism, Node, ProgramGraph};
use gcl_core::render::render_graph;
use gcl_core::semantics::EvalError;
use gcl_core::validator::{validate, ValidationResult};

fn var(x: &str) -> Variable {
    Variable(x.to_string())
}

fn num(n: i64) -> AExpr {
    AExpr::Number(n)
}

fn v(x: &str) -> AExpr {
    AExpr::Variable(x.to_string())
}

fn assign(x: &str, e: AExpr) -> Command {
    Command::Assignment(var(x), e)
}

fn rel(l: AExpr, op: RelOp, r: AExpr) -> BExpr {
    BExpr::Rel(l, op, r)
}

fn guard(b: BExpr, cs: Vec<Command>) -> Guard {
    Guard(b, Commands(cs))
}

fn two_assignments() -> Commands {
    Commands(vec![
        assign("x", num(1)),
        assign("y", AExpr::Binary(Box::new(v("x")), AOp::Plus, Box::new(num(2)))),
    ])
}

fn input(commands: Commands, determinism: Determinism, memory: Memory, trace_length: u64) -> Input {
    Input { commands, determinism, assignment: memory, trace_length }
}

fn mem_with(vars: &[(&str, i64)]) -> Memory {
    let mut m = Memory::new();
    for (x, n) in vars {
        m.set_variable(x.to_string(), *n);
    }
    m
}

fn step(node: Node, vars: &[(&str, i64)]) -> Step {
    Step { node, memory: mem_with(vars) }
}

fn output(trace: Vec<Step>, termination: TerminationState) -> Output {
    Output {
        initial_node: "qStart".to_string(),
        final_node: "qFinal".to_string(),
        dot: String::new(),
        trace,
        termination,
        error: None,
    }
}

#[test]
fn run_two_assignments() {
    let input = input(two_assignments(), Determinism::Deterministic, Memory::new(), 5);
    let out = run(&input);
    assert_eq!(out.trace.len(), 2);
    assert_eq!(out.trace[0].memory.variable("x"), Some(1));
    assert_eq!(out.trace[0].memory.variable("y"), None);
    assert_eq!(out.trace[1].memory.variable("x"), Some(1));
    assert_eq!(out.trace[1].memory.variable("y"), Some(3));
    assert_eq!(out.trace[1].node, Node::End);
    assert_eq!(out.termination, TerminationState::Terminated);
    assert_eq!(out.initial_node, "qStart");
    assert_eq!(out.final_node, "qFinal");
    assert!(matches!(validate(&input, &out), ValidationResult::CorrectTerminated));
}

#[test]
fn dot_of_one_assignment() {
    let g = render_graph(&Commands(vec![assign("x", num(-5))]), Determinism::Deterministic);
    assert_eq!(g.dot, "digraph program_graph {\n  qStart -> qFinal [label=\"x := -5\"];\n}\n");
}

#[test]
fn dot_of_deterministic_if() {
    let cmds = Commands(vec![Command::If(vec![
        guard(rel(v("x"), RelOp::Gt, num(0)), vec![Command::Skip]),
    ])]);
    let g = render_graph(&cmds, Determinism::Deterministic);
    assert_eq!(
        g.dot,
        "digraph program_graph {\n  qStart -> q0 [label=\"((x > 0) && !false)\"];\n  q0 -> qFinal [label=\"skip\"];\n}\n"
    );
    let g = render_graph(&cmds, Determinism::NonDeterministic);
    assert!(g.dot.contains("qStart -> q0 [label=\"(x > 0)\"]"));
}

#[test]
fn node_names_and_decimals() {
    assert_eq!(decimal(0), "0");
    assert_eq!(decimal(1234567), "1234567");
    assert_eq!(Node::Node(12).name(), "q12");
    assert_eq!(Node::Start.name(), "qStart");
    assert_eq!(Node::End.name(), "qFinal");
}

fn choice() -> Commands {
    Commands(vec![Command::If(vec![
        guard(BExpr::Bool(true), vec![assign("x", num(1))]),
        guard(BExpr::Bool(true), vec![assign("x", num(2))]),
    ])])
}

#[test]
fn nondeterministic_choice_has_two_successors() {
    let pg = ProgramGraph::new(Determinism::NonDeterministic, &choice());
    let nexts = Execution::start(Memory::new()).nexts(&pg).unwrap();
    assert_eq!(nexts.len(), 2);
}

#[test]
fn deterministic_choice_has_one_successor() {
    let pg = ProgramGraph::new(Determinism::Deterministic, &choice());
    let start = Execution::start(Memory::new());
    let nexts = start.nexts(&pg).unwrap();
    assert_eq!(nexts.len(), 1);
    let after = nexts[0].nexts(&pg).unwrap();
    assert_eq!(after.len(), 1);
    assert_eq!(after[0].memory().variable("x"), Some(1));
}

#[test]
fn deterministic_runs_have_at_most_one_successor() {
    for seed in 0..20u64 {
        let mut rng = rand::rngs::SmallRng::seed_from_u64(seed);
        let input = gcl_core::generation::generate_interpreter_input(&mut rng);
        let pg = ProgramGraph::new(Determinism::Deterministic, &input.commands);
        let (_, _) = execute(&pg, input.assignment.copy(), 15);
        let mut exe = Execution::start(input.assignment.copy());
        for _ in 0..15 {
            match exe.nexts(&pg) {
                Ok(mut v) => {
                    assert!(v.len() <= 1);
                    if v.is_empty() {
                        break;
                    }
                    exe = v.remove(0);
                }
                Err(_) => break,
            }
        }
    }
}

#[test]
fn stuck_program() {
    let cmds = Commands(vec![Command::If(vec![guard(BExpr::Bool(false), vec![Command::Skip])])]);
    let input = input(cmds, Determinism::NonDeterministic, Memory::new(), 10);
    let out = run(&input);
    assert_eq!(out.trace.len(), 0);
    assert_eq!(out.termination, TerminationState::Stuck);
    assert!(matches!(validate(&input, &out), ValidationResult::CorrectTerminated));
}

fn counting_loop() -> Commands {
    Commands(vec![Command::Loop(vec![guard(
        BExpr::Bool(true),
        vec![assign("x", AExpr::Binary(Box::new(v("x")), AOp::Plus, Box::new(num(1))))],
    )])])
}

#[test]
fn endless_loop_runs_out_of_steps() {
    let input = input(counting_loop(), Determinism::Deterministic, mem_with(&[("x", 0)]), 4);
    let out = run(&input);
    assert_eq!(out.trace.len(), 4);
    assert_eq!(out.termination, TerminationState::Running);
    assert_eq!(out.trace[1].memory.variable("x"), Some(1));
    assert_eq!(out.trace[3].memory.variable("x"), Some(2));
    match validate(&input, &out) {
        ValidationResult::CorrectNonTerminated { iterations } => assert_eq!(iterations, 4),
        other => panic!("unexpected verdict {:?}", other),
    }
}

#[test]
fn prefix_of_a_run_is_accepted() {
    let input = input(counting_loop(), Determinism::NonDeterministic, mem_with(&[("x", 0)]), 10);
    let out = output(
        vec![step(Node::Node(0), &[("x", 0)]), step(Node::Start, &[("x", 1)])],
        TerminationState::Running,
    );
    match validate(&input, &out) {
        ValidationResult::CorrectNonTerminated { iterations } => assert_eq!(iterations, 2),
        other => panic!("unexpected verdict {:?}", other),
    }
}

#[test]
fn unreachable_memory_is_rejected() {
    let input = input(two_assignments(), Determinism::Deterministic, Memory::new(), 5);
    let out = output(vec![step(Node::Node(0), &[("x", 5)])], TerminationState::Running);
    match validate(&input, &out) {
        ValidationResult::Mismatch { reason } => assert_eq!(reason, "No possible execution found"),
        other => panic!("unexpected verdict {:?}", other),
    }
}

#[test]
fn premature_termination_is_rejected() {
    let input = input(two_assignments(), Determinism::Deterministic, Memory::new(), 5);
    let out = output(vec![step(Node::Node(0), &[("x", 1)])], TerminationState::Terminated);
    match validate(&input, &out) {
        ValidationResult::Mismatch { reason } => assert_eq!(reason, "No execution reached the end"),
        other => panic!("unexpected verdict {:?}", other),
    }
}

#[test]
fn false_stuck_claim_is_rejected() {
    let input = input(two_assignments(), Determinism::Deterministic, Memory::new(), 5);
    let out = output(vec![step(Node::Node(0), &[("x", 1)])], TerminationState::Stuck);
    match validate(&input, &out) {
        ValidationResult::Mismatch { reason } => assert_eq!(reason, "No stuck execution found"),
        other => panic!("unexpected verdict {:?}", other),
    }
}

#[test]
fn failing_guard_is_an_error_not_a_false_guard() {
    let cmds = Commands(vec![Command::If(vec![guard(
        rel(AExpr::Binary(Box::new(num(1)), AOp::Divide, Box::new(num(0))), RelOp::Eq, num(0)),
        vec![Command::Skip],
    )])]);
    let pg = ProgramGraph::new(Determinism::NonDeterministic, &cmds);
    let start = Execution::start(Memory::new());
    assert_eq!(start.nexts(&pg).unwrap_err(), EvalError::DivisionByZero);
    assert!(!start.is_stuck(&pg));
    assert_eq!(start.state(&pg), TerminationState::Running);
}

#[test]
fn failing_guard_is_reported_by_run() {
    let mut m = Memory::new();
    m.set_array("A".to_string(), vec![0, 0, 0, 0, 0]);
    let cmds = Commands(vec![Command::If(vec![guard(
        rel(AExpr::Array(Array("A".to_string(), Box::new(num(10)))), RelOp::Gt, num(0)),
        vec![assign("x", num(1))],
    )])]);
    let out = run(&input(cmds, Determinism::Deterministic, m, 5));
    assert_eq!(out.trace.len(), 0);
    assert_eq!(out.error, Some(EvalError::IndexOutOfBounds));
    assert_ne!(out.termination, TerminationState::Stuck);
    let false_guard = Commands(vec![Command::If(vec![guard(BExpr::Bool(false), vec![assign("x", num(1))])])]);
    let out = run(&input(false_guard, Determinism::Deterministic, Memory::new(), 5));
    assert_eq!(out.error, None);
    assert_eq!(out.termination, TerminationState::Stuck);
}

#[test]
fn array_assignment_updates_one_element() {
    let mut m = Memory::new();
    m.set_array("A".to_string(), vec![1, 2, 3]);
    let cmds = Commands(vec![Command::ArrayAssignment(Array("A".to_string(), Box::new(num(1))), num(7))]);
    let out = run(&input(cmds, Determinism::Deterministic, m, 5));
    assert_eq!(out.termination, TerminationState::Terminated);
    assert_eq!(out.trace[0].memory.array("A"), Some(&vec![1, 7, 3]));
}

#[test]
fn array_index_out_of_bounds_is_reported() {
    let mut m = Memory::new();
    m.set_array("A".to_string(), vec![1, 2, 3]);
    let cmds = Commands(vec![Command::ArrayAssignment(Array("A".to_string(), Box::new(num(3))), num(7))]);
    let pg = ProgramGraph::new(Determinism::Deterministic, &cmds);
    let start = Execution::start(m.copy());
    assert_eq!(start.nexts(&pg).unwrap_err(), EvalError::IndexOutOfBounds);
    let out = run(&input(cmds, Determinism::Deterministic, m, 5));
    assert_eq!(out.error, Some(EvalError::IndexOutOfBounds));
    assert_eq!(out.termination, TerminationState::Running);
}

#[test]
fn break_leaves_the_loop() {
    let cmds = Commands(vec![Command::Loop(vec![guard(
        BExpr::Bool(true),
        vec![assign("x", num(1)), Command::Break],
    )])]);
    let out = run(&input(cmds, Determinism::Deterministic, Memory::new(), 10));
    assert_eq!(out.termination, TerminationState::Terminated);
    assert_eq!(out.trace.len(), 3);
    assert_eq!(out.trace[2].node, Node::End);
}

#[test]
fn continue_returns_to_the_loop_start() {
    let cmds = Commands(vec![Command::Loop(vec![guard(
        rel(v("x"), RelOp::Lt, num(2)),
        vec![
            assign("x", AExpr::Binary(Box::new(v("x")), AOp::Plus, Box::new(num(1)))),
            Command::Continue,
            assign("y", num(9)),
        ],
    )])]);
    let out = run(&input(cmds, Determinism::Deterministic, mem_with(&[("x", 0)]), 20));
    assert_eq!(out.termination, TerminationState::Terminated);
    let last = &out.trace[out.trace.len() - 1];
    assert_eq!(last.memory.variable("x"), Some(2));
    assert_eq!(last.memory.variable("y"), None);
}

#[test]
fn deterministic_guards_prefer_the_first() {
    let cmds = Commands(vec![Command::If(vec![
        guard(rel(v("x"), RelOp::Ge, num(0)), vec![assign("y", num(1))]),
        guard(BExpr::Logic(Box::new(BExpr::Bool(true)), LogicOp::Lor, Box::new(BExpr::Bool(false))), vec![assign("y", num(2))]),
    ])]);
    let out = run(&input(cmds, Determinism::Deterministic, mem_with(&[("x", 3)]), 5));
    assert_eq!(out.trace[1].memory.variable("y"), Some(1));
}

#[test]
fn reference_output_is_accepted() {
    for seed in 0..40u64 {
        let mut rng = rand::rngs::SmallRng::seed_from_u64(seed);
        let input = gcl_core::generation::generate_interpreter_input(&mut rng);
        let out = run(&input);
        match validate(&input, &out) {
            ValidationResult::CorrectTerminated | ValidationResult::CorrectNonTerminated { .. } => {}
            other => panic!("seed {}: unexpected verdict {:?}", seed, other),
        }
    }
}
