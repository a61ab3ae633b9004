use rand::SeedableRng;
use gcl_core::ast::{AExpr, Array, BExpr, Command, Commands, Guard, RelOp, Variable};
use gcl_core::flows::{flow, Flow};
use gcl_core::names::NameMap;
use gcl_core::security::{
    analyze, ParseError, SecurityAnalysisOutput, SecurityClass, SecurityError, SecurityInput,
    SecurityLattice, SecurityLatticeInput,
};

fn has(v: &[Flow], from: &str, into: &str) -> bool {
    v.iter().any(|f| f.from == from && f.into == into)
}

fn assign(x: &str, e: AExpr) -> Command {
    Command::Assignment(Variable(x.to_string()), e)
}

fn v(x: &str) -> AExpr {
    AExpr::Variable(x.to_string())
}

fn classification(entries: &[(&str, &str)]) -> NameMap<SecurityClass> {
    let mut m = NameMap::new();
    for (x, c) in entries {
        m.insert(x.to_string(), SecurityClass(c.to_string()));
    }
    m
}

#[test]
fn flows_are_position_sensitive() {
    let cmds = Commands(vec![
        assign("x", AExpr::Number(1)),
        Command::If(vec![
            Guard(
                BExpr::Rel(v("y"), RelOp::Gt, AExpr::Number(0)),
                Commands(vec![assign("z", AExpr::Number(1))]),
            ),
            Guard(BExpr::Bool(true), Commands(vec![Command::Skip])),
        ]),
    ]);
    let flows = cmds.flows();
    assert!(has(&flows, "y", "z"));
    assert!(!has(&flows, "y", "x"));
    assert_eq!(flows.len(), 1);
}

#[test]
fn later_guards_see_earlier_conditions() {
    let cmds = Commands(vec![Command::Loop(vec![
        Guard(BExpr::Rel(v("a"), RelOp::Eq, AExpr::Number(0)), Commands(vec![assign("b", AExpr::Number(1))])),
        Guard(BExpr::Rel(v("c"), RelOp::Eq, AExpr::Number(0)), Commands(vec![assign("d", v("e"))])),
    ])]);
    let flows = cmds.flows();
    assert!(has(&flows, "a", "b"));
    assert!(!has(&flows, "c", "b"));
    assert!(has(&flows, "a", "d"));
    assert!(has(&flows, "c", "d"));
    assert!(has(&flows, "e", "d"));
    assert_eq!(flows.len(), 4);
}

#[test]
fn array_assignment_flows_from_index_and_value() {
    let cmds = Commands(vec![Command::ArrayAssignment(Array("A".to_string(), Box::new(v("i"))), v("x"))]);
    let flows = cmds.flows();
    assert!(has(&flows, "i", "A"));
    assert!(has(&flows, "x", "A"));
    assert_eq!(flows.len(), 2);
    let names = cmds.fv();
    assert_eq!(names.len(), 3);
}

#[test]
fn lattice_closure_is_transitive() {
    let l = SecurityLattice::new(&[flow("a", "b"), flow("b", "c")]);
    assert!(l.allows(&flow("a", "c")));
    assert!(l.allows(&flow("a", "b")));
    assert!(!l.allows(&flow("c", "a")));
    assert!(!l.allows(&flow("b", "a")));
}

#[test]
fn every_class_flows_into_itself() {
    let l = SecurityLattice::new(&[]);
    assert!(l.allows(&flow("secret", "secret")));
    assert!(!l.allows(&flow("secret", "public")));
}

#[test]
fn closing_a_closed_lattice_adds_nothing() {
    let rules = [flow("a", "b"), flow("b", "c"), flow("c", "d")];
    let once = SecurityLattice::new(&rules);
    let mut closed = Vec::new();
    for x in ["a", "b", "c", "d"] {
        for y in ["a", "b", "c", "d"] {
            if x != y && once.allows(&flow(x, y)) {
                closed.push(flow(x, y));
            }
        }
    }
    assert_eq!(closed.len(), 6);
    let twice = SecurityLattice::new(&closed);
    for x in ["a", "b", "c", "d"] {
        for y in ["a", "b", "c", "d"] {
            assert_eq!(once.allows(&flow(x, y)), twice.allows(&flow(x, y)));
        }
    }
}

#[test]
fn more_rules_allow_more() {
    let small = SecurityLattice::new(&[flow("a", "b")]);
    let large = SecurityLattice::new(&[flow("a", "b"), flow("b", "c")]);
    for (x, y) in [("a", "b"), ("a", "c"), ("b", "c"), ("c", "a")] {
        if small.allows(&flow(x, y)) {
            assert!(large.allows(&flow(x, y)));
        }
    }
}

#[test]
fn parse_lattice_text() {
    let l = SecurityLattice::parse(" public < private , low<high").unwrap();
    assert!(l.allows(&flow("public", "private")));
    assert!(l.allows(&flow("low", "high")));
    assert!(!l.allows(&flow("private", "public")));
    let empty = SecurityLattice::parse("   ").unwrap();
    assert!(!empty.allows(&flow("a", "b")));
    assert_eq!(SecurityLattice::parse("a < b < c").unwrap_err(), ParseError::MalformedRule);
    assert_eq!(SecurityLattice::parse("a < b,").unwrap_err(), ParseError::MalformedRule);
    assert_eq!(SecurityLattice::parse("a b").unwrap_err(), ParseError::MalformedRule);
    assert_eq!(SecurityLattice::parse("1a < b").unwrap_err(), ParseError::MalformedRule);
}

fn public_private() -> SecurityLattice {
    SecurityLattice::new(&[flow("public", "private")])
}

#[test]
fn upward_flow_is_secure() {
    let cls = classification(&[("x", "public"), ("y", "private")]);
    let cmds = Commands(vec![assign("y", v("x"))]);
    let out = SecurityAnalysisOutput::run(&cls, &public_private(), &cmds).unwrap();
    assert!(out.is_secure);
    assert!(out.violations.is_empty());
    assert_eq!(out.actual.len(), 1);
    assert!(has(&out.actual, "x", "y"));
    assert_eq!(out.allowed.len(), 3);
    assert!(has(&out.allowed, "x", "y"));
    assert!(has(&out.allowed, "x", "x"));
    assert!(has(&out.allowed, "y", "y"));
}

#[test]
fn downward_flow_is_a_violation() {
    let cls = classification(&[("x", "public"), ("y", "private")]);
    let cmds = Commands(vec![assign("x", v("y"))]);
    let out = SecurityAnalysisOutput::run(&cls, &public_private(), &cmds).unwrap();
    assert!(!out.is_secure);
    assert_eq!(out.violations.len(), 1);
    assert!(has(&out.violations, "y", "x"));
}

#[test]
fn unclassified_variable_fails() {
    let cls = classification(&[("x", "public")]);
    let cmds = Commands(vec![assign("x", v("z"))]);
    match SecurityAnalysisOutput::run(&cls, &public_private(), &cmds) {
        Err(SecurityError::Unclassified(name)) => assert_eq!(name, "z"),
        other => panic!("unexpected result {:?}", other),
    }
}

#[test]
fn analyze_closes_the_rules() {
    let input = SecurityInput {
        commands: Commands(vec![assign("z", v("x"))]),
        classification: classification(&[("x", "low"), ("z", "high")]),
        lattice: SecurityLatticeInput { rules: vec![flow("low", "mid"), flow("mid", "high")] },
    };
    let out = analyze(&input).unwrap();
    assert!(out.is_secure);
}

#[test]
fn generated_security_inputs_are_classified() {
    for seed in 0..20u64 {
        let mut rng = rand::rngs::SmallRng::seed_from_u64(seed);
        let input = gcl_core::generation::generate_security_input(&mut rng);
        assert!(analyze(&input).is_ok());
    }
}
