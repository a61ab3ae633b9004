use rand::SeedableRng;
use gcl_core::ast::{AExpr, Array, BExpr, Command, Commands, Variable};
use gcl_core::config::{CanonicalProgramConfig, CanonicalProgramsEnvConfig, GroupName, ProgramConfig, ProgramId};

use gcl_core::generation::{generate_security_input, Context};

#[test]
fn md5_fingerprints() {
    assert_eq!(gcl_core::fingerprint::Hash::compute(b"").hex(), "d41d8cd98f00b204e9800998ecf8427e");
    assert_eq!(gcl_core::fingerprint::Hash::compute(b"abc").hex(), "900150983cd24fb0d6963f7d28e17f72");
    assert_eq!(gcl_core::fingerprint::Hash::compute(b"abc"), gcl_core::fingerprint::Hash::compute(b"abc"));
    assert_ne!(gcl_core::fingerprint::Hash::compute(b"abc"), gcl_core::fingerprint::Hash::compute(b"abd"));
}

#[test]
fn many_debits_the_fuel() {
    let mut rng = rand::rngs::SmallRng::seed_from_u64(7);
    let mut cx = Context::new(5);
    let n = cx.many(1, 10, &mut rng);
    assert!((1..=5).contains(&n));
    assert_eq!(cx.fuel(), 5 - n);
    let mut cx = Context::new(0);
    assert_eq!(cx.many(1, 10, &mut rng), 1);
    assert_eq!(cx.fuel(), 0);
}

#[test]
fn generated_programs_use_the_name_pool() {
    for seed in 0..30u64 {
        let mut rng = rand::rngs::SmallRng::seed_from_u64(seed);
        let mut cx = Context::new(10);
        let cmds = Commands::gen(&mut cx, &mut rng);
        assert!(!cmds.0.is_empty() && cmds.0.len() <= 10);
        for name in cmds.fv() {
            assert!(["a", "b", "c", "d", "A", "B", "C", "D"].contains(&name.as_str()), "{}", name);
        }
    }
}

#[test]
fn program_configs() {
    let seeded = ProgramConfig { seed: Some(3), input: None, shown: true };
    assert!(seeded.needs_generation());
    let c = seeded.canonicalize(Some("generated".to_string())).unwrap();
    assert_eq!(c.input, "generated");
    assert!(c.shown);
    assert!(seeded.canonicalize(None).is_none());
    let given = ProgramConfig { seed: Some(3), input: Some("given".to_string()), shown: false };
    assert!(!given.needs_generation());
    assert_eq!(given.canonicalize(Some("generated".to_string())).unwrap().input, "given");
    let neither = ProgramConfig { seed: None, input: None, shown: false };
    assert!(neither.canonicalize(Some("x".to_string())).is_none());
}

#[test]
fn program_positions() {
    let env = CanonicalProgramsEnvConfig {
        programs: vec![
            CanonicalProgramConfig { input: "a".to_string(), shown: true },
            CanonicalProgramConfig { input: "b".to_string(), shown: false },
        ],
    };
    let ps = env.programs();
    assert_eq!(ps.len(), 2);
    assert_eq!(ps[1].0, ProgramId(1));
    assert_eq!(ps[1].1.input, "b");
    assert_eq!(GroupName("g1".to_string()).as_str(), "g1");
}

#[test]
fn array_names_are_upper_case() {
    for seed in 0..10u64 {
        let mut rng = rand::rngs::SmallRng::seed_from_u64(seed);
        let mut cx = Context::new(3);
        let a = Array::gen(&mut cx, &mut rng);
        assert!(["A", "B", "C", "D"].contains(&a.0.as_str()), "{}", a.0);
        let x = Variable::gen(&cx, &mut rng);
        assert!(["a", "b", "c", "d"].contains(&x.0.as_str()), "{}", x.0);
    }
}

#[test]
fn generated_security_inputs_use_their_rules() {
    for seed in 0..20u64 {
        let mut rng = rand::rngs::SmallRng::seed_from_u64(seed);
        let input = generate_security_input(&mut rng);
        let cls = &input.classification;
        for name in input.commands.fv() {
            let class = cls.get(&name).expect("every name is classified");
            assert!(input.lattice.rules.iter().any(|f| f.from == class.0 || f.into == class.0));
        }
    }
}

#[test]
fn productions_follow_the_drawn_index() {
    let mut rng = rand::rngs::SmallRng::seed_from_u64(11);
    let mut cx = Context::new(5);
    assert!(matches!(AExpr::production(0, &mut cx, &mut rng), AExpr::Number(n) if (-100..=100).contains(&n)));
    assert!(matches!(AExpr::production(1, &mut cx, &mut rng), AExpr::Variable(_)));
    let mut cx = Context::new(5);
    assert!(matches!(AExpr::production(2, &mut cx, &mut rng), AExpr::Array(_)));
    let mut cx = Context::new(5);
    assert!(matches!(AExpr::production(3, &mut cx, &mut rng), AExpr::Binary(..)));
    let mut cx = Context::new(5);
    assert!(matches!(BExpr::production(0, &mut cx, &mut rng), BExpr::Bool(_)));
    assert!(matches!(BExpr::production(1, &mut cx, &mut rng), BExpr::Rel(..)));
    let mut cx = Context::new(5);
    assert!(matches!(BExpr::production(2, &mut cx, &mut rng), BExpr::Logic(..)));
    let mut cx = Context::new(5);
    assert!(matches!(BExpr::production(3, &mut cx, &mut rng), BExpr::Not(_)));
    let mut cx = Context::new(5);
    assert!(matches!(Command::production(0, &mut cx, &mut rng), Command::Assignment(..)));
    assert!(matches!(Command::production(1, &mut cx, &mut rng), Command::ArrayAssignment(..)));
    let mut cx = Context::new(5);
    assert!(matches!(Command::production(2, &mut cx, &mut rng), Command::If(gs) if !gs.is_empty()));
    let mut cx = Context::new(5);
    assert!(matches!(Command::production(3, &mut cx, &mut rng), Command::Loop(gs) if !gs.is_empty()));
}
