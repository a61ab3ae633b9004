//! Security lattices and the check of a program's flows against a
//! classification of its variables.

use vstd::prelude::*;
use vstd::string::*;
use vstd::arithmetic::div_mod::{lemma_fundamental_div_mod_converse};
use itertools::Itertools;
use crate::ast::Commands;
use crate::flows::{
    Flow, FlowModel, add_flow, add_name, flow, flow_set, flows_distinct, name_set, names_distinct,
    program_flows, program_fv,
};
use crate::names::{NameMap, str_eq};

verus! {

/// A security class.
#[derive(Debug)]
pub struct SecurityClass(pub String);

impl View for SecurityClass {
    type V = Seq<char>;

    open spec fn view(&self) -> Seq<char> {
        self.0@
    }
}

/// The classes of variables and arrays, by name.
pub type Classification = NameMap<SecurityClass>;

/// The declared rules of a lattice: each says that its `from` class may
/// flow into its `into` class.
#[derive(Debug)]
pub struct SecurityLatticeInput {
    pub rules: Vec<Flow>,
}

/// `p` is a chain of at least two classes, each of which may flow into the
/// next by a rule.
pub open spec fn is_chain(rules: Set<FlowModel>, p: Seq<Seq<char>>) -> bool {
    p.len() >= 2 && forall|i: int| 0 <= i < p.len() - 1 ==> #[trigger] rules.contains((p[i], p[i + 1]))
}

/// The transitive closure of the rules.
pub open spec fn closure(rules: Set<FlowModel>) -> Set<FlowModel> {
    Set::new(|f: FlowModel| exists|p: Seq<Seq<char>>| #[trigger] is_chain(rules, p) && p[0] == f.0 && p.last() == f.1)
}

/// Whether a lattice with closed set `allowed` lets `from` flow into `into`:
/// a class always flows into itself.
pub open spec fn allows_spec(allowed: Set<FlowModel>, from: Seq<char>, into: Seq<char>) -> bool {
    from == into || allowed.contains((from, into))
}

/// The flows between classified names that the lattice allows.
pub open spec fn allowed_flows(allowed: Set<FlowModel>, cls: Map<Seq<char>, Seq<char>>) -> Set<FlowModel> {
    Set::new(|f: FlowModel| cls.contains_key(f.0) && cls.contains_key(f.1) && allows_spec(allowed, cls[f.0], cls[f.1]))
}

/// A partial order of security classes, closed under transitivity.
#[derive(Debug)]
pub struct SecurityLattice {
    allowed: Vec<Flow>,
}

impl View for SecurityLattice {
    type V = Set<FlowModel>;

    closed spec fn view(&self) -> Set<FlowModel> {
        flow_set(self.allowed@)
    }
}

proof fn lemma_chain_join(rules: Set<FlowModel>, p: Seq<Seq<char>>, q: Seq<Seq<char>>)
    requires
        is_chain(rules, p),
        is_chain(rules, q),
        p.last() == q[0],
    ensures
        is_chain(rules, p + q.drop_first()),
        (p + q.drop_first())[0] == p[0],
        (p + q.drop_first()).last() == q.last(),
{
    let r = p + q.drop_first();
    assert forall|i: int| 0 <= i < r.len() - 1 implies #[trigger] rules.contains((r[i], r[i + 1])) by {
        if i < p.len() - 1 {
            assert(r[i] == p[i] && r[i + 1] == p[i + 1]);
        } else if i == p.len() - 1 {
            assert(r[i] == q[0] && r[i + 1] == q[1]);
        } else {
            let k = i - p.len() + 1;
            assert(r[i] == q[k] && r[i + 1] == q[k + 1]);
        }
    }
}

/// A set that holds the rules and is closed under composition holds every
/// chain.
proof fn lemma_closed_holds_chain(rules: Set<FlowModel>, s: Set<FlowModel>, p: Seq<Seq<char>>)
    requires
        rules.subset_of(s),
        forall|a: FlowModel, b: FlowModel| #[trigger] s.contains(a) && #[trigger] s.contains(b) && a.1 == b.0 ==> s.contains((a.0, b.1)),
        is_chain(rules, p),
    ensures
        s.contains((p[0], p.last())),
    decreases p.len(),
{
    if p.len() > 2 {
        let q = p.drop_last();
        assert(is_chain(rules, q)) by {
            assert forall|i: int| 0 <= i < q.len() - 1 implies #[trigger] rules.contains((q[i], q[i + 1])) by {
                assert(rules.contains((p[i], p[i + 1])));
            }
        }
        lemma_closed_holds_chain(rules, s, q);
        let i = p.len() - 2;
        assert(rules.contains((p[i], p[i + 1])));
        assert(s.contains((q[0], q.last())));
        assert(s.contains((p[p.len() - 2], p.last())));
    } else {
        let i = 0int;
        assert(rules.contains((p[i], p[i + 1])));
    }
}

/// The position of a name in a list of distinct names.
spec fn pos(classes: Seq<String>, x: Seq<char>) -> int {
    choose|i: int| 0 <= i < classes.len() && classes[i]@ == x
}

/// Distinct flows between `m` classes number at most `m * m`.
proof fn lemma_flow_bound(allowed: Seq<Flow>, classes: Seq<String>)
    requires
        flows_distinct(allowed),
        names_distinct(classes),
        forall|i: int| #![trigger allowed[i]] 0 <= i < allowed.len() ==> name_set(classes).contains(allowed[i]@.0)
            && name_set(classes).contains(allowed[i]@.1),
    ensures
        allowed.len() <= classes.len() * classes.len(),
{
    let m = classes.len() as int;
    let key = |f: Flow| pos(classes, f@.0) * m + pos(classes, f@.1);
    let keys = allowed.map_values(key);
    assert forall|i: int| 0 <= i < allowed.len() implies 0 <= #[trigger] keys[i] < m * m by {
        let a = pos(classes, allowed[i]@.0);
        let b = pos(classes, allowed[i]@.1);
        assert(name_set(classes).contains(allowed[i]@.0));
        assert(name_set(classes).contains(allowed[i]@.1));
        assert(0 <= a < m && 0 <= b < m);
        assert(0 <= a * m + b < m * m) by (nonlinear_arith)
            requires 0 <= a < m, 0 <= b < m;
    }
    assert(keys.no_duplicates()) by {
        assert forall|i: int, j: int| 0 <= i < keys.len() && 0 <= j < keys.len() && i != j implies keys[i] != keys[j] by {
            let a = pos(classes, allowed[i]@.0);
            let b = pos(classes, allowed[i]@.1);
            let c = pos(classes, allowed[j]@.0);
            let d = pos(classes, allowed[j]@.1);
            assert(name_set(classes).contains(allowed[i]@.0));
            assert(name_set(classes).contains(allowed[i]@.1));
            assert(name_set(classes).contains(allowed[j]@.0));
            assert(name_set(classes).contains(allowed[j]@.1));
            if keys[i] == keys[j] {
                assert(a * m + b == c * m + d);
                lemma_fundamental_div_mod_converse(a * m + b, m, a, b);
                lemma_fundamental_div_mod_converse(c * m + d, m, c, d);
                assert(a == c && b == d);
                assert(allowed[i]@ == allowed[j]@);
                if i < j {
                    assert(allowed[i]@ != allowed[j]@);
                } else {
                    assert(allowed[j]@ != allowed[i]@);
                }
            }
        }
    }
    keys.unique_seq_to_set();
    vstd::set_lib::lemma_int_range(0, m * m);
    assert(keys.to_set().subset_of(vstd::set_lib::set_int_range(0, m * m)));
    vstd::set_lib::lemma_len_subset(keys.to_set(), vstd::set_lib::set_int_range(0, m * m));
}

/// Whether `v` holds the flow from `from` into `into`.
fn holds_flow(v: &Vec<Flow>, from: &str, into: &str) -> (r: bool)
    ensures
        r == flow_set(v@).contains((from@, into@)),
{
    let mut i: usize = 0;
    while i < v.len()
        invariant
            i <= v@.len(),
            forall|j: int| 0 <= j < i ==> #[trigger] v@[j]@ != (from@, into@),
        decreases v@.len() - i,
    {
        if str_eq(v[i].from.as_str(), from) && str_eq(v[i].into.as_str(), into) {
            assert(v@[i as int]@ == (from@, into@));
            return true;
        }
        i = i + 1;
    }
    false
}

/// Whether some pair of flows of `av` composes into `f` outside `av`'s set.
pub open spec fn composes(av: Seq<Flow>, f: FlowModel) -> bool {
    exists|x: int, y: int|
        0 <= x < av.len() && 0 <= y < av.len() && #[trigger] av[x]@.1 == #[trigger] av[y]@.0 && f == (av[x]@.0, av[y]@.1)
}

impl SecurityLattice {
    /// The lattice whose order is the transitive closure of `flows`.
    pub fn new(flows: &[Flow]) -> (r: SecurityLattice)
        ensures
            r@ == closure(flow_set(flows@)),
    {
        let ghost rules = flow_set(flows@);
        let mut allowed: Vec<Flow> = Vec::new();
        let mut i: usize = 0;
        assert(flow_set(allowed@) =~= flow_set(flows@.subrange(0, 0)));
        while i < flows.len()
            invariant
                i <= flows@.len(),
                flows_distinct(allowed@),
                flow_set(allowed@) == flow_set(flows@.subrange(0, i as int)),
            decreases flows@.len() - i,
        {
            let ghost prev = allowed@;
            add_flow(&mut allowed, flows[i].from.as_str(), flows[i].into.as_str());
            proof {
                assert(flows@[i as int]@ == (flows@[i as int].from@, flows@[i as int].into@));
                assert(flow_set(allowed@) == flow_set(prev).insert(flows@[i as int]@));
                assert forall|f: FlowModel| flow_set(flows@.subrange(0, i + 1)).contains(f) <==> flow_set(flows@.subrange(0, i as int)).insert(flows@[i as int]@).contains(f) by {
                    if flow_set(flows@.subrange(0, i + 1)).contains(f) {
                        let j = choose|j: int| 0 <= j < i + 1 && #[trigger] flows@.subrange(0, i + 1)[j]@ == f;
                        if j < i {
                            assert(flows@.subrange(0, i as int)[j]@ == f);
                        }
                    }
                    if flow_set(flows@.subrange(0, i as int)).contains(f) {
                        let j = choose|j: int| 0 <= j < i && #[trigger] flows@.subrange(0, i as int)[j]@ == f;
                        assert(flows@.subrange(0, i + 1)[j]@ == f);
                    }
                    if f == flows@[i as int]@ {
                        assert(flows@.subrange(0, i + 1)[i as int]@ == f);
                    }
                }
                assert(flow_set(allowed@) =~= flow_set(flows@.subrange(0, i + 1)));
            }
            i = i + 1;
        }
        assert(flows@.subrange(0, flows@.len() as int) =~= flows@);
        // every rule lies in the closure
        assert forall|f: FlowModel| flow_set(allowed@).contains(f) implies closure(rules).contains(f) by {
            let p = seq![f.0, f.1];
            assert(is_chain(rules, p)) by {
                assert forall|k: int| 0 <= k < p.len() - 1 implies #[trigger] rules.contains((p[k], p[k + 1])) by {
                    assert(k == 0);
                }
            }
        }
        let mut classes: Vec<String> = Vec::new();
        let mut k: usize = 0;
        while k < allowed.len()
            invariant
                k <= allowed@.len(),
                names_distinct(classes@),
                forall|x: int| #![trigger allowed@[x]] 0 <= x < k ==> name_set(classes@).contains(allowed@[x]@.0)
                    && name_set(classes@).contains(allowed@[x]@.1),
            decreases allowed@.len() - k,
        {
            add_name(&mut classes, allowed[k].from.as_str());
            add_name(&mut classes, allowed[k].into.as_str());
            k = k + 1;
        }
        proof {
            lemma_flow_bound(allowed@, classes@);
        }
        let ghost m = classes@.len() as int;
        let mut done = false;
        while !done
            invariant
                flows_distinct(allowed@),
                names_distinct(classes@),
                m == classes@.len(),
                rules.subset_of(flow_set(allowed@)),
                flow_set(allowed@).subset_of(closure(rules)),
                forall|x: int| #![trigger allowed@[x]] 0 <= x < allowed@.len() ==> name_set(classes@).contains(allowed@[x]@.0)
                    && name_set(classes@).contains(allowed@[x]@.1),
                allowed@.len() <= m * m,
                done ==> forall|f: FlowModel| composes(allowed@, f) ==> flow_set(allowed@).contains(f),
            decreases m * m - allowed@.len() + (if done { 0int } else { 1int }),
        {
            let ghost av = allowed@;
            let mut to_add: Vec<Flow> = Vec::new();
            let n = allowed.len();
            let mut x: usize = 0;
            while x < n
                invariant
                    av == allowed@,
                    n == av.len(),
                    x <= n,
                    flows_distinct(to_add@),
                    flow_set(to_add@).subset_of(closure(rules)),
                    flow_set(av).subset_of(closure(rules)),
                    forall|f: FlowModel| flow_set(to_add@).contains(f) ==> !flow_set(av).contains(f),
                    forall|z: int| #![trigger to_add@[z]] 0 <= z < to_add@.len() ==> name_set(classes@).contains(to_add@[z]@.0)
                        && name_set(classes@).contains(to_add@[z]@.1),
                    forall|z: int| #![trigger av[z]] 0 <= z < av.len() ==> name_set(classes@).contains(av[z]@.0)
                        && name_set(classes@).contains(av[z]@.1),
                    forall|a: int, b: int|
                        0 <= a < x && 0 <= b < n && #[trigger] av[a]@.1 == #[trigger] av[b]@.0
                            ==> flow_set(av).contains((av[a]@.0, av[b]@.1)) || flow_set(to_add@).contains((av[a]@.0, av[b]@.1)),
                decreases n - x,
            {
                let mut y: usize = 0;
                while y < n
                    invariant
                        av == allowed@,
                        n == av.len(),
                        x < n,
                        y <= n,
                        flows_distinct(to_add@),
                        flow_set(to_add@).subset_of(closure(rules)),
                        flow_set(av).subset_of(closure(rules)),
                        forall|f: FlowModel| flow_set(to_add@).contains(f) ==> !flow_set(av).contains(f),
                        forall|z: int| #![trigger to_add@[z]] 0 <= z < to_add@.len() ==> name_set(classes@).contains(to_add@[z]@.0)
                            && name_set(classes@).contains(to_add@[z]@.1),
                        forall|z: int| #![trigger av[z]] 0 <= z < av.len() ==> name_set(classes@).contains(av[z]@.0)
                            && name_set(classes@).contains(av[z]@.1),
                        forall|a: int, b: int|
                            ((0 <= a < x && 0 <= b < n) || (a == x && 0 <= b < y)) && #[trigger] av[a]@.1 == #[trigger] av[b]@.0
                                ==> flow_set(av).contains((av[a]@.0, av[b]@.1)) || flow_set(to_add@).contains((av[a]@.0, av[b]@.1)),
                    decreases n - y,
                {
                    let f = &allowed[x];
                    let a = &allowed[y];
                    if str_eq(f.into.as_str(), a.from.as_str()) && !holds_flow(&allowed, f.from.as_str(), a.into.as_str()) {
                        let ghost before = to_add@;
                        proof {
                            assert(flow_set(av).contains(av[x as int]@));
                            assert(flow_set(av).contains(av[y as int]@));
                            let fx = av[x as int]@;
                            let fy = av[y as int]@;
                            assert(closure(rules).contains(fx));
                            assert(closure(rules).contains(fy));
                            let p = choose|p: Seq<Seq<char>>| #[trigger] is_chain(rules, p) && p[0] == fx.0 && p.last() == fx.1;
                            let q = choose|q: Seq<Seq<char>>| #[trigger] is_chain(rules, q) && q[0] == fy.0 && q.last() == fy.1;
                            lemma_chain_join(rules, p, q);
                            assert(closure(rules).contains((fx.0, fy.1)));
                        }
                        add_flow(&mut to_add, f.from.as_str(), a.into.as_str());
                        proof {
                                    assert forall|z: int| #![trigger to_add@[z]] 0 <= z < to_add@.len() implies name_set(classes@).contains(to_add@[z]@.0)
                                && name_set(classes@).contains(to_add@[z]@.1) by {
                                if z < before.len() {
                                    assert(to_add@[z] == before[z]);
                                } else {
                                    assert(flow_set(to_add@).contains(to_add@[z]@));
                                    assert(to_add@[z]@ == (av[x as int]@.0, av[y as int]@.1));
                                    assert(name_set(classes@).contains(av[x as int]@.0));
                                    assert(name_set(classes@).contains(av[y as int]@.1));
                                }
                            }
                        }
                    }
                    y = y + 1;
                }
                x = x + 1;
            }
            if to_add.len() == 0 {
                proof {
                    assert forall|f: FlowModel| composes(allowed@, f) implies flow_set(allowed@).contains(f) by {
                        let (a, b) = choose|a: int, b: int|
                            0 <= a < av.len() && 0 <= b < av.len() && #[trigger] av[a]@.1 == #[trigger] av[b]@.0 && f == (av[a]@.0, av[b]@.1);
                        if flow_set(to_add@).contains(f) {
                            let z = choose|z: int| 0 <= z < to_add@.len() && #[trigger] to_add@[z]@ == f;
                        }
                    }
                }
                done = true;
            } else {
                let ghost a0 = allowed@;
                let mut z: usize = 0;
                while z < to_add.len()
                    invariant
                        z <= to_add@.len(),
                        flows_distinct(allowed@),
                        flows_distinct(to_add@),
                        allowed@.len() == a0.len() + z,
                        flow_set(allowed@) == flow_set(a0) + flow_set(to_add@.subrange(0, z as int)),
                        forall|f: FlowModel| flow_set(to_add@).contains(f) ==> !flow_set(a0).contains(f),
                        forall|w: int| #![trigger to_add@[w]] 0 <= w < to_add@.len() ==> name_set(classes@).contains(to_add@[w]@.0)
                            && name_set(classes@).contains(to_add@[w]@.1),
                        forall|w: int| #![trigger allowed@[w]] 0 <= w < allowed@.len() ==> name_set(classes@).contains(allowed@[w]@.0)
                            && name_set(classes@).contains(allowed@[w]@.1),
                    decreases to_add@.len() - z,
                {
                    let ghost before = allowed@;
                    proof {
                        assert(to_add@[z as int]@ == (to_add@[z as int].from@, to_add@[z as int].into@));
                        assert(flow_set(to_add@).contains(to_add@[z as int]@));
                        if flow_set(to_add@.subrange(0, z as int)).contains(to_add@[z as int]@) {
                            let w = choose|w: int| 0 <= w < z && #[trigger] to_add@.subrange(0, z as int)[w]@ == to_add@[z as int]@;
                            assert(to_add@[w]@ == to_add@[z as int]@);
                        }
                    }
                    add_flow(&mut allowed, to_add[z].from.as_str(), to_add[z].into.as_str());
                    proof {
                        assert(flow_set(allowed@) == flow_set(before).insert(to_add@[z as int]@));
                        assert forall|f: FlowModel| flow_set(to_add@.subrange(0, z + 1)).contains(f) <==> flow_set(to_add@.subrange(0, z as int)).insert(to_add@[z as int]@).contains(f) by {
                            if flow_set(to_add@.subrange(0, z + 1)).contains(f) {
                                let j = choose|j: int| 0 <= j < z + 1 && #[trigger] to_add@.subrange(0, z + 1)[j]@ == f;
                                if j < z {
                                    assert(to_add@.subrange(0, z as int)[j]@ == f);
                                }
                            }
                            if flow_set(to_add@.subrange(0, z as int)).contains(f) {
                                let j = choose|j: int| 0 <= j < z && #[trigger] to_add@.subrange(0, z as int)[j]@ == f;
                                assert(to_add@.subrange(0, z + 1)[j]@ == f);
                            }
                            if f == to_add@[z as int]@ {
                                assert(to_add@.subrange(0, z + 1)[z as int]@ == f);
                            }
                        }
                        let sz = flow_set(to_add@.subrange(0, z as int));
                        let sz1 = flow_set(to_add@.subrange(0, z + 1));
                        assert(flow_set(before) == flow_set(a0) + sz);
                        assert forall|f: FlowModel| flow_set(allowed@).contains(f) <==> (flow_set(a0) + sz1).contains(f) by {
                            assert(sz1.contains(f) == sz.insert(to_add@[z as int]@).contains(f));
                        }
                        assert(flow_set(allowed@) =~= flow_set(a0) + sz1);
                        assert forall|w: int| #![trigger allowed@[w]] 0 <= w < allowed@.len() implies name_set(classes@).contains(allowed@[w]@.0)
                            && name_set(classes@).contains(allowed@[w]@.1) by {
                            if w < before.len() {
                                assert(allowed@[w] == before[w]);
                            } else {
                                assert(flow_set(allowed@).contains(allowed@[w]@));
                                if flow_set(before).contains(allowed@[w]@) {
                                    let v = choose|v: int| 0 <= v < before.len() && #[trigger] before[v]@ == allowed@[w]@;
                                    assert(allowed@[v]@ == allowed@[w]@);
                                    assert(false);
                                }
                                assert(allowed@[w]@ == to_add@[z as int]@);
                            }
                        }
                    }
                    z = z + 1;
                }
                proof {
                    assert(to_add@.subrange(0, to_add@.len() as int) =~= to_add@);
                    lemma_flow_bound(allowed@, classes@);
                }
            }
        }
        let r = SecurityLattice { allowed };
        proof {
            assert forall|f: FlowModel| closure(rules).contains(f) implies flow_set(r.allowed@).contains(f) by {
                let p = choose|p: Seq<Seq<char>>| #[trigger] is_chain(rules, p) && p[0] == f.0 && p.last() == f.1;
                let s = flow_set(r.allowed@);
                assert forall|a: FlowModel, b: FlowModel| #[trigger] s.contains(a) && #[trigger] s.contains(b) && a.1 == b.0 implies s.contains((a.0, b.1)) by {
                    let x = choose|x: int| 0 <= x < r.allowed@.len() && #[trigger] r.allowed@[x]@ == a;
                    let y = choose|y: int| 0 <= y < r.allowed@.len() && #[trigger] r.allowed@[y]@ == b;
                    assert(composes(r.allowed@, (a.0, b.1)));
                }
                lemma_closed_holds_chain(rules, s, p);
            }
            assert(r@ =~= closure(rules));
        }
        r
    }
}

/// The closure holds the rules.
proof fn lemma_rules_in_closure(rules: Set<FlowModel>)
    ensures
        rules.subset_of(closure(rules)),
{
    assert forall|f: FlowModel| rules.contains(f) implies closure(rules).contains(f) by {
        let p = seq![f.0, f.1];
        assert forall|k: int| 0 <= k < p.len() - 1 implies #[trigger] rules.contains((p[k], p[k + 1])) by {
            assert(k == 0);
        }
        assert(is_chain(rules, p));
    }
}

/// The closure is closed under composition.
proof fn lemma_closure_closed(rules: Set<FlowModel>)
    ensures
        forall|a: FlowModel, b: FlowModel|
            #[trigger] closure(rules).contains(a) && #[trigger] closure(rules).contains(b) && a.1 == b.0
                ==> closure(rules).contains((a.0, b.1)),
{
    assert forall|a: FlowModel, b: FlowModel|
        #[trigger] closure(rules).contains(a) && #[trigger] closure(rules).contains(b) && a.1 == b.0
            implies closure(rules).contains((a.0, b.1)) by {
        let p = choose|p: Seq<Seq<char>>| #[trigger] is_chain(rules, p) && p[0] == a.0 && p.last() == a.1;
        let q = choose|q: Seq<Seq<char>>| #[trigger] is_chain(rules, q) && q[0] == b.0 && q.last() == b.1;
        lemma_chain_join(rules, p, q);
    }
}

/// Closing a closed set of rules again changes nothing.
pub proof fn lemma_closure_idempotent(rules: Set<FlowModel>)
    ensures
        closure(closure(rules)) == closure(rules),
{
    let c = closure(rules);
    lemma_rules_in_closure(c);
    lemma_closure_closed(rules);
    assert forall|f: FlowModel| closure(c).contains(f) implies c.contains(f) by {
        let p = choose|p: Seq<Seq<char>>| #[trigger] is_chain(c, p) && p[0] == f.0 && p.last() == f.1;
        lemma_closed_holds_chain(c, c, p);
    }
    assert(closure(c) =~= c);
}

/// More rules allow at least as much.
pub proof fn lemma_closure_monotone(r1: Set<FlowModel>, r2: Set<FlowModel>)
    requires
        r1.subset_of(r2),
    ensures
        closure(r1).subset_of(closure(r2)),
{
    assert forall|f: FlowModel| closure(r1).contains(f) implies closure(r2).contains(f) by {
        let p = choose|p: Seq<Seq<char>>| #[trigger] is_chain(r1, p) && p[0] == f.0 && p.last() == f.1;
        assert forall|i: int| 0 <= i < p.len() - 1 implies #[trigger] r2.contains((p[i], p[i + 1])) by {
            assert(r1.contains((p[i], p[i + 1])));
        }
        assert(is_chain(r2, p));
    }
}

/// Every class may flow into itself, whatever the rules, none included.
pub proof fn lemma_allows_reflexive(rules: Set<FlowModel>, a: Seq<char>)
    ensures
        allows_spec(closure(rules), a, a),
{
}

/// The outcome of checking a program's flows against a classification.
#[derive(Debug)]
pub struct SecurityAnalysisOutput {
    pub actual: Vec<Flow>,
    pub allowed: Vec<Flow>,
    pub violations: Vec<Flow>,
    pub is_secure: bool,
}

/// Why a program cannot be checked.
#[derive(Debug)]
pub enum SecurityError {
    /// A variable or array of the program has no class.
    Unclassified(String),
}

/// Relies on itertools' `cartesian_product`: every pair of an index below
/// `n` and an index below `m`, the first index varying slowest, as its
/// documentation shows.
#[verifier::external_body]
fn index_pairs(n: usize, m: usize) -> (r: Vec<(usize, usize)>)
    ensures
        r@.len() == n * m,
        forall|k: int| 0 <= k < r@.len() ==> #[trigger] r@[k] == ((k / m as int) as usize, (k % m as int) as usize),
{
    (0..n).cartesian_product(0..m).collect()
}

impl SecurityLattice {
    /// Whether the lattice lets `f.from` flow into `f.into`.
    pub fn allows(&self, f: &Flow) -> (r: bool)
        ensures
            r == allows_spec(self@, f@.0, f@.1),
    {
        str_eq(f.from.as_str(), f.into.as_str()) || holds_flow(&self.allowed, f.from.as_str(), f.into.as_str())
    }

    /// The flows between classified names that the lattice allows, each
    /// once: every ordered pair of entries, the pair's classes checked.
    pub fn all_allowed(&self, classification: &Classification) -> (r: Vec<Flow>)
        requires
            classification.wf(),
        ensures
            flows_distinct(r@),
            flow_set(r@) == allowed_flows(self@, classification@),
    {
        let n = classification.len();
        proof {
            classification.lemma_entries();
        }
        let pairs = index_pairs(n, n);
        let ghost es = classification.entries_spec();
        let mut out: Vec<Flow> = Vec::new();
        let mut k: usize = 0;
        while k < pairs.len()
            invariant
                classification.wf(),
                es == classification.entries_spec(),
                n == es.len(),
                pairs@.len() == n * n,
                forall|q: int| 0 <= q < pairs@.len() ==> #[trigger] pairs@[q] == ((q / n as int) as usize, (q % n as int) as usize),
                k <= pairs@.len(),
                flows_distinct(out@),
                forall|f: FlowModel| flow_set(out@).contains(f) <==> exists|q: int|
                    0 <= q < k && #[trigger] pair_flow(es, pairs@[q]) == f && allows_spec(self@, es[pairs@[q].0 as int].1@, es[pairs@[q].1 as int].1@),
            decreases pairs@.len() - k,
        {
            let (i, j) = pairs[k];
            proof {
                lemma_pair_bounds(k as int, n as int);
            }
            let a = classification.name_at(i);
            let b = classification.name_at(j);
            let ca = &classification.value_at(i).0;
            let cb = &classification.value_at(j).0;
            let ghost before = out@;
            if str_eq(ca.as_str(), cb.as_str()) || holds_flow(&self.allowed, ca.as_str(), cb.as_str()) {
                add_flow(&mut out, a.as_str(), b.as_str());
            }
            proof {
                assert(pair_flow(es, pairs@[k as int]) == (a@, b@));
            }
            k = k + 1;
        }
        proof {
            assert forall|f: FlowModel| flow_set(out@).contains(f) <==> allowed_flows(self@, classification@).contains(f) by {
                if flow_set(out@).contains(f) {
                    let q = choose|q: int|
                        0 <= q < pairs@.len() && #[trigger] pair_flow(es, pairs@[q]) == f && allows_spec(self@, es[pairs@[q].0 as int].1@, es[pairs@[q].1 as int].1@);
                    lemma_pair_bounds(q, n as int);
                    let i = pairs@[q].0 as int;
                    let j = pairs@[q].1 as int;
                    assert(classification@.contains_key(es[i].0@) && classification@[es[i].0@] == es[i].1@);
                    assert(classification@.contains_key(es[j].0@) && classification@[es[j].0@] == es[j].1@);
                }
                if allowed_flows(self@, classification@).contains(f) {
                    let i = choose|i: int| 0 <= i < es.len() && #[trigger] es[i].0@ == f.0;
                    let j = choose|j: int| 0 <= j < es.len() && #[trigger] es[j].0@ == f.1;
                    let q = i * n + j;
                    vstd::arithmetic::div_mod::lemma_fundamental_div_mod_converse(q, n as int, i, j);
                    assert(0 <= q < n * n) by (nonlinear_arith)
                        requires 0 <= i < n, 0 <= j < n, q == i * n + j;
                    assert(pair_flow(es, pairs@[q]) == f);
                }
            }
            assert(flow_set(out@) =~= allowed_flows(self@, classification@));
        }
        out
    }
}

proof fn lemma_pair_bounds(q: int, n: int)
    requires
        0 <= n,
        0 <= q < n * n,
    ensures
        n > 0,
        0 <= q / n < n,
        0 <= q % n < n,
{
    if n == 0 {
        assert(n * n == 0);
    }
    vstd::arithmetic::div_mod::lemma_fundamental_div_mod(q, n);
    vstd::arithmetic::div_mod::lemma_mod_pos_bound(q, n);
    vstd::arithmetic::div_mod::lemma_div_pos_is_pos(q, n);
    let d = q / n;
    let r = q % n;
    assert(d < n) by (nonlinear_arith)
        requires
            q == n * d + r,
            0 <= r,
            q < n * n,
            n > 0,
            d >= 0,
    ;
}

impl SecurityAnalysisOutput {
    /// Checks the flows of `cmds` against the classes that `mapping` gives
    /// and the order of `lattice`: the actual flows, the allowed ones, and
    /// the actual flows that are not allowed. Every name of the program
    /// must be classified.
    pub fn run(mapping: &Classification, lattice: &SecurityLattice, cmds: &Commands) -> (r: Result<
        SecurityAnalysisOutput,
        SecurityError,
    >)
        requires
            mapping.wf(),
        ensures
            match r {
                Ok(o) => {
                    &&& program_fv(*cmds).subset_of(mapping@.dom())
                    &&& flows_distinct(o.actual@)
                    &&& flow_set(o.actual@) == program_flows(*cmds)
                    &&& flows_distinct(o.allowed@)
                    &&& flow_set(o.allowed@) == allowed_flows(lattice@, mapping@)
                    &&& flows_distinct(o.violations@)
                    &&& flow_set(o.violations@) == program_flows(*cmds).difference(
                        allowed_flows(lattice@, mapping@),
                    )
                    &&& o.is_secure == program_flows(*cmds).subset_of(allowed_flows(lattice@, mapping@))
                },
                Err(SecurityError::Unclassified(x)) => program_fv(*cmds).contains(x@) && !mapping@.contains_key(x@),
            },
    {
        let names = cmds.fv();
        let mut i: usize = 0;
        while i < names.len()
            invariant
                mapping.wf(),
                i <= names@.len(),
                name_set(names@) == program_fv(*cmds),
                forall|j: int| 0 <= j < i ==> #[trigger] mapping@.contains_key(names@[j]@),
            decreases names@.len() - i,
        {
            if mapping.get(names[i].as_str()).is_none() {
                assert(name_set(names@).contains(names@[i as int]@));
                return Err(SecurityError::Unclassified(names[i].clone()));
            }
            i = i + 1;
        }
        assert forall|x: Seq<char>| program_fv(*cmds).contains(x) implies mapping@.dom().contains(x) by {
            let j = choose|j: int| 0 <= j < names@.len() && #[trigger] names@[j]@ == x;
        }
        let actual = cmds.flows();
        let allowed = lattice.all_allowed(mapping);
        let mut violations: Vec<Flow> = Vec::new();
        let mut k: usize = 0;
        while k < actual.len()
            invariant
                k <= actual@.len(),
                flows_distinct(violations@),
                forall|f: FlowModel| flow_set(violations@).contains(f) <==> (!flow_set(allowed@).contains(f) && exists|j: int|
                    0 <= j < k && #[trigger] actual@[j]@ == f),
            decreases actual@.len() - k,
        {
            let ghost before = violations@;
            if !holds_flow(&allowed, actual[k].from.as_str(), actual[k].into.as_str()) {
                add_flow(&mut violations, actual[k].from.as_str(), actual[k].into.as_str());
            }
            proof {
                assert(actual@[k as int]@ == (actual@[k as int].from@, actual@[k as int].into@));
                assert forall|f: FlowModel| flow_set(violations@).contains(f) <==> (!flow_set(allowed@).contains(f) && exists|j: int|
                    0 <= j < k + 1 && #[trigger] actual@[j]@ == f) by {
                    if exists|j: int| 0 <= j < k + 1 && #[trigger] actual@[j]@ == f {
                        let j = choose|j: int| 0 <= j < k + 1 && #[trigger] actual@[j]@ == f;
                        if j < k {
                            assert(exists|j: int| 0 <= j < k && #[trigger] actual@[j]@ == f);
                        }
                    }
                    if exists|j: int| 0 <= j < k && #[trigger] actual@[j]@ == f {
                        let j = choose|j: int| 0 <= j < k && #[trigger] actual@[j]@ == f;
                        assert(0 <= j < k + 1);
                    }
                    if f == actual@[k as int]@ {
                        assert(exists|j: int| 0 <= j < k + 1 && #[trigger] actual@[j]@ == f);
                    }
                }
            }
            k = k + 1;
        }
        proof {
            assert forall|f: FlowModel| flow_set(violations@).contains(f) <==> program_flows(*cmds).difference(
                allowed_flows(lattice@, mapping@)).contains(f) by {
                if flow_set(actual@).contains(f) {
                    let j = choose|j: int| 0 <= j < actual@.len() && #[trigger] actual@[j]@ == f;
                }
            }
            assert(flow_set(violations@) =~= program_flows(*cmds).difference(allowed_flows(lattice@, mapping@)));
        }
        let is_secure = violations.len() == 0;
        proof {
            if is_secure {
                assert forall|f: FlowModel| program_flows(*cmds).contains(f) implies allowed_flows(lattice@, mapping@).contains(f) by {
                    if !allowed_flows(lattice@, mapping@).contains(f) {
                        assert(flow_set(violations@).contains(f));
                        let j = choose|j: int| 0 <= j < violations@.len() && #[trigger] violations@[j]@ == f;
                    }
                }
            } else {
                assert(flow_set(violations@).contains(violations@[0]@));
            }
        }
        Ok(SecurityAnalysisOutput { actual, allowed, violations, is_secure })
    }
}

/// Why a lattice's text could not be read.
#[derive(Debug, Clone, Copy, PartialEq, Eq, Structural)]
pub enum ParseError {
    /// A rule is not two class names around one `<`.
    MalformedRule,
}

pub open spec fn is_space(c: char) -> bool {
    c == ' ' || c == '\t' || c == '\n' || c == '\r'
}

pub open spec fn is_ident_start(c: char) -> bool {
    ('a' <= c && c <= 'z') || ('A' <= c && c <= 'Z') || c == '_'
}

pub open spec fn is_ident_char(c: char) -> bool {
    is_ident_start(c) || ('0' <= c && c <= '9')
}

/// A class name: a letter or `_`, then letters, digits and `_`.
pub open spec fn is_ident(s: Seq<char>) -> bool {
    s.len() > 0 && is_ident_start(s[0]) && forall|i: int| 0 <= i < s.len() ==> #[trigger] is_ident_char(s[i])
}

pub open spec fn trim_start(s: Seq<char>) -> Seq<char>
    decreases s.len(),
{
    if s.len() > 0 && is_space(s[0]) {
        trim_start(s.drop_first())
    } else {
        s
    }
}

pub open spec fn trim_end(s: Seq<char>) -> Seq<char>
    decreases s.len(),
{
    if s.len() > 0 && is_space(s.last()) {
        trim_end(s.drop_last())
    } else {
        s
    }
}

/// `s` without leading and trailing white space.
pub open spec fn trim(s: Seq<char>) -> Seq<char> {
    trim_end(trim_start(s))
}

/// The first position at or after `i` that holds `c`, or the length.
pub open spec fn find(s: Seq<char>, c: char, i: int) -> int
    decreases s.len() - i,
{
    if i >= s.len() {
        s.len() as int
    } else if s[i] == c {
        i
    } else {
        find(s, c, i + 1)
    }
}

/// A rule: two class names around one `<`, with white space around them.
pub open spec fn parse_rule(part: Seq<char>) -> Option<FlowModel> {
    let k = find(part, '<', 0);
    if k >= part.len() || find(part, '<', k + 1) < part.len() {
        None
    } else {
        let a = trim(part.subrange(0, k));
        let b = trim(part.subrange(k + 1, part.len() as int));
        if is_ident(a) && is_ident(b) {
            Some((a, b))
        } else {
            None
        }
    }
}

/// The rules from position `pos` on, separated by commas.
pub open spec fn parse_rules_from(s: Seq<char>, pos: int) -> Option<Seq<FlowModel>>
    decreases s.len() - pos,
{
    let k = find(s, ',', pos);
    if pos < 0 || pos > s.len() || k < pos {
        None
    } else {
        match parse_rule(s.subrange(pos, k)) {
            None => None,
            Some(f) => if k >= s.len() {
                Some(seq![f])
            } else {
                match parse_rules_from(s, k + 1) {
                    None => None,
                    Some(rest) => Some(seq![f] + rest),
                }
            },
        }
    }
}

/// The rules of a lattice's text: `a < b, b < c`; blank text has none.
pub open spec fn parse_lattice(s: Seq<char>) -> Option<Seq<FlowModel>> {
    if trim(s).len() == 0 {
        Some(Seq::empty())
    } else {
        parse_rules_from(s, 0)
    }
}

fn char_is_space(c: char) -> (r: bool)
    ensures
        r == is_space(c),
{
    c == ' ' || c == '\t' || c == '\n' || c == '\r'
}

fn find_char(s: &str, c: char, i: usize) -> (r: usize)
    requires
        i <= s@.len(),
    ensures
        r as int == find(s@, c, i as int),
        i <= r <= s@.len(),
{
    let n = s.unicode_len();
    let mut j = i;
    while j < n
        invariant
            n == s@.len(),
            i <= j <= n,
            find(s@, c, i as int) == find(s@, c, j as int),
        decreases n - j,
    {
        if s.get_char(j) == c {
            return j;
        }
        j = j + 1;
    }
    j
}

proof fn lemma_trim_start_step(s: Seq<char>, j: int, hi: int)
    requires
        0 <= j < hi <= s.len(),
        is_space(s[j]),
    ensures
        trim_start(s.subrange(j, hi)) == trim_start(s.subrange(j + 1, hi)),
{
    assert(s.subrange(j, hi).drop_first() =~= s.subrange(j + 1, hi));
}

proof fn lemma_trim_end_step(s: Seq<char>, lo: int, j: int)
    requires
        0 <= lo < j <= s.len(),
        is_space(s[j - 1]),
    ensures
        trim_end(s.subrange(lo, j)) == trim_end(s.subrange(lo, j - 1)),
{
    assert(s.subrange(lo, j).drop_last() =~= s.subrange(lo, j - 1));
}

/// The bounds of `s[lo..hi]` without leading and trailing white space.
fn trim_bounds(s: &str, lo: usize, hi: usize) -> (r: (usize, usize))
    requires
        lo <= hi <= s@.len(),
    ensures
        lo <= r.0 <= r.1 <= hi,
        s@.subrange(r.0 as int, r.1 as int) == trim(s@.subrange(lo as int, hi as int)),
{
    let mut a = lo;
    while a < hi && char_is_space(s.get_char(a))
        invariant
            lo <= a <= hi <= s@.len(),
            trim_start(s@.subrange(lo as int, hi as int)) == trim_start(s@.subrange(a as int, hi as int)),
        decreases hi - a,
    {
        proof {
            lemma_trim_start_step(s@, a as int, hi as int);
        }
        a = a + 1;
    }
    proof {
        if a < hi {
            assert(!is_space(s@.subrange(a as int, hi as int)[0]));
        }
    }
    assert(trim_start(s@.subrange(a as int, hi as int)) == s@.subrange(a as int, hi as int));
    let mut b = hi;
    while b > a && char_is_space(s.get_char(b - 1))
        invariant
            lo <= a <= b <= hi <= s@.len(),
            trim_end(s@.subrange(a as int, hi as int)) == trim_end(s@.subrange(a as int, b as int)),
        decreases b - a,
    {
        proof {
            lemma_trim_end_step(s@, a as int, b as int);
        }
        b = b - 1;
    }
    proof {
        if b > a {
            assert(!is_space(s@.subrange(a as int, b as int).last()));
        }
    }
    (a, b)
}

/// Whether `s[lo..hi]` is a class name.
fn ident_at(s: &str, lo: usize, hi: usize) -> (r: bool)
    requires
        lo <= hi <= s@.len(),
    ensures
        r == is_ident(s@.subrange(lo as int, hi as int)),
{
    let ghost t = s@.subrange(lo as int, hi as int);
    if lo == hi {
        return false;
    }
    let c0 = s.get_char(lo);
    if !(('a' <= c0 && c0 <= 'z') || ('A' <= c0 && c0 <= 'Z') || c0 == '_') {
        assert(t[0] == c0);
        assert(!is_ident_start(t[0]));
        return false;
    }
    let mut i = lo;
    while i < hi
        invariant
            lo <= i <= hi <= s@.len(),
            t == s@.subrange(lo as int, hi as int),
            forall|j: int| 0 <= j < i - lo ==> #[trigger] is_ident_char(t[j]),
        decreases hi - i,
    {
        let c = s.get_char(i);
        if !(('a' <= c && c <= 'z') || ('A' <= c && c <= 'Z') || c == '_' || ('0' <= c && c <= '9')) {
            assert(t[i - lo] == c);
            assert(!is_ident_char(t[i - lo]));
            return false;
        }
        assert(t[i - lo] == c);
        i = i + 1;
    }
    true
}

/// Reads the rule in `s[lo..hi]`.
fn rule_at(s: &str, lo: usize, hi: usize) -> (r: Option<Flow>)
    requires
        lo <= hi <= s@.len(),
    ensures
        match r {
            Some(f) => parse_rule(s@.subrange(lo as int, hi as int)) == Some(f@),
            None => parse_rule(s@.subrange(lo as int, hi as int)) is None,
        },
{
    let part = s.substring_char(lo, hi);
    let n = part.unicode_len();
    let k = find_char(part, '<', 0);
    if k >= n {
        return None;
    }
    let k2 = find_char(part, '<', k + 1);
    if k2 < n {
        return None;
    }
    let (a0, a1) = trim_bounds(part, 0, k);
    let (b0, b1) = trim_bounds(part, k + 1, n);
    if !ident_at(part, a0, a1) || !ident_at(part, b0, b1) {
        return None;
    }
    let from = part.substring_char(a0, a1);
    let into = part.substring_char(b0, b1);
    Some(flow(from, into))
}

impl SecurityLattice {
    /// Reads rules written `a < b`, separated by commas, and closes them.
    pub fn parse(src: &str) -> (r: Result<SecurityLattice, ParseError>)
        ensures
            match parse_lattice(src@) {
                Some(rules) => r is Ok && r->Ok_0@ == closure(rules.to_set()),
                None => r == Err::<SecurityLattice, ParseError>(ParseError::MalformedRule),
            },
    {
        let n = src.unicode_len();
        let mut rules: Vec<Flow> = Vec::new();
        let (t0, t1) = trim_bounds(src, 0, n);
        assert(src@.subrange(0, n as int) =~= src@);
        if t0 == t1 {
            let r = SecurityLattice::new(rules.as_slice());
            proof {
                assert(flow_set(rules@) =~= Seq::<FlowModel>::empty().to_set());
            }
            return Ok(r);
        }
        let ghost total = parse_rules_from(src@, 0);
        let mut pos: usize = 0;
        let mut done = false;
        while !done
            invariant
                n == src@.len(),
                pos <= n,
                total == parse_lattice(src@),
                !done ==> match parse_rules_from(src@, pos as int) {
                    None => total is None,
                    Some(rest) => total == Some(rules@.map_values(|f: Flow| f@) + rest),
                },
                done ==> total == Some(rules@.map_values(|f: Flow| f@)),
            decreases n + 1 - pos, (if done { 0int } else { 1int }),
        {
            let k = find_char(src, ',', pos);
            match rule_at(src, pos, k) {
                None => {
                    return Err(ParseError::MalformedRule);
                },
                Some(f) => {
                    let ghost before = rules@;
                    rules.push(f);
                    assert(rules@.map_values(|f: Flow| f@) =~= before.map_values(|f: Flow| f@) + seq![f@]);
                    if k >= n {
                        done = true;
                    } else {
                        pos = k + 1;
                    }
                },
            }
        }
        let r = SecurityLattice::new(rules.as_slice());
        proof {
            let rs = rules@.map_values(|f: Flow| f@);
            assert forall|f: FlowModel| flow_set(rules@).contains(f) <==> rs.to_set().contains(f) by {
                if flow_set(rules@).contains(f) {
                    let i = choose|i: int| 0 <= i < rules@.len() && #[trigger] rules@[i]@ == f;
                    assert(rs[i] == f);
                }
                if rs.to_set().contains(f) {
                    let i = choose|i: int| 0 <= i < rs.len() && rs[i] == f;
                    assert(rules@[i]@ == f);
                }
            }
            assert(flow_set(rules@) =~= rs.to_set());
        }
        Ok(r)
    }
}

/// A security analysis to perform: the program, the class of each of its
/// names, and the rules of the lattice.
#[derive(Debug)]
pub struct SecurityInput {
    pub commands: Commands,
    pub classification: Classification,
    pub lattice: SecurityLatticeInput,
}

/// Checks the program of `input` against its classification and the
/// lattice that its rules close into.
pub fn analyze(input: &SecurityInput) -> (r: Result<SecurityAnalysisOutput, SecurityError>)
    requires
        input.classification.wf(),
    ensures
        match r {
            Ok(o) => {
                let allowed = allowed_flows(closure(flow_set(input.lattice.rules@)), input.classification@);
                &&& program_fv(input.commands).subset_of(input.classification@.dom())
                &&& flows_distinct(o.actual@)
                &&& flows_distinct(o.allowed@)
                &&& flows_distinct(o.violations@)
                &&& flow_set(o.actual@) == program_flows(input.commands)
                &&& flow_set(o.allowed@) == allowed
                &&& flow_set(o.violations@) == program_flows(input.commands).difference(allowed)
                &&& o.is_secure == program_flows(input.commands).subset_of(allowed)
            },
            Err(SecurityError::Unclassified(x)) => program_fv(input.commands).contains(x@)
                && !input.classification@.contains_key(x@),
        },
{
    let lattice = SecurityLattice::new(input.lattice.rules.as_slice());
    SecurityAnalysisOutput::run(&input.classification, &lattice, &input.commands)
}

/// The flow between the names of the entries at a pair of positions.
pub open spec fn pair_flow(es: Seq<(String, SecurityClass)>, p: (usize, usize)) -> FlowModel {
    (es[p.0 as int].0@, es[p.1 as int].0@)
}

} // verus!
