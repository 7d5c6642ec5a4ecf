use minilog::ast::{Atom, Constant, FactDef, Match, NotMatch, Filter, Rule, Symbol};
use minilog::interpreter::database::{Database, DbError};
use minilog::interpreter::query::ResolveError;

type Env = Vec<(Symbol, Constant)>;

fn sym(s: &str) -> Symbol {
    Symbol::new(s)
}

fn var(s: &str) -> Atom {
    Atom::Variable(Symbol::new(s))
}

fn lit(i: i64) -> Atom {
    Atom::Const(Constant::Int(i))
}

fn fact2(name: &str, a: i64, b: i64) -> FactDef {
    FactDef { name: sym(name), values: vec![Constant::Int(a), Constant::Int(b)] }
}

fn fact1(name: &str, a: i64) -> FactDef {
    FactDef { name: sym(name), values: vec![Constant::Int(a)] }
}

fn m(name: &str, expr: Vec<Atom>) -> Match {
    Match { name: sym(name), expr }
}

fn env_of(pairs: Vec<(&str, i64)>) -> Env {
    pairs.into_iter().map(|(n, v)| (sym(n), Constant::Int(v))).collect()
}

fn has_env(rs: &Vec<Env>, e: &Env) -> bool {
    rs.iter().any(|x| x == e)
}

#[test]
fn fact_unification_two_variables() {
    let mut db = Database::new();
    db.load_fact(fact2("test1", 1, 2));
    db.load_fact(fact2("test1", 3, 4));
    let q = m("test1", vec![var("a"), var("b")]);
    let rs = db.query_facts(&q, &Vec::new());
    assert_eq!(rs.len(), 2);
    assert!(has_env(&rs, &env_of(vec![("a", 1), ("b", 2)])));
    assert!(has_env(&rs, &env_of(vec![("a", 3), ("b", 4)])));
}

#[test]
fn constant_literal_filtering() {
    let mut db = Database::new();
    db.load_fact(fact2("test1", 1, 2));
    db.load_fact(fact2("test1", 3, 4));
    let q = m("test1", vec![lit(1), var("b")]);
    let rs = db.query_facts(&q, &Vec::new());
    assert_eq!(rs.len(), 1);
    assert!(has_env(&rs, &env_of(vec![("b", 2)])));
}

#[test]
fn wildcard_never_binds() {
    let mut db = Database::new();
    db.load_fact(fact2("test1", 1, 2));
    db.load_fact(fact2("test1", 3, 4));
    let defs = vec![sym("b")];
    let with_wildcard = db
        .run_query(&defs, &vec![m("test1", vec![Atom::Wildcard, var("b")])], 10)
        .unwrap();
    let with_variable = db
        .run_query(&defs, &vec![m("test1", vec![var("x"), var("b")])], 10)
        .unwrap();
    assert_eq!(with_wildcard.len(), 2);
    assert_eq!(with_variable.len(), 2);
    for p in &with_wildcard {
        assert!(with_variable.contains(p));
    }
    for p in &with_variable {
        assert!(with_wildcard.contains(p));
    }
    assert!(with_wildcard.contains(&Ok(env_of(vec![("b", 2)]))));
    assert!(with_wildcard.contains(&Ok(env_of(vec![("b", 4)]))));
}

#[test]
fn conflict_rejection() {
    let mut db = Database::new();
    db.load_fact(fact2("test2", 5, 5));
    db.load_fact(fact2("test2", 5, 6));
    let q = m("test2", vec![var("a"), var("a")]);
    let rs = db.query_facts(&q, &Vec::new());
    assert_eq!(rs.len(), 1);
    assert!(has_env(&rs, &env_of(vec![("a", 5)])));
}

#[test]
fn rule_conjunction_is_join() {
    let mut db = Database::new();
    db.load_fact(fact1("p", 1));
    db.load_fact(fact1("p", 2));
    db.load_fact(fact1("q", 2));
    db.load_fact(fact1("q", 3));
    db.load_rule(Rule {
        name: sym("r"),
        args: vec![var("x")],
        matchs: vec![m("p", vec![var("x")]), m("q", vec![var("x")])],
        not_matchs: vec![],
        filter: vec![],
    })
    .unwrap();
    let rs = db.query(&m("r", vec![var("x")]), &Vec::new(), 10).unwrap();
    assert_eq!(rs.len(), 1);
    assert!(has_env(&rs, &env_of(vec![("x", 2)])));
}

#[test]
fn negation_over_facts_only() {
    let mut db = Database::new();
    db.load_fact(fact1("p", 1));
    db.load_fact(fact1("p", 2));
    db.load_fact(fact1("q", 2));
    db.load_fact(fact1("q", 3));
    db.load_rule(Rule {
        name: sym("s"),
        args: vec![var("x")],
        matchs: vec![m("p", vec![var("x")])],
        not_matchs: vec![NotMatch(m("q", vec![var("x")]))],
        filter: vec![],
    })
    .unwrap();
    let rs = db.query(&m("s", vec![var("x")]), &Vec::new(), 10).unwrap();
    assert_eq!(rs.len(), 1);
    assert!(has_env(&rs, &env_of(vec![("x", 1)])));
}

#[test]
fn fact_first_fallback() {
    let mut db = Database::new();
    db.load_fact(fact1("t", 1));
    db.load_fact(fact1("u", 1));
    db.load_fact(fact1("u", 2));
    // A rule for `t` that would also yield t(1) and t(2).
    db.load_rule(Rule {
        name: sym("t"),
        args: vec![var("x")],
        matchs: vec![m("u", vec![var("x")])],
        not_matchs: vec![],
        filter: vec![],
    })
    .unwrap();
    let rs = db.query(&m("t", vec![var("x")]), &Vec::new(), 10).unwrap();
    // The stored fact shadows the rule entirely: only t(1) is answered.
    assert_eq!(rs.len(), 1);
    assert!(has_env(&rs, &env_of(vec![("x", 1)])));
}

#[test]
fn same_query_twice_is_identical() {
    let mut db = Database::new();
    db.load_fact(fact2("test1", 1, 2));
    db.load_fact(fact2("test1", 3, 4));
    let q = m("test1", vec![var("a"), var("b")]);
    let r1 = db.query(&q, &Vec::new(), 10).unwrap();
    let r2 = db.query(&q, &Vec::new(), 10).unwrap();
    assert_eq!(r1, r2);
}

#[test]
fn append_only_durability() {
    let mut db = Database::new();
    db.load_fact(fact2("test1", 1, 2));
    let q = m("test1", vec![var("a"), var("b")]);
    let before = db.query_facts(&q, &Vec::new());
    db.load_fact(fact2("test1", 7, 8));
    let after = db.query_facts(&q, &Vec::new());
    for e in &before {
        assert!(has_env(&after, e));
    }
    assert!(has_env(&after, &env_of(vec![("a", 7), ("b", 8)])));
}

#[test]
fn duplicate_rule_definition() {
    let mut db = Database::new();
    db.load_fact(fact1("p", 1));
    let first = Rule {
        name: sym("r"),
        args: vec![var("x")],
        matchs: vec![m("p", vec![var("x")])],
        not_matchs: vec![],
        filter: vec![],
    };
    assert_eq!(db.load_rule(first), Ok(()));
    // Same name, arity and all-unknown signature: refused.
    let second = Rule {
        name: sym("r"),
        args: vec![var("y")],
        matchs: vec![],
        not_matchs: vec![],
        filter: vec![],
    };
    assert_eq!(db.load_rule(second), Err(DbError::DuplicateDefinition));
    // The first definition stays intact and keeps answering.
    let rs = db.query(&m("r", vec![var("x")]), &Vec::new(), 10).unwrap();
    assert_eq!(rs.len(), 1);
    assert!(has_env(&rs, &env_of(vec![("x", 1)])));
}

#[test]
fn rule_specialized_on_literal_is_a_second_bucket() {
    let mut db = Database::new();
    let general = Rule {
        name: sym("r"),
        args: vec![var("x")],
        matchs: vec![],
        not_matchs: vec![],
        filter: vec![],
    };
    let special = Rule {
        name: sym("r"),
        args: vec![lit(5)],
        matchs: vec![],
        not_matchs: vec![],
        filter: vec![],
    };
    assert_eq!(db.load_rule(general), Ok(()));
    // Its parameter list has a literal slot, so its signature differs.
    assert_eq!(db.load_rule(special), Ok(()));
}

#[test]
fn recursive_rule_reports_depth_exceeded() {
    let mut db = Database::new();
    db.load_rule(Rule {
        name: sym("spin"),
        args: vec![var("x")],
        matchs: vec![m("spin", vec![var("x")])],
        not_matchs: vec![],
        filter: vec![],
    })
    .unwrap();
    let r = db.query(&m("spin", vec![var("x")]), &Vec::new(), 5);
    assert_eq!(r, Err(ResolveError::DepthExceeded));
}

#[test]
fn unbound_output_variable_is_reported_per_result() {
    let mut db = Database::new();
    db.load_fact(fact2("test1", 1, 2));
    let rs = db
        .run_query(&vec![sym("z")], &vec![m("test1", vec![var("a"), var("b")])], 10)
        .unwrap();
    assert_eq!(rs, vec![Err(sym("z"))]);
}

#[test]
fn filters_compare_after_body_resolution() {
    let mut db = Database::new();
    db.load_fact(fact1("p", 1));
    db.load_fact(fact1("p", 2));
    db.load_fact(fact1("p", 3));
    db.load_rule(Rule {
        name: sym("big"),
        args: vec![var("x")],
        matchs: vec![m("p", vec![var("x")])],
        not_matchs: vec![],
        filter: vec![Filter::Gt(var("x"), lit(1))],
    })
    .unwrap();
    let rs = db.query(&m("big", vec![var("x")]), &Vec::new(), 10).unwrap();
    assert_eq!(rs.len(), 2);
    assert!(has_env(&rs, &env_of(vec![("x", 2)])));
    assert!(has_env(&rs, &env_of(vec![("x", 3)])));
}

#[test]
fn filter_fails_closed_on_tag_mismatch_and_unbound() {
    let mut db = Database::new();
    db.load_fact(fact1("p", 1));
    // Comparing the bound integer against a boolean: fails closed.
    db.load_rule(Rule {
        name: sym("odd"),
        args: vec![var("x")],
        matchs: vec![m("p", vec![var("x")])],
        not_matchs: vec![],
        filter: vec![Filter::Eq(var("x"), Atom::Const(Constant::Bool(true)))],
    })
    .unwrap();
    let rs = db.query(&m("odd", vec![var("x")]), &Vec::new(), 10).unwrap();
    assert_eq!(rs.len(), 0);
    // A filter over a variable the body never bound: fails closed too.
    db.load_rule(Rule {
        name: sym("loose"),
        args: vec![var("x")],
        matchs: vec![m("p", vec![var("x")])],
        not_matchs: vec![],
        filter: vec![Filter::Lt(var("never"), lit(10))],
    })
    .unwrap();
    let rs = db.query(&m("loose", vec![var("x")]), &Vec::new(), 10).unwrap();
    assert_eq!(rs.len(), 0);
}

#[test]
fn float_filter_orders_numerically() {
    let mut db = Database::new();
    db.load_fact(FactDef {
        name: sym("w"),
        values: vec![Constant::Float((-2.0f64).to_bits())],
    });
    db.load_fact(FactDef { name: sym("w"), values: vec![Constant::Float(1.5f64.to_bits())] });
    db.load_fact(FactDef { name: sym("w"), values: vec![Constant::Float(3.25f64.to_bits())] });
    db.load_rule(Rule {
        name: sym("small"),
        args: vec![var("x")],
        matchs: vec![m("w", vec![var("x")])],
        not_matchs: vec![],
        filter: vec![Filter::Lt(var("x"), Atom::Const(Constant::Float(2.0f64.to_bits())))],
    })
    .unwrap();
    let rs = db.query(&m("small", vec![var("x")]), &Vec::new(), 10).unwrap();
    assert_eq!(rs.len(), 2);
    assert!(has_env_c(&rs, &vec![(sym("x"), Constant::Float((-2.0f64).to_bits()))]));
    assert!(has_env_c(&rs, &vec![(sym("x"), Constant::Float(1.5f64.to_bits()))]));
}

fn has_env_c(rs: &Vec<Env>, e: &Env) -> bool {
    rs.iter().any(|x| x == e)
}

#[test]
fn string_filter_orders_lexicographically() {
    let mut db = Database::new();
    let s = |t: &str| Constant::Str(minilog::ast::GlobalStr::new(t));
    db.load_fact(FactDef { name: sym("n"), values: vec![s("apple")] });
    db.load_fact(FactDef { name: sym("n"), values: vec![s("pear")] });
    db.load_rule(Rule {
        name: sym("early"),
        args: vec![var("x")],
        matchs: vec![m("n", vec![var("x")])],
        not_matchs: vec![],
        filter: vec![Filter::Lt(var("x"), Atom::Const(s("banana")))],
    })
    .unwrap();
    let rs = db.query(&m("early", vec![var("x")]), &Vec::new(), 10).unwrap();
    assert_eq!(rs.len(), 1);
    assert!(has_env_c(&rs, &vec![(sym("x"), s("apple"))]));
}

#[test]
fn unknown_predicate_is_empty_not_error() {
    let db = Database::new();
    let rs = db.query_facts(&m("nothing", vec![var("a")]), &Vec::new());
    assert_eq!(rs.len(), 0);
    assert!(db.not_query(&NotMatch(m("nothing", vec![var("a")])), &Vec::new()));
}

#[test]
fn arity_partitions_predicates() {
    let mut db = Database::new();
    db.load_fact(fact1("p", 1));
    db.load_fact(fact2("p", 1, 2));
    let rs1 = db.query_facts(&m("p", vec![var("a")]), &Vec::new());
    let rs2 = db.query_facts(&m("p", vec![var("a"), var("b")]), &Vec::new());
    assert_eq!(rs1.len(), 1);
    assert_eq!(rs2.len(), 1);
}

#[test]
fn caller_bindings_survive_merging() {
    let mut db = Database::new();
    db.load_fact(fact2("test1", 1, 2));
    let caller = env_of(vec![("c", 9)]);
    let rs = db.query_facts(&m("test1", vec![var("a"), var("b")]), &caller);
    assert_eq!(rs.len(), 1);
    assert!(has_env(&rs, &env_of(vec![("a", 1), ("b", 2), ("c", 9)])));
}

#[test]
fn rule_literal_parameter_binds_caller_variable() {
    let mut db = Database::new();
    db.load_fact(fact1("p", 5));
    db.load_rule(Rule {
        name: sym("five"),
        args: vec![lit(5)],
        matchs: vec![m("p", vec![lit(5)])],
        not_matchs: vec![],
        filter: vec![],
    })
    .unwrap();
    let rs = db.query(&m("five", vec![var("x")]), &Vec::new(), 10).unwrap();
    assert_eq!(rs.len(), 1);
    assert!(has_env(&rs, &env_of(vec![("x", 5)])));
}

#[test]
fn caller_literal_binds_rule_parameter() {
    let mut db = Database::new();
    db.load_fact(fact1("p", 1));
    db.load_fact(fact1("p", 2));
    db.load_rule(Rule {
        name: sym("r"),
        args: vec![var("y")],
        matchs: vec![m("p", vec![var("y")])],
        not_matchs: vec![],
        filter: vec![],
    })
    .unwrap();
    let rs = db.query(&m("r", vec![lit(2)]), &Vec::new(), 10).unwrap();
    assert_eq!(rs.len(), 1);
    assert!(has_env(&rs, &env_of(vec![("y", 2)])));
}

#[test]
fn nil_compares_only_as_equal_to_itself() {
    let mut db = Database::new();
    db.load_fact(FactDef { name: sym("k"), values: vec![Constant::Nil] });
    let nil_atom = || Atom::Const(Constant::Nil);
    // Eq on two Nils holds; the strict orders never do.
    for (filter, expect) in [
        (Filter::Eq(var("x"), nil_atom()), 1usize),
        (Filter::NotEq(var("x"), nil_atom()), 0),
        (Filter::Lt(var("x"), nil_atom()), 0),
        (Filter::Gt(var("x"), nil_atom()), 0),
    ] {
        let mut fresh = Database::new();
        fresh.load_fact(FactDef { name: sym("k"), values: vec![Constant::Nil] });
        fresh
            .load_rule(Rule {
                name: sym("chk"),
                args: vec![var("x")],
                matchs: vec![m("k", vec![var("x")])],
                not_matchs: vec![],
                filter: vec![filter],
            })
            .unwrap();
        let rs = fresh.query(&m("chk", vec![var("x")]), &Vec::new(), 10).unwrap();
        assert_eq!(rs.len(), expect);
    }
    let _ = db;
}

#[test]
fn run_query_deduplicates_projections() {
    let mut db = Database::new();
    db.load_fact(fact2("test1", 1, 2));
    db.load_fact(fact2("test1", 1, 3));
    // Projected onto `a` alone, both answers collapse to one.
    let rs = db
        .run_query(&vec![sym("a")], &vec![m("test1", vec![var("a"), var("b")])], 10)
        .unwrap();
    assert_eq!(rs, vec![Ok(env_of(vec![("a", 1)]))]);
}

#[test]
fn duplicate_fact_loads_are_stored_again() {
    let mut db = Database::new();
    db.load_fact(fact2("test1", 1, 2));
    db.load_fact(fact2("test1", 1, 2));
    // Duplicate tuples are stored, but the answer set is deduplicated.
    let rs = db.query_facts(&m("test1", vec![var("a"), var("b")]), &Vec::new());
    assert_eq!(rs.len(), 1);
}
