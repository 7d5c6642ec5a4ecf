use minilog::ast::{Atom, ConstType, Constant, GlobalStr, Symbol};
use minilog::interpreter::query::env_get;
use minilog::types::{HintType, Type};

fn sym(s: &str) -> Symbol {
    Symbol::new(s)
}

#[test]
fn symbols_compare_by_content() {
    assert_eq!(sym("abc"), sym("abc"));
    assert_ne!(sym("abc"), sym("abd"));
    assert!(sym("abc").same(&sym("abc")));
    assert!(!sym("abc").same(&sym("abd")));
    assert!(GlobalStr::new("x").same(&GlobalStr::new("x")));
}

#[test]
fn constant_tags() {
    assert_eq!(Constant::Nil.tag(), ConstType::Nil);
    assert_eq!(Constant::Bool(true).tag(), ConstType::Bool);
    assert_eq!(Constant::Int(-3).tag(), ConstType::Int);
    assert_eq!(Constant::Uint(3).tag(), ConstType::Uint);
    assert_eq!(Constant::Float(1.0f64.to_bits()).tag(), ConstType::Float);
    assert_eq!(Constant::Str(GlobalStr::new("s")).tag(), ConstType::Str);
}

#[test]
fn constant_equality_is_structural() {
    assert!(Constant::Int(7).same(&Constant::Int(7)));
    assert!(!Constant::Int(7).same(&Constant::Int(8)));
    assert!(!Constant::Int(7).same(&Constant::Uint(7)));
    assert!(Constant::Nil.same(&Constant::Nil));
    assert!(Constant::Str(GlobalStr::new("ab")).same(&Constant::Str(GlobalStr::new("ab"))));
    assert!(!Constant::Str(GlobalStr::new("ab")).same(&Constant::Str(GlobalStr::new("ac"))));
}

#[test]
fn constant_order_per_tag() {
    assert!(Constant::Bool(false).lt(&Constant::Bool(true)));
    assert!(!Constant::Bool(true).lt(&Constant::Bool(false)));
    assert!(Constant::Int(-5).lt(&Constant::Int(3)));
    assert!(Constant::Uint(2).lt(&Constant::Uint(10)));
    assert!(
        Constant::Float((-1.0f64).to_bits()).lt(&Constant::Float(0.5f64.to_bits()))
    );
    assert!(
        Constant::Float(0.5f64.to_bits()).lt(&Constant::Float(2.0f64.to_bits()))
    );
    assert!(
        Constant::Str(GlobalStr::new("abc")).lt(&Constant::Str(GlobalStr::new("abd")))
    );
    assert!(
        Constant::Str(GlobalStr::new("ab")).lt(&Constant::Str(GlobalStr::new("abc")))
    );
    // Different tags are never ordered.
    assert!(!Constant::Int(1).lt(&Constant::Uint(2)));
}

#[test]
fn unify_const_outcomes() {
    let v = Constant::Int(4);
    assert_eq!(Atom::Wildcard.unify_const(&v), Ok(None));
    assert_eq!(Atom::Const(Constant::Int(4)).unify_const(&v), Ok(None));
    assert_eq!(Atom::Const(Constant::Int(5)).unify_const(&v), Err(()));
    assert_eq!(
        Atom::Variable(sym("x")).unify_const(&v),
        Ok(Some((sym("x"), Constant::Int(4))))
    );
}

#[test]
fn unify_fact_accumulates_and_rejects() {
    let pat = vec![Atom::Variable(sym("a")), Atom::Variable(sym("b"))];
    let tup = vec![Constant::Int(1), Constant::Int(2)];
    let env = Atom::unify_fact(&pat, &tup).unwrap();
    assert_eq!(env, vec![(sym("a"), Constant::Int(1)), (sym("b"), Constant::Int(2))]);

    let pat2 = vec![Atom::Variable(sym("a")), Atom::Variable(sym("a"))];
    assert!(Atom::unify_fact(&pat2, &tup).is_err());
    let same = vec![Constant::Int(5), Constant::Int(5)];
    assert_eq!(Atom::unify_fact(&pat2, &same).unwrap(), vec![(sym("a"), Constant::Int(5))]);

    // Length mismatch is a conflict.
    assert!(Atom::unify_fact(&pat, &vec![Constant::Int(1)]).is_err());
}

#[test]
fn eval_substitutes_bound_variables() {
    let env = vec![(sym("x"), Constant::Int(9))];
    assert_eq!(Atom::Variable(sym("x")).eval(&env), Atom::Const(Constant::Int(9)));
    assert_eq!(Atom::Variable(sym("y")).eval(&env), Atom::Variable(sym("y")));
    assert_eq!(Atom::Wildcard.eval(&env), Atom::Wildcard);
    assert_eq!(env_get(&env, &sym("x")), Some(Constant::Int(9)));
    assert_eq!(env_get(&env, &sym("y")), None);
}

#[test]
fn unify_argument_directions() {
    // Caller variable meets a literal parameter: the variable binds.
    assert_eq!(
        Atom::Variable(sym("x")).unify_argument(&Atom::Const(Constant::Int(5))),
        Ok(Some((sym("x"), Constant::Int(5))))
    );
    // Caller literal meets a variable parameter: the parameter binds.
    assert_eq!(
        Atom::Const(Constant::Int(3)).unify_argument(&Atom::Variable(sym("y"))),
        Ok(Some((sym("y"), Constant::Int(3))))
    );
    // Literal against literal must agree.
    assert_eq!(
        Atom::Const(Constant::Int(3)).unify_argument(&Atom::Const(Constant::Int(3))),
        Ok(None)
    );
    assert_eq!(
        Atom::Const(Constant::Int(3)).unify_argument(&Atom::Const(Constant::Int(4))),
        Err(())
    );
    // Unbound on both sides: nothing is produced.
    assert_eq!(
        Atom::Variable(sym("x")).unify_argument(&Atom::Variable(sym("y"))),
        Ok(None)
    );
}

#[test]
fn get_var_refuses_wildcard_parameter() {
    assert_eq!(Atom::Variable(sym("v")).get_var(&Atom::Wildcard), Err(()));
    assert_eq!(
        Atom::Variable(sym("v")).get_var(&Atom::Const(Constant::Int(1))),
        Ok(Some((sym("v"), Atom::Const(Constant::Int(1)))))
    );
    assert_eq!(Atom::Wildcard.get_var(&Atom::Variable(sym("p"))), Ok(None));

    let this = vec![Atom::Variable(sym("v")), Atom::Variable(sym("v"))];
    let params = vec![Atom::Variable(sym("p")), Atom::Variable(sym("p"))];
    let binds = Atom::get_vars(&this, &params).unwrap();
    assert_eq!(binds, vec![(sym("v"), Atom::Variable(sym("p")))]);

    let clash = vec![Atom::Variable(sym("p")), Atom::Variable(sym("q"))];
    assert!(Atom::get_vars(&this, &clash).is_err());
}

#[test]
fn type_assert_is_equality_of_tags() {
    assert!(Type::Int.type_assert(&Type::Int));
    assert!(!Type::Int.type_assert(&Type::Uint));
    assert_eq!(Type::Str.simple_unify(&Type::Str), Some(Type::Str));
    assert_eq!(Type::Str.simple_unify(&Type::Float), None);
}

#[test]
fn hint_type_union_acceptance() {
    let union = HintType::Union(vec![Type::Int, Type::Uint]);
    assert!(union.type_assert(&HintType::Typ(Type::Int)));
    assert!(!union.type_assert(&HintType::Typ(Type::Str)));
    assert!(HintType::Typ(Type::Int).type_assert(&HintType::Union(vec![Type::Int])));
    let sub = HintType::Union(vec![Type::Uint]);
    assert!(union.type_assert(&sub));
    let wider = HintType::Union(vec![Type::Uint, Type::Str]);
    assert!(!union.type_assert(&wider));
    assert!(HintType::Any.type_assert(&HintType::Typ(Type::Mapping)));
    assert!(!HintType::Typ(Type::Vector).type_assert(&HintType::Any));
    assert_eq!(HintType::from(Type::Bool), HintType::Typ(Type::Bool));
}

#[test]
fn constant_from_scalars() {
    assert_eq!(Constant::from(()), Constant::Nil);
    assert_eq!(Constant::from(true), Constant::Bool(true));
    assert_eq!(Constant::from(-4i64), Constant::Int(-4));
    assert_eq!(Constant::from(9u64), Constant::Uint(9));
    assert_eq!(Constant::from(GlobalStr::new("t")), Constant::Str(GlobalStr::new("t")));
}

#[test]
fn type_from_constant() {
    assert_eq!(Type::from(&Constant::Nil), Type::Nil);
    assert_eq!(Type::from(&Constant::Bool(false)), Type::Bool);
    assert_eq!(Type::from(&Constant::Int(1)), Type::Int);
    assert_eq!(Type::from(&Constant::Uint(1)), Type::Uint);
    assert_eq!(Type::from(&Constant::Float(0.0f64.to_bits())), Type::Float);
    assert_eq!(Type::from(&Constant::Str(GlobalStr::new("s"))), Type::Str);
}
