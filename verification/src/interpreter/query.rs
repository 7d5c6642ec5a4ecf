//! The resolution engine: unification of pattern atoms against stored
//! tuples, conjunctive rule resolution, negation-as-failure over facts, and
//! comparison filters.

use vstd::prelude::*;

use rayon::prelude::ParallelIterator;
use rayon::prelude::IntoParallelRefIterator;

use crate::ast::{const_lt, Atom, AtomV, ConstV, Constant, Filter, FilterV, Match, MatchV,
    NotMatch, Rule, RuleV, Symbol};
use crate::interpreter::database::{all_items, all_items_from, BucketV, Bucket, Database, DbV,
    Fact, Key, KeyV, table_get};

verus! {

/// A binding environment: variable-to-constant pairs accumulated during one
/// derivation. No symbol occurs twice; bindings are only ever added.
pub type Env = Vec<(Symbol, Constant)>;

/// Mathematical value of an environment: the sequence of its bindings.
pub type EnvV = Seq<(Seq<char>, ConstV)>;

/// First value filed under name `n` in an association sequence, looking from
/// position `i` on.
pub open spec fn assoc_get_from<X>(e: Seq<(Seq<char>, X)>, n: Seq<char>, i: int) -> Option<X>
    decreases e.len() - i,
{
    if i < 0 || i >= e.len() {
        None
    } else if e[i].0 == n {
        Some(e[i].1)
    } else {
        assoc_get_from(e, n, i + 1)
    }
}

/// First value filed under name `n` in an association sequence.
pub open spec fn assoc_get<X>(e: Seq<(Seq<char>, X)>, n: Seq<char>) -> Option<X> {
    assoc_get_from(e, n, 0)
}

/// A lookup that skipped only non-matching pairs looks the rest up
/// unchanged.
pub proof fn lemma_assoc_get_from_prefix<X>(e: Seq<(Seq<char>, X)>, n: Seq<char>, i: int)
    requires
        0 <= i <= e.len(),
        forall|j: int| 0 <= j < i ==> (#[trigger] e[j]).0 != n,
    ensures
        assoc_get(e, n) == assoc_get_from(e, n, i),
    decreases i,
{
    if i > 0 {
        lemma_assoc_get_from_prefix(e, n, i - 1);
    }
}

/// First index bound to name `n` in an environment, if any.
fn env_find(e: &Env, n: &Symbol) -> (r: Option<usize>)
    ensures
        match r {
            Some(i) => 0 <= i < e@.len() && e.deep_view()[i as int].0 == n@ && assoc_get(
                e.deep_view(),
                n@,
            ) == Some(e.deep_view()[i as int].1),
            None => assoc_get(e.deep_view(), n@) is None,
        },
{
    let mut i: usize = 0;
    while i < e.len()
        invariant
            i <= e.len(),
            forall|j: int| 0 <= j < i ==> (#[trigger] e.deep_view()[j]).0 != n@,
        decreases e.len() - i,
    {
        if e[i].0.same(n) {
            proof {
                lemma_assoc_get_from_prefix(e.deep_view(), n@, i as int);
            }
            return Some(i);
        }
        i += 1;
    }
    proof {
        lemma_assoc_get_from_prefix(e.deep_view(), n@, e.deep_view().len() as int);
    }
    None
}

/// The constant bound to name `n` in an environment, if any.
pub fn env_get(e: &Env, n: &Symbol) -> (r: Option<Constant>)
    ensures
        match r {
            Some(c) => assoc_get(e.deep_view(), n@) == Some(c@),
            None => assoc_get(e.deep_view(), n@) is None,
        },
{
    match env_find(e, n) {
        Some(i) => Some(e[i].1.clone()),
        None => None,
    }
}

/// Substitution of one atom under an environment: a variable bound in the
/// environment becomes its constant; everything else passes through.
pub open spec fn eval_atom(a: AtomV, env: EnvV) -> AtomV {
    match a {
        AtomV::Variable(n) => match assoc_get(env, n) {
            Some(c) => AtomV::Const(c),
            None => a,
        },
        _ => a,
    }
}

/// Substitution over a whole argument list.
pub open spec fn eval_atoms(args: Seq<AtomV>, env: EnvV) -> Seq<AtomV> {
    args.map_values(|a: AtomV| eval_atom(a, env))
}

/// Outcome of unifying one pattern atom against one stored constant: failure,
/// success without a binding, or success with one new binding.
pub open spec fn unify_const_v(a: AtomV, c: ConstV) -> Result<Option<(Seq<char>, ConstV)>, ()> {
    match a {
        AtomV::Wildcard => Ok(None),
        AtomV::Const(c1) => if c1 == c {
            Ok(None)
        } else {
            Err(())
        },
        AtomV::Variable(n) => Ok(Some((n, c))),
    }
}

/// Pairwise unification of a pattern against a stored tuple, from position
/// `i` on, extending the accumulated environment: a variable bound twice to
/// different constants is a conflict; a repeated equal binding collapses.
pub open spec fn unify_tuple_from(pat: Seq<AtomV>, tup: Seq<ConstV>, i: int, acc: EnvV) -> Result<
    EnvV,
    (),
>
    decreases pat.len() - i,
{
    if i < 0 || i >= pat.len() {
        Ok(acc)
    } else {
        match unify_const_v(pat[i], tup[i]) {
            Err(_) => Err(()),
            Ok(opt) => match opt {
                None => unify_tuple_from(pat, tup, i + 1, acc),
                Some(b) => match assoc_get(acc, b.0) {
                    Some(c2) => if c2 == b.1 {
                        unify_tuple_from(pat, tup, i + 1, acc)
                    } else {
                        Err(())
                    },
                    None => unify_tuple_from(pat, tup, i + 1, acc.push(b)),
                },
            },
        }
    }
}

/// Unification of a whole pattern against a whole stored tuple; a length
/// mismatch is a conflict.
pub open spec fn unify_tuple(pat: Seq<AtomV>, tup: Seq<ConstV>) -> Result<EnvV, ()> {
    if pat.len() != tup.len() {
        Err(())
    } else {
        unify_tuple_from(pat, tup, 0, Seq::empty())
    }
}

/// Outcome of reading one caller atom against one formal parameter when a
/// rule is invoked: a caller variable meeting a literal parameter binds to
/// it; a literal argument binds a variable parameter; two literals must be
/// equal; nothing else binds, and a wildcard never fails.
pub open spec fn unify_arg_v(a: AtomV, p: AtomV) -> Result<Option<(Seq<char>, ConstV)>, ()> {
    match a {
        AtomV::Wildcard => Ok(None),
        AtomV::Variable(v) => match p {
            AtomV::Const(c) => Ok(Some((v, c))),
            _ => Ok(None),
        },
        AtomV::Const(c1) => match p {
            AtomV::Const(c2) => if c1 == c2 {
                Ok(None)
            } else {
                Err(())
            },
            AtomV::Variable(v) => Ok(Some((v, c1))),
            AtomV::Wildcard => Ok(None),
        },
    }
}

/// Folds `unify_arg_v` over caller arguments and formal parameters from
/// position `i` on, with the same conflict rule as tuple unification.
pub open spec fn unify_args_from(cal: Seq<AtomV>, par: Seq<AtomV>, i: int, acc: EnvV) -> Result<
    EnvV,
    (),
>
    decreases cal.len() - i,
{
    if i < 0 || i >= cal.len() {
        Ok(acc)
    } else {
        match unify_arg_v(cal[i], par[i]) {
            Err(_) => Err(()),
            Ok(opt) => match opt {
                None => unify_args_from(cal, par, i + 1, acc),
                Some(b) => match assoc_get(acc, b.0) {
                    Some(c2) => if c2 == b.1 {
                        unify_args_from(cal, par, i + 1, acc)
                    } else {
                        Err(())
                    },
                    None => unify_args_from(cal, par, i + 1, acc.push(b)),
                },
            },
        }
    }
}

/// The parameter-binding environment seeded when a caller's evaluated
/// arguments are read against a rule's formal parameters.
pub open spec fn unify_args(cal: Seq<AtomV>, par: Seq<AtomV>) -> Result<EnvV, ()> {
    if cal.len() != par.len() {
        Err(())
    } else {
        unify_args_from(cal, par, 0, Seq::empty())
    }
}

/// Outcome of reading a query atom against a formal parameter when
/// collecting variable-to-parameter correspondences: a variable maps to the
/// parameter it meets, except that a wildcard parameter is refused.
pub open spec fn get_var_v(a: AtomV, p: AtomV) -> Result<Option<(Seq<char>, AtomV)>, ()> {
    match a {
        AtomV::Variable(v) => match p {
            AtomV::Wildcard => Err(()),
            _ => Ok(Some((v, p))),
        },
        _ => Ok(None),
    }
}

/// Folds `get_var_v` over two argument lists from position `i` on: a
/// variable mapped twice to different parameters is a conflict.
pub open spec fn get_vars_from(
    this: Seq<AtomV>,
    par: Seq<AtomV>,
    i: int,
    acc: Seq<(Seq<char>, AtomV)>,
) -> Result<Seq<(Seq<char>, AtomV)>, ()>
    decreases this.len() - i,
{
    if i < 0 || i >= this.len() {
        Ok(acc)
    } else {
        match get_var_v(this[i], par[i]) {
            Err(_) => Err(()),
            Ok(opt) => match opt {
                None => get_vars_from(this, par, i + 1, acc),
                Some(b) => match assoc_get(acc, b.0) {
                    Some(p2) => if p2 == b.1 {
                        get_vars_from(this, par, i + 1, acc)
                    } else {
                        Err(())
                    },
                    None => get_vars_from(this, par, i + 1, acc.push(b)),
                },
            },
        }
    }
}

/// The variable-to-parameter correspondence of two argument lists; a length
/// mismatch is a conflict.
pub open spec fn get_vars_v(this: Seq<AtomV>, par: Seq<AtomV>) -> Result<
    Seq<(Seq<char>, AtomV)>,
    (),
> {
    if this.len() != par.len() {
        Err(())
    } else {
        get_vars_from(this, par, 0, Seq::empty())
    }
}

/// Content equality of two atoms.
pub fn atom_same(a: &Atom, b: &Atom) -> (r: bool)
    ensures
        r == (a@ == b@),
{
    match (a, b) {
        (Atom::Wildcard, Atom::Wildcard) => true,
        (Atom::Const(c1), Atom::Const(c2)) => c1.same(c2),
        (Atom::Variable(v1), Atom::Variable(v2)) => v1.same(v2),
        _ => false,
    }
}

/// First index bound to name `n` in a variable-to-parameter list, if any.
fn binds_find(e: &Vec<(Symbol, Atom)>, n: &Symbol) -> (r: Option<usize>)
    ensures
        match r {
            Some(i) => 0 <= i < e@.len() && e.deep_view()[i as int].0 == n@ && assoc_get(
                e.deep_view(),
                n@,
            ) == Some(e.deep_view()[i as int].1),
            None => assoc_get(e.deep_view(), n@) is None,
        },
{
    let mut i: usize = 0;
    while i < e.len()
        invariant
            i <= e.len(),
            forall|j: int| 0 <= j < i ==> (#[trigger] e.deep_view()[j]).0 != n@,
        decreases e.len() - i,
    {
        if e[i].0.same(n) {
            proof {
                lemma_assoc_get_from_prefix(e.deep_view(), n@, i as int);
            }
            return Some(i);
        }
        i += 1;
    }
    proof {
        lemma_assoc_get_from_prefix(e.deep_view(), n@, e.deep_view().len() as int);
    }
    None
}

impl Atom {
    /// Substitutes a bound variable with its constant from the environment;
    /// wildcards and constants pass through unchanged.
    pub fn eval(&self, env: &Env) -> (r: Atom)
        ensures
            r@ == eval_atom(self@, env.deep_view()),
    {
        match self {
            Atom::Variable(name) => {
                match env_get(env, name) {
                    Some(c) => Atom::Const(c),
                    None => self.clone(),
                }
            },
            _ => self.clone(),
        }
    }

    /// Unifies one pattern atom against one stored constant: a wildcard
    /// matches and binds nothing, a literal matches exactly its own value,
    /// a variable matches anything and binds to it.
    pub fn unify_const(&self, value: &Constant) -> (r: Result<Option<(Symbol, Constant)>, ()>)
        ensures
            match r {
                Ok(Some(b)) => unify_const_v(self@, value@) == Ok::<_, ()>(
                    Some((b.0@, b.1@)),
                ),
                Ok(None) => unify_const_v(self@, value@) == Ok::<Option<(Seq<char>, ConstV)>, ()>(
                    None,
                ),
                Err(_) => unify_const_v(self@, value@) is Err,
            },
    {
        match self {
            Atom::Variable(name) => Ok(Some((name.clone(), value.clone()))),
            Atom::Const(c1) => {
                if c1.same(value) {
                    Ok(None)
                } else {
                    Err(())
                }
            },
            Atom::Wildcard => Ok(None),
        }
    }

    /// Pairwise unification of a pattern against a stored tuple: conflicting
    /// rebinding of a variable fails the whole tuple, and a length mismatch
    /// is a conflict.
    pub fn unify_fact(this: &Vec<Atom>, table: &Vec<Constant>) -> (r: Result<Env, ()>)
        ensures
            match r {
                Ok(env) => unify_tuple(this.deep_view(), table.deep_view()) == Ok::<EnvV, ()>(
                    env.deep_view(),
                ),
                Err(_) => unify_tuple(this.deep_view(), table.deep_view()) is Err,
            },
    {
        if this.len() != table.len() {
            return Err(());
        }
        let ghost pat = this.deep_view();
        let ghost tup = table.deep_view();
        let mut env: Env = Vec::new();
        let mut i: usize = 0;
        proof {
            assert(env.deep_view() =~= Seq::<(Seq<char>, ConstV)>::empty());
        }
        while i < this.len()
            invariant
                i <= this.len(),
                this@.len() == table@.len(),
                pat == this.deep_view(),
                tup == table.deep_view(),
                unify_tuple_from(pat, tup, i as int, env.deep_view()) == unify_tuple_from(
                    pat,
                    tup,
                    0,
                    Seq::<(Seq<char>, ConstV)>::empty(),
                ),
            decreases this.len() - i,
        {
            let step = this[i].unify_const(&table[i]);
            proof {
                assert(this.deep_view()[i as int] == this@[i as int]@);
                assert(table.deep_view()[i as int] == table@[i as int]@);
            }
            match step {
                Err(_) => {
                    return Err(());
                },
                Ok(None) => {},
                Ok(Some(b)) => {
                    let (name, value) = b;
                    match env_find(&env, &name) {
                        Some(k) => {
                            if !env[k].1.same(&value) {
                                return Err(());
                            }
                        },
                        None => {
                            let ghost prev = env.deep_view();
                            env.push((name, value));
                            proof {
                                assert(env.deep_view() =~= prev.push(
                                    (env@[env@.len() - 1].0@, env@[env@.len() - 1].1@),
                                ));
                            }
                        },
                    }
                },
            }
            i += 1;
        }
        Ok(env)
    }

    /// Collects the variable-to-parameter correspondence of a query's
    /// arguments against a rule's formal parameters; a wildcard parameter
    /// under a query variable is refused.
    pub fn get_var(&self, params: &Atom) -> (r: Result<Option<(Symbol, Atom)>, ()>)
        ensures
            match r {
                Ok(Some(b)) => get_var_v(self@, params@) == Ok::<_, ()>(Some((b.0@, b.1@))),
                Ok(None) => get_var_v(self@, params@) == Ok::<Option<(Seq<char>, AtomV)>, ()>(
                    None,
                ),
                Err(_) => get_var_v(self@, params@) is Err,
            },
    {
        match self {
            Atom::Variable(v) => {
                match params {
                    Atom::Wildcard => Err(()),
                    _ => Ok(Some((v.clone(), params.clone()))),
                }
            },
            _ => Ok(None),
        }
    }

    /// Folds `get_var` over two argument lists, refusing a variable mapped
    /// to two different parameters; a length mismatch is a conflict.
    pub fn get_vars(this: &Vec<Atom>, params: &Vec<Atom>) -> (r: Result<Vec<(Symbol, Atom)>, ()>)
        ensures
            match r {
                Ok(binds) => get_vars_v(this.deep_view(), params.deep_view()) == Ok::<_, ()>(
                    binds.deep_view(),
                ),
                Err(_) => get_vars_v(this.deep_view(), params.deep_view()) is Err,
            },
    {
        if this.len() != params.len() {
            return Err(());
        }
        let ghost ths = this.deep_view();
        let ghost par = params.deep_view();
        let mut binds: Vec<(Symbol, Atom)> = Vec::new();
        let mut i: usize = 0;
        proof {
            assert(binds.deep_view() =~= Seq::<(Seq<char>, AtomV)>::empty());
        }
        while i < this.len()
            invariant
                i <= this.len(),
                this@.len() == params@.len(),
                ths == this.deep_view(),
                par == params.deep_view(),
                get_vars_from(ths, par, i as int, binds.deep_view()) == get_vars_from(
                    ths,
                    par,
                    0,
                    Seq::<(Seq<char>, AtomV)>::empty(),
                ),
            decreases this.len() - i,
        {
            let step = this[i].get_var(&params[i]);
            proof {
                assert(this.deep_view()[i as int] == this@[i as int]@);
                assert(params.deep_view()[i as int] == params@[i as int]@);
            }
            match step {
                Err(_) => {
                    return Err(());
                },
                Ok(None) => {},
                Ok(Some(b)) => {
                    let (name, value) = b;
                    match binds_find(&binds, &name) {
                        Some(k) => {
                            if !atom_same(&binds[k].1, &value) {
                                return Err(());
                            }
                        },
                        None => {
                            let ghost prev = binds.deep_view();
                            binds.push((name, value));
                            proof {
                                assert(binds.deep_view() =~= prev.push(
                                    (binds@[binds@.len() - 1].0@, binds@[binds@.len() - 1].1@),
                                ));
                            }
                        },
                    }
                },
            }
            i += 1;
        }
        Ok(binds)
    }

    /// Reads one caller atom against one formal parameter when a rule is
    /// invoked: literal against literal must agree; a variable meeting a
    /// literal on either side binds it; nothing else binds.
    pub fn unify_argument(&self, argument: &Atom) -> (r: Result<Option<(Symbol, Constant)>, ()>)
        ensures
            match r {
                Ok(Some(b)) => unify_arg_v(self@, argument@) == Ok::<_, ()>(Some((b.0@, b.1@))),
                Ok(None) => unify_arg_v(self@, argument@) == Ok::<
                    Option<(Seq<char>, ConstV)>,
                    (),
                >(None),
                Err(_) => unify_arg_v(self@, argument@) is Err,
            },
    {
        match self {
            Atom::Wildcard => Ok(None),
            Atom::Variable(v) => {
                match argument {
                    Atom::Const(c) => Ok(Some((v.clone(), c.clone()))),
                    _ => Ok(None),
                }
            },
            Atom::Const(c1) => {
                match argument {
                    Atom::Const(c2) => {
                        if c1.same(c2) {
                            Ok(None)
                        } else {
                            Err(())
                        }
                    },
                    Atom::Variable(v) => Ok(Some((v.clone(), c1.clone()))),
                    Atom::Wildcard => Ok(None),
                }
            },
        }
    }

    /// Seeds a rule's parameter-binding environment from the caller's
    /// evaluated arguments, with the same conflict rule as tuple
    /// unification; a length mismatch is a conflict.
    pub fn unify_arguments(this: &Vec<Atom>, arguments: &Vec<Atom>) -> (r: Result<Env, ()>)
        ensures
            match r {
                Ok(env) => unify_args(this.deep_view(), arguments.deep_view()) == Ok::<EnvV, ()>(
                    env.deep_view(),
                ),
                Err(_) => unify_args(this.deep_view(), arguments.deep_view()) is Err,
            },
    {
        if this.len() != arguments.len() {
            return Err(());
        }
        let ghost cal = this.deep_view();
        let ghost par = arguments.deep_view();
        let mut env: Env = Vec::new();
        let mut i: usize = 0;
        proof {
            assert(env.deep_view() =~= Seq::<(Seq<char>, ConstV)>::empty());
        }
        while i < this.len()
            invariant
                i <= this.len(),
                this@.len() == arguments@.len(),
                cal == this.deep_view(),
                par == arguments.deep_view(),
                unify_args_from(cal, par, i as int, env.deep_view()) == unify_args_from(
                    cal,
                    par,
                    0,
                    Seq::<(Seq<char>, ConstV)>::empty(),
                ),
            decreases this.len() - i,
        {
            let step = this[i].unify_argument(&arguments[i]);
            proof {
                assert(this.deep_view()[i as int] == this@[i as int]@);
                assert(arguments.deep_view()[i as int] == arguments@[i as int]@);
            }
            match step {
                Err(_) => {
                    return Err(());
                },
                Ok(None) => {},
                Ok(Some(b)) => {
                    let (name, value) = b;
                    match env_find(&env, &name) {
                        Some(k) => {
                            if !env[k].1.same(&value) {
                                return Err(());
                            }
                        },
                        None => {
                            let ghost prev = env.deep_view();
                            env.push((name, value));
                            proof {
                                assert(env.deep_view() =~= prev.push(
                                    (env@[env@.len() - 1].0@, env@[env@.len() - 1].1@),
                                ));
                            }
                        },
                    }
                },
            }
            i += 1;
        }
        Ok(env)
    }
}

/// The store key a sub-goal queries: its predicate name and argument count.
pub open spec fn match_key(m: MatchV) -> KeyV {
    KeyV { name: m.name, arity: m.expr.len() as int }
}

/// Adds a value to a result sequence unless an identical one is already
/// present: result sets hold no duplicates.
pub open spec fn push_unique<X>(acc: Seq<X>, e: X) -> Seq<X> {
    if acc.contains(e) {
        acc
    } else {
        acc.push(e)
    }
}

/// Folds `push_unique` over a whole sequence from position `t` on.
pub open spec fn append_unique<X>(acc: Seq<X>, xs: Seq<X>, t: int) -> Seq<X>
    decreases xs.len() - t,
{
    if t < 0 || t >= xs.len() {
        acc
    } else {
        append_unique(push_unique(acc, xs[t]), xs, t + 1)
    }
}

/// One candidate tuple's contribution to a fact query: on unification
/// success, the new bindings followed by the caller's environment, added
/// without duplication; on conflict, nothing.
pub open spec fn fact_step(acc: Seq<EnvV>, pat: Seq<AtomV>, tup: Seq<ConstV>, base: EnvV) -> Seq<
    EnvV,
> {
    match unify_tuple(pat, tup) {
        Ok(e) => push_unique(acc, e + base),
        Err(_) => acc,
    }
}

/// Folds `fact_step` over the stored tuples of one bucket from position `k`
/// on.
pub open spec fn fold_tuples(
    tuples: Seq<Seq<ConstV>>,
    k: int,
    pat: Seq<AtomV>,
    base: EnvV,
    acc: Seq<EnvV>,
) -> Seq<EnvV>
    decreases tuples.len() - k,
{
    if k < 0 || k >= tuples.len() {
        acc
    } else {
        fold_tuples(tuples, k + 1, pat, base, fact_step(acc, pat, tuples[k], base))
    }
}

/// Folds the tuples of every signature bucket at one key, in storage order,
/// from bucket `j` on.
pub open spec fn fold_buckets(
    bs: Seq<BucketV<Seq<ConstV>>>,
    j: int,
    pat: Seq<AtomV>,
    base: EnvV,
    acc: Seq<EnvV>,
) -> Seq<EnvV>
    decreases bs.len() - j,
{
    if j < 0 || j >= bs.len() {
        acc
    } else {
        fold_buckets(bs, j + 1, pat, base, fold_tuples(bs[j].1, 0, pat, base, acc))
    }
}

/// The result set of a fact query: every stored tuple at the goal's key is
/// unified against the goal's arguments evaluated under the caller's
/// environment; each success contributes the merged environment, without
/// duplicates. An unknown predicate yields the empty set.
pub open spec fn query_facts_v(db: DbV, m: MatchV, env: EnvV) -> Seq<EnvV> {
    match table_get(db.facts, match_key(m)) {
        None => Seq::empty(),
        Some(bs) => fold_buckets(bs, 0, eval_atoms(m.expr, env), env, Seq::empty()),
    }
}

/// Negation-as-failure over stored facts only: satisfied exactly when the
/// inner goal matches no stored fact. Rules for the same predicate are never
/// consulted here.
pub open spec fn not_query_v(db: DbV, m: MatchV, env: EnvV) -> bool {
    query_facts_v(db, m, env).len() == 0
}

/// Substitutes a whole argument list under an environment.
pub fn eval_all(args: &Vec<Atom>, env: &Env) -> (r: Vec<Atom>)
    ensures
        r.deep_view() == eval_atoms(args.deep_view(), env.deep_view()),
{
    let mut r: Vec<Atom> = Vec::new();
    let mut i: usize = 0;
    while i < args.len()
        invariant
            i <= args.len(),
            r@.len() == i,
            forall|j: int| 0 <= j < i ==> r.deep_view()[j] == eval_atom(
                #[trigger] args.deep_view()[j],
                env.deep_view(),
            ),
        decreases args.len() - i,
    {
        let a = args[i].eval(env);
        r.push(a);
        i += 1;
    }
    proof {
        assert(r.deep_view() =~= eval_atoms(args.deep_view(), env.deep_view()));
    }
    r
}

/// Content equality of two environments: the same bindings in the same
/// order.
pub fn env_same(a: &Env, b: &Env) -> (r: bool)
    ensures
        r == (a.deep_view() == b.deep_view()),
{
    if a.len() != b.len() {
        proof {
            assert(a.deep_view().len() != b.deep_view().len());
        }
        return false;
    }
    let mut i: usize = 0;
    while i < a.len()
        invariant
            i <= a.len(),
            a@.len() == b@.len(),
            forall|j: int| 0 <= j < i ==> #[trigger] a.deep_view()[j] == b.deep_view()[j],
        decreases a.len() - i,
    {
        if !a[i].0.same(&b[i].0) || !a[i].1.same(&b[i].1) {
            proof {
                assert(a.deep_view()[i as int] != b.deep_view()[i as int]);
            }
            return false;
        }
        i += 1;
    }
    proof {
        assert(a.deep_view() =~= b.deep_view());
    }
    true
}

/// Whether a result set already holds an identical environment.
pub fn envs_contain(acc: &Vec<Env>, e: &Env) -> (r: bool)
    ensures
        r == acc.deep_view().contains(e.deep_view()),
{
    let mut i: usize = 0;
    while i < acc.len()
        invariant
            i <= acc.len(),
            forall|j: int| 0 <= j < i ==> #[trigger] acc.deep_view()[j] != e.deep_view(),
        decreases acc.len() - i,
    {
        if env_same(&acc[i], e) {
            proof {
                assert(acc.deep_view()[i as int] == e.deep_view());
            }
            return true;
        }
        i += 1;
    }
    false
}

/// Copies an environment, binding for binding.
pub fn env_clone(e: &Env) -> (r: Env)
    ensures
        r.deep_view() == e.deep_view(),
{
    let mut r: Env = Vec::new();
    let mut i: usize = 0;
    while i < e.len()
        invariant
            i <= e.len(),
            r.deep_view() =~= e.deep_view().take(i as int),
        decreases e.len() - i,
    {
        let ghost prev = r.deep_view();
        r.push((e[i].0.clone(), e[i].1.clone()));
        proof {
            assert(r.deep_view() =~= prev.push(e.deep_view()[i as int]));
            assert(e.deep_view().take(i as int + 1) =~= prev.push(e.deep_view()[i as int]));
        }
        i += 1;
    }
    proof {
        assert(e.deep_view().take(e@.len() as int) =~= e.deep_view());
    }
    proof {
        assert(r.deep_view() =~= e.deep_view());
    }
    r
}

/// Appends a copy of every binding of `base` after the bindings of `e`.
fn env_append_clone(e: &mut Env, base: &Env)
    ensures
        final(e).deep_view() == old(e).deep_view() + base.deep_view(),
{
    let mut i: usize = 0;
    while i < base.len()
        invariant
            i <= base.len(),
            e.deep_view() =~= old(e).deep_view() + base.deep_view().take(i as int),
        decreases base.len() - i,
    {
        let ghost prev = e.deep_view();
        e.push((base[i].0.clone(), base[i].1.clone()));
        proof {
            assert(e.deep_view() =~= prev.push(base.deep_view()[i as int]));
            assert(old(e).deep_view() + base.deep_view().take(i as int + 1) =~= prev.push(
                base.deep_view()[i as int],
            ));
        }
        i += 1;
    }
    proof {
        assert(base.deep_view().take(base@.len() as int) =~= base.deep_view());
        assert(e.deep_view() =~= old(e).deep_view() + base.deep_view());
    }
}

/// Attempts every stored tuple of one bucket against an evaluated pattern,
/// in parallel. The entry at each position is the unification outcome for
/// the tuple at that position.
///
/// Relies on rayon: `par_iter().map(..).collect()` into a `Vec` keeps every
/// item at the position of the item it was mapped from.
#[verifier::external_body]
fn par_unify_bucket(pat: &Vec<Atom>, items: &Vec<Fact>) -> (r: Vec<Option<Env>>)
    ensures
        r.deep_view().len() == items.deep_view().len(),
        forall|k: int| 0 <= k < items.deep_view().len() ==> r.deep_view()[k] == (
        match unify_tuple(pat.deep_view(), items.deep_view()[k]) {
            Ok(e) => Some(e),
            Err(_) => None,
        }),
{
    items.par_iter().map(|f: &Fact| Atom::unify_fact(pat, &f.0).ok()).collect()
}

/// Merges one bucket's unification outcomes into the accumulated result
/// set: each success contributes its bindings followed by the caller's
/// environment, skipping environments already present.
fn scan_bucket(items: &Vec<Fact>, pat: &Vec<Atom>, base: &Env, acc: &mut Vec<Env>)
    ensures
        final(acc).deep_view() == fold_tuples(
            items.deep_view(),
            0,
            pat.deep_view(),
            base.deep_view(),
            old(acc).deep_view(),
        ),
{
    let outcomes = par_unify_bucket(pat, items);
    let mut k: usize = 0;
    while k < outcomes.len()
        invariant
            k <= outcomes.len(),
            outcomes@.len() == items@.len(),
            outcomes.deep_view().len() == items.deep_view().len(),
            forall|j: int| 0 <= j < items.deep_view().len() ==> outcomes.deep_view()[j] == (
            match unify_tuple(pat.deep_view(), items.deep_view()[j]) {
                Ok(e) => Some(e),
                Err(_) => None,
            }),
            fold_tuples(
                items.deep_view(),
                k as int,
                pat.deep_view(),
                base.deep_view(),
                acc.deep_view(),
            ) == fold_tuples(
                items.deep_view(),
                0,
                pat.deep_view(),
                base.deep_view(),
                old(acc).deep_view(),
            ),
        decreases outcomes.len() - k,
    {
        let ghost acc0 = acc.deep_view();
        let ghost tupv = items.deep_view()[k as int];
        match &outcomes[k] {
            Some(e) => {
                let ghost ev = e.deep_view();
                proof {
                    assert(outcomes.deep_view()[k as int] == outcomes@[k as int].deep_view());
                    assert(outcomes@[k as int].deep_view() == Some(ev));
                    assert(unify_tuple(pat.deep_view(), tupv) == Ok::<EnvV, ()>(ev));
                }
                let mut merged = env_clone(e);
                env_append_clone(&mut merged, base);
                if !envs_contain(acc, &merged) {
                    acc.push(merged);
                    proof {
                        assert(acc.deep_view() =~= acc0.push(ev + base.deep_view()));
                    }
                }
                proof {
                    assert(acc.deep_view() == fact_step(acc0, pat.deep_view(), tupv,
                        base.deep_view()));
                }
            },
            None => {
                proof {
                    assert(outcomes.deep_view()[k as int] == outcomes@[k as int].deep_view());
                    assert(unify_tuple(pat.deep_view(), tupv) is Err);
                    assert(acc.deep_view() == fact_step(acc0, pat.deep_view(), tupv,
                        base.deep_view()));
                }
            },
        }
        k += 1;
    }
}

impl Database {
    /// The fact half of resolution: unifies the goal's evaluated arguments
    /// against every tuple stored at `(name, arity)`, across all signature
    /// buckets, merging each success with the caller's environment and
    /// deduplicating. An unknown predicate yields the empty set, not an
    /// error.
    pub fn query_facts(&self, query: &Match, env: &Env) -> (r: Vec<Env>)
        ensures
            r.deep_view() == query_facts_v(self@, query@, env.deep_view()),
    {
        let key = Key(query.name.clone(), query.expr.len());
        match self.facts.get_lines(&key) {
            None => {
                let r: Vec<Env> = Vec::new();
                proof {
                    assert(r.deep_view() =~= Seq::<EnvV>::empty());
                }
                r
            },
            Some(lines) => {
                let pat = eval_all(&query.expr, env);
                let mut acc: Vec<Env> = Vec::new();
                proof {
                    assert(acc.deep_view() =~= Seq::<EnvV>::empty());
                }
                let ghost bsv = lines.deep_view();
                let ghost patv = pat.deep_view();
                let ghost basev = env.deep_view();
                let mut j: usize = 0;
                while j < lines.len()
                    invariant
                        j <= lines.len(),
                        bsv == lines.deep_view(),
                        bsv.len() == lines@.len(),
                        patv == pat.deep_view(),
                        basev == env.deep_view(),
                        fold_buckets(bsv, j as int, patv, basev, acc.deep_view()) == fold_buckets(
                            bsv,
                            0,
                            patv,
                            basev,
                            Seq::<EnvV>::empty(),
                        ),
                    decreases lines.len() - j,
                {
                    proof {
                        assert(lines.deep_view()[j as int] == lines@[j as int].deep_view());
                    }
                    scan_bucket(&lines[j].items, &pat, env, &mut acc);
                    j += 1;
                }
                acc
            },
        }
    }

    /// Negation-as-failure: true exactly when the inner goal matches no
    /// stored fact. By design this consults facts only, never rules: a
    /// negated rule-derived predicate is checked against its base facts.
    pub fn not_query(&self, query: &NotMatch, env: &Env) -> (r: bool)
        ensures
            r == not_query_v(self@, query@, env.deep_view()),
    {
        self.query_facts(&query.0, env).is_empty()
    }
}


/// The two sides of a comparison filter.
pub open spec fn filter_sides(f: FilterV) -> (AtomV, AtomV) {
    match f {
        FilterV::Eq(a, b) => (a, b),
        FilterV::NotEq(a, b) => (a, b),
        FilterV::Lt(a, b) => (a, b),
        FilterV::Gt(a, b) => (a, b),
        FilterV::LtEq(a, b) => (a, b),
        FilterV::GtEq(a, b) => (a, b),
    }
}

/// The comparison a filter applies to two resolved constants of one tag.
pub open spec fn filter_op_holds(f: FilterV, x: ConstV, y: ConstV) -> bool {
    match f {
        FilterV::Eq(_, _) => x == y,
        FilterV::NotEq(_, _) => x != y,
        FilterV::Lt(_, _) => const_lt(x, y),
        FilterV::Gt(_, _) => const_lt(y, x),
        FilterV::LtEq(_, _) => const_lt(x, y) || x == y,
        FilterV::GtEq(_, _) => const_lt(y, x) || x == y,
    }
}

/// Whether a filter holds under an environment. Both sides are evaluated
/// first; the filter fails closed — an unbound side or a tag mismatch makes
/// it false, never an error. `Nil` compares only as equal to itself, so its
/// strict comparisons are always false.
pub open spec fn filter_holds(f: FilterV, env: EnvV) -> bool {
    match eval_atom(filter_sides(f).0, env) {
        AtomV::Const(x) => match eval_atom(filter_sides(f).1, env) {
            AtomV::Const(y) => x.tag() == y.tag() && filter_op_holds(f, x, y),
            _ => false,
        },
        _ => false,
    }
}

/// Whether every filter of a rule holds under an environment.
pub open spec fn filters_pass(fs: Seq<FilterV>, env: EnvV) -> bool {
    forall|i: int| 0 <= i < fs.len() ==> filter_holds(#[trigger] fs[i], env)
}

/// Whether every negated sub-goal of a rule is satisfied (matches no stored
/// fact) under an environment.
pub open spec fn not_matches_pass(db: DbV, nms: Seq<MatchV>, env: EnvV) -> bool {
    forall|i: int| 0 <= i < nms.len() ==> not_query_v(db, #[trigger] nms[i], env)
}

/// Whether an environment produced by a rule's body survives the rule's
/// negated sub-goals and filters.
pub open spec fn keep_env(db: DbV, rule: RuleV, e: EnvV) -> bool {
    not_matches_pass(db, rule.not_matchs, e) && filters_pass(rule.filter, e)
}

/// Keeps, from position `j` on, the environments that survive a rule's
/// negated sub-goals and filters, without duplication.
pub open spec fn filter_envs(db: DbV, rule: RuleV, envs: Seq<EnvV>, j: int, acc: Seq<EnvV>) -> Seq<
    EnvV,
>
    decreases envs.len() - j,
{
    if j < 0 || j >= envs.len() {
        acc
    } else {
        filter_envs(
            db,
            rule,
            envs,
            j + 1,
            if keep_env(db, rule, envs[j]) {
                push_unique(acc, envs[j])
            } else {
                acc
            },
        )
    }
}

/// The answers of one goal under every environment of a working set from
/// position `j` on, unioned without duplicates: the conjunctive join step.
pub open spec fn clause_union_v(
    db: DbV,
    m: MatchV,
    envs: Seq<EnvV>,
    j: int,
    acc: Seq<EnvV>,
    fuel: nat,
) -> Result<Seq<EnvV>, ()>
    decreases fuel, 8int, envs.len() - j,
{
    if j < 0 || j >= envs.len() {
        Ok(acc)
    } else {
        match query_v(db, m, envs[j], fuel) {
            Err(_) => Err(()),
            Ok(rs) => clause_union_v(db, m, envs, j + 1, append_unique(acc, rs, 0), fuel),
        }
    }
}

/// Folds a rule body's sub-goals left to right from position `i` on: each
/// clause replaces the working set with the union of its answers under every
/// environment of the set. A clause with no answers eliminates its branch.
pub open spec fn body_fold_v(
    db: DbV,
    clauses: Seq<MatchV>,
    i: int,
    working: Seq<EnvV>,
    fuel: nat,
) -> Result<Seq<EnvV>, ()>
    decreases fuel, 9int, clauses.len() - i,
{
    if i < 0 || i >= clauses.len() {
        Ok(working)
    } else {
        match clause_union_v(db, clauses[i], working, 0, Seq::empty(), fuel) {
            Err(_) => Err(()),
            Ok(next) => body_fold_v(db, clauses, i + 1, next, fuel),
        }
    }
}

/// One candidate rule's contribution to a query: seed a parameter-binding
/// environment from the caller's evaluated arguments (a conflict discards
/// the rule, yielding nothing), resolve the body as a conjunction, then keep
/// the environments surviving negation and filters. Descending into the body
/// spends one unit of fuel; exhausted fuel is the resolution-depth error.
pub open spec fn rule_answers_v(db: DbV, rule: RuleV, m: MatchV, env: EnvV, fuel: nat) -> Result<
    Seq<EnvV>,
    (),
>
    decreases fuel, 4int, 0int,
{
    match unify_args(eval_atoms(m.expr, env), rule.args) {
        Err(_) => Ok(Seq::empty()),
        Ok(seed) => if fuel == 0 {
            Err(())
        } else {
            match body_fold_v(db, rule.matchs, 0, seq![seed], (fuel - 1) as nat) {
                Err(_) => Err(()),
                Ok(envs) => Ok(filter_envs(db, rule, envs, 0, Seq::empty())),
            }
        },
    }
}

/// Unions the contributions of every candidate rule from position `k` on.
pub open spec fn rules_fold_v(
    db: DbV,
    rules: Seq<RuleV>,
    k: int,
    m: MatchV,
    env: EnvV,
    acc: Seq<EnvV>,
    fuel: nat,
) -> Result<Seq<EnvV>, ()>
    decreases fuel, 5int, rules.len() - k,
{
    if k < 0 || k >= rules.len() {
        Ok(acc)
    } else {
        match rule_answers_v(db, rules[k], m, env, fuel) {
            Err(_) => Err(()),
            Ok(rs) => rules_fold_v(db, rules, k + 1, m, env, append_unique(acc, rs, 0), fuel),
        }
    }
}

/// The rule half of resolution: every rule stored at the goal's key is a
/// candidate; their surviving environments are unioned. An unknown predicate
/// yields the empty set.
pub open spec fn query_rules_v(db: DbV, m: MatchV, env: EnvV, fuel: nat) -> Result<Seq<EnvV>, ()>
    decreases fuel, 6int, 0int,
{
    match table_get(db.rules, match_key(m)) {
        None => Ok(Seq::empty()),
        Some(bs) => rules_fold_v(db, all_items(bs), 0, m, env, Seq::empty(), fuel),
    }
}

/// Resolution of one goal: fact-first fallback. The fact answers are
/// returned whenever there is at least one; only a goal with no fact answer
/// at all consults the rules. Facts shadow rules entirely — a predicate is
/// never the union of the two.
pub open spec fn query_v(db: DbV, m: MatchV, env: EnvV, fuel: nat) -> Result<Seq<EnvV>, ()>
    decreases fuel, 7int, 0int,
{
    let f = query_facts_v(db, m, env);
    if f.len() > 0 {
        Ok(f)
    } else {
        query_rules_v(db, m, env, fuel)
    }
}

/// Projects one environment onto the requested output names from position
/// `i` on: a requested name with no binding is the unbound-output error,
/// carrying that name.
pub open spec fn project_env_from(e: EnvV, defs: Seq<Seq<char>>, i: int, acc: EnvV) -> Result<
    EnvV,
    Seq<char>,
>
    decreases defs.len() - i,
{
    if i < 0 || i >= defs.len() {
        Ok(acc)
    } else {
        match assoc_get(e, defs[i]) {
            None => Err(defs[i]),
            Some(c) => project_env_from(e, defs, i + 1, acc.push((defs[i], c))),
        }
    }
}

/// Projects one environment onto the requested output names.
pub open spec fn project_env_v(e: EnvV, defs: Seq<Seq<char>>) -> Result<EnvV, Seq<char>> {
    project_env_from(e, defs, 0, Seq::empty())
}

/// Projects every surviving environment from position `j` on, deduplicating
/// the projected results.
pub open spec fn project_all(
    envs: Seq<EnvV>,
    defs: Seq<Seq<char>>,
    j: int,
    acc: Seq<Result<EnvV, Seq<char>>>,
) -> Seq<Result<EnvV, Seq<char>>>
    decreases envs.len() - j,
{
    if j < 0 || j >= envs.len() {
        acc
    } else {
        project_all(envs, defs, j + 1, push_unique(acc, project_env_v(envs[j], defs)))
    }
}

/// The result of a top-level query: the body resolved as a conjunction from
/// the empty environment, each surviving environment projected onto the
/// requested names, projections deduplicated.
pub open spec fn run_query_v(db: DbV, defs: Seq<Seq<char>>, body: Seq<MatchV>, fuel: nat) -> Result<
    Seq<Result<EnvV, Seq<char>>>,
    (),
> {
    match body_fold_v(db, body, 0, seq![Seq::<(Seq<char>, ConstV)>::empty()], fuel) {
        Err(_) => Err(()),
        Ok(envs) => Ok(project_all(envs, defs, 0, Seq::empty())),
    }
}

/// Mathematical value of one projected result.
pub open spec fn proj_v(r: Result<Env, Symbol>) -> Result<EnvV, Seq<char>> {
    match r {
        Ok(e) => Ok(e.deep_view()),
        Err(s) => Err(s@),
    }
}

/// Mathematical value of a list of projected results.
pub open spec fn projs_view(v: Seq<Result<Env, Symbol>>) -> Seq<Result<EnvV, Seq<char>>> {
    v.map_values(|r: Result<Env, Symbol>| proj_v(r))
}

/// The error a query can report: the fuel budget bounding rule-resolution
/// depth ran out before the goal resolved.
#[derive(Debug, Clone, Copy, PartialEq, Eq, Structural)]
pub enum ResolveError {
    DepthExceeded,
}

/// Whether one filter holds under an environment, fail-closed.
fn filter_check(f: &Filter, env: &Env) -> (r: bool)
    ensures
        r == filter_holds(f@, env.deep_view()),
{
    let (lhs, rhs) = match f {
        Filter::Eq(a, b) => (a, b),
        Filter::NotEq(a, b) => (a, b),
        Filter::Lt(a, b) => (a, b),
        Filter::Gt(a, b) => (a, b),
        Filter::LtEq(a, b) => (a, b),
        Filter::GtEq(a, b) => (a, b),
    };
    let le = lhs.eval(env);
    let re = rhs.eval(env);
    proof {
        assert(filter_sides(f@).0 == lhs@);
        assert(filter_sides(f@).1 == rhs@);
    }
    let x = match le {
        Atom::Const(x) => x,
        _ => {
            return false;
        },
    };
    let y = match re {
        Atom::Const(y) => y,
        _ => {
            return false;
        },
    };
    if x.tag() != y.tag() {
        return false;
    }
    match f {
        Filter::Eq(_, _) => x.same(&y),
        Filter::NotEq(_, _) => !x.same(&y),
        Filter::Lt(_, _) => x.lt(&y),
        Filter::Gt(_, _) => y.lt(&x),
        Filter::LtEq(_, _) => x.lt(&y) || x.same(&y),
        Filter::GtEq(_, _) => y.lt(&x) || x.same(&y),
    }
}

/// Whether every filter holds under an environment.
fn filters_check(fs: &Vec<Filter>, env: &Env) -> (r: bool)
    ensures
        r == filters_pass(fs.deep_view(), env.deep_view()),
{
    let mut i: usize = 0;
    while i < fs.len()
        invariant
            i <= fs.len(),
            forall|j: int| 0 <= j < i ==> filter_holds(#[trigger] fs.deep_view()[j],
                env.deep_view()),
        decreases fs.len() - i,
    {
        if !filter_check(&fs[i], env) {
            proof {
                assert(!filter_holds(fs.deep_view()[i as int], env.deep_view()));
            }
            return false;
        }
        i += 1;
    }
    true
}

/// Whether every negated sub-goal is satisfied under an environment.
fn not_matches_check(db: &Database, nms: &Vec<NotMatch>, env: &Env) -> (r: bool)
    ensures
        r == not_matches_pass(db@, nms.deep_view(), env.deep_view()),
{
    let mut i: usize = 0;
    while i < nms.len()
        invariant
            i <= nms.len(),
            forall|j: int| 0 <= j < i ==> not_query_v(db@, #[trigger] nms.deep_view()[j],
                env.deep_view()),
        decreases nms.len() - i,
    {
        if !db.not_query(&nms[i], env) {
            proof {
                assert(!not_query_v(db@, nms.deep_view()[i as int], env.deep_view()));
            }
            return false;
        }
        i += 1;
    }
    true
}

/// Merges a batch of environments into a result set, skipping those already
/// present.
fn merge_unique(acc: &mut Vec<Env>, xs: &Vec<Env>)
    ensures
        final(acc).deep_view() == append_unique(old(acc).deep_view(), xs.deep_view(), 0),
{
    let mut t: usize = 0;
    while t < xs.len()
        invariant
            t <= xs.len(),
            append_unique(acc.deep_view(), xs.deep_view(), t as int) == append_unique(
                old(acc).deep_view(),
                xs.deep_view(),
                0,
            ),
        decreases xs.len() - t,
    {
        let ghost acc0 = acc.deep_view();
        proof {
            assert(xs.deep_view()[t as int] == xs@[t as int].deep_view());
        }
        if !envs_contain(acc, &xs[t]) {
            acc.push(env_clone(&xs[t]));
            proof {
                assert(acc.deep_view() =~= acc0.push(xs.deep_view()[t as int]));
            }
        }
        proof {
            assert(acc.deep_view() == push_unique(acc0, xs.deep_view()[t as int]));
        }
        t += 1;
    }
}

/// All rules stored under one key, across its signature buckets in order.
fn collect_rules<'a>(lines: &'a Vec<Bucket<Rule>>) -> (r: Vec<&'a Rule>)
    ensures
        r.deep_view() == all_items(lines.deep_view()),
{
    let mut r: Vec<&'a Rule> = Vec::new();
    let mut j: usize = 0;
    proof {
        assert(r.deep_view() =~= Seq::<RuleV>::empty());
    }
    while j < lines.len()
        invariant
            j <= lines.len(),
            all_items(lines.deep_view()) =~= r.deep_view() + all_items_from(
                lines.deep_view(),
                j as int,
            ),
        decreases lines.len() - j,
    {
        let items = &lines[j].items;
        proof {
            assert(lines.deep_view()[j as int] == lines@[j as int].deep_view());
            assert(lines.deep_view()[j as int].1 == items.deep_view());
        }
        let mut t: usize = 0;
        while t < items.len()
            invariant
                t <= items.len(),
                all_items(lines.deep_view()) =~= r.deep_view() + items.deep_view().skip(t as int)
                    + all_items_from(
                    lines.deep_view(),
                    j as int + 1,
                ),
            decreases items.len() - t,
        {
            let ghost prev = r.deep_view();
            r.push(&items[t]);
            proof {
                assert(r.deep_view() =~= prev.push(items.deep_view()[t as int]));
                assert(items.deep_view().skip(t as int) =~= seq![items.deep_view()[t as int]]
                    + items.deep_view().skip(t as int + 1));
                assert(prev + items.deep_view().skip(t as int)
                    + all_items_from(lines.deep_view(), j as int + 1)
                    =~= r.deep_view() + items.deep_view().skip(t as int + 1)
                    + all_items_from(
                    lines.deep_view(),
                    j as int + 1,
                ));
            }
            t += 1;
        }
        proof {
            assert(items.deep_view().skip(items@.len() as int).len() == 0);
            assert(r.deep_view() + items.deep_view().skip(items@.len() as int)
                + all_items_from(lines.deep_view(), j as int + 1)
                =~= r.deep_view() + all_items_from(
                lines.deep_view(),
                j as int + 1,
            ));
        }
        j += 1;
    }
    proof {
        assert(all_items_from(
            lines.deep_view(),
            lines@.len() as int,
        ).len() == 0);
        assert(all_items(lines.deep_view()) =~= r.deep_view());
    }
    r
}

/// The conjunctive join step: the answers of one goal under every
/// environment of the working set, unioned into `acc` without duplicates.
fn clause_union(
    db: &Database,
    m: &Match,
    envs: &Vec<Env>,
    fuel: u64,
    acc: &mut Vec<Env>,
) -> (r: Result<(), ResolveError>)
    ensures
        match r {
            Ok(_) => clause_union_v(
                db@,
                m@,
                envs.deep_view(),
                0,
                old(acc).deep_view(),
                fuel as nat,
            ) == Ok::<Seq<EnvV>, ()>(final(acc).deep_view()),
            Err(_) => clause_union_v(
                db@,
                m@,
                envs.deep_view(),
                0,
                old(acc).deep_view(),
                fuel as nat,
            ) is Err,
        },
    decreases fuel, 8int, 0int,
{
    let mut j: usize = 0;
    while j < envs.len()
        invariant
            j <= envs.len(),
            clause_union_v(db@, m@, envs.deep_view(), j as int, acc.deep_view(), fuel as nat)
                == clause_union_v(
                db@,
                m@,
                envs.deep_view(),
                0,
                old(acc).deep_view(),
                fuel as nat,
            ),
        decreases envs.len() - j,
    {
        proof {
            assert(envs.deep_view()[j as int] == envs@[j as int].deep_view());
        }
        match db.query(m, &envs[j], fuel) {
            Err(e) => {
                return Err(e);
            },
            Ok(rs) => {
                merge_unique(acc, &rs);
            },
        }
        j += 1;
    }
    Ok(())
}

/// Folds a rule body's sub-goals left to right, replacing the working set
/// with each clause's join.
fn body_fold(db: &Database, clauses: &Vec<Match>, working: &mut Vec<Env>, fuel: u64) -> (r: Result<
    (),
    ResolveError,
>)
    ensures
        match r {
            Ok(_) => body_fold_v(db@, clauses.deep_view(), 0, old(working).deep_view(),
                fuel as nat) == Ok::<Seq<EnvV>, ()>(final(working).deep_view()),
            Err(_) => body_fold_v(db@, clauses.deep_view(), 0, old(working).deep_view(),
                fuel as nat) is Err,
        },
    decreases fuel, 9int, 0int,
{
    let mut i: usize = 0;
    while i < clauses.len()
        invariant
            i <= clauses.len(),
            body_fold_v(db@, clauses.deep_view(), i as int, working.deep_view(), fuel as nat)
                == body_fold_v(
                db@,
                clauses.deep_view(),
                0,
                old(working).deep_view(),
                fuel as nat,
            ),
        decreases clauses.len() - i,
    {
        proof {
            assert(clauses.deep_view()[i as int] == clauses@[i as int]@);
        }
        let mut next: Vec<Env> = Vec::new();
        proof {
            assert(next.deep_view() =~= Seq::<EnvV>::empty());
        }
        match clause_union(db, &clauses[i], working, fuel, &mut next) {
            Err(e) => {
                return Err(e);
            },
            Ok(_) => {},
        }
        *working = next;
        i += 1;
    }
    Ok(())
}

/// One candidate rule's contribution to a query: seed, resolve the body,
/// then keep what survives negation and filters.
fn rule_answers(db: &Database, rule: &Rule, query: &Match, env: &Env, fuel: u64) -> (r: Result<
    Vec<Env>,
    ResolveError,
>)
    ensures
        match r {
            Ok(v) => rule_answers_v(db@, rule.deep_view(), query@, env.deep_view(), fuel as nat)
                == Ok::<Seq<EnvV>, ()>(v.deep_view()),
            Err(_) => rule_answers_v(db@, rule.deep_view(), query@, env.deep_view(),
                fuel as nat) is Err,
        },
    decreases fuel, 4int, 0int,
{
    let pat = eval_all(&query.expr, env);
    match Atom::unify_arguments(&pat, &rule.args) {
        Err(_) => {
            let out: Vec<Env> = Vec::new();
            proof {
                assert(out.deep_view() =~= Seq::<EnvV>::empty());
            }
            Ok(out)
        },
        Ok(seed) => {
            if fuel == 0 {
                return Err(ResolveError::DepthExceeded);
            }
            let ghost seedv = seed.deep_view();
            let mut working: Vec<Env> = Vec::new();
            working.push(seed);
            proof {
                assert(working.deep_view() =~= seq![seedv]);
            }
            match body_fold(db, &rule.matchs, &mut working, fuel - 1) {
                Err(e) => Err(e),
                Ok(_) => {
                    let mut out: Vec<Env> = Vec::new();
                    proof {
                        assert(out.deep_view() =~= Seq::<EnvV>::empty());
                    }
                    filter_stage(db, rule, &working, &mut out);
                    Ok(out)
                },
            }
        },
    }
}

/// Keeps the environments of a resolved body that survive the rule's negated
/// sub-goals and filters.
fn filter_stage(db: &Database, rule: &Rule, working: &Vec<Env>, out: &mut Vec<Env>)
    ensures
        final(out).deep_view() == filter_envs(
            db@,
            rule.deep_view(),
            working.deep_view(),
            0,
            old(out).deep_view(),
        ),
{
    let mut j: usize = 0;
    while j < working.len()
        invariant
            j <= working.len(),
            filter_envs(db@, rule.deep_view(), working.deep_view(), j as int, out.deep_view())
                == filter_envs(
                db@,
                rule.deep_view(),
                working.deep_view(),
                0,
                old(out).deep_view(),
            ),
        decreases working.len() - j,
    {
        let ghost out0 = out.deep_view();
        proof {
            assert(working.deep_view()[j as int] == working@[j as int].deep_view());
        }
        let e = &working[j];
        if not_matches_check(db, &rule.not_matchs, e) && filters_check(&rule.filter, e) {
            if !envs_contain(out, e) {
                out.push(env_clone(e));
                proof {
                    assert(out.deep_view() =~= out0.push(working.deep_view()[j as int]));
                }
            }
            proof {
                assert(out.deep_view() == push_unique(out0, working.deep_view()[j as int]));
            }
        }
        j += 1;
    }
}

/// Unions the contributions of every candidate rule into `acc`.
fn rules_fold(
    db: &Database,
    rules: &Vec<&Rule>,
    query: &Match,
    env: &Env,
    fuel: u64,
    acc: &mut Vec<Env>,
) -> (r: Result<(), ResolveError>)
    ensures
        match r {
            Ok(_) => rules_fold_v(db@, rules.deep_view(), 0, query@, env.deep_view(),
                old(acc).deep_view(), fuel as nat) == Ok::<Seq<EnvV>, ()>(
                final(acc).deep_view(),
            ),
            Err(_) => rules_fold_v(db@, rules.deep_view(), 0, query@, env.deep_view(),
                old(acc).deep_view(), fuel as nat) is Err,
        },
    decreases fuel, 5int, 0int,
{
    let mut k: usize = 0;
    while k < rules.len()
        invariant
            k <= rules.len(),
            rules_fold_v(db@, rules.deep_view(), k as int, query@, env.deep_view(),
                acc.deep_view(), fuel as nat) == rules_fold_v(
                db@,
                rules.deep_view(),
                0,
                query@,
                env.deep_view(),
                old(acc).deep_view(),
                fuel as nat,
            ),
        decreases rules.len() - k,
    {
        proof {
            assert(rules.deep_view()[k as int] == rules@[k as int].deep_view());
        }
        match rule_answers(db, rules[k], query, env, fuel) {
            Err(e) => {
                return Err(e);
            },
            Ok(rs) => {
                merge_unique(acc, &rs);
            },
        }
        k += 1;
    }
    Ok(())
}

impl Database {
    /// The rule half of resolution: every rule stored at `(name, arity)` is
    /// a candidate, and their surviving environments are unioned without
    /// duplicates. An unknown predicate yields the empty set. The fuel
    /// budget bounds rule-resolution depth; when it runs out the query
    /// reports `DepthExceeded` instead of recursing without bound.
    pub fn query_rules(&self, query: &Match, env: &Env, fuel: u64) -> (r: Result<
        Vec<Env>,
        ResolveError,
    >)
        ensures
            match r {
                Ok(v) => query_rules_v(self@, query@, env.deep_view(), fuel as nat) == Ok::<
                    Seq<EnvV>,
                    (),
                >(v.deep_view()),
                Err(_) => query_rules_v(self@, query@, env.deep_view(), fuel as nat) is Err,
            },
        decreases fuel, 6int, 0int,
    {
        let key = Key(query.name.clone(), query.expr.len());
        match self.rules.get_lines(&key) {
            None => {
                let r: Vec<Env> = Vec::new();
                proof {
                    assert(r.deep_view() =~= Seq::<EnvV>::empty());
                }
                Ok(r)
            },
            Some(lines) => {
                let rules = collect_rules(lines);
                let mut acc: Vec<Env> = Vec::new();
                proof {
                    assert(acc.deep_view() =~= Seq::<EnvV>::empty());
                }
                match rules_fold(self, &rules, query, env, fuel, &mut acc) {
                    Err(e) => Err(e),
                    Ok(_) => Ok(acc),
                }
            },
        }
    }

    /// Resolution of one goal: fact-first fallback. The fact answers are
    /// returned whenever there is at least one; only a goal with no fact
    /// answer at all consults the rules. Facts shadow rules entirely.
    pub fn query(&self, query: &Match, env: &Env, fuel: u64) -> (r: Result<
        Vec<Env>,
        ResolveError,
    >)
        ensures
            match r {
                Ok(v) => query_v(self@, query@, env.deep_view(), fuel as nat) == Ok::<
                    Seq<EnvV>,
                    (),
                >(v.deep_view()),
                Err(_) => query_v(self@, query@, env.deep_view(), fuel as nat) is Err,
            },
        decreases fuel, 7int, 0int,
    {
        let f = self.query_facts(query, env);
        if f.len() > 0 {
            Ok(f)
        } else {
            self.query_rules(query, env, fuel)
        }
    }
}


/// Content equality of two projected results.
fn proj_same(a: &Result<Env, Symbol>, b: &Result<Env, Symbol>) -> (r: bool)
    ensures
        r == (proj_v(*a) == proj_v(*b)),
{
    match (a, b) {
        (Ok(e1), Ok(e2)) => env_same(e1, e2),
        (Err(s1), Err(s2)) => s1.same(s2),
        _ => false,
    }
}

/// Whether a projected result is already present in the output.
fn projs_contain(acc: &Vec<Result<Env, Symbol>>, x: &Result<Env, Symbol>) -> (r: bool)
    ensures
        r == projs_view(acc@).contains(proj_v(*x)),
{
    let mut i: usize = 0;
    while i < acc.len()
        invariant
            i <= acc.len(),
            forall|j: int| 0 <= j < i ==> #[trigger] projs_view(acc@)[j] != proj_v(*x),
        decreases acc.len() - i,
    {
        if proj_same(&acc[i], x) {
            proof {
                assert(projs_view(acc@)[i as int] == proj_v(*x));
            }
            return true;
        }
        i += 1;
    }
    false
}

/// Projects one environment onto the requested output names, in order; a
/// requested name with no binding is reported as the unbound output symbol.
pub fn project_env(e: &Env, defs: &Vec<Symbol>) -> (r: Result<Env, Symbol>)
    ensures
        proj_v(r) == project_env_v(e.deep_view(), defs.deep_view()),
{
    let ghost ev = e.deep_view();
    let ghost defsv = defs.deep_view();
    let mut out: Env = Vec::new();
    let mut i: usize = 0;
    proof {
        assert(out.deep_view() =~= Seq::<(Seq<char>, ConstV)>::empty());
    }
    while i < defs.len()
        invariant
            i <= defs.len(),
            ev == e.deep_view(),
            defsv == defs.deep_view(),
            project_env_from(ev, defsv, i as int, out.deep_view()) == project_env_from(
                ev,
                defsv,
                0,
                Seq::<(Seq<char>, ConstV)>::empty(),
            ),
        decreases defs.len() - i,
    {
        proof {
            assert(defs.deep_view()[i as int] == defs@[i as int]@);
        }
        match env_get(e, &defs[i]) {
            None => {
                return Err(defs[i].clone());
            },
            Some(c) => {
                let ghost prev = out.deep_view();
                out.push((defs[i].clone(), c));
                proof {
                    assert(out.deep_view() =~= prev.push((defsv[i as int], out@[out@.len()
                        - 1].1@)));
                }
            },
        }
        i += 1;
    }
    Ok(out)
}

/// Projects every surviving environment, deduplicating projected results.
fn project_stage(envs: &Vec<Env>, defs: &Vec<Symbol>, out: &mut Vec<Result<Env, Symbol>>)
    ensures
        projs_view(final(out)@) == project_all(
            envs.deep_view(),
            defs.deep_view(),
            0,
            projs_view(old(out)@),
        ),
{
    let mut j: usize = 0;
    while j < envs.len()
        invariant
            j <= envs.len(),
            project_all(envs.deep_view(), defs.deep_view(), j as int, projs_view(out@))
                == project_all(
                envs.deep_view(),
                defs.deep_view(),
                0,
                projs_view(old(out)@),
            ),
        decreases envs.len() - j,
    {
        let ghost out0 = projs_view(out@);
        proof {
            assert(envs.deep_view()[j as int] == envs@[j as int].deep_view());
        }
        let p = project_env(&envs[j], defs);
        let ghost pv = proj_v(p);
        if !projs_contain(out, &p) {
            out.push(p);
            proof {
                assert(projs_view(out@) =~= out0.push(pv));
            }
        }
        proof {
            assert(projs_view(out@) == push_unique(out0, pv));
        }
        j += 1;
    }
}

impl Database {
    /// The sole read entry point for end users: resolves `body` as a
    /// conjunction starting from the empty environment, projects each
    /// surviving environment onto `defs` in order, and deduplicates the
    /// projections. A projection whose requested name never got bound is
    /// reported per result as that unbound symbol, not as a failure of the
    /// whole query; `DepthExceeded` is reported when the fuel budget runs
    /// out.
    pub fn run_query(&self, defs: &Vec<Symbol>, body: &Vec<Match>, fuel: u64) -> (r: Result<
        Vec<Result<Env, Symbol>>,
        ResolveError,
    >)
        ensures
            match r {
                Ok(v) => run_query_v(self@, defs.deep_view(), body.deep_view(), fuel as nat)
                    == Ok::<Seq<Result<EnvV, Seq<char>>>, ()>(projs_view(v@)),
                Err(_) => run_query_v(self@, defs.deep_view(), body.deep_view(),
                    fuel as nat) is Err,
            },
    {
        let mut working: Vec<Env> = Vec::new();
        let first: Env = Vec::new();
        working.push(first);
        proof {
            assert(working.deep_view() =~~= seq![Seq::<(Seq<char>, ConstV)>::empty()]);
        }
        match body_fold(self, body, &mut working, fuel) {
            Err(e) => Err(e),
            Ok(_) => {
                let mut out: Vec<Result<Env, Symbol>> = Vec::new();
                proof {
                    assert(projs_view(out@) =~= Seq::<Result<EnvV, Seq<char>>>::empty());
                }
                project_stage(&working, defs, &mut out);
                Ok(out)
            },
        }
    }
}

} // verus!
