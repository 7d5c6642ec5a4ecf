//! Engine-wide laws, stated over the mathematical model and proved once for
//! all inputs: what unification may bind, when facts shadow rules, what
//! negation may consult, and what loading a fact preserves.

use vstd::prelude::*;

use crate::ast::{AtomV, ConstV, FactDefV, MatchV};
use crate::interpreter::database::{entry_load, entry_load_from, fact_key, sig_of_consts,
    table_get, table_get_from, table_load, table_load_from, BucketV, DbV, KeyV, SigV, TableV};
use crate::interpreter::query::{append_unique, assoc_get, assoc_get_from, clause_union_v,
    eval_atom, eval_atoms, fact_step, fold_buckets, fold_tuples, match_key, project_all,
    project_env_from, project_env_v, push_unique, query_facts_v, query_v, not_query_v,
    unify_const_v, unify_tuple, unify_tuple_from, EnvV};

verus! {

/// The name under a variable atom; the empty sequence for any other atom.
pub open spec fn var_name(a: AtomV) -> Seq<char> {
    match a {
        AtomV::Variable(n) => n,
        _ => Seq::empty(),
    }
}

/// Appending a binding never changes what an earlier binding resolves to: a
/// lookup takes the first match, and pushes go to the end.
proof fn lemma_assoc_get_from_push<X>(e: Seq<(Seq<char>, X)>, x: (Seq<char>, X), n: Seq<char>,
    i: int)
    requires
        0 <= i <= e.len(),
    ensures
        assoc_get_from(e.push(x), n, i) == (if assoc_get_from(e, n, i) is Some {
            assoc_get_from(e, n, i)
        } else if x.0 == n {
            Some(x.1)
        } else {
            None
        }),
    decreases e.len() - i,
{
    assert(e.push(x).len() == e.len() + 1);
    if i < e.len() {
        assert(e.push(x)[i] == e[i]);
        lemma_assoc_get_from_push(e, x, n, i + 1);
    } else {
        assert(e.push(x)[e.len() as int] == x);
    }
}

/// As `lemma_assoc_get_from_push`, for the whole lookup.
proof fn lemma_assoc_get_push<X>(e: Seq<(Seq<char>, X)>, x: (Seq<char>, X), n: Seq<char>)
    ensures
        assoc_get(e.push(x), n) == (if assoc_get(e, n) is Some {
            assoc_get(e, n)
        } else if x.0 == n {
            Some(x.1)
        } else {
            None
        }),
{
    lemma_assoc_get_from_push(e, x, n, 0);
}

/// What a successful tuple unification binds: earlier bindings survive
/// untouched, every variable position resolves to the stored constant at
/// that position, and every binding of the result either was already there
/// or names a variable of the pattern bound to the constant it met — so a
/// wildcard never contributes a binding.
pub proof fn lemma_unify_tuple_binds(
    pat: Seq<AtomV>,
    tup: Seq<ConstV>,
    i: int,
    acc: EnvV,
    e: EnvV,
)
    requires
        pat.len() == tup.len(),
        0 <= i <= pat.len(),
        unify_tuple_from(pat, tup, i, acc) == Ok::<EnvV, ()>(e),
    ensures
        forall|n: Seq<char>| assoc_get(acc, n) is Some ==> assoc_get(e, n) == assoc_get(acc, n),
        forall|p: int| i <= p < pat.len() && (#[trigger] pat[p]) is Variable ==> assoc_get(
            e,
            var_name(pat[p]),
        ) == Some(tup[p]),
        forall|k: int| 0 <= k < e.len() ==> acc.contains(#[trigger] e[k]) || exists|p: int|
            i <= p < pat.len() && pat[p] == AtomV::Variable(e[k].0) && tup[p] == e[k].1,
    decreases pat.len() - i,
{
    if i < pat.len() {
        match pat[i] {
            AtomV::Wildcard => {
                lemma_unify_tuple_binds(pat, tup, i + 1, acc, e);
            },
            AtomV::Const(_) => {
                lemma_unify_tuple_binds(pat, tup, i + 1, acc, e);
            },
            AtomV::Variable(n) => {
                match assoc_get(acc, n) {
                    Some(c2) => {
                        lemma_unify_tuple_binds(pat, tup, i + 1, acc, e);
                        assert(assoc_get(e, n) == assoc_get(acc, n));
                    },
                    None => {
                        let acc2 = acc.push((n, tup[i]));
                        lemma_unify_tuple_binds(pat, tup, i + 1, acc2, e);
                        lemma_assoc_get_push(acc, (n, tup[i]), n);
                        assert(assoc_get(acc2, n) == Some(tup[i]));
                        assert(assoc_get(e, n) == Some(tup[i]));
                        assert forall|m: Seq<char>| assoc_get(acc, m) is Some implies assoc_get(
                            e,
                            m,
                        ) == assoc_get(acc, m) by {
                            lemma_assoc_get_push(acc, (n, tup[i]), m);
                        }
                        assert forall|k: int| 0 <= k < e.len() implies acc.contains(
                            #[trigger] e[k],
                        ) || exists|p: int|
                            i <= p < pat.len() && pat[p] == AtomV::Variable(e[k].0) && tup[p]
                                == e[k].1 by {
                            if acc2.contains(e[k]) {
                                let k2 = choose|k2: int|
                                    0 <= k2 < acc2.len() && acc2[k2] == e[k];
                                if k2 < acc.len() {
                                    assert(acc[k2] == e[k]);
                                    assert(acc.contains(e[k]));
                                } else {
                                    assert(e[k] == (n, tup[i]));
                                    assert(pat[i] == AtomV::Variable(e[k].0) && tup[i]
                                        == e[k].1);
                                }
                            }
                        }
                    },
                }
            },
        }
    }
}

/// Conflict rejection: when one variable stands at two positions of a
/// pattern and the tuple unifies, the stored constants at those positions
/// are equal — a tuple requiring one variable to take two different values
/// is rejected.
pub proof fn lemma_conflict_rejection(
    pat: Seq<AtomV>,
    tup: Seq<ConstV>,
    e: EnvV,
    i: int,
    j: int,
    n: Seq<char>,
)
    requires
        unify_tuple(pat, tup) == Ok::<EnvV, ()>(e),
        0 <= i < pat.len(),
        0 <= j < pat.len(),
        pat[i] == AtomV::Variable(n),
        pat[j] == AtomV::Variable(n),
    ensures
        tup[i] == tup[j],
{
    lemma_unify_tuple_binds(pat, tup, 0, Seq::empty(), e);
    assert(assoc_get(e, n) == Some(tup[i]));
    assert(assoc_get(e, n) == Some(tup[j]));
}

/// A wildcard never binds: every binding of a successful tuple unification
/// names a variable of the pattern and carries the constant that variable
/// met — positions holding wildcards or literals contribute nothing.
pub proof fn lemma_wildcard_never_binds(pat: Seq<AtomV>, tup: Seq<ConstV>, e: EnvV)
    requires
        unify_tuple(pat, tup) == Ok::<EnvV, ()>(e),
    ensures
        forall|k: int| 0 <= k < e.len() ==> exists|p: int|
            0 <= p < pat.len() && pat[p] == AtomV::Variable((#[trigger] e[k]).0) && tup[p]
                == e[k].1,
{
    lemma_unify_tuple_binds(pat, tup, 0, Seq::empty(), e);
}

/// Fact-first fallback: whenever a goal has at least one fact answer, a
/// query returns exactly the fact answers — rules are shadowed entirely and
/// no fuel is spent.
pub proof fn lemma_fact_first(db: DbV, m: MatchV, env: EnvV, fuel: nat)
    requires
        query_facts_v(db, m, env).len() > 0,
    ensures
        query_v(db, m, env, fuel) == Ok::<Seq<EnvV>, ()>(query_facts_v(db, m, env)),
{
}

/// Determinism: the outcome of a query is a function of the database, the
/// goal, the environment and the fuel budget alone — two runs against an
/// unchanged database yield identical result sets, whatever the degree of
/// parallelism of either run.
pub proof fn lemma_query_deterministic(
    db: DbV,
    m: MatchV,
    env: EnvV,
    fuel: nat,
    r1: Result<Seq<EnvV>, ()>,
    r2: Result<Seq<EnvV>, ()>,
)
    requires
        r1 == query_v(db, m, env, fuel),
        r2 == query_v(db, m, env, fuel),
    ensures
        r1 == r2,
{
}

/// Negation consults facts only: two databases with the same fact table
/// satisfy exactly the same negated goals, whatever rules either holds.
pub proof fn lemma_negation_facts_only(db1: DbV, db2: DbV, m: MatchV, env: EnvV)
    requires
        db1.facts == db2.facts,
    ensures
        not_query_v(db1, m, env) == not_query_v(db2, m, env),
{
    assert(query_facts_v(db1, m, env) == query_facts_v(db2, m, env));
}


/// The environment a successful unification of `pat` against `tup`
/// contributes, merged with the caller's environment; the empty environment
/// when unification fails.
pub open spec fn contrib_env(pat: Seq<AtomV>, tup: Seq<ConstV>, base: EnvV) -> EnvV {
    match unify_tuple(pat, tup) {
        Ok(e) => e + base,
        Err(_) => Seq::empty(),
    }
}

/// Membership in `push_unique`: exactly the old members plus the new value.
proof fn lemma_push_unique_contains<X>(acc: Seq<X>, y: X, x: X)
    ensures
        push_unique(acc, y).contains(x) <==> (acc.contains(x) || x == y),
{
    if acc.contains(y) {
    } else {
        if acc.contains(x) {
            let k = choose|k: int| 0 <= k < acc.len() && acc[k] == x;
            assert(acc.push(y)[k] == x);
        }
        assert(acc.push(y)[acc.len() as int] == y);
        if acc.push(y).contains(x) {
            let k = choose|k: int| 0 <= k < acc.push(y).len() && acc.push(y)[k] == x;
            if k < acc.len() {
                assert(acc[k] == x);
            }
        }
    }
}

/// Membership in a bucket fold: exactly the accumulator's members plus the
/// contribution of every tuple from position `k` on that unifies.
proof fn lemma_fold_tuples_char(
    tuples: Seq<Seq<ConstV>>,
    k: int,
    pat: Seq<AtomV>,
    base: EnvV,
    acc: Seq<EnvV>,
    x: EnvV,
)
    requires
        0 <= k <= tuples.len(),
    ensures
        fold_tuples(tuples, k, pat, base, acc).contains(x) <==> (acc.contains(x) || exists|t: int|
            k <= t < tuples.len() && unify_tuple(pat, #[trigger] tuples[t]) is Ok && x
                == contrib_env(pat, tuples[t], base)),
    decreases tuples.len() - k,
{
    if k >= tuples.len() {
    } else {
        let acc2 = fact_step(acc, pat, tuples[k], base);
        lemma_fold_tuples_char(tuples, k + 1, pat, base, acc2, x);
        match unify_tuple(pat, tuples[k]) {
            Ok(e0) => {
                lemma_push_unique_contains(acc, e0 + base, x);
                assert(acc2.contains(x) <==> (acc.contains(x) || x == contrib_env(
                    pat,
                    tuples[k],
                    base,
                )));
            },
            Err(_) => {
                assert(acc2 == acc);
            },
        }
        if fold_tuples(tuples, k, pat, base, acc).contains(x) {
            if !acc.contains(x) {
                if acc2.contains(x) {
                    assert(unify_tuple(pat, tuples[k]) is Ok && x == contrib_env(
                        pat,
                        tuples[k],
                        base,
                    ));
                } else {
                    let t = choose|t: int|
                        k + 1 <= t < tuples.len() && unify_tuple(pat, #[trigger] tuples[t]) is Ok
                            && x == contrib_env(pat, tuples[t], base);
                    assert(k <= t < tuples.len() && unify_tuple(pat, tuples[t]) is Ok && x
                        == contrib_env(pat, tuples[t], base));
                }
            }
        }
        if acc.contains(x) {
            assert(acc2.contains(x));
            assert(fold_tuples(tuples, k, pat, base, acc).contains(x));
        }
        if exists|t: int|
            k <= t < tuples.len() && unify_tuple(pat, #[trigger] tuples[t]) is Ok && x
                == contrib_env(pat, tuples[t], base) {
            let t = choose|t: int|
                k <= t < tuples.len() && unify_tuple(pat, #[trigger] tuples[t]) is Ok && x
                    == contrib_env(pat, tuples[t], base);
            if t == k {
                assert(acc2.contains(x));
                assert(fold_tuples(tuples, k, pat, base, acc).contains(x));
            } else {
                assert(k + 1 <= t < tuples.len() && unify_tuple(pat, tuples[t]) is Ok && x
                    == contrib_env(pat, tuples[t], base));
                assert(fold_tuples(tuples, k, pat, base, acc).contains(x));
            }
        }
    }
}

/// Membership across all buckets of one key: exactly the accumulator's
/// members plus the contribution of every stored tuple that unifies.
proof fn lemma_fold_buckets_char(
    bs: Seq<BucketV<Seq<ConstV>>>,
    j: int,
    pat: Seq<AtomV>,
    base: EnvV,
    acc: Seq<EnvV>,
    x: EnvV,
)
    requires
        0 <= j <= bs.len(),
    ensures
        fold_buckets(bs, j, pat, base, acc).contains(x) <==> (acc.contains(x) || exists|
            jb: int,
            t: int,
        |
            j <= jb < bs.len() && 0 <= t < (#[trigger] bs[jb]).1.len() && unify_tuple(
                pat,
                #[trigger] bs[jb].1[t],
            ) is Ok && x == contrib_env(pat, bs[jb].1[t], base)),
    decreases bs.len() - j,
{
    if j >= bs.len() {
    } else {
        let acc2 = fold_tuples(bs[j].1, 0, pat, base, acc);
        lemma_fold_buckets_char(bs, j + 1, pat, base, acc2, x);
        lemma_fold_tuples_char(bs[j].1, 0, pat, base, acc, x);
        if fold_buckets(bs, j, pat, base, acc).contains(x) {
            if !acc.contains(x) {
                if acc2.contains(x) {
                    let t = choose|t: int|
                        0 <= t < bs[j].1.len() && unify_tuple(pat, #[trigger] bs[j].1[t]) is Ok
                            && x == contrib_env(pat, bs[j].1[t], base);
                    assert(j <= j < bs.len() && 0 <= t < bs[j].1.len() && unify_tuple(
                        pat,
                        bs[j].1[t],
                    ) is Ok && x == contrib_env(pat, bs[j].1[t], base));
                } else {
                    let (jb, t): (int, int) = choose|jb: int, t: int|
                        j + 1 <= jb < bs.len() && 0 <= t < (#[trigger] bs[jb]).1.len()
                            && unify_tuple(pat, #[trigger] bs[jb].1[t]) is Ok && x == contrib_env(
                            pat,
                            bs[jb].1[t],
                            base,
                        );
                    assert(j <= jb < bs.len() && 0 <= t < bs[jb].1.len() && unify_tuple(
                        pat,
                        bs[jb].1[t],
                    ) is Ok && x == contrib_env(pat, bs[jb].1[t], base));
                }
            }
        }
        if acc.contains(x) {
            assert(acc2.contains(x));
            assert(fold_buckets(bs, j, pat, base, acc).contains(x));
        }
        if exists|jb: int, t: int|
            j <= jb < bs.len() && 0 <= t < (#[trigger] bs[jb]).1.len() && unify_tuple(
                pat,
                #[trigger] bs[jb].1[t],
            ) is Ok && x == contrib_env(pat, bs[jb].1[t], base) {
            let (jb, t): (int, int) = choose|jb: int, t: int|
                j <= jb < bs.len() && 0 <= t < (#[trigger] bs[jb]).1.len() && unify_tuple(
                    pat,
                    #[trigger] bs[jb].1[t],
                ) is Ok && x == contrib_env(pat, bs[jb].1[t], base);
            if jb == j {
                assert(acc2.contains(x));
                assert(fold_buckets(bs, j, pat, base, acc).contains(x));
            } else {
                assert(j + 1 <= jb < bs.len() && 0 <= t < bs[jb].1.len() && unify_tuple(
                    pat,
                    bs[jb].1[t],
                ) is Ok && x == contrib_env(pat, bs[jb].1[t], base));
                assert(fold_buckets(bs, j, pat, base, acc).contains(x));
            }
        }
    }
}

/// What a fact query answers, as a membership statement: an environment is
/// in the result exactly when some stored tuple at the goal's key unifies
/// with the goal's evaluated arguments and contributes it.
pub proof fn lemma_query_facts_char(db: DbV, m: MatchV, env: EnvV, x: EnvV)
    ensures
        query_facts_v(db, m, env).contains(x) <==> (match table_get(db.facts, match_key(m)) {
            Some(bs) => exists|jb: int, t: int|
                0 <= jb < bs.len() && 0 <= t < (#[trigger] bs[jb]).1.len() && unify_tuple(
                    eval_atoms(m.expr, env),
                    #[trigger] bs[jb].1[t],
                ) is Ok && x == contrib_env(eval_atoms(m.expr, env), bs[jb].1[t], env),
            None => false,
        }),
{
    match table_get(db.facts, match_key(m)) {
        Some(bs) => {
            lemma_fold_buckets_char(bs, 0, eval_atoms(m.expr, env), env, Seq::empty(), x);
            assert(!Seq::<EnvV>::empty().contains(x));
        },
        None => {
            assert(!Seq::<EnvV>::empty().contains(x));
        },
    }
}


/// A tuple value stored somewhere among the buckets of one key.
pub open spec fn stored_in<X>(bs: Seq<BucketV<X>>, y: X) -> bool {
    exists|j: int, t: int|
        0 <= j < bs.len() && 0 <= t < bs[j].1.len() && (#[trigger] bs[j].1[t]) == y
}

/// Appending into an entry stores the new item and keeps every item that
/// was stored.
proof fn lemma_entry_load_from_stores<X>(bs: Seq<BucketV<X>>, sig: SigV, item: X, i: int)
    requires
        0 <= i <= bs.len(),
    ensures
        stored_in(entry_load_from(bs, sig, item, i), item),
        forall|y: X| stored_in(bs, y) ==> stored_in(entry_load_from(bs, sig, item, i), y),
    decreases bs.len() - i,
{
    let bs2 = entry_load_from(bs, sig, item, i);
    if i >= bs.len() {
        assert(bs2[bs.len() as int].1[0] == item);
        assert(stored_in(bs2, item));
        assert forall|y: X| stored_in(bs, y) implies stored_in(bs2, y) by {
            let (j, t): (int, int) = choose|j: int, t: int|
                0 <= j < bs.len() && 0 <= t < bs[j].1.len() && (#[trigger] bs[j].1[t]) == y;
            assert(bs2[j].1[t] == y);
        }
    } else if bs[i].0 == sig {
        let old_len = bs[i].1.len() as int;
        assert(bs2[i].1[old_len] == item);
        assert(stored_in(bs2, item));
        assert forall|y: X| stored_in(bs, y) implies stored_in(bs2, y) by {
            let (j, t): (int, int) = choose|j: int, t: int|
                0 <= j < bs.len() && 0 <= t < bs[j].1.len() && (#[trigger] bs[j].1[t]) == y;
            assert(bs2[j].1[t] == y);
        }
    } else {
        lemma_entry_load_from_stores(bs, sig, item, i + 1);
    }
}

/// Positions before the load's scan point are untouched.
proof fn lemma_load_from_prefix_same<X>(t: TableV<X>, key: KeyV, sig: SigV, item: X, i: int,
    j: int)
    requires
        0 <= j < i <= t.len(),
    ensures
        table_load_from(t, key, sig, item, i).len() >= t.len(),
        table_load_from(t, key, sig, item, i)[j] == t[j],
    decreases t.len() - i,
{
    if i >= t.len() {
    } else if t[i].0 == key {
    } else {
        lemma_load_from_prefix_same(t, key, sig, item, i + 1, j);
    }
}

/// A lookup reads the same answer from two tables agreeing from its scan
/// point on.
proof fn lemma_get_from_congr<X>(a: TableV<X>, b: TableV<X>, key: KeyV, i: int)
    requires
        0 <= i,
        a.len() == b.len(),
        forall|j: int| i <= j < a.len() ==> a[j] == b[j],
    ensures
        table_get_from(a, key, i) == table_get_from(b, key, i),
    decreases a.len() - i,
{
    if i < a.len() {
        lemma_get_from_congr(a, b, key, i + 1);
    }
}

/// Looking the loaded key up after a load finds exactly the old buckets with
/// the item appended — or a fresh entry when the key was absent.
proof fn lemma_load_get_same<X>(t: TableV<X>, key: KeyV, sig: SigV, item: X, i: int)
    requires
        0 <= i <= t.len(),
    ensures
        table_get_from(table_load_from(t, key, sig, item, i), key, i) == Some(
            entry_load(
                match table_get_from(t, key, i) {
                    Some(bs) => bs,
                    None => Seq::empty(),
                },
                sig,
                item,
            ),
        ),
    decreases t.len() - i,
{
    let t2 = table_load_from(t, key, sig, item, i);
    if i >= t.len() {
        assert(t2 == t.push((key, seq![(sig, seq![item])])));
        assert(t2[t.len() as int] == (key, seq![(sig, seq![item])]));
        assert forall|j: int| i <= j < t.len() implies t2[j] == t[j] by {}
        assert(i == t.len());
        assert(table_get_from(t2, key, i) == Some(seq![(sig, seq![item])]));
        assert(entry_load(Seq::<BucketV<X>>::empty(), sig, item) =~= seq![(sig, seq![item])]);
    } else if t[i].0 == key {
        assert(t2 == t.update(i, (t[i].0, entry_load(t[i].1, sig, item))));
        assert(t2[i] == (t[i].0, entry_load(t[i].1, sig, item)));
        assert(table_get_from(t2, key, i) == Some(entry_load(t[i].1, sig, item)));
    } else {
        lemma_load_get_same(t, key, sig, item, i + 1);
        lemma_load_from_prefix_same(t, key, sig, item, i + 1, i);
        assert(t2[i] == t[i]);
        assert(table_get_from(t2, key, i) == table_get_from(t2, key, i + 1));
    }
}

/// Looking any other key up after a load reads exactly what it read before.
proof fn lemma_load_get_other<X>(t: TableV<X>, key: KeyV, sig: SigV, item: X, k2: KeyV, i: int)
    requires
        0 <= i <= t.len(),
        k2 != key,
    ensures
        table_get_from(table_load_from(t, key, sig, item, i), k2, i) == table_get_from(t, k2, i),
    decreases t.len() - i,
{
    let t2 = table_load_from(t, key, sig, item, i);
    if i >= t.len() {
        assert(t2 == t.push((key, seq![(sig, seq![item])])));
        assert(i == t.len());
        assert(t2[t.len() as int].0 == key);
        assert(table_get_from(t2, k2, i) == table_get_from(t2, k2, i + 1));
    } else if t[i].0 == key {
        assert(t2 == t.update(i, (t[i].0, entry_load(t[i].1, sig, item))));
        assert(t2[i].0 == key);
        assert(table_get_from(t2, k2, i) == table_get_from(t2, k2, i + 1));
        assert(table_get_from(t, k2, i) == table_get_from(t, k2, i + 1));
        lemma_get_from_congr(t2, t, k2, i + 1);
    } else {
        lemma_load_from_prefix_same(t, key, sig, item, i + 1, i);
        assert(t2[i] == t[i]);
        lemma_load_get_other(t, key, sig, item, k2, i + 1);
    }
}

/// The database after one fact is loaded.
pub open spec fn load_fact_v(db: DbV, f: FactDefV) -> DbV {
    DbV {
        facts: table_load(db.facts, fact_key(f), sig_of_consts(f.values), f.values),
        rules: db.rules,
    }
}

/// Append-only durability, first half: no fact query ever observes a
/// previously returned environment disappear after another fact is loaded.
pub proof fn lemma_load_fact_preserves_answers(db: DbV, f: FactDefV, m: MatchV, env: EnvV,
    x: EnvV)
    requires
        query_facts_v(db, m, env).contains(x),
    ensures
        query_facts_v(load_fact_v(db, f), m, env).contains(x),
{
    let db2 = load_fact_v(db, f);
    let pat = eval_atoms(m.expr, env);
    lemma_query_facts_char(db, m, env, x);
    lemma_query_facts_char(db2, m, env, x);
    match table_get(db.facts, match_key(m)) {
        None => {
            assert(false);
        },
        Some(bs) => {
            if match_key(m) == fact_key(f) {
                lemma_load_get_same(db.facts, fact_key(f), sig_of_consts(f.values), f.values, 0);
                let bs2 = entry_load(bs, sig_of_consts(f.values), f.values);
                assert(table_get(db2.facts, match_key(m)) == Some(bs2));
                let (jb, t): (int, int) = choose|jb: int, t: int|
                    0 <= jb < bs.len() && 0 <= t < (#[trigger] bs[jb]).1.len() && unify_tuple(
                        pat,
                        #[trigger] bs[jb].1[t],
                    ) is Ok && x == contrib_env(pat, bs[jb].1[t], env);
                let y = bs[jb].1[t];
                assert(stored_in(bs, y));
                lemma_entry_load_from_stores(bs, sig_of_consts(f.values), f.values, 0);
                assert(stored_in(bs2, y));
                let (jb2, t2): (int, int) = choose|jb2: int, t2: int|
                    0 <= jb2 < bs2.len() && 0 <= t2 < bs2[jb2].1.len() && (#[trigger] bs2[
                    jb2].1[t2]) == y;
                assert(unify_tuple(pat, bs2[jb2].1[t2]) is Ok && x == contrib_env(
                    pat,
                    bs2[jb2].1[t2],
                    env,
                ));
            } else {
                lemma_load_get_other(db.facts, fact_key(f), sig_of_consts(f.values), f.values,
                    match_key(m), 0);
                assert(table_get(db2.facts, match_key(m)) == Some(bs));
            }
        },
    }
}

/// Append-only durability, second half: after a fact is loaded, any fact
/// query whose evaluated pattern unifies with the new tuple includes the
/// merged environment among its answers.
pub proof fn lemma_load_fact_queryable(db: DbV, f: FactDefV, m: MatchV, env: EnvV, e: EnvV)
    requires
        match_key(m) == fact_key(f),
        unify_tuple(eval_atoms(m.expr, env), f.values) == Ok::<EnvV, ()>(e),
    ensures
        query_facts_v(load_fact_v(db, f), m, env).contains(e + env),
{
    let db2 = load_fact_v(db, f);
    let pat = eval_atoms(m.expr, env);
    let sig = sig_of_consts(f.values);
    lemma_query_facts_char(db2, m, env, e + env);
    lemma_load_get_same(db.facts, fact_key(f), sig, f.values, 0);
    let bs = match table_get(db.facts, fact_key(f)) {
        Some(bs) => bs,
        None => Seq::empty(),
    };
    let bs2 = entry_load(bs, sig, f.values);
    assert(table_get(db2.facts, match_key(m)) == Some(bs2));
    lemma_entry_load_from_stores(bs, sig, f.values, 0);
    assert(stored_in(bs2, f.values));
    let (jb, t): (int, int) = choose|jb: int, t: int|
        0 <= jb < bs2.len() && 0 <= t < bs2[jb].1.len() && (#[trigger] bs2[jb].1[t])
            == f.values;
    assert(unify_tuple(pat, bs2[jb].1[t]) is Ok && e + env == contrib_env(
        pat,
        bs2[jb].1[t],
        env,
    ));
}


/// The environments under a successful resolution outcome; empty on error.
pub open spec fn ok_envs(r: Result<Seq<EnvV>, ()>) -> Seq<EnvV> {
    match r {
        Ok(v) => v,
        Err(_) => Seq::empty(),
    }
}

/// Membership in `append_unique`: exactly the old members plus the appended
/// values.
proof fn lemma_append_unique_contains<X>(acc: Seq<X>, xs: Seq<X>, t: int, x: X)
    requires
        0 <= t <= xs.len(),
    ensures
        append_unique(acc, xs, t).contains(x) <==> (acc.contains(x) || exists|u: int|
            t <= u < xs.len() && xs[u] == x),
    decreases xs.len() - t,
{
    if t >= xs.len() {
    } else {
        let acc2 = push_unique(acc, xs[t]);
        lemma_append_unique_contains(acc2, xs, t + 1, x);
        lemma_push_unique_contains(acc, xs[t], x);
        if append_unique(acc, xs, t).contains(x) {
            if !acc.contains(x) {
                if acc2.contains(x) {
                    assert(xs[t] == x);
                    assert(t <= t < xs.len() && xs[t] == x);
                } else {
                    let u = choose|u: int| t + 1 <= u < xs.len() && xs[u] == x;
                    assert(t <= u < xs.len() && xs[u] == x);
                }
            }
        }
        if acc.contains(x) {
            assert(acc2.contains(x));
        }
        if exists|u: int| t <= u < xs.len() && xs[u] == x {
            let u = choose|u: int| t <= u < xs.len() && xs[u] == x;
            if u == t {
                assert(acc2.contains(x));
            } else {
                assert(t + 1 <= u < xs.len() && xs[u] == x);
            }
        }
    }
}

/// Conjunction is a relational join: when one body clause is applied to a
/// working set of environments, an environment is in the outcome exactly
/// when it was accumulated before or some environment of the working set
/// produced it as an answer of the clause — so a clause that answers nothing
/// for some environment eliminates that branch and nothing else.
pub proof fn lemma_clause_union_char(
    db: DbV,
    m: MatchV,
    envs: Seq<EnvV>,
    j: int,
    acc: Seq<EnvV>,
    fuel: nat,
    res: Seq<EnvV>,
    x: EnvV,
)
    requires
        0 <= j <= envs.len(),
        clause_union_v(db, m, envs, j, acc, fuel) == Ok::<Seq<EnvV>, ()>(res),
    ensures
        res.contains(x) <==> (acc.contains(x) || exists|u: int|
            j <= u < envs.len() && query_v(db, m, #[trigger] envs[u], fuel) is Ok && ok_envs(
                query_v(db, m, envs[u], fuel),
            ).contains(x)),
    decreases envs.len() - j,
{
    if j >= envs.len() {
    } else {
        match query_v(db, m, envs[j], fuel) {
            Err(_) => {
                assert(false);
            },
            Ok(rs) => {
                let acc2 = append_unique(acc, rs, 0);
                lemma_clause_union_char(db, m, envs, j + 1, acc2, fuel, res, x);
                lemma_append_unique_contains(acc, rs, 0, x);
                if res.contains(x) {
                    if !acc.contains(x) {
                        if acc2.contains(x) {
                            assert(ok_envs(query_v(db, m, envs[j], fuel)).contains(x));
                            assert(j <= j < envs.len() && query_v(db, m, envs[j], fuel) is Ok
                                && ok_envs(query_v(db, m, envs[j], fuel)).contains(x));
                        } else {
                            let u = choose|u: int|
                                j + 1 <= u < envs.len() && query_v(
                                    db,
                                    m,
                                    #[trigger] envs[u],
                                    fuel,
                                ) is Ok && ok_envs(query_v(db, m, envs[u], fuel)).contains(x);
                            assert(j <= u < envs.len() && query_v(db, m, envs[u], fuel) is Ok
                                && ok_envs(query_v(db, m, envs[u], fuel)).contains(x));
                        }
                    }
                }
                if acc.contains(x) {
                    assert(acc2.contains(x));
                    assert(res.contains(x));
                }
                if exists|u: int|
                    j <= u < envs.len() && query_v(db, m, #[trigger] envs[u], fuel) is Ok
                        && ok_envs(query_v(db, m, envs[u], fuel)).contains(x) {
                    let u = choose|u: int|
                        j <= u < envs.len() && query_v(db, m, #[trigger] envs[u], fuel) is Ok
                            && ok_envs(query_v(db, m, envs[u], fuel)).contains(x);
                    if u == j {
                        assert(rs.contains(x));
                        assert(acc2.contains(x));
                        assert(res.contains(x));
                    } else {
                        assert(j + 1 <= u < envs.len() && query_v(db, m, envs[u], fuel) is Ok
                            && ok_envs(query_v(db, m, envs[u], fuel)).contains(x));
                        assert(res.contains(x));
                    }
                }
            },
        }
    }
}


/// Looking a name up in a concatenation: the left part answers first.
proof fn lemma_assoc_get_concat_from<X>(a: Seq<(Seq<char>, X)>, b: Seq<(Seq<char>, X)>,
    n: Seq<char>, i: int)
    requires
        0 <= i <= a.len(),
    ensures
        assoc_get_from(a + b, n, i) == (if assoc_get_from(a, n, i) is Some {
            assoc_get_from(a, n, i)
        } else {
            assoc_get(b, n)
        }),
    decreases a.len() - i,
{
    if i < a.len() {
        assert((a + b)[i] == a[i]);
        lemma_assoc_get_concat_from(a, b, n, i + 1);
    } else {
        assert forall|j: int| 0 <= j < b.len() implies (a + b)[a.len() + j] == b[j] by {}
        lemma_assoc_get_shift(a, b, n, 0);
    }
}

/// A lookup in a concatenation starting past the left part scans the right
/// part alone.
proof fn lemma_assoc_get_shift<X>(a: Seq<(Seq<char>, X)>, b: Seq<(Seq<char>, X)>, n: Seq<char>,
    j: int)
    requires
        0 <= j <= b.len(),
    ensures
        assoc_get_from(a + b, n, a.len() + j) == assoc_get_from(b, n, j),
    decreases b.len() - j,
{
    if j < b.len() {
        assert((a + b)[a.len() + j] == b[j]);
        lemma_assoc_get_shift(a, b, n, j + 1);
    }
}

/// As `lemma_assoc_get_concat_from`, for the whole lookup.
pub proof fn lemma_assoc_get_concat<X>(a: Seq<(Seq<char>, X)>, b: Seq<(Seq<char>, X)>,
    n: Seq<char>)
    ensures
        assoc_get(a + b, n) == (if assoc_get(a, n) is Some {
            assoc_get(a, n)
        } else {
            assoc_get(b, n)
        }),
{
    lemma_assoc_get_concat_from(a, b, n, 0);
}

/// A caller's existing bindings always survive into every answer of a fact
/// query: the goal's arguments are substituted under the caller's
/// environment first, so unification binds only names the caller left
/// unbound, and the caller's binding of every other name is read unchanged
/// from the merged environment.
pub proof fn lemma_caller_bindings_survive(db: DbV, m: MatchV, env: EnvV, x: EnvV,
    n: Seq<char>)
    requires
        query_facts_v(db, m, env).contains(x),
        assoc_get(env, n) is Some,
    ensures
        assoc_get(x, n) == assoc_get(env, n),
{
    let pat = eval_atoms(m.expr, env);
    lemma_query_facts_char(db, m, env, x);
    match table_get(db.facts, match_key(m)) {
        None => {
            assert(false);
        },
        Some(bs) => {
            let (jb, t): (int, int) = choose|jb: int, t: int|
                0 <= jb < bs.len() && 0 <= t < (#[trigger] bs[jb]).1.len() && unify_tuple(
                    pat,
                    #[trigger] bs[jb].1[t],
                ) is Ok && x == contrib_env(pat, bs[jb].1[t], env);
            let tup = bs[jb].1[t];
            let e = match unify_tuple(pat, tup) {
                Ok(e) => e,
                Err(_) => Seq::empty(),
            };
            assert(x == e + env);
            lemma_unify_tuple_binds(pat, tup, 0, Seq::empty(), e);
            // Every binding of `e` names a variable of the evaluated pattern;
            // a variable surviving evaluation is one the caller left unbound.
            assert forall|k: int| 0 <= k < e.len() implies (#[trigger] e[k]).0 != n by {
                if e[k].0 == n {
                    let p = choose|p: int|
                        0 <= p < pat.len() && pat[p] == AtomV::Variable(e[k].0) && tup[p]
                            == e[k].1;
                    assert(pat[p] == eval_atom(m.expr[p], env));
                    assert(assoc_get(env, n) is None);
                }
            }
            lemma_assoc_get_none(e, n, 0);
            lemma_assoc_get_concat(e, env, n);
        },
    }
}

/// A name matching no pair of the sequence is not found.
proof fn lemma_assoc_get_none<X>(e: Seq<(Seq<char>, X)>, n: Seq<char>, i: int)
    requires
        0 <= i <= e.len(),
        forall|k: int| 0 <= k < e.len() ==> (#[trigger] e[k]).0 != n,
    ensures
        assoc_get_from(e, n, i) is None,
    decreases e.len() - i,
{
    if i < e.len() {
        lemma_assoc_get_none(e, n, i + 1);
    }
}


/// What a projection stage emits: a projected result is in the output
/// exactly when it was accumulated before or is the projection of one of
/// the surviving environments — projecting never invents or loses an
/// answer, it only drops bindings and duplicates.
pub proof fn lemma_project_all_char(
    envs: Seq<EnvV>,
    defs: Seq<Seq<char>>,
    j: int,
    acc: Seq<Result<EnvV, Seq<char>>>,
    pr: Result<EnvV, Seq<char>>,
)
    requires
        0 <= j <= envs.len(),
    ensures
        project_all(envs, defs, j, acc).contains(pr) <==> (acc.contains(pr) || exists|u: int|
            j <= u < envs.len() && pr == project_env_v(#[trigger] envs[u], defs)),
    decreases envs.len() - j,
{
    if j >= envs.len() {
    } else {
        let acc2 = push_unique(acc, project_env_v(envs[j], defs));
        lemma_project_all_char(envs, defs, j + 1, acc2, pr);
        lemma_push_unique_contains(acc, project_env_v(envs[j], defs), pr);
        if project_all(envs, defs, j, acc).contains(pr) {
            if !acc.contains(pr) {
                if acc2.contains(pr) {
                    assert(j <= j < envs.len() && pr == project_env_v(envs[j], defs));
                } else {
                    let u = choose|u: int|
                        j + 1 <= u < envs.len() && pr == project_env_v(
                            #[trigger] envs[u],
                            defs,
                        );
                    assert(j <= u < envs.len() && pr == project_env_v(envs[u], defs));
                }
            }
        }
        if acc.contains(pr) {
            assert(acc2.contains(pr));
        }
        if exists|u: int| j <= u < envs.len() && pr == project_env_v(#[trigger] envs[u], defs) {
            let u = choose|u: int|
                j <= u < envs.len() && pr == project_env_v(#[trigger] envs[u], defs);
            if u == j {
                assert(acc2.contains(pr));
            } else {
                assert(j + 1 <= u < envs.len() && pr == project_env_v(envs[u], defs));
            }
        }
    }
}


/// The unification bridge behind the wildcard law: two patterns differing
/// only in that one holds a wildcard where the other holds a variable `x`
/// occurring nowhere else succeed on exactly the same tuples, and their
/// result environments agree on every name but `x`.
proof fn lemma_unify_wildcard_fresh(
    pat1: Seq<AtomV>,
    pat2: Seq<AtomV>,
    tup: Seq<ConstV>,
    p: int,
    x: Seq<char>,
    i: int,
    acc1: EnvV,
    acc2: EnvV,
)
    requires
        pat1.len() == tup.len(),
        pat2 == pat1.update(p, AtomV::Variable(x)),
        0 <= p < pat1.len(),
        pat1[p] is Wildcard,
        forall|q: int| 0 <= q < pat1.len() ==> (#[trigger] pat1[q]) != AtomV::Variable(x),
        forall|n: Seq<char>| n != x ==> assoc_get(acc1, n) == assoc_get(acc2, n),
        assoc_get(acc1, x) is None,
        i <= p ==> assoc_get(acc2, x) is None,
        0 <= i <= pat1.len(),
    ensures
        unify_tuple_from(pat1, tup, i, acc1) is Ok <==> unify_tuple_from(pat2, tup, i, acc2)
            is Ok,
        (unify_tuple_from(pat1, tup, i, acc1) is Ok && unify_tuple_from(pat2, tup, i, acc2)
            is Ok) ==> {
            let e1 = ok_env(unify_tuple_from(pat1, tup, i, acc1));
            let e2 = ok_env(unify_tuple_from(pat2, tup, i, acc2));
            &&& forall|n: Seq<char>| n != x ==> assoc_get(e1, n) == assoc_get(e2, n)
            &&& assoc_get(e1, x) is None
        },
    decreases pat1.len() - i,
{
    if i >= pat1.len() {
    } else if i == p {
        assert(pat2[i] == AtomV::Variable(x));
        assert(unify_const_v(pat1[i], tup[i]) == Ok::<Option<(Seq<char>, ConstV)>, ()>(None));
        assert(unify_const_v(pat2[i], tup[i]) == Ok::<Option<(Seq<char>, ConstV)>, ()>(
            Some((x, tup[i])),
        ));
        let acc2b = acc2.push((x, tup[i]));
        assert forall|n: Seq<char>| n != x implies assoc_get(acc1, n) == assoc_get(
            acc2b,
            n,
        ) by {
            lemma_assoc_get_push(acc2, (x, tup[i]), n);
        }
        lemma_unify_wildcard_fresh(pat1, pat2, tup, p, x, i + 1, acc1, acc2b);
    } else {
        assert(pat2[i] == pat1[i]);
        match unify_const_v(pat1[i], tup[i]) {
            Err(_) => {},
            Ok(opt) => match opt {
                None => {
                    lemma_unify_wildcard_fresh(pat1, pat2, tup, p, x, i + 1, acc1, acc2);
                },
                Some(b) => {
                    assert(pat1[i] == AtomV::Variable(b.0));
                    assert(b.0 != x);
                    assert(assoc_get(acc1, b.0) == assoc_get(acc2, b.0));
                    match assoc_get(acc1, b.0) {
                        Some(c2) => {
                            if c2 == b.1 {
                                lemma_unify_wildcard_fresh(pat1, pat2, tup, p, x, i + 1,
                                    acc1, acc2);
                            }
                        },
                        None => {
                            let acc1b = acc1.push(b);
                            let acc2b = acc2.push(b);
                            assert forall|n: Seq<char>| n != x implies assoc_get(acc1b, n)
                                == assoc_get(acc2b, n) by {
                                lemma_assoc_get_push(acc1, b, n);
                                lemma_assoc_get_push(acc2, b, n);
                            }
                            lemma_assoc_get_push(acc1, b, x);
                            lemma_assoc_get_push(acc2, b, x);
                            lemma_unify_wildcard_fresh(pat1, pat2, tup, p, x, i + 1, acc1b,
                                acc2b);
                        },
                    }
                },
            },
        }
    }
}

/// The environment under a successful unification outcome; empty on
/// conflict.
pub open spec fn ok_env(r: Result<EnvV, ()>) -> EnvV {
    match r {
        Ok(e) => e,
        Err(_) => Seq::empty(),
    }
}

/// Two environments agreeing on every requested name project identically.
proof fn lemma_project_congr(ea: EnvV, eb: EnvV, defs: Seq<Seq<char>>, i: int, acc: EnvV)
    requires
        0 <= i <= defs.len(),
        forall|d: Seq<char>| defs.contains(d) ==> assoc_get(ea, d) == assoc_get(eb, d),
    ensures
        project_env_from(ea, defs, i, acc) == project_env_from(eb, defs, i, acc),
    decreases defs.len() - i,
{
    if i < defs.len() {
        assert(defs.contains(defs[i]));
        match assoc_get(ea, defs[i]) {
            None => {},
            Some(c) => {
                lemma_project_congr(ea, eb, defs, i + 1, acc.push((defs[i], c)));
            },
        }
    }
}


/// One tuple seen by the two goals of the wildcard law: both unifications
/// succeed or fail together, and on success the merged environments project
/// identically onto names that do not mention the fresh variable.
proof fn lemma_wildcard_pair(
    pat1: Seq<AtomV>,
    pat2: Seq<AtomV>,
    tup: Seq<ConstV>,
    p: int,
    x: Seq<char>,
    env: EnvV,
    defs: Seq<Seq<char>>,
)
    requires
        pat1.len() == tup.len(),
        pat2 == pat1.update(p, AtomV::Variable(x)),
        0 <= p < pat1.len(),
        pat1[p] is Wildcard,
        forall|q: int| 0 <= q < pat1.len() ==> (#[trigger] pat1[q]) != AtomV::Variable(x),
        !defs.contains(x),
    ensures
        unify_tuple(pat1, tup) is Ok <==> unify_tuple(pat2, tup) is Ok,
        (unify_tuple(pat1, tup) is Ok && unify_tuple(pat2, tup) is Ok) ==> project_env_v(
            contrib_env(pat1, tup, env),
            defs,
        ) == project_env_v(contrib_env(pat2, tup, env), defs),
{
    lemma_unify_wildcard_fresh(pat1, pat2, tup, p, x, 0, Seq::empty(), Seq::empty());
    if unify_tuple(pat1, tup) is Ok && unify_tuple(pat2, tup) is Ok {
        let e1 = ok_env(unify_tuple(pat1, tup));
        let e2 = ok_env(unify_tuple(pat2, tup));
        assert forall|d: Seq<char>| defs.contains(d) implies assoc_get(e1 + env, d)
            == assoc_get(e2 + env, d) by {
            assert(d != x);
            lemma_assoc_get_concat(e1, env, d);
            lemma_assoc_get_concat(e2, env, d);
        }
        lemma_project_congr(e1 + env, e2 + env, defs, 0, Seq::empty());
    }
}

/// A wildcard never binds, at the query level: a fact goal holding a
/// wildcard at one position answers, once projected onto names that do not
/// mention it, exactly what the same goal with a fresh variable `x` at that
/// position answers — `x` occurring nowhere else in the goal, unbound in
/// the caller's environment, and not among the projected names.
pub proof fn lemma_wildcard_matches_fresh_variable(
    db: DbV,
    m1: MatchV,
    m2: MatchV,
    env: EnvV,
    p: int,
    x: Seq<char>,
    defs: Seq<Seq<char>>,
    pr: Result<EnvV, Seq<char>>,
)
    requires
        m2.name == m1.name,
        m2.expr == m1.expr.update(p, AtomV::Variable(x)),
        0 <= p < m1.expr.len(),
        m1.expr[p] is Wildcard,
        forall|q: int| 0 <= q < m1.expr.len() ==> (#[trigger] m1.expr[q]) != AtomV::Variable(x),
        assoc_get(env, x) is None,
        !defs.contains(x),
    ensures
        project_all(query_facts_v(db, m1, env), defs, 0, Seq::empty()).contains(pr)
            <==> project_all(query_facts_v(db, m2, env), defs, 0, Seq::empty()).contains(pr),
{
    let pat1 = eval_atoms(m1.expr, env);
    let pat2 = eval_atoms(m2.expr, env);
    assert(pat2 =~= pat1.update(p, AtomV::Variable(x))) by {
        assert forall|q: int| 0 <= q < m2.expr.len() implies pat2[q] == pat1.update(
            p,
            AtomV::Variable(x),
        )[q] by {
            if q == p {
                assert(m2.expr[p] == AtomV::Variable(x));
            } else {
                assert(m2.expr[q] == m1.expr[q]);
            }
        }
    }
    assert(pat1[p] is Wildcard);
    assert forall|q: int| 0 <= q < pat1.len() implies (#[trigger] pat1[q])
        != AtomV::Variable(x) by {
        assert(pat1[q] == eval_atom(m1.expr[q], env));
        match m1.expr[q] {
            AtomV::Variable(v) => {
                if v == x {
                    assert(m1.expr[q] == AtomV::Variable(x));
                }
            },
            _ => {},
        }
    }
    assert(match_key(m2) == match_key(m1));
    let qf1 = query_facts_v(db, m1, env);
    let qf2 = query_facts_v(db, m2, env);
    lemma_project_all_char(qf1, defs, 0, Seq::empty(), pr);
    lemma_project_all_char(qf2, defs, 0, Seq::empty(), pr);
    assert(!Seq::<Result<EnvV, Seq<char>>>::empty().contains(pr));
    match table_get(db.facts, match_key(m1)) {
        None => {
            assert(qf1.len() == 0 && qf2.len() == 0);
        },
        Some(bs) => {
            if exists|u: int| 0 <= u < qf1.len() && pr == project_env_v(#[trigger] qf1[u], defs) {
                let u = choose|u: int|
                    0 <= u < qf1.len() && pr == project_env_v(#[trigger] qf1[u], defs);
                assert(qf1.contains(qf1[u]));
                lemma_query_facts_char(db, m1, env, qf1[u]);
                let (jb, t): (int, int) = choose|jb: int, t: int|
                    0 <= jb < bs.len() && 0 <= t < (#[trigger] bs[jb]).1.len() && unify_tuple(
                        pat1,
                        #[trigger] bs[jb].1[t],
                    ) is Ok && qf1[u] == contrib_env(pat1, bs[jb].1[t], env);
                let tup = bs[jb].1[t];
                lemma_wildcard_pair(pat1, pat2, tup, p, x, env, defs);
                let e2 = contrib_env(pat2, tup, env);
                lemma_query_facts_char(db, m2, env, e2);
                assert(qf2.contains(e2));
                let u2 = choose|u2: int| 0 <= u2 < qf2.len() && qf2[u2] == e2;
                assert(pr == project_env_v(qf2[u2], defs));
            }
            if exists|u: int| 0 <= u < qf2.len() && pr == project_env_v(#[trigger] qf2[u], defs) {
                let u = choose|u: int|
                    0 <= u < qf2.len() && pr == project_env_v(#[trigger] qf2[u], defs);
                assert(qf2.contains(qf2[u]));
                lemma_query_facts_char(db, m2, env, qf2[u]);
                let (jb, t): (int, int) = choose|jb: int, t: int|
                    0 <= jb < bs.len() && 0 <= t < (#[trigger] bs[jb]).1.len() && unify_tuple(
                        pat2,
                        #[trigger] bs[jb].1[t],
                    ) is Ok && qf2[u] == contrib_env(pat2, bs[jb].1[t], env);
                let tup = bs[jb].1[t];
                lemma_wildcard_pair(pat1, pat2, tup, p, x, env, defs);
                let e1 = contrib_env(pat1, tup, env);
                lemma_query_facts_char(db, m1, env, e1);
                assert(qf1.contains(e1));
                let u1 = choose|u1: int| 0 <= u1 < qf1.len() && qf1[u1] == e1;
                assert(pr == project_env_v(qf1[u1], defs));
            }
        },
    }
}

} // verus!
