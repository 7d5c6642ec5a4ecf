//! The predicate store: a two-level partitioned table mapping a predicate
//! key (name and arity) to type-signature buckets of append-only entries,
//! and the `Database` owning one such table for facts and one for rules.

use vstd::prelude::*;

use crate::ast::{Atom, AtomV, ConstType, ConstV, Constant, FactDef, FactDefV, Rule, RuleV,
    Symbol};

verus! {

/// Primary partition of the store: predicate name and arity.
#[derive(Debug, PartialEq, Eq, Hash)]
pub struct Key(pub Symbol, pub usize);

/// Mathematical value of a `Key`.
#[verifier::ext_equal]
pub struct KeyV {
    pub name: Seq<char>,
    pub arity: int,
}

impl View for Key {
    type V = KeyV;

    open spec fn view(&self) -> KeyV {
        KeyV { name: self.0@, arity: self.1 as int }
    }
}

impl DeepView for Key {
    type V = KeyV;

    open spec fn deep_view(&self) -> KeyV {
        self@
    }
}

impl Key {
    /// Equality of predicate keys: same name text and same arity.
    pub fn same(&self, other: &Key) -> (r: bool)
        ensures
            r == (self@ == other@),
    {
        self.0.same(&other.0) && self.1 == other.1
    }
}

impl Clone for Key {
    fn clone(&self) -> (r: Self)
        ensures
            r == *self,
    {
        Key(self.0.clone(), self.1)
    }
}

/// Secondary partition: the per-position static type of each argument, with
/// `None` for a position whose type is not known (a variable or wildcard
/// parameter).
pub type TypeSignature = Vec<Option<ConstType>>;

/// Mathematical value of a `TypeSignature`.
pub type SigV = Seq<Option<ConstType>>;

/// An ordered tuple of constants stored under a predicate key.
#[derive(Debug, PartialEq, Eq)]
pub struct Fact(pub Vec<Constant>);

impl View for Fact {
    type V = Seq<ConstV>;

    open spec fn view(&self) -> Seq<ConstV> {
        self.0.deep_view()
    }
}

impl DeepView for Fact {
    type V = Seq<ConstV>;

    open spec fn deep_view(&self) -> Seq<ConstV> {
        self@
    }
}

/// One type-signature bucket: the append-only list of entries loaded under a
/// fixed key and signature.
#[derive(Debug)]
pub struct Bucket<T> {
    pub sig: TypeSignature,
    pub items: Vec<T>,
}

impl<T: DeepView> DeepView for Bucket<T> {
    type V = (SigV, Seq<T::V>);

    open spec fn deep_view(&self) -> (SigV, Seq<T::V>) {
        (self.sig@, self.items.deep_view())
    }
}

/// All buckets stored under one predicate key.
#[derive(Debug)]
pub struct TableEntry<T> {
    pub key: Key,
    pub buckets: Vec<Bucket<T>>,
}

impl<T: DeepView> DeepView for TableEntry<T> {
    type V = (KeyV, Seq<(SigV, Seq<T::V>)>);

    open spec fn deep_view(&self) -> (KeyV, Seq<(SigV, Seq<T::V>)>) {
        (self.key@, self.buckets.deep_view())
    }
}

/// Mathematical value of a bucket.
pub type BucketV<X> = (SigV, Seq<X>);

/// Mathematical value of a table entry.
pub type EntryV<X> = (KeyV, Seq<BucketV<X>>);

/// Mathematical value of a table.
pub type TableV<X> = Seq<EntryV<X>>;

/// A two-level partitioned collection: predicate key, then type signature,
/// then an append-only list of entries.
#[derive(Debug)]
pub struct Table<T> {
    pub entries: Vec<TableEntry<T>>,
}

impl<T: DeepView> View for Table<T> {
    type V = TableV<T::V>;

    open spec fn view(&self) -> TableV<T::V> {
        self.entries.deep_view()
    }
}

/// Looks a key up from position `i` on: the buckets of the first entry whose
/// key matches, if any.
pub open spec fn table_get_from<X>(t: TableV<X>, key: KeyV, i: int) -> Option<Seq<BucketV<X>>>
    decreases t.len() - i,
{
    if i < 0 || i >= t.len() {
        None
    } else if t[i].0 == key {
        Some(t[i].1)
    } else {
        table_get_from(t, key, i + 1)
    }
}

/// The buckets stored under `key`, if the key has been loaded.
pub open spec fn table_get<X>(t: TableV<X>, key: KeyV) -> Option<Seq<BucketV<X>>> {
    table_get_from(t, key, 0)
}

/// Looks a signature up among buckets from position `i` on.
pub open spec fn buckets_get_from<X>(bs: Seq<BucketV<X>>, sig: SigV, i: int) -> Option<Seq<X>>
    decreases bs.len() - i,
{
    if i < 0 || i >= bs.len() {
        None
    } else if bs[i].0 == sig {
        Some(bs[i].1)
    } else {
        buckets_get_from(bs, sig, i + 1)
    }
}

/// The entries stored under `sig` among the buckets of one key.
pub open spec fn buckets_get<X>(bs: Seq<BucketV<X>>, sig: SigV) -> Option<Seq<X>> {
    buckets_get_from(bs, sig, 0)
}

/// Appends an item into the first bucket matching `sig` from position `i`
/// on, or adds a new bucket at the end.
pub open spec fn entry_load_from<X>(bs: Seq<BucketV<X>>, sig: SigV, item: X, i: int) -> Seq<
    BucketV<X>,
>
    decreases bs.len() - i,
{
    if i < 0 || i >= bs.len() {
        bs.push((sig, seq![item]))
    } else if bs[i].0 == sig {
        bs.update(i, (bs[i].0, bs[i].1.push(item)))
    } else {
        entry_load_from(bs, sig, item, i + 1)
    }
}

/// Appends an item into the bucket of `sig`, creating the bucket if absent.
pub open spec fn entry_load<X>(bs: Seq<BucketV<X>>, sig: SigV, item: X) -> Seq<BucketV<X>> {
    entry_load_from(bs, sig, item, 0)
}

/// Appends an item under `(key, sig)` from position `i` on, creating the
/// entry at the end when the key is absent.
pub open spec fn table_load_from<X>(t: TableV<X>, key: KeyV, sig: SigV, item: X, i: int) -> TableV<
    X,
>
    decreases t.len() - i,
{
    if i < 0 || i >= t.len() {
        t.push((key, seq![(sig, seq![item])]))
    } else if t[i].0 == key {
        t.update(i, (t[i].0, entry_load(t[i].1, sig, item)))
    } else {
        table_load_from(t, key, sig, item, i + 1)
    }
}

/// The table after appending an item under `(key, sig)`: insert-or-append,
/// never removing or reordering what is already stored.
pub open spec fn table_load<X>(t: TableV<X>, key: KeyV, sig: SigV, item: X) -> TableV<X> {
    table_load_from(t, key, sig, item, 0)
}

/// All items stored under one key, across its signature buckets in order,
/// from bucket `i` on.
pub open spec fn all_items_from<X>(bs: Seq<BucketV<X>>, i: int) -> Seq<X>
    decreases bs.len() - i,
{
    if i < 0 || i >= bs.len() {
        Seq::empty()
    } else {
        bs[i].1 + all_items_from(bs, i + 1)
    }
}

/// All items stored under one key, across its signature buckets in order.
pub open spec fn all_items<X>(bs: Seq<BucketV<X>>) -> Seq<X> {
    all_items_from(bs, 0)
}

/// The type signature of a fact tuple: the static type of each position.
pub open spec fn sig_of_consts(vals: Seq<ConstV>) -> SigV {
    vals.map_values(|c: ConstV| Some(c.tag()))
}

/// The signature slot contributed by one rule parameter: known only for a
/// literal constant.
pub open spec fn atom_slot(a: AtomV) -> Option<ConstType> {
    match a {
        AtomV::Const(c) => Some(c.tag()),
        _ => None,
    }
}

/// The type signature of a rule's parameter list.
pub open spec fn sig_of_atoms(args: Seq<AtomV>) -> SigV {
    args.map_values(|a: AtomV| atom_slot(a))
}

/// The store key a fact definition is filed under.
pub open spec fn fact_key(f: FactDefV) -> KeyV {
    KeyV { name: f.name, arity: f.values.len() as int }
}

/// The store key a rule is filed under.
pub open spec fn rule_key(r: RuleV) -> KeyV {
    KeyV { name: r.name, arity: r.args.len() as int }
}

/// Whether the rule table already holds a definition under this rule's key
/// and signature.
pub open spec fn rule_occupied(t: TableV<RuleV>, r: RuleV) -> bool {
    match table_get(t, rule_key(r)) {
        Some(bs) => buckets_get(bs, sig_of_atoms(r.args)) is Some,
        None => false,
    }
}

/// A lookup that skipped only non-matching entries looks the rest up
/// unchanged.
pub proof fn lemma_table_get_from_prefix<X>(t: TableV<X>, key: KeyV, i: int)
    requires
        0 <= i <= t.len(),
        forall|j: int| 0 <= j < i ==> (#[trigger] t[j]).0 != key,
    ensures
        table_get(t, key) == table_get_from(t, key, i),
    decreases i,
{
    if i > 0 {
        lemma_table_get_from_prefix(t, key, i - 1);
    }
}

/// As `lemma_table_get_from_prefix`, for the signature lookup.
pub proof fn lemma_buckets_get_from_prefix<X>(bs: Seq<BucketV<X>>, sig: SigV, i: int)
    requires
        0 <= i <= bs.len(),
        forall|j: int| 0 <= j < i ==> (#[trigger] bs[j]).0 != sig,
    ensures
        buckets_get(bs, sig) == buckets_get_from(bs, sig, i),
    decreases i,
{
    if i > 0 {
        lemma_buckets_get_from_prefix(bs, sig, i - 1);
    }
}

/// As `lemma_table_get_from_prefix`, for the append path.
pub proof fn lemma_table_load_from_prefix<X>(t: TableV<X>, key: KeyV, sig: SigV, item: X, i: int)
    requires
        0 <= i <= t.len(),
        forall|j: int| 0 <= j < i ==> (#[trigger] t[j]).0 != key,
    ensures
        table_load(t, key, sig, item) == table_load_from(t, key, sig, item, i),
    decreases i,
{
    if i > 0 {
        lemma_table_load_from_prefix(t, key, sig, item, i - 1);
    }
}

/// As `lemma_buckets_get_from_prefix`, for the append path within one entry.
pub proof fn lemma_entry_load_from_prefix<X>(bs: Seq<BucketV<X>>, sig: SigV, item: X, i: int)
    requires
        0 <= i <= bs.len(),
        forall|j: int| 0 <= j < i ==> (#[trigger] bs[j]).0 != sig,
    ensures
        entry_load(bs, sig, item) == entry_load_from(bs, sig, item, i),
    decreases i,
{
    if i > 0 {
        lemma_entry_load_from_prefix(bs, sig, item, i - 1);
    }
}

/// Equality of two type signatures.
pub fn sig_same(a: &TypeSignature, b: &TypeSignature) -> (r: bool)
    ensures
        r == (a@ == b@),
{
    if a.len() != b.len() {
        return false;
    }
    let mut i: usize = 0;
    while i < a.len()
        invariant
            i <= a.len(),
            a@.len() == b@.len(),
            forall|j: int| 0 <= j < i ==> a@[j] == b@[j],
        decreases a.len() - i,
    {
        let eq = match (a[i], b[i]) {
            (Option::None, Option::None) => true,
            (Option::Some(x), Option::Some(y)) => x == y,
            _ => false,
        };
        if !eq {
            return false;
        }
        i += 1;
    }
    proof {
        assert(a@ =~= b@);
    }
    true
}

/// The type signature of a fact tuple, computed position by position.
pub fn fact_signature(vals: &Vec<Constant>) -> (s: TypeSignature)
    ensures
        s@ == sig_of_consts(vals.deep_view()),
{
    let mut s: TypeSignature = Vec::new();
    let mut i: usize = 0;
    while i < vals.len()
        invariant
            i <= vals.len(),
            s@.len() == i,
            forall|j: int| 0 <= j < i ==> s@[j] == Some(vals.deep_view()[j].tag()),
        decreases vals.len() - i,
    {
        s.push(Some(vals[i].tag()));
        i += 1;
    }
    proof {
        assert(s@ =~= sig_of_consts(vals.deep_view()));
    }
    s
}

/// The type signature of a rule's parameter list, computed position by
/// position: a literal parameter contributes its type, anything else an
/// unknown slot.
pub fn rule_signature(args: &Vec<Atom>) -> (s: TypeSignature)
    ensures
        s@ == sig_of_atoms(args.deep_view()),
{
    let mut s: TypeSignature = Vec::new();
    let mut i: usize = 0;
    while i < args.len()
        invariant
            i <= args.len(),
            s@.len() == i,
            forall|j: int| 0 <= j < i ==> s@[j] == atom_slot(args.deep_view()[j]),
        decreases args.len() - i,
    {
        match &args[i] {
            Atom::Const(c) => {
                s.push(Some(c.tag()));
            },
            _ => {
                s.push(None);
            },
        }
        i += 1;
    }
    proof {
        assert(s@ =~= sig_of_atoms(args.deep_view()));
    }
    s
}

/// First bucket whose signature matches, if any.
fn find_bucket<T: DeepView>(bs: &Vec<Bucket<T>>, sig: &TypeSignature) -> (r: Option<usize>)
    ensures
        match r {
            Some(j) => 0 <= j < bs@.len() && bs.deep_view()[j as int].0 == sig@ && forall|k: int|
                0 <= k < j ==> (#[trigger] bs.deep_view()[k]).0 != sig@,
            None => forall|k: int|
                0 <= k < bs@.len() ==> (#[trigger] bs.deep_view()[k]).0 != sig@,
        },
{
    let mut j: usize = 0;
    while j < bs.len()
        invariant
            j <= bs.len(),
            forall|k: int| 0 <= k < j ==> (#[trigger] bs.deep_view()[k]).0 != sig@,
        decreases bs.len() - j,
    {
        if sig_same(&bs[j].sig, sig) {
            return Some(j);
        }
        j += 1;
    }
    None
}

impl<T: DeepView> Table<T> {
    /// An empty table.
    pub fn new() -> (t: Table<T>)
        ensures
            t@.len() == 0,
    {
        Table { entries: Vec::new() }
    }

    /// First entry whose key matches, if any.
    fn find_entry(&self, key: &Key) -> (r: Option<usize>)
        ensures
            match r {
                Some(i) => 0 <= i < self@.len() && self@[i as int].0 == key@ && forall|j: int|
                    0 <= j < i ==> (#[trigger] self@[j]).0 != key@,
                None => forall|j: int| 0 <= j < self@.len() ==> (#[trigger] self@[j]).0 != key@,
            },
    {
        let mut i: usize = 0;
        while i < self.entries.len()
            invariant
                i <= self.entries.len(),
                self@.len() == self.entries@.len(),
                forall|j: int| 0 <= j < i ==> (#[trigger] self@[j]).0 != key@,
            decreases self.entries.len() - i,
        {
            if self.entries[i].key.same(key) {
                return Some(i);
            }
            i += 1;
        }
        None
    }

    /// The read path of resolution: a handle to all signature buckets stored
    /// under `key`, or nothing when the key was never loaded.
    pub fn get_lines(&self, key: &Key) -> (r: Option<&Vec<Bucket<T>>>)
        ensures
            match r {
                Some(bs) => table_get(self@, key@) == Some(bs.deep_view()),
                None => table_get(self@, key@) is None,
            },
    {
        match self.find_entry(key) {
            Some(i) => {
                proof {
                    lemma_table_get_from_prefix(self@, key@, i as int);
                }
                Some(&self.entries[i].buckets)
            },
            None => {
                proof {
                    lemma_table_get_from_prefix(self@, key@, self@.len() as int);
                }
                None
            },
        }
    }

    /// Whether a bucket already exists under `(key, sig)`.
    pub fn has_bucket(&self, key: &Key, sig: &TypeSignature) -> (r: bool)
        ensures
            r == (match table_get(self@, key@) {
                Some(bs) => buckets_get(bs, sig@) is Some,
                None => false,
            }),
    {
        match self.get_lines(key) {
            Some(bs) => {
                match find_bucket(bs, sig) {
                    Some(j) => {
                        proof {
                            lemma_buckets_get_from_prefix(bs.deep_view(), sig@, j as int);
                        }
                        true
                    },
                    None => {
                        proof {
                            lemma_buckets_get_from_prefix(
                                bs.deep_view(),
                                sig@,
                                bs.deep_view().len() as int,
                            );
                        }
                        false
                    },
                }
            },
            None => false,
        }
    }

    /// Appends one item under `(key, sig)`, creating the key's entry and the
    /// signature's bucket when absent. Insert-or-append: existing contents
    /// are neither removed nor reordered.
    pub fn load(&mut self, key: Key, sig: TypeSignature, item: T)
        ensures
            final(self)@ == table_load(old(self)@, key@, sig@, item.deep_view()),
    {
        let ghost t0 = self@;
        match self.find_entry(&key) {
            Some(i) => {
                proof {
                    lemma_table_load_from_prefix(t0, key@, sig@, item.deep_view(), i as int);
                }
                let ghost bs0 = t0[i as int].1;
                match find_bucket(&self.entries[i].buckets, &sig) {
                    Some(j) => {
                        proof {
                            lemma_entry_load_from_prefix(bs0, sig@, item.deep_view(), j as int);
                        }
                        self.entries[i].buckets[j].items.push(item);
                        proof {
                            assert(self@ =~~= table_load(t0, key@, sig@, item.deep_view()));
                        }
                    },
                    None => {
                        proof {
                            lemma_entry_load_from_prefix(
                                bs0,
                                sig@,
                                item.deep_view(),
                                bs0.len() as int,
                            );
                        }
                        let mut items: Vec<T> = Vec::new();
                        items.push(item);
                        self.entries[i].buckets.push(Bucket { sig, items });
                        proof {
                            assert(self@ =~~= table_load(t0, key@, sig@, item.deep_view()));
                        }
                    },
                }
            },
            None => {
                proof {
                    lemma_table_load_from_prefix(
                        t0,
                        key@,
                        sig@,
                        item.deep_view(),
                        t0.len() as int,
                    );
                }
                let mut items: Vec<T> = Vec::new();
                items.push(item);
                let mut buckets: Vec<Bucket<T>> = Vec::new();
                buckets.push(Bucket { sig, items });
                self.entries.push(TableEntry { key, buckets });
                proof {
                    assert(self@ =~~= table_load(t0, key@, sig@, item.deep_view()));
                }
            },
        }
    }
}

/// The error a load can report: the targeted key and signature already hold
/// a definition.
#[derive(Debug, Clone, Copy, PartialEq, Eq, Structural)]
pub enum DbError {
    DuplicateDefinition,
}

/// The root of the store: one table of facts and one of rules.
#[derive(Debug)]
pub struct Database {
    pub facts: Table<Fact>,
    pub rules: Table<Rule>,
}

/// Mathematical value of a `Database`.
#[verifier::ext_equal]
pub struct DbV {
    pub facts: TableV<Seq<ConstV>>,
    pub rules: TableV<RuleV>,
}

impl View for Database {
    type V = DbV;

    open spec fn view(&self) -> DbV {
        DbV { facts: self.facts@, rules: self.rules@ }
    }
}

impl Database {
    /// An empty database.
    pub fn new() -> (d: Database)
        ensures
            d@.facts.len() == 0,
            d@.rules.len() == 0,
    {
        Database { facts: Table::new(), rules: Table::new() }
    }

    /// Appends a ground fact under `(name, arity)` into the bucket of its
    /// tuple's type signature. Always succeeds: arity is whatever the tuple's
    /// length is, and duplicates are stored again.
    pub fn load_fact(&mut self, fact: FactDef)
        ensures
            final(self)@.facts == table_load(
                old(self)@.facts,
                fact_key(fact@),
                sig_of_consts(fact@.values),
                fact@.values,
            ),
            final(self)@.rules == old(self)@.rules,
    {
        let FactDef { name, values } = fact;
        let sig = fact_signature(&values);
        let arity = values.len();
        self.facts.load(Key(name, arity), sig, Fact(values));
    }

    /// Appends a rule under `(name, arity)` and the signature of its
    /// parameter list. Reports `DuplicateDefinition`, leaving the store
    /// unchanged, exactly when that key and signature already hold a
    /// definition.
    pub fn load_rule(&mut self, v: Rule) -> (r: Result<(), DbError>)
        ensures
            final(self)@.facts == old(self)@.facts,
            rule_occupied(old(self)@.rules, v@) ==> r == Err::<(), DbError>(
                DbError::DuplicateDefinition,
            ) && final(self)@.rules == old(self)@.rules,
            !rule_occupied(old(self)@.rules, v@) ==> r == Ok::<(), DbError>(())
                && final(self)@.rules == table_load(
                old(self)@.rules,
                rule_key(v@),
                sig_of_atoms(v@.args),
                v@,
            ),
    {
        let sig = rule_signature(&v.args);
        let key = Key(v.name.clone(), v.args.len());
        if self.rules.has_bucket(&key, &sig) {
            return Err(DbError::DuplicateDefinition);
        }
        self.rules.load(key, sig, v);
        Ok(())
    }
}

} // verus!
