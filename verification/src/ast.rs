//! Terms of the engine: identifier symbols, tagged constant values, pattern
//! atoms, and the structured fact/rule definitions the store consumes.

use vstd::prelude::*;
use vstd::string::StrSliceExecFns;

verus! {

/// Owned identifier text. Content equality: two `GlobalStr`s are the same
/// identifier exactly when they hold the same characters.
#[derive(Debug, PartialEq, Eq, Hash)]
pub struct GlobalStr(pub String);

impl View for GlobalStr {
    type V = Seq<char>;

    open spec fn view(&self) -> Seq<char> {
        self.0@
    }
}

impl DeepView for GlobalStr {
    type V = Seq<char>;

    open spec fn deep_view(&self) -> Seq<char> {
        self@
    }
}

impl GlobalStr {
    pub fn new(i: &str) -> (r: GlobalStr)
        ensures
            r@ == i@,
    {
        GlobalStr(i.to_owned())
    }

    /// Content equality test on the identifier text.
    pub fn same(&self, other: &GlobalStr) -> (r: bool)
        ensures
            r == (self@ == other@),
    {
        self.0 == other.0
    }
}

impl Clone for GlobalStr {
    fn clone(&self) -> (r: Self)
        ensures
            r == *self,
    {
        GlobalStr(self.0.clone())
    }
}

/// Identifier used for predicate names and variable names.
#[derive(Debug, PartialEq, Eq, Hash)]
pub struct Symbol(pub GlobalStr);

impl View for Symbol {
    type V = Seq<char>;

    open spec fn view(&self) -> Seq<char> {
        self.0@
    }
}

impl DeepView for Symbol {
    type V = Seq<char>;

    open spec fn deep_view(&self) -> Seq<char> {
        self@
    }
}

impl Symbol {
    pub fn new(s: &str) -> (r: Symbol)
        ensures
            r@ == s@,
    {
        Symbol(GlobalStr::new(s))
    }

    /// Content equality test on the symbol's text.
    pub fn same(&self, other: &Symbol) -> (r: bool)
        ensures
            r == (self@ == other@),
    {
        self.0.same(&other.0)
    }
}

impl Clone for Symbol {
    fn clone(&self) -> (r: Self)
        ensures
            r == *self,
    {
        Symbol(self.0.clone())
    }
}

/// The static type of a constant value, one tag per `Constant` variant.
/// Used to partition stored definitions by per-position type signature.
#[derive(Debug, Clone, Copy, PartialEq, Eq, Hash, Structural)]
pub enum ConstType {
    Nil,
    Bool,
    Int,
    Uint,
    Float,
    Str,
}

/// A tagged scalar value. `Nil` is a distinct first-class value, not an
/// absence marker. `Float` carries the IEEE-754 bit pattern of the number:
/// equality is bit-for-bit (so a NaN equals an identical NaN, and negative
/// zero differs from positive zero), which keeps equality consistent with
/// content hashing.
#[derive(Debug, PartialEq, Eq, Hash)]
pub enum Constant {
    Nil,
    Bool(bool),
    Int(i64),
    Uint(u64),
    Float(u64),
    Str(GlobalStr),
}

/// Mathematical value of a `Constant`: the same tagged alternatives with the
/// string payload taken as its character sequence.
#[verifier::ext_equal]
pub enum ConstV {
    Nil,
    Bool(bool),
    Int(i64),
    Uint(u64),
    Float(u64),
    Str(Seq<char>),
}

impl ConstV {
    /// The static type tag of this value.
    pub open spec fn tag(self) -> ConstType {
        match self {
            ConstV::Nil => ConstType::Nil,
            ConstV::Bool(_) => ConstType::Bool,
            ConstV::Int(_) => ConstType::Int,
            ConstV::Uint(_) => ConstType::Uint,
            ConstV::Float(_) => ConstType::Float,
            ConstV::Str(_) => ConstType::Str,
        }
    }
}

/// Maps a float's bit pattern to an integer key whose `<` agrees with the
/// numeric order of the encoded numbers: a sign-magnitude encoding is turned
/// into a two's-complement-style offset. Negative zero sorts just below
/// positive zero, and NaN payloads sort past the infinities of their sign.
pub open spec fn float_order_key(bits: u64) -> int {
    if bits >= 0x8000_0000_0000_0000 {
        0xFFFF_FFFF_FFFF_FFFFu64 - bits
    } else {
        bits + 0x8000_0000_0000_0000
    }
}

/// Strict lexicographic comparison of two character sequences from position
/// `i` on.
pub open spec fn chars_lt_from(a: Seq<char>, b: Seq<char>, i: int) -> bool
    decreases a.len() - i,
{
    if i < 0 || i >= b.len() {
        false
    } else if i >= a.len() {
        true
    } else if (a[i] as u32) < (b[i] as u32) {
        true
    } else if (a[i] as u32) > (b[i] as u32) {
        false
    } else {
        chars_lt_from(a, b, i + 1)
    }
}

/// Strict lexicographic order on character sequences; a proper prefix sorts
/// before its extensions.
pub open spec fn chars_lt(a: Seq<char>, b: Seq<char>) -> bool {
    chars_lt_from(a, b, 0)
}

/// Strict natural order of two constant values of the same tag: booleans with
/// false below true, integers numerically, floats by their encoded number,
/// strings lexicographically. Values of different tags are never ordered, and
/// `Nil` is only equal to itself.
pub open spec fn const_lt(a: ConstV, b: ConstV) -> bool {
    match (a, b) {
        (ConstV::Bool(x), ConstV::Bool(y)) => !x && y,
        (ConstV::Int(x), ConstV::Int(y)) => x < y,
        (ConstV::Uint(x), ConstV::Uint(y)) => x < y,
        (ConstV::Float(x), ConstV::Float(y)) => float_order_key(x) < float_order_key(y),
        (ConstV::Str(x), ConstV::Str(y)) => chars_lt(x, y),
        _ => false,
    }
}

impl View for Constant {
    type V = ConstV;

    open spec fn view(&self) -> ConstV {
        match self {
            Constant::Nil => ConstV::Nil,
            Constant::Bool(b) => ConstV::Bool(*b),
            Constant::Int(i) => ConstV::Int(*i),
            Constant::Uint(u) => ConstV::Uint(*u),
            Constant::Float(bits) => ConstV::Float(*bits),
            Constant::Str(s) => ConstV::Str(s@),
        }
    }
}

impl DeepView for Constant {
    type V = ConstV;

    open spec fn deep_view(&self) -> ConstV {
        self@
    }
}

impl Clone for Constant {
    fn clone(&self) -> (r: Self)
        ensures
            r@ == self@,
    {
        match self {
            Constant::Nil => Constant::Nil,
            Constant::Bool(b) => Constant::Bool(*b),
            Constant::Int(i) => Constant::Int(*i),
            Constant::Uint(u) => Constant::Uint(*u),
            Constant::Float(bits) => Constant::Float(*bits),
            Constant::Str(s) => Constant::Str(s.clone()),
        }
    }
}

impl Constant {
    /// The static type tag of this value.
    pub fn tag(&self) -> (t: ConstType)
        ensures
            t == self@.tag(),
    {
        match self {
            Constant::Nil => ConstType::Nil,
            Constant::Bool(_) => ConstType::Bool,
            Constant::Int(_) => ConstType::Int,
            Constant::Uint(_) => ConstType::Uint,
            Constant::Float(_) => ConstType::Float,
            Constant::Str(_) => ConstType::Str,
        }
    }

    /// Structural equality of two constant values.
    pub fn same(&self, other: &Constant) -> (r: bool)
        ensures
            r == (self@ == other@),
    {
        match (self, other) {
            (Constant::Nil, Constant::Nil) => true,
            (Constant::Bool(x), Constant::Bool(y)) => x == y,
            (Constant::Int(x), Constant::Int(y)) => x == y,
            (Constant::Uint(x), Constant::Uint(y)) => x == y,
            (Constant::Float(x), Constant::Float(y)) => x == y,
            (Constant::Str(x), Constant::Str(y)) => x.same(y),
            _ => false,
        }
    }
}

/// The integer ordering key of a float's bit pattern; agrees with
/// `float_order_key`.
fn float_key(bits: u64) -> (k: u64)
    ensures
        k as int == float_order_key(bits),
{
    if bits >= 0x8000_0000_0000_0000 {
        0xFFFF_FFFF_FFFF_FFFF - bits
    } else {
        bits + 0x8000_0000_0000_0000
    }
}

impl GlobalStr {
    /// Strict lexicographic order on the character content.
    pub fn lt(&self, other: &GlobalStr) -> (r: bool)
        ensures
            r == chars_lt(self@, other@),
    {
        let a = self.0.as_str();
        let b = other.0.as_str();
        let la = a.unicode_len();
        let lb = b.unicode_len();
        let mut i: usize = 0;
        loop
            invariant
                i <= la,
                i <= lb,
                la == a@.len(),
                lb == b@.len(),
                a@ == self@,
                b@ == other@,
                chars_lt_from(self@, other@, i as int) == chars_lt(self@, other@),
            decreases la - i,
        {
            if i >= lb {
                return false;
            }
            if i >= la {
                return true;
            }
            let ca = a.get_char(i);
            let cb = b.get_char(i);
            if (ca as u32) < (cb as u32) {
                return true;
            }
            if (ca as u32) > (cb as u32) {
                return false;
            }
            i += 1;
        }
    }
}

impl Constant {
    /// Strict natural order of two constants of the same tag; constants of
    /// different tags are never ordered.
    pub fn lt(&self, other: &Constant) -> (r: bool)
        ensures
            r == const_lt(self@, other@),
    {
        match (self, other) {
            (Constant::Bool(x), Constant::Bool(y)) => !*x && *y,
            (Constant::Int(x), Constant::Int(y)) => x < y,
            (Constant::Uint(x), Constant::Uint(y)) => x < y,
            (Constant::Float(x), Constant::Float(y)) => float_key(*x) < float_key(*y),
            (Constant::Str(x), Constant::Str(y)) => x.lt(y),
            _ => false,
        }
    }
}

impl From<()> for Constant {
    fn from(_v: ()) -> (r: Self) {
        Constant::Nil
    }
}

impl vstd::std_specs::convert::FromSpecImpl<()> for Constant {
    open spec fn obeys_from_spec() -> bool {
        true
    }

    open spec fn from_spec(v: ()) -> Self {
        Constant::Nil
    }
}

impl From<bool> for Constant {
    fn from(v: bool) -> (r: Self) {
        Constant::Bool(v)
    }
}

impl vstd::std_specs::convert::FromSpecImpl<bool> for Constant {
    open spec fn obeys_from_spec() -> bool {
        true
    }

    open spec fn from_spec(v: bool) -> Self {
        Constant::Bool(v)
    }
}

impl From<i64> for Constant {
    fn from(v: i64) -> (r: Self) {
        Constant::Int(v)
    }
}

impl vstd::std_specs::convert::FromSpecImpl<i64> for Constant {
    open spec fn obeys_from_spec() -> bool {
        true
    }

    open spec fn from_spec(v: i64) -> Self {
        Constant::Int(v)
    }
}

impl From<u64> for Constant {
    fn from(v: u64) -> (r: Self) {
        Constant::Uint(v)
    }
}

impl vstd::std_specs::convert::FromSpecImpl<u64> for Constant {
    open spec fn obeys_from_spec() -> bool {
        true
    }

    open spec fn from_spec(v: u64) -> Self {
        Constant::Uint(v)
    }
}

impl From<GlobalStr> for Constant {
    fn from(v: GlobalStr) -> (r: Self) {
        Constant::Str(v)
    }
}

impl vstd::std_specs::convert::FromSpecImpl<GlobalStr> for Constant {
    open spec fn obeys_from_spec() -> bool {
        true
    }

    open spec fn from_spec(v: GlobalStr) -> Self {
        Constant::Str(v)
    }
}

/// A pattern element, used both as a query term and as a rule's formal
/// parameter: matches anything (`Wildcard`), a literal value (`Const`), or a
/// named variable (`Variable`).
#[derive(Debug, PartialEq, Eq)]
pub enum Atom {
    Wildcard,
    Const(Constant),
    Variable(Symbol),
}

/// Mathematical value of an `Atom`.
#[verifier::ext_equal]
pub enum AtomV {
    Wildcard,
    Const(ConstV),
    Variable(Seq<char>),
}

impl View for Atom {
    type V = AtomV;

    open spec fn view(&self) -> AtomV {
        match self {
            Atom::Wildcard => AtomV::Wildcard,
            Atom::Const(c) => AtomV::Const(c@),
            Atom::Variable(s) => AtomV::Variable(s@),
        }
    }
}

impl DeepView for Atom {
    type V = AtomV;

    open spec fn deep_view(&self) -> AtomV {
        self@
    }
}

impl Clone for Atom {
    fn clone(&self) -> (r: Self)
        ensures
            r@ == self@,
    {
        match self {
            Atom::Wildcard => Atom::Wildcard,
            Atom::Const(c) => Atom::Const(c.clone()),
            Atom::Variable(s) => Atom::Variable(s.clone()),
        }
    }
}

/// A named pattern, kept for front-ends that tag variables explicitly.
#[derive(Debug, PartialEq, Eq)]
pub enum Pattern {
    Variable(Symbol),
}

impl Clone for Pattern {
    fn clone(&self) -> (r: Self)
        ensures
            r == *self,
    {
        match self {
            Pattern::Variable(s) => Pattern::Variable(s.clone()),
        }
    }
}

impl View for Pattern {
    type V = Seq<char>;

    open spec fn view(&self) -> Seq<char> {
        match self {
            Pattern::Variable(s) => s@,
        }
    }
}

/// One conjunctive sub-goal: a predicate name applied to argument atoms.
#[derive(Debug, PartialEq, Eq)]
pub struct Match {
    pub name: Symbol,
    pub expr: Vec<Atom>,
}

/// Mathematical value of a `Match`.
#[verifier::ext_equal]
pub struct MatchV {
    pub name: Seq<char>,
    pub expr: Seq<AtomV>,
}

impl View for Match {
    type V = MatchV;

    open spec fn view(&self) -> MatchV {
        MatchV { name: self.name@, expr: self.expr.deep_view() }
    }
}

impl DeepView for Match {
    type V = MatchV;

    open spec fn deep_view(&self) -> MatchV {
        self@
    }
}

impl Clone for Match {
    fn clone(&self) -> (r: Self)
        ensures
            r@ == self@,
    {
        let expr = clone_atoms(&self.expr);
        proof {
            assert(expr.deep_view() =~= self.expr.deep_view());
        }
        Match { name: self.name.clone(), expr }
    }
}

/// Clones a vector of atoms, keeping its mathematical value.
pub fn clone_atoms(v: &Vec<Atom>) -> (r: Vec<Atom>)
    ensures
        r.deep_view() =~= v.deep_view(),
{
    let mut r: Vec<Atom> = Vec::new();
    let mut i: usize = 0;
    while i < v.len()
        invariant
            i <= v.len(),
            r.deep_view() =~= v.deep_view().take(i as int),
        decreases v.len() - i,
    {
        let ghost prev = r.deep_view();
        let c = v[i].clone();
        r.push(c);
        proof {
            assert(r.deep_view() =~= prev.push(v@[i as int]@));
            assert(v.deep_view().take(i as int + 1) =~= prev.push(v@[i as int]@));
        }
        i += 1;
    }
    proof {
        assert(v.deep_view().take(v.len() as int) =~= v.deep_view());
    }
    r
}

/// A negated sub-goal: satisfied when its inner goal matches no stored fact.
#[derive(Debug, PartialEq, Eq)]
pub struct NotMatch(pub Match);

impl View for NotMatch {
    type V = MatchV;

    open spec fn view(&self) -> MatchV {
        self.0@
    }
}

impl DeepView for NotMatch {
    type V = MatchV;

    open spec fn deep_view(&self) -> MatchV {
        self@
    }
}

impl Clone for NotMatch {
    fn clone(&self) -> (r: Self)
        ensures
            r@ == self@,
    {
        NotMatch(self.0.clone())
    }
}

/// A binary comparison over two atoms, evaluated against an environment after
/// a rule's body has been resolved.
#[derive(Debug, PartialEq, Eq)]
pub enum Filter {
    Eq(Atom, Atom),
    NotEq(Atom, Atom),
    Lt(Atom, Atom),
    Gt(Atom, Atom),
    LtEq(Atom, Atom),
    GtEq(Atom, Atom),
}

/// Mathematical value of a `Filter`.
#[verifier::ext_equal]
pub enum FilterV {
    Eq(AtomV, AtomV),
    NotEq(AtomV, AtomV),
    Lt(AtomV, AtomV),
    Gt(AtomV, AtomV),
    LtEq(AtomV, AtomV),
    GtEq(AtomV, AtomV),
}

impl View for Filter {
    type V = FilterV;

    open spec fn view(&self) -> FilterV {
        match self {
            Filter::Eq(a, b) => FilterV::Eq(a@, b@),
            Filter::NotEq(a, b) => FilterV::NotEq(a@, b@),
            Filter::Lt(a, b) => FilterV::Lt(a@, b@),
            Filter::Gt(a, b) => FilterV::Gt(a@, b@),
            Filter::LtEq(a, b) => FilterV::LtEq(a@, b@),
            Filter::GtEq(a, b) => FilterV::GtEq(a@, b@),
        }
    }
}

impl DeepView for Filter {
    type V = FilterV;

    open spec fn deep_view(&self) -> FilterV {
        self@
    }
}

/// A ground fact to load: a predicate name and the tuple of constant values.
#[derive(Debug, PartialEq, Eq)]
pub struct FactDef {
    pub name: Symbol,
    pub values: Vec<Constant>,
}

/// Mathematical value of a `FactDef`.
#[verifier::ext_equal]
pub struct FactDefV {
    pub name: Seq<char>,
    pub values: Seq<ConstV>,
}

impl View for FactDef {
    type V = FactDefV;

    open spec fn view(&self) -> FactDefV {
        FactDefV { name: self.name@, values: self.values.deep_view() }
    }
}

/// A derivation rule: formal parameters, a conjunction of positive sub-goals,
/// negated sub-goals checked against stored facts only, and comparison
/// filters applied last.
#[derive(Debug, PartialEq, Eq)]
pub struct Rule {
    pub name: Symbol,
    pub args: Vec<Atom>,
    pub matchs: Vec<Match>,
    pub not_matchs: Vec<NotMatch>,
    pub filter: Vec<Filter>,
}

/// Mathematical value of a `Rule`.
#[verifier::ext_equal]
pub struct RuleV {
    pub name: Seq<char>,
    pub args: Seq<AtomV>,
    pub matchs: Seq<MatchV>,
    pub not_matchs: Seq<MatchV>,
    pub filter: Seq<FilterV>,
}

impl View for Rule {
    type V = RuleV;

    open spec fn view(&self) -> RuleV {
        RuleV {
            name: self.name@,
            args: self.args.deep_view(),
            matchs: self.matchs.deep_view(),
            not_matchs: self.not_matchs.deep_view(),
            filter: self.filter.deep_view(),
        }
    }
}

impl DeepView for Rule {
    type V = RuleV;

    open spec fn deep_view(&self) -> RuleV {
        self@
    }
}

} // verus!
