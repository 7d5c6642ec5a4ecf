//! Static value types used as an indexing hint: a type tag per runtime value
//! shape, and a hint that may name one type, a union of types, or any type.

use vstd::prelude::*;

verus! {

/// A runtime value's static type tag.
#[derive(Debug, Clone, Copy, PartialEq, Eq, Hash, Structural)]
pub enum Type {
    Nil,
    Bool,
    Int,
    Uint,
    Float,
    Str,
    Vector,
    Mapping,
}

impl Type {
    /// Two type tags assert against each other exactly when they are equal.
    pub fn type_assert(&self, other: &Type) -> (r: bool)
        ensures
            r == (self == other),
    {
        match (self, other) {
            (Type::Nil, Type::Nil) => true,
            (Type::Bool, Type::Bool) => true,
            (Type::Int, Type::Int) => true,
            (Type::Uint, Type::Uint) => true,
            (Type::Float, Type::Float) => true,
            (Type::Str, Type::Str) => true,
            (Type::Vector, Type::Vector) => true,
            (Type::Mapping, Type::Mapping) => true,
            _ => false,
        }
    }

    /// Unifies two type tags: their common type when they agree, nothing
    /// otherwise.
    pub fn simple_unify(&self, other: &Type) -> (r: Option<Type>)
        ensures
            r == (if self == other {
                Some(*self)
            } else {
                Option::<Type>::None
            }),
    {
        if self.type_assert(other) {
            Some(*self)
        } else {
            None
        }
    }
}

/// A type hint: a single type, a union of admissible types, or any type at
/// all. The union is kept as a list of tags read as a set.
#[derive(Debug, Clone, PartialEq, Eq)]
pub enum HintType {
    Typ(Type),
    Union(Vec<Type>),
    Any,
}

/// Every type listed in `t2` is also listed in `t1`.
pub open spec fn types_subset(t1: Seq<Type>, t2: Seq<Type>) -> bool {
    forall|x: Type| #[trigger] t2.contains(x) ==> t1.contains(x)
}

/// What it means for hint `a` to accept hint `b`: equal single types, a union
/// accepts the single types it lists, a union accepts a sub-union, and `Any`
/// accepts everything.
pub open spec fn hint_accepts(a: HintType, b: HintType) -> bool {
    match a {
        HintType::Typ(t1) => match b {
            HintType::Typ(t2) => t1 == t2,
            HintType::Union(ts) => ts@.contains(t1),
            HintType::Any => false,
        },
        HintType::Union(ts) => match b {
            HintType::Typ(t2) => ts@.contains(t2),
            HintType::Union(t2) => types_subset(ts@, t2@),
            HintType::Any => false,
        },
        HintType::Any => true,
    }
}

/// Whether every tag listed in `t2` is also listed in `t1`.
fn types_contain_all(t1: &Vec<Type>, t2: &Vec<Type>) -> (r: bool)
    ensures
        r == types_subset(t1@, t2@),
{
    let mut i: usize = 0;
    while i < t2.len()
        invariant
            i <= t2.len(),
            forall|j: int| 0 <= j < i ==> t1@.contains(#[trigger] t2@[j]),
        decreases t2.len() - i,
    {
        if !types_contain(t1, &t2[i]) {
            proof {
                assert(t2@.contains(t2@[i as int]));
            }
            return false;
        }
        i += 1;
    }
    proof {
        assert forall|x: Type| t2@.contains(x) implies t1@.contains(x) by {
            let j = choose|j: int| 0 <= j < t2@.len() && t2@[j] == x;
            assert(t1@.contains(t2@[j]));
        }
    }
    true
}

/// Membership of a type tag in a list of tags.
fn types_contain(v: &Vec<Type>, t: &Type) -> (r: bool)
    ensures
        r == v@.contains(*t),
{
    let mut i: usize = 0;
    while i < v.len()
        invariant
            i <= v.len(),
            forall|j: int| 0 <= j < i ==> v@[j] != *t,
        decreases v.len() - i,
    {
        if v[i].type_assert(t) {
            return true;
        }
        i += 1;
    }
    false
}

impl HintType {
    /// Whether this hint accepts the other hint.
    pub fn type_assert(&self, other: &HintType) -> (r: bool)
        ensures
            r == hint_accepts(*self, *other),
    {
        match self {
            HintType::Typ(t1) => match other {
                HintType::Typ(t2) => t1.type_assert(t2),
                HintType::Union(ts) => types_contain(ts, t1),
                HintType::Any => false,
            },
            HintType::Union(t1) => match other {
                HintType::Typ(t2) => types_contain(t1, t2),
                HintType::Union(t2) => types_contain_all(t1, t2),
                HintType::Any => false,
            },
            HintType::Any => true,
        }
    }
}

impl From<&crate::ast::Constant> for Type {
    fn from(i: &crate::ast::Constant) -> (r: Self) {
        match i {
            crate::ast::Constant::Nil => Type::Nil,
            crate::ast::Constant::Bool(_) => Type::Bool,
            crate::ast::Constant::Int(_) => Type::Int,
            crate::ast::Constant::Uint(_) => Type::Uint,
            crate::ast::Constant::Float(_) => Type::Float,
            crate::ast::Constant::Str(_) => Type::Str,
        }
    }
}

impl vstd::std_specs::convert::FromSpecImpl<&crate::ast::Constant> for Type {
    open spec fn obeys_from_spec() -> bool {
        true
    }

    open spec fn from_spec(i: &crate::ast::Constant) -> Self {
        match i@ {
            crate::ast::ConstV::Nil => Type::Nil,
            crate::ast::ConstV::Bool(_) => Type::Bool,
            crate::ast::ConstV::Int(_) => Type::Int,
            crate::ast::ConstV::Uint(_) => Type::Uint,
            crate::ast::ConstV::Float(_) => Type::Float,
            crate::ast::ConstV::Str(_) => Type::Str,
        }
    }
}

impl From<Type> for HintType {
    fn from(i: Type) -> (r: Self) {
        HintType::Typ(i)
    }
}

impl vstd::std_specs::convert::FromSpecImpl<Type> for HintType {
    open spec fn obeys_from_spec() -> bool {
        true
    }

    open spec fn from_spec(t: Type) -> Self {
        HintType::Typ(t)
    }
}

} // verus!
