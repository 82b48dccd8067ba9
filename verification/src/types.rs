//! The types of the source language: the four primitives, named types, and
//! fixed-length arrays.

use vstd::prelude::*;

verus! {

/// A type of the source language.
#[derive(Debug, PartialEq)]
pub enum Type {
    Int,
    Float,
    Bool,
    Char,
    /// A type known by a name only. It has no size and no operations.
    Named(String),
    /// An array of a fixed number of elements of one type.
    Array(Box<Type>, i32),
}

/// The view of a [`Type`].
pub enum TypeView {
    Int,
    Float,
    Bool,
    Char,
    Named(Seq<char>),
    Array(Box<TypeView>, i32),
}

/// The view of a type.
pub open spec fn type_view(t: Type) -> TypeView
    decreases t,
{
    match t {
        Type::Int => TypeView::Int,
        Type::Float => TypeView::Float,
        Type::Bool => TypeView::Bool,
        Type::Char => TypeView::Char,
        Type::Named(n) => TypeView::Named(n@),
        Type::Array(e, n) => TypeView::Array(Box::new(type_view(*e)), n),
    }
}

impl View for Type {
    type V = TypeView;

    open spec fn view(&self) -> TypeView {
        type_view(*self)
    }
}

impl TypeView {
    /// Whether the type is one of the four primitives.
    pub open spec fn is_primitive(self) -> bool {
        self is Int || self is Float || self is Bool || self is Char
    }

    /// Whether values of the type can be added, subtracted, multiplied,
    /// divided and compared.
    pub open spec fn is_numeric(self) -> bool {
        self is Int || self is Float || self is Char
    }

    /// The type has a size: it is a primitive, or an array of a positive
    /// number of elements of a type that has a size.
    pub open spec fn sized(self) -> bool
        decreases self,
    {
        match self {
            TypeView::Named(_) => false,
            TypeView::Array(e, n) => n > 0 && e.sized(),
            _ => true,
        }
    }

    /// The number of bytes a value of the type takes: four for `int` and
    /// `float`, one for `bool` and `char`, and for an array the size of an
    /// element times the number of elements.
    pub open spec fn size(self) -> int
        decreases self,
    {
        match self {
            TypeView::Int | TypeView::Float => 4,
            TypeView::Bool | TypeView::Char => 1,
            TypeView::Named(_) => 0,
            TypeView::Array(e, n) => e.size() * n,
        }
    }

    /// The type of the innermost elements: of an array, the base of its
    /// element type; of any other type, the type itself.
    pub open spec fn base(self) -> TypeView
        decreases self,
    {
        match self {
            TypeView::Array(e, _) => e.base(),
            _ => self,
        }
    }

    /// The number of innermost elements: of an array, the count of its
    /// element type times its length; of any other type, one.
    pub open spec fn count(self) -> int
        decreases self,
    {
        match self {
            TypeView::Array(e, n) => e.count() * n,
            _ => 1,
        }
    }
}

/// A sized type takes at least one byte, holds at least one element, and
/// its size is the size of its base times its count.
pub proof fn lemma_sized_positive(t: TypeView)
    requires
        t.sized(),
    ensures
        t.size() >= 1,
        t.count() >= 1,
        t.base().is_primitive(),
        t.size() == t.base().size() * t.count(),
    decreases t,
{
    match t {
        TypeView::Array(e, n) => {
            lemma_sized_positive(*e);
            assert(e.size() * n >= 1) by (nonlinear_arith)
                requires
                    e.size() >= 1,
                    n >= 1,
            ;
            assert(e.count() * n >= 1) by (nonlinear_arith)
                requires
                    e.count() >= 1,
                    n >= 1,
            ;
            assert((e.base().size() * e.count()) * n == e.base().size() * (e.count() * n))
                by (nonlinear_arith);
        },
        _ => {},
    }
}

impl Clone for Type {
    fn clone(&self) -> (r: Self)
        ensures
            r@ == self@,
        decreases self,
    {
        match self {
            Type::Int => Type::Int,
            Type::Float => Type::Float,
            Type::Bool => Type::Bool,
            Type::Char => Type::Char,
            Type::Named(n) => Type::Named(n.clone()),
            Type::Array(e, n) => {
                let inner: Type = (**e).clone();
                Type::Array(Box::new(inner), *n)
            },
        }
    }
}

impl Type {
    /// Whether two types are the same type.
    pub fn same(&self, other: &Type) -> (r: bool)
        ensures
            r == (self@ == other@),
        decreases self,
    {
        match (self, other) {
            (Type::Int, Type::Int) => true,
            (Type::Float, Type::Float) => true,
            (Type::Bool, Type::Bool) => true,
            (Type::Char, Type::Char) => true,
            (Type::Named(a), Type::Named(b)) => *a == *b,
            (Type::Array(a, n), Type::Array(b, m)) => *n == *m && (**a).same(&**b),
            _ => false,
        }
    }

    /// Whether values of the type can be added, subtracted, multiplied,
    /// divided and compared.
    pub fn is_numeric(&self) -> (r: bool)
        ensures
            r == self@.is_numeric(),
    {
        match self {
            Type::Int | Type::Float | Type::Char => true,
            _ => false,
        }
    }

    /// Whether the type has a size.
    pub fn sized(&self) -> (r: bool)
        ensures
            r == self@.sized(),
        decreases self,
    {
        match self {
            Type::Named(_) => false,
            Type::Array(e, n) => *n > 0 && (**e).sized(),
            _ => true,
        }
    }

    /// The innermost element type.
    pub fn base(&self) -> (r: &Type)
        ensures
            r@ == self@.base(),
        decreases self,
    {
        match self {
            Type::Array(e, _) => (**e).base(),
            _ => self,
        }
    }

    /// The size in bytes, or `None` when it does not fit in 32 bits.
    pub fn size(&self) -> (r: Option<u32>)
        requires
            self@.sized(),
        ensures
            r matches Some(n) ==> n == self@.size(),
            r is None <==> self@.size() > u32::MAX,
        decreases self,
    {
        match self {
            Type::Int | Type::Float => Some(4),
            Type::Bool | Type::Char => Some(1),
            Type::Named(_) => Some(0),
            Type::Array(e, n) => {
                proof {
                    lemma_sized_positive(e@);
                }
                match (**e).size() {
                    None => {
                        assert(e@.size() * *n >= e@.size()) by (nonlinear_arith)
                            requires
                                e@.size() >= 1,
                                *n >= 1,
                        ;
                        None
                    },
                    Some(s) => {
                        assert((s as u64) * (*n as u64) <= 0xffff_ffff * 0x7fff_ffff) by (nonlinear_arith)
                            requires
                                s <= 0xffff_ffff,
                                0 <= *n <= 0x7fff_ffff,
                        ;
                        let total: u64 = (s as u64) * (*n as u64);
                        assert(total == e@.size() * *n) by (nonlinear_arith)
                            requires
                                total == (s as u64) * (*n as u64),
                                s == e@.size(),
                                *n >= 1,
                                s <= u32::MAX,
                                *n <= i32::MAX,
                        ;
                        if total > 0xffff_ffff {
                            None
                        } else {
                            Some(total as u32)
                        }
                    },
                }
            },
        }
    }

    /// The number of innermost elements, or `None` when it does not fit in a
    /// 32-bit signed integer.
    pub fn count(&self) -> (r: Option<i32>)
        requires
            self@.sized(),
        ensures
            r matches Some(n) ==> n == self@.count(),
            r is None <==> self@.count() > i32::MAX,
        decreases self,
    {
        match self {
            Type::Array(e, n) => {
                proof {
                    lemma_sized_positive(e@);
                }
                match (**e).count() {
                    None => {
                        assert(e@.count() * *n >= e@.count()) by (nonlinear_arith)
                            requires
                                e@.count() >= 1,
                                *n >= 1,
                        ;
                        None
                    },
                    Some(c) => {
                        assert(0 <= (c as i64) * (*n as i64) <= 0x7fff_ffff * 0x7fff_ffff)
                            by (nonlinear_arith)
                            requires
                                0 <= c <= 0x7fff_ffff,
                                0 <= *n <= 0x7fff_ffff,
                        ;
                        let total: i64 = (c as i64) * (*n as i64);
                        assert(total == e@.count() * *n) by (nonlinear_arith)
                            requires
                                total == (c as i64) * (*n as i64),
                                c == e@.count(),
                                *n >= 1,
                                c >= 1,
                                c <= i32::MAX,
                                *n <= i32::MAX,
                        ;
                        if total > 0x7fff_ffff {
                            None
                        } else {
                            Some(total as i32)
                        }
                    },
                }
            },
            _ => Some(1),
        }
    }
}

} // verus!
