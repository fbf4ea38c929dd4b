//! Source-level types.

use vstd::prelude::*;
use std::rc::Rc;

verus! {

/// A shared source-level type.
pub type TcType = Rc<Type>;

#[derive(Debug, Clone, Copy, PartialEq, Eq, Structural)]
pub enum BuiltinType {
    Int,
    Float,
    String,
    Char,
    Unit,
}

/// A field of a record type.
#[derive(Debug, PartialEq, Eq)]
pub struct Field {
    pub name: String,
    pub typ: TcType,
}

#[derive(Debug, PartialEq, Eq)]
pub enum Type {
    Builtin(BuiltinType),
    /// The types of the formal arguments, in declaration order, and the return
    /// type.
    Function(Vec<TcType>, TcType),
    Record(Vec<Field>),
    /// For each constructor of a variant type its name and its signature: a
    /// function type from its arguments, or the variant type itself where it
    /// takes none.
    Variants(Vec<(String, TcType)>),
    /// A type known by its name, with its type arguments.
    Data(String, Vec<TcType>),
}

/// Another handle to a shared value.
///
/// Wraps `Rc::clone`, which makes a new pointer to the same allocation: what it
/// points to is the value that `rc` points to.
#[verifier::external_body]
pub(crate) fn share<T>(rc: &Rc<T>) -> (r: Rc<T>)
    ensures
        r == *rc,
{
    Rc::clone(rc)
}

/// The types of the formal arguments of a function type, in declaration order.
/// Any other type has none.
pub open spec fn arg_types(typ: Type) -> Seq<TcType> {
    match typ {
        Type::Function(args, _) => args@,
        _ => Seq::empty(),
    }
}

impl Type {
    /// The built-in type `typ`.
    pub fn builtin(typ: BuiltinType) -> (r: TcType)
        ensures
            *r == Type::Builtin(typ),
    {
        Rc::new(Type::Builtin(typ))
    }

    /// The type of the functions from `args` to `ret`.
    pub fn function(args: Vec<TcType>, ret: TcType) -> (r: TcType)
        ensures
            *r == Type::Function(args, ret),
    {
        Rc::new(Type::Function(args, ret))
    }

    /// The formal arguments and the return type, where this is a function type.
    pub fn as_function(&self) -> (r: Option<(&Vec<TcType>, &TcType)>)
        ensures
            r is Some == self is Function,
            r matches Some((args, ret)) ==> *self == Type::Function(*args, *ret),
    {
        match self {
            Type::Function(args, ret) => Some((args, ret)),
            _ => None,
        }
    }
}

/// The type environment: what the type checker knows about the source-level
/// types of a program.
pub trait TypeEnv {
    /// The source-level equivalence judgement: whether a value of type `actual`
    /// may stand where one of type `expected` is asked for.
    spec fn accepts(&self, expected: Type, actual: Type) -> bool;

    fn equivalent(&self, expected: &TcType, actual: &TcType) -> (r: bool)
        ensures
            r == self.accepts(**expected, **actual),
    ;
}

/// Whether two types are the same, part by part: the same built-in type, the
/// same name with the same type arguments, or the same kind of type with the
/// same parts under the same names.
pub open spec fn same_type(a: Type, b: Type) -> bool
    decreases a, 1int,
{
    match a {
        Type::Builtin(x) => b matches Type::Builtin(y) && x == y,
        Type::Function(args, ret) => b matches Type::Function(other_args, other_ret) && same_types(
            args@,
            other_args@,
        ) && same_type(*ret, *other_ret),
        Type::Record(fields) => b matches Type::Record(other) && same_fields(fields@, other@),
        Type::Variants(variants) => b matches Type::Variants(other) && same_variants(
            variants@,
            other@,
        ),
        Type::Data(name, args) => b matches Type::Data(other_name, other_args) && name@
            == other_name@ && same_types(args@, other_args@),
    }
}

/// Whether two sequences of types are the same, one by one.
pub open spec fn same_types(a: Seq<TcType>, b: Seq<TcType>) -> bool
    decreases a, 0int,
{
    a.len() == b.len() && forall|i: int| 0 <= i < a.len() ==> same_type(*#[trigger] a[i], *b[i])
}

/// Whether two sequences of fields are the same, one by one.
pub open spec fn same_fields(a: Seq<Field>, b: Seq<Field>) -> bool
    decreases a, 0int,
{
    a.len() == b.len() && forall|i: int|
        0 <= i < a.len() ==> (#[trigger] a[i]).name@ == b[i].name@ && same_type(*a[i].typ, *b[i].typ)
}

/// Whether two sequences of constructors are the same, one by one.
pub open spec fn same_variants(a: Seq<(String, TcType)>, b: Seq<(String, TcType)>) -> bool
    decreases a, 0int,
{
    a.len() == b.len() && forall|i: int|
        0 <= i < a.len() ==> (#[trigger] a[i]).0@ == b[i].0@ && same_type(*a[i].1, *b[i].1)
}

/// The type that a shared type stands for.
pub open spec fn pointee(typ: TcType) -> Type {
    *typ
}

/// Being the same sequence of types is symmetric where being the same type is,
/// for the types in the same place.
proof fn lemma_same_types_symmetric(a: Seq<TcType>, b: Seq<TcType>)
    requires
        a.len() == b.len() ==> forall|i: int|
            0 <= i < a.len() ==> same_type(*#[trigger] a[i], *b[i]) == same_type(*b[i], *a[i]),
    ensures
        same_types(a, b) == same_types(b, a),
{
    if a.len() == b.len() {
        if same_types(a, b) {
            assert forall|i: int| 0 <= i < b.len() implies same_type(*#[trigger] b[i], *a[i]) by {
                assert(same_type(*a[i], *b[i]));
            }
        }
        if same_types(b, a) {
            assert forall|i: int| 0 <= i < a.len() implies same_type(*#[trigger] a[i], *b[i]) by {
                assert(same_type(*b[i], *a[i]));
            }
        }
    }
}

/// Being the same type is symmetric.
pub proof fn lemma_same_type_symmetric(a: Type, b: Type)
    ensures
        same_type(a, b) == same_type(b, a),
    decreases a,
{
    match a {
        Type::Builtin(_) => {},
        Type::Function(args, ret) => {
            if let Type::Function(other_args, other_ret) = b {
                lemma_same_type_symmetric(pointee(ret), pointee(other_ret));
                if args@.len() == other_args@.len() {
                    assert forall|i: int| 0 <= i < args@.len() implies same_type(
                        *#[trigger] args@[i],
                        *other_args@[i],
                    ) == same_type(*other_args@[i], *args@[i]) by {
                        lemma_same_type_symmetric(*args@[i], *other_args@[i]);
                    }
                }
                lemma_same_types_symmetric(args@, other_args@);
            }
        },
        Type::Record(fields) => {
            if let Type::Record(other) = b {
                if fields@.len() == other@.len() {
                    assert forall|i: int| 0 <= i < fields@.len() implies same_type(
                        *(#[trigger] fields@[i]).typ,
                        *other@[i].typ,
                    ) == same_type(*other@[i].typ, *fields@[i].typ) by {
                        lemma_same_type_symmetric(*fields@[i].typ, *other@[i].typ);
                    }
                    if same_fields(fields@, other@) {
                        assert forall|i: int| 0 <= i < other@.len() implies (#[trigger] other@[i]).name@
                            == fields@[i].name@ && same_type(*other@[i].typ, *fields@[i].typ) by {
                            assert(fields@[i].name@ == other@[i].name@);
                        }
                    }
                    if same_fields(other@, fields@) {
                        assert forall|i: int| 0 <= i < fields@.len() implies (
                        #[trigger] fields@[i]).name@ == other@[i].name@ && same_type(
                            *fields@[i].typ,
                            *other@[i].typ,
                        ) by {
                            assert(other@[i].name@ == fields@[i].name@);
                        }
                    }
                }
                assert(same_fields(fields@, other@) == same_fields(other@, fields@));
            }
        },
        Type::Variants(variants) => {
            if let Type::Variants(other) = b {
                if variants@.len() == other@.len() {
                    assert forall|i: int| 0 <= i < variants@.len() implies same_type(
                        *(#[trigger] variants@[i]).1,
                        *other@[i].1,
                    ) == same_type(*other@[i].1, *variants@[i].1) by {
                        lemma_same_type_symmetric(*variants@[i].1, *other@[i].1);
                    }
                    if same_variants(variants@, other@) {
                        assert forall|i: int| 0 <= i < other@.len() implies (#[trigger] other@[i]).0@
                            == variants@[i].0@ && same_type(*other@[i].1, *variants@[i].1) by {
                            assert(variants@[i].0@ == other@[i].0@);
                        }
                    }
                    if same_variants(other@, variants@) {
                        assert forall|i: int| 0 <= i < variants@.len() implies (
                        #[trigger] variants@[i]).0@ == other@[i].0@ && same_type(
                            *variants@[i].1,
                            *other@[i].1,
                        ) by {
                            assert(other@[i].0@ == variants@[i].0@);
                        }
                    }
                }
                assert(same_variants(variants@, other@) == same_variants(other@, variants@));
            }
        },
        Type::Data(name, args) => {
            if let Type::Data(other_name, other_args) = b {
                if args@.len() == other_args@.len() {
                    assert forall|i: int| 0 <= i < args@.len() implies same_type(
                        *#[trigger] args@[i],
                        *other_args@[i],
                    ) == same_type(*other_args@[i], *args@[i]) by {
                        lemma_same_type_symmetric(*args@[i], *other_args@[i]);
                    }
                }
                lemma_same_types_symmetric(args@, other_args@);
            }
        },
    }
}

impl Type {
    /// Whether this type and `other` are the same, part by part.
    pub fn same_as(&self, other: &Type) -> (r: bool)
        ensures
            r == same_type(*self, *other),
        decreases self, 1int,
    {
        match self {
            Type::Builtin(x) => match other {
                Type::Builtin(y) => *x == *y,
                _ => false,
            },
            Type::Function(args, ret) => match other {
                Type::Function(other_args, other_ret) => Self::all_same(args, other_args)
                    && ret.same_as(other_ret),
                _ => false,
            },
            Type::Record(fields) => match other {
                Type::Record(other_fields) => Self::fields_same(fields, other_fields),
                _ => false,
            },
            Type::Variants(variants) => match other {
                Type::Variants(other_variants) => Self::variants_same(variants, other_variants),
                _ => false,
            },
            Type::Data(name, args) => match other {
                Type::Data(other_name, other_args) => *name == *other_name && Self::all_same(
                    args,
                    other_args,
                ),
                _ => false,
            },
        }
    }

    fn all_same(a: &Vec<TcType>, b: &Vec<TcType>) -> (r: bool)
        ensures
            r == same_types(a@, b@),
        decreases a, 0int,
    {
        if a.len() != b.len() {
            return false;
        }
        let mut i: usize = 0;
        while i < a.len()
            invariant
                a@.len() == b@.len(),
                i <= a@.len(),
                forall|j: int| 0 <= j < i ==> same_type(*#[trigger] a@[j], *b@[j]),
            decreases a@.len() - i,
        {
            if !a[i].same_as(&b[i]) {
                assert(!same_type(*a@[i as int], *b@[i as int]));
                return false;
            }
            i += 1;
        }
        true
    }

    fn fields_same(a: &Vec<Field>, b: &Vec<Field>) -> (r: bool)
        ensures
            r == same_fields(a@, b@),
        decreases a, 0int,
    {
        if a.len() != b.len() {
            return false;
        }
        let mut i: usize = 0;
        while i < a.len()
            invariant
                a@.len() == b@.len(),
                i <= a@.len(),
                forall|j: int|
                    0 <= j < i ==> (#[trigger] a@[j]).name@ == b@[j].name@ && same_type(
                        *a@[j].typ,
                        *b@[j].typ,
                    ),
            decreases a@.len() - i,
        {
            if !(a[i].name == b[i].name && a[i].typ.same_as(&b[i].typ)) {
                assert(!(a@[i as int].name@ == b@[i as int].name@ && same_type(
                    *a@[i as int].typ,
                    *b@[i as int].typ,
                )));
                return false;
            }
            i += 1;
        }
        true
    }

    fn variants_same(a: &Vec<(String, TcType)>, b: &Vec<(String, TcType)>) -> (r: bool)
        ensures
            r == same_variants(a@, b@),
        decreases a, 0int,
    {
        if a.len() != b.len() {
            return false;
        }
        let mut i: usize = 0;
        while i < a.len()
            invariant
                a@.len() == b@.len(),
                i <= a@.len(),
                forall|j: int|
                    0 <= j < i ==> (#[trigger] a@[j]).0@ == b@[j].0@ && same_type(*a@[j].1, *b@[j].1),
            decreases a@.len() - i,
        {
            if !(a[i].0 == b[i].0 && a[i].1.same_as(&b[i].1)) {
                assert(!(a@[i as int].0@ == b@[i as int].0@ && same_type(*a@[i as int].1, *b@[i as int].1)));
                return false;
            }
            i += 1;
        }
        true
    }
}

} // verus!
