//! The bytecode verifier.
//!
//! Before a compiled function may run, its instructions are interpreted over an
//! abstract operand stack: each slot holds the type of the value that will be
//! there. A slot that a `Construct` fills holds more than the source-level type:
//! the constructor's tag and the abstract types of its arguments, so that a
//! later `GetField` is known to be in range.

use vstd::prelude::*;
use std::rc::Rc;
use crate::base::error::Errors;
use crate::base::types::{arg_types, share, BuiltinType, TcType, Type, TypeEnv};
use crate::types::{Instruction, VMIndex};

verus! {

/// The verifier's idea of a value on the operand stack.
#[derive(Debug, PartialEq, Eq)]
pub enum AbstractType {
    /// A value of a source-level type.
    TcType(TcType),
    /// A value built by the constructor with the given tag, from arguments of
    /// the given abstract types.
    Variant(VMIndex, Rc<Vec<AbstractType>>),
}

/// An abstract type as a mathematical value.
pub ghost enum AbstractTypeView {
    Concrete(Type),
    Variant(VMIndex, Seq<AbstractTypeView>),
}

impl View for AbstractType {
    type V = AbstractTypeView;

    open spec fn view(&self) -> AbstractTypeView {
        view_of(*self)
    }
}

/// The abstract type as a mathematical value.
pub open spec fn view_of(typ: AbstractType) -> AbstractTypeView
    decreases typ, 2int,
{
    match typ {
        AbstractType::TcType(t) => AbstractTypeView::Concrete(*t),
        AbstractType::Variant(tag, args) => AbstractTypeView::Variant(tag, views(args@)),
    }
}

/// The abstract type in slot `i` of a sequence of stack slots.
pub open spec fn view_at(items: Seq<AbstractType>, i: int) -> AbstractTypeView
    decreases items, 0int,
{
    if 0 <= i < items.len() {
        view_of(items[i])
    } else {
        arbitrary()
    }
}

/// The abstract types in a sequence of stack slots.
pub open spec fn views(items: Seq<AbstractType>) -> Seq<AbstractTypeView>
    decreases items, 1int,
{
    Seq::new(items.len(), |i: int| view_at(items, i))
}

/// Slot by slot, `views` is the view.
pub proof fn lemma_views(items: Seq<AbstractType>)
    ensures
        views(items).len() == items.len(),
        forall|i: int| 0 <= i < items.len() ==> (#[trigger] views(items)[i]) == items[i]@,
{
}

impl Clone for AbstractType {
    fn clone(&self) -> (r: AbstractType)
        ensures
            r == *self,
    {
        match self {
            AbstractType::TcType(t) => AbstractType::TcType(share(t)),
            AbstractType::Variant(tag, args) => AbstractType::Variant(*tag, share(args)),
        }
    }
}

impl From<TcType> for AbstractType {
    fn from(t: TcType) -> (r: AbstractType) {
        AbstractType::TcType(t)
    }
}

impl vstd::std_specs::convert::FromSpecImpl<TcType> for AbstractType {
    open spec fn obeys_from_spec() -> bool {
        true
    }

    open spec fn from_spec(t: TcType) -> AbstractType {
        AbstractType::TcType(t)
    }
}

/// What the verifier can find wrong with a function.
#[derive(Debug, PartialEq, Eq)]
pub enum Error {
    /// No global has the given index.
    UndefinedGlobal(VMIndex),
    /// An argument of a call is not of the type that the callee expects: what
    /// was expected, and what the stack holds.
    TypeMismatch(AbstractType, AbstractType),
    /// A call finds too few slots on the stack, or no function below its
    /// arguments.
    NotEnoughArguments,
    /// A field is taken from an empty stack.
    EmptyStack,
    /// The value of the given abstract type has no field with the given index.
    FieldIsOutOfRange(AbstractType, VMIndex),
}

/// An error as a mathematical value.
pub ghost enum ErrorView {
    UndefinedGlobal(VMIndex),
    TypeMismatch(AbstractTypeView, AbstractTypeView),
    NotEnoughArguments,
    EmptyStack,
    FieldIsOutOfRange(AbstractTypeView, VMIndex),
}

impl View for Error {
    type V = ErrorView;

    open spec fn view(&self) -> ErrorView {
        match self {
            Error::UndefinedGlobal(index) => ErrorView::UndefinedGlobal(*index),
            Error::TypeMismatch(expected, actual) => ErrorView::TypeMismatch(expected@, actual@),
            Error::NotEnoughArguments => ErrorView::NotEnoughArguments,
            Error::EmptyStack => ErrorView::EmptyStack,
            Error::FieldIsOutOfRange(typ, index) => ErrorView::FieldIsOutOfRange(typ@, *index),
        }
    }
}

/// The errors in a list, as mathematical values.
pub open spec fn error_views(errors: Seq<Error>) -> Seq<ErrorView> {
    Seq::new(errors.len(), |i: int| errors[i]@)
}

/// Where the types of the globals come from.
pub trait Globals {
    /// The type of the global with the given index, if there is one.
    spec fn global_type(&self, index: usize) -> Option<TcType>;

    fn lookup(&self, index: usize) -> (r: Option<TcType>)
        ensures
            r == self.global_type(index),
    ;
}

/// A table of globals, some of them undefined.
impl Globals for Vec<Option<TcType>> {
    open spec fn global_type(&self, index: usize) -> Option<TcType> {
        if index < self@.len() {
            self@[index as int]
        } else {
            None
        }
    }

    fn lookup(&self, index: usize) -> (r: Option<TcType>) {
        if index < self.len() {
            match &self[index] {
                Some(typ) => Some(share(typ)),
                None => None,
            }
        } else {
            None
        }
    }
}

/// The types of the formal arguments of the constructor with the given tag,
/// where `typ` is a variant type that has such a constructor.
pub open spec fn formals_of(typ: Type, tag: VMIndex) -> Option<Seq<TcType>> {
    match typ {
        Type::Variants(variants) => if tag < variants@.len() {
            Some(arg_types(*variants@[tag as int].1))
        } else {
            None
        },
        _ => None,
    }
}

/// Whether a value of the abstract type `actual` is one of the source-level
/// type `expected`.
pub open spec fn conforms<E: TypeEnv>(env: &E, expected: Type, actual: AbstractTypeView) -> bool
    decreases actual,
{
    match actual {
        AbstractTypeView::Concrete(typ) => env.accepts(expected, typ),
        AbstractTypeView::Variant(tag, args) => match formals_of(expected, tag) {
            Some(formals) => {
                &&& args.len() == formals.len()
                &&& forall|i: int|
                    0 <= i < args.len() && i < formals.len() ==> conforms(
                        env,
                        *formals[i],
                        #[trigger] args[i],
                    )
            },
            None => false,
        },
    }
}

/// Whether a value of the source-level type `actual` is one of the abstract
/// type `expected`.
pub open spec fn conformed_by<E: TypeEnv>(env: &E, expected: AbstractTypeView, actual: Type) -> bool
    decreases expected,
{
    match expected {
        AbstractTypeView::Concrete(typ) => env.accepts(typ, actual),
        AbstractTypeView::Variant(tag, args) => match formals_of(actual, tag) {
            Some(formals) => {
                &&& args.len() == formals.len()
                &&& forall|i: int|
                    0 <= i < args.len() && i < formals.len() ==> conformed_by(
                        env,
                        #[trigger] args[i],
                        *formals[i],
                    )
            },
            None => false,
        },
    }
}

/// Equivalence of abstract types.
///
/// Two source-level types are equivalent where the type environment says so. A
/// source-level type is equivalent to a constructed value where it is a variant
/// type with a constructor of that tag that takes as many arguments as the
/// value has, and whose formal argument types are equivalent, one by one, to
/// the abstract types of the arguments. Two constructed values are equivalent
/// where the tags are the same, the arguments are as many, and they are
/// equivalent one by one.
pub open spec fn equivalent_spec<E: TypeEnv>(
    env: &E,
    expected: AbstractTypeView,
    actual: AbstractTypeView,
) -> bool
    decreases expected,
{
    match expected {
        AbstractTypeView::Concrete(typ) => conforms(env, typ, actual),
        AbstractTypeView::Variant(expected_tag, expected_args) => match actual {
            AbstractTypeView::Concrete(typ) => conformed_by(env, expected, typ),
            AbstractTypeView::Variant(actual_tag, actual_args) => {
                &&& expected_tag == actual_tag
                &&& expected_args.len() == actual_args.len()
                &&& forall|i: int|
                    0 <= i < expected_args.len() && i < actual_args.len() ==> equivalent_spec(
                        env,
                        #[trigger] expected_args[i],
                        actual_args[i],
                    )
            },
        },
    }
}

/// What the verifier knows between two instructions.
pub ghost struct State {
    /// The abstract operand stack, bottom first.
    pub stack: Seq<AbstractTypeView>,
    /// The errors recorded so far, oldest first.
    pub errors: Seq<ErrorView>,
}

/// What one instruction, or a sequence of them, leads to.
pub ghost enum Outcome {
    /// Verification goes on, or has come to the end of the instructions, in the
    /// given state.
    Continue(State),
    /// Verification was given up. The errors are those that are reported.
    Abort(Seq<ErrorView>),
}

/// The stack on entry to a function of type `function_type`: one slot for each
/// formal argument, in declaration order.
pub open spec fn entry(function_type: Type) -> Seq<AbstractTypeView> {
    Seq::new(
        arg_types(function_type).len(),
        |i: int| AbstractTypeView::Concrete(*arg_types(function_type)[i]),
    )
}

/// What the instruction asks of the stack for its effect to be defined.
pub open spec fn admits(stack: Seq<AbstractTypeView>, instruction: Instruction) -> bool {
    match instruction {
        Instruction::Push(i) => i < stack.len(),
        Instruction::Construct(_, args) => args <= stack.len(),
        _ => true,
    }
}

/// The abstract type of field `index` of a value of the abstract type `typ`.
pub open spec fn field_of(typ: AbstractTypeView, index: VMIndex) -> Option<AbstractTypeView> {
    match typ {
        AbstractTypeView::Concrete(Type::Record(fields)) => if index < fields@.len() {
            Some(AbstractTypeView::Concrete(*fields@[index as int].typ))
        } else {
            None
        },
        AbstractTypeView::Concrete(_) => None,
        AbstractTypeView::Variant(_, args) => if index < args.len() {
            Some(args[index as int])
        } else {
            None
        },
    }
}

/// The errors of a call: one for each of the first `count` arguments that is
/// not equivalent to the formal argument in its place.
pub open spec fn mismatches<E: TypeEnv>(
    env: &E,
    formals: Seq<TcType>,
    actuals: Seq<AbstractTypeView>,
    count: nat,
) -> Seq<ErrorView>
    decreases count,
{
    if count == 0 {
        Seq::empty()
    } else {
        let before = mismatches(env, formals, actuals, (count - 1) as nat);
        let expected = AbstractTypeView::Concrete(*formals[count - 1]);
        if equivalent_spec(env, expected, actuals[count - 1]) {
            before
        } else {
            before.push(ErrorView::TypeMismatch(expected, actuals[count - 1]))
        }
    }
}

/// The lesser of two lengths.
pub open spec fn shorter(a: nat, b: nat) -> nat {
    if a <= b {
        a
    } else {
        b
    }
}

/// The effect of a call with `args` arguments.
///
/// The callee is expected below the arguments, with at least one slot below
/// it, and must be of a function type. Its formal arguments are compared with
/// the arguments on the stack, as far as both go. Then the callee and its
/// arguments make room for the return type. Where the stack does not hold
/// that, verification is given up.
pub open spec fn call<E: TypeEnv>(env: &E, state: State, args: VMIndex) -> Outcome {
    let len = state.stack.len();
    let give_up = Outcome::Abort(state.errors.push(ErrorView::NotEnoughArguments));
    if len > args + 1 {
        match state.stack[len - args - 1] {
            AbstractTypeView::Concrete(Type::Function(formals, ret)) => {
                let actuals = state.stack.subrange(len - args, len as int);
                Outcome::Continue(
                    State {
                        stack: state.stack.subrange(0, len - args - 1).push(
                            AbstractTypeView::Concrete(*ret),
                        ),
                        errors: state.errors + mismatches(
                            env,
                            formals@,
                            actuals,
                            shorter(formals@.len(), actuals.len()),
                        ),
                    },
                )
            },
            _ => give_up,
        }
    } else {
        give_up
    }
}

/// The effect of one instruction on a state that admits it.
pub open spec fn step<E: TypeEnv, G: Globals>(
    env: &E,
    globals: &G,
    state: State,
    instruction: Instruction,
) -> Outcome {
    let stack = state.stack;
    let errors = state.errors;
    let len = stack.len() as int;
    match instruction {
        Instruction::Push(i) => Outcome::Continue(State { stack: stack.push(stack[i as int]), errors }),
        Instruction::PushInt(_) => Outcome::Continue(
            State { stack: stack.push(AbstractTypeView::Concrete(Type::Builtin(BuiltinType::Int))), errors },
        ),
        Instruction::PushFloat(_) => Outcome::Continue(
            State {
                stack: stack.push(AbstractTypeView::Concrete(Type::Builtin(BuiltinType::Float))),
                errors,
            },
        ),
        Instruction::PushString(_) => Outcome::Continue(
            State {
                stack: stack.push(AbstractTypeView::Concrete(Type::Builtin(BuiltinType::String))),
                errors,
            },
        ),
        Instruction::PushGlobal(index) => match globals.global_type(index as usize) {
            Some(typ) => Outcome::Continue(
                State { stack: stack.push(AbstractTypeView::Concrete(*typ)), errors },
            ),
            None => Outcome::Continue(
                State { stack, errors: errors.push(ErrorView::UndefinedGlobal(index)) },
            ),
        },
        Instruction::Call(args) => call(env, state, args),
        Instruction::TailCall(args) => call(env, state, args),
        Instruction::Construct(tag, args) => Outcome::Continue(
            State {
                stack: stack.subrange(0, len - args).push(
                    AbstractTypeView::Variant(tag, stack.subrange(len - args, len)),
                ),
                errors,
            },
        ),
        Instruction::GetField(index) => if len == 0 {
            Outcome::Continue(State { stack, errors: errors.push(ErrorView::EmptyStack) })
        } else {
            match field_of(stack.last(), index) {
                Some(typ) => Outcome::Continue(State { stack: stack.drop_last().push(typ), errors }),
                None => Outcome::Continue(
                    State {
                        stack: stack.drop_last(),
                        errors: errors.push(ErrorView::FieldIsOutOfRange(stack.last(), index)),
                    },
                ),
            }
        },
        _ => Outcome::Abort(Seq::empty()),
    }
}

/// The effect of a sequence of instructions.
pub open spec fn run<E: TypeEnv, G: Globals>(
    env: &E,
    globals: &G,
    state: State,
    instructions: Seq<Instruction>,
) -> Outcome
    decreases instructions.len(),
{
    if instructions.len() == 0 {
        Outcome::Continue(state)
    } else {
        match step(env, globals, state, instructions[0]) {
            Outcome::Continue(next) => run(env, globals, next, instructions.drop_first()),
            Outcome::Abort(errors) => Outcome::Abort(errors),
        }
    }
}

/// Whether each instruction, up to the end or to where verification is given
/// up, finds a stack that admits it.
pub open spec fn well_formed<E: TypeEnv, G: Globals>(
    env: &E,
    globals: &G,
    state: State,
    instructions: Seq<Instruction>,
) -> bool
    decreases instructions.len(),
{
    if instructions.len() == 0 {
        true
    } else {
        admits(state.stack, instructions[0]) && match step(env, globals, state, instructions[0]) {
            Outcome::Continue(next) => well_formed(env, globals, next, instructions.drop_first()),
            Outcome::Abort(_) => true,
        }
    }
}

/// What a verification reports: success where it came to the end without an
/// error, and else the errors.
pub open spec fn verdict(outcome: Outcome) -> Result<(), Seq<ErrorView>> {
    match outcome {
        Outcome::Continue(state) => if state.errors.len() == 0 {
            Ok(())
        } else {
            Err(state.errors)
        },
        Outcome::Abort(errors) => Err(errors),
    }
}

/// Pushing a slot pushes its view.
proof fn lemma_views_push(items: Seq<AbstractType>, item: AbstractType)
    ensures
        views(items.push(item)) == views(items).push(item@),
{
    assert(views(items.push(item)) =~= views(items).push(item@));
}

/// The views of a part of the slots are that part of the views.
proof fn lemma_views_subrange(items: Seq<AbstractType>, from: int, to: int)
    requires
        0 <= from <= to <= items.len(),
    ensures
        views(items.subrange(from, to)) == views(items).subrange(from, to),
{
    assert(views(items.subrange(from, to)) =~= views(items).subrange(from, to));
}

/// Recording an error records its view.
proof fn lemma_errors_push(errors: Seq<Error>, error: Error)
    ensures
        error_views(errors.push(error)) == error_views(errors).push(error@),
{
    assert(error_views(errors.push(error)) =~= error_views(errors).push(error@));
}

/// The verifier: the type environment and the globals it consults, the abstract
/// operand stack and the errors recorded so far.
pub struct Verifier<'a, E: TypeEnv, G: Globals> {
    type_env: &'a E,
    globals: &'a G,
    stack: Vec<AbstractType>,
    errors: Errors<Error>,
}

/// What the verifier does after an instruction.
enum Control {
    Next,
    Abort(Errors<Error>),
}

impl<'a, E: TypeEnv, G: Globals> Verifier<'a, E, G> {
    /// The type environment.
    pub closed spec fn env(&self) -> &E {
        self.type_env
    }

    /// Where the types of the globals come from.
    pub closed spec fn globals(&self) -> &G {
        self.globals
    }

    /// The abstract operand stack, bottom first.
    pub closed spec fn stack_view(&self) -> Seq<AbstractTypeView> {
        views(self.stack@)
    }

    /// The errors recorded so far.
    pub closed spec fn errors_view(&self) -> Seq<ErrorView> {
        error_views(self.errors.errors@)
    }

    /// The stack and the errors.
    pub open spec fn state(&self) -> State {
        State { stack: self.stack_view(), errors: self.errors_view() }
    }

    /// A verifier with an empty stack that has recorded no error.
    pub fn new(type_env: &'a E, globals: &'a G) -> (r: Verifier<'a, E, G>)
        ensures
            r.env() == type_env,
            r.globals() == globals,
            r.stack_view() == Seq::<AbstractTypeView>::empty(),
            r.errors_view() == Seq::<ErrorView>::empty(),
    {
        let r = Verifier { type_env, globals, stack: Vec::new(), errors: Errors::new() };
        assert(views(r.stack@) =~= Seq::<AbstractTypeView>::empty());
        assert(error_views(r.errors.errors@) =~= Seq::<ErrorView>::empty());
        r
    }

    /// The abstract operand stack as the last verification left it.
    pub fn stack(&self) -> (r: &Vec<AbstractType>)
        ensures
            views(r@) == self.stack_view(),
    {
        &self.stack
    }

    /// Whether a value of the abstract type `actual` is one of the source-level
    /// type `expected`.
    fn conforms(&self, expected: &TcType, actual: &AbstractType) -> (r: bool)
        ensures
            r == conforms(self.type_env, **expected, actual@),
        decreases actual, 1int,
    {
        match actual {
            AbstractType::TcType(typ) => self.type_env.equivalent(expected, typ),
            AbstractType::Variant(tag, args) => match &**expected {
                Type::Variants(variants) => {
                    if (*tag as usize) < variants.len() {
                        match variants[*tag as usize].1.as_function() {
                            Some((formals, _)) => {
                                let r = args.len() == formals.len() && self.all_conform(
                                    formals,
                                    args,
                                );
                                proof {
                                    let held = actual@->Variant_1;
                                    assert(held == views(args@));
                                    lemma_views(args@);
                                    assert(conforms(self.type_env, **expected, actual@) == (held.len()
                                        == formals@.len() && forall|i: int|
                                        0 <= i < held.len() && i < formals@.len() ==> conforms(
                                            self.type_env,
                                            *formals@[i],
                                            #[trigger] held[i],
                                        )));
                                }
                                r
                            },
                            None => {
                                proof {
                                    lemma_views(args@);
                                }
                                args.len() == 0
                            },
                        }
                    } else {
                        false
                    }
                },
                _ => false,
            },
        }
    }

    /// Whether the arguments are of the types of the formal arguments, one by
    /// one. That they are as many is for the caller to see to.
    fn all_conform(&self, formals: &Vec<TcType>, args: &Vec<AbstractType>) -> (r: bool)
        ensures
            r == (forall|i: int|
                0 <= i < views(args@).len() && i < formals@.len() ==> conforms(
                    self.type_env,
                    *formals@[i],
                    #[trigger] views(args@)[i],
                )),
        decreases args, 0int,
    {
        proof {
            lemma_views(args@);
        }
        let mut i: usize = 0;
        while i < formals.len() && i < args.len()
            invariant
                i <= formals@.len(),
                i <= args@.len(),
                views(args@).len() == args@.len(),
                forall|j: int| 0 <= j < args@.len() ==> (#[trigger] views(args@)[j]) == args@[j]@,
                forall|j: int|
                    0 <= j < i ==> conforms(self.type_env, *formals@[j], #[trigger] views(args@)[j]),
            decreases args@.len() - i,
        {
            if !self.conforms(&formals[i], &args[i]) {
                assert(!conforms(self.type_env, *formals@[i as int], views(args@)[i as int]));
                return false;
            }
            i += 1;
        }
        true
    }

    /// Whether a value of the source-level type `actual` is one of the abstract
    /// type `expected`.
    fn conformed_by(&self, expected: &AbstractType, actual: &TcType) -> (r: bool)
        ensures
            r == conformed_by(self.type_env, expected@, **actual),
        decreases expected, 1int,
    {
        match expected {
            AbstractType::TcType(typ) => self.type_env.equivalent(typ, actual),
            AbstractType::Variant(tag, args) => match &**actual {
                Type::Variants(variants) => {
                    if (*tag as usize) < variants.len() {
                        match variants[*tag as usize].1.as_function() {
                            Some((formals, _)) => {
                                let r = args.len() == formals.len() && self.all_conformed_by(
                                    args,
                                    formals,
                                );
                                proof {
                                    let held = expected@->Variant_1;
                                    assert(held == views(args@));
                                    lemma_views(args@);
                                    assert(conformed_by(self.type_env, expected@, **actual) == (held.len()
                                        == formals@.len() && forall|i: int|
                                        0 <= i < held.len() && i < formals@.len() ==> conformed_by(
                                            self.type_env,
                                            #[trigger] held[i],
                                            *formals@[i],
                                        )));
                                }
                                r
                            },
                            None => {
                                proof {
                                    lemma_views(args@);
                                }
                                args.len() == 0
                            },
                        }
                    } else {
                        false
                    }
                },
                _ => false,
            },
        }
    }

    /// Whether the formal arguments are of the abstract types of the arguments,
    /// one by one. That they are as many is for the caller to see to.
    fn all_conformed_by(&self, args: &Vec<AbstractType>, formals: &Vec<TcType>) -> (r: bool)
        ensures
            r == (forall|i: int|
                0 <= i < views(args@).len() && i < formals@.len() ==> conformed_by(
                    self.type_env,
                    #[trigger] views(args@)[i],
                    *formals@[i],
                )),
        decreases args, 0int,
    {
        proof {
            lemma_views(args@);
        }
        let mut i: usize = 0;
        while i < formals.len() && i < args.len()
            invariant
                i <= formals@.len(),
                i <= args@.len(),
                views(args@).len() == args@.len(),
                forall|j: int| 0 <= j < args@.len() ==> (#[trigger] views(args@)[j]) == args@[j]@,
                forall|j: int|
                    0 <= j < i ==> conformed_by(self.type_env, #[trigger] views(args@)[j], *formals@[j]),
            decreases args@.len() - i,
        {
            if !self.conformed_by(&args[i], &formals[i]) {
                assert(!conformed_by(self.type_env, views(args@)[i as int], *formals@[i as int]));
                return false;
            }
            i += 1;
        }
        true
    }

    /// Whether the two abstract types are equivalent.
    pub fn equivalent(&self, expected: &AbstractType, actual: &AbstractType) -> (r: bool)
        ensures
            r == equivalent_spec(self.env(), expected@, actual@),
        decreases expected, 1int,
    {
        match expected {
            AbstractType::TcType(typ) => self.conforms(typ, actual),
            AbstractType::Variant(expected_tag, expected_args) => match actual {
                AbstractType::TcType(typ) => self.conformed_by(expected, typ),
                AbstractType::Variant(actual_tag, actual_args) => {
                    let r = *expected_tag == *actual_tag && expected_args.len()
                        == actual_args.len() && self.all_equivalent(expected_args, actual_args);
                    proof {
                        let left = expected@->Variant_1;
                        let right = actual@->Variant_1;
                        assert(left == views(expected_args@));
                        assert(right == views(actual_args@));
                        lemma_views(expected_args@);
                        lemma_views(actual_args@);
                        assert(equivalent_spec(self.type_env, expected@, actual@) == (*expected_tag
                            == *actual_tag && left.len() == right.len() && forall|i: int|
                            0 <= i < left.len() && i < right.len() ==> equivalent_spec(
                                self.type_env,
                                #[trigger] left[i],
                                right[i],
                            )));
                    }
                    r
                },
            },
        }
    }

    /// Whether the abstract types are equivalent, one by one. That they are as
    /// many is for the caller to see to.
    fn all_equivalent(&self, expected: &Vec<AbstractType>, actual: &Vec<AbstractType>) -> (r: bool)
        ensures
            r == (forall|i: int|
                0 <= i < views(expected@).len() && i < views(actual@).len() ==> equivalent_spec(
                    self.type_env,
                    #[trigger] views(expected@)[i],
                    views(actual@)[i],
                )),
        decreases expected, 0int,
    {
        proof {
            lemma_views(expected@);
            lemma_views(actual@);
        }
        let mut i: usize = 0;
        while i < expected.len() && i < actual.len()
            invariant
                i <= expected@.len(),
                i <= actual@.len(),
                views(expected@).len() == expected@.len(),
                views(actual@).len() == actual@.len(),
                forall|j: int| 0 <= j < expected@.len() ==> (#[trigger] views(expected@)[j]) == expected@[j]@,
                forall|j: int| 0 <= j < actual@.len() ==> (#[trigger] views(actual@)[j]) == actual@[j]@,
                forall|j: int|
                    0 <= j < i ==> equivalent_spec(
                        self.type_env,
                        #[trigger] views(expected@)[j],
                        views(actual@)[j],
                    ),
            decreases expected@.len() - i,
        {
            if !self.equivalent(&expected[i], &actual[i]) {
                assert(!equivalent_spec(self.type_env, views(expected@)[i as int], views(actual@)[i as int]));
                return false;
            }
            i += 1;
        }
        true
    }
}

impl<'a, E: TypeEnv, G: Globals> Verifier<'a, E, G> {
    /// Whether `self` is what `outcome` makes of the verifier `before`, and
    /// `control` says what `outcome` is.
    spec fn follows(&self, before: Self, outcome: Outcome, control: Control) -> bool {
        &&& self.type_env == before.type_env
        &&& self.globals == before.globals
        &&& match outcome {
            Outcome::Continue(state) => control is Next && self.state() == state,
            Outcome::Abort(errors) => control matches Control::Abort(reported) && error_views(
                reported.errors@,
            ) == errors,
        }
    }

    /// Whether the stack admits the instruction.
    pub fn admits(&self, instruction: &Instruction) -> (r: bool)
        ensures
            r == admits(self.stack_view(), *instruction),
    {
        match instruction {
            Instruction::Push(i) => (*i as usize) < self.stack.len(),
            Instruction::Construct(_, args) => (*args as usize) <= self.stack.len(),
            _ => true,
        }
    }

    fn push(&mut self, typ: AbstractType)
        ensures
            final(self).stack_view() == old(self).stack_view().push(typ@),
            final(self).errors == old(self).errors,
            final(self).type_env == old(self).type_env,
            final(self).globals == old(self).globals,
    {
        self.stack.push(typ);
        proof {
            lemma_views_push(old(self).stack@, typ);
        }
    }

    fn record(&mut self, error: Error)
        ensures
            final(self).errors_view() == old(self).errors_view().push(error@),
            final(self).stack == old(self).stack,
            final(self).type_env == old(self).type_env,
            final(self).globals == old(self).globals,
    {
        self.errors.error(error);
        proof {
            lemma_errors_push(old(self).errors.errors@, error);
        }
    }

    /// Hands out the errors recorded so far and starts a new list.
    fn take_errors(&mut self) -> (r: Errors<Error>)
        ensures
            error_views(r.errors@) == old(self).errors_view(),
            final(self).errors_view() == Seq::<ErrorView>::empty(),
            final(self).stack == old(self).stack,
            final(self).type_env == old(self).type_env,
            final(self).globals == old(self).globals,
    {
        let mut taken: Errors<Error> = Errors::new();
        core::mem::swap(&mut self.errors, &mut taken);
        assert(error_views(self.errors.errors@) =~= Seq::<ErrorView>::empty());
        taken
    }

    /// Gives the verification up for want of arguments.
    fn not_enough_arguments(&mut self) -> (r: Control)
        ensures
            final(self).follows(
                *old(self),
                Outcome::Abort(old(self).errors_view().push(ErrorView::NotEnoughArguments)),
                r,
            ),
    {
        self.record(Error::NotEnoughArguments);
        Control::Abort(self.take_errors())
    }

    /// Compares the arguments above slot `at` with the formal arguments and
    /// records those that are of another type.
    fn check_arguments(&mut self, formals: &Vec<TcType>, at: usize, args: usize)
        requires
            at + 1 + args == old(self).stack@.len(),
        ensures
            final(self).stack == old(self).stack,
            final(self).type_env == old(self).type_env,
            final(self).globals == old(self).globals,
            final(self).errors_view() == old(self).errors_view() + mismatches(
                old(self).type_env,
                formals@,
                old(self).stack_view().subrange(at + 1, at + 1 + args),
                shorter(formals@.len(), args as nat),
            ),
    {
        let ghost actuals = self.stack_view().subrange(at + 1, at + 1 + args);
        let mut i: usize = 0;
        assert(self.stack.len() <= usize::MAX);
        proof {
            lemma_views(self.stack@);
            assert(self.errors_view() + Seq::<ErrorView>::empty() =~= self.errors_view());
        }
        while i < formals.len() && i < args
            invariant
                at + 1 + args == self.stack@.len(),
                self.stack@.len() <= usize::MAX,
                self.stack == old(self).stack,
                self.type_env == old(self).type_env,
                self.globals == old(self).globals,
                actuals == old(self).stack_view().subrange(at + 1, at + 1 + args),
                i <= formals@.len(),
                i <= args,
                self.errors_view() == old(self).errors_view() + mismatches(
                    self.type_env,
                    formals@,
                    actuals,
                    i as nat,
                ),
            decreases args - i,
        {
            let expected = AbstractType::TcType(share(&formals[i]));
            proof {
                lemma_views(self.stack@);
                assert(actuals[i as int] == self.stack@[at + 1 + i]@);
            }
            if !self.equivalent(&expected, &self.stack[at + 1 + i]) {
                let actual = self.stack[at + 1 + i].clone();
                let ghost before = self.errors_view();
                self.record(Error::TypeMismatch(expected, actual));
                proof {
                    let found = mismatches(self.type_env, formals@, actuals, i as nat);
                    let error = ErrorView::TypeMismatch(expected@, actual@);
                    assert((old(self).errors_view() + found).push(error) =~= old(self).errors_view()
                        + found.push(error));
                }
            }
            i += 1;
        }
    }

    /// A call, or a tail call, with `args` arguments.
    fn call(&mut self, args: VMIndex) -> (r: Control)
        ensures
            final(self).follows(*old(self), call(old(self).type_env, old(self).state(), args), r),
    {
        let count: usize = args as usize;
        let len: usize = self.stack.len();
        proof {
            lemma_views(self.stack@);
        }
        if len <= count || len - count <= 1 {
            return self.not_enough_arguments();
        }
        let at: usize = len - count - 1;
        let callee: Option<TcType> = match &self.stack[at] {
            AbstractType::TcType(typ) => Some(share(typ)),
            AbstractType::Variant(_, _) => None,
        };
        match callee {
            Some(typ) => match typ.as_function() {
                Some((formals, ret)) => {
                    self.check_arguments(formals, at, count);
                    self.stack.truncate(at);
                    proof {
                        lemma_views_subrange(old(self).stack@, 0, at as int);
                        assert(self.stack@ =~= old(self).stack@.subrange(0, at as int));
                    }
                    self.push(AbstractType::TcType(share(ret)));
                    Control::Next
                },
                None => self.not_enough_arguments(),
            },
            None => self.not_enough_arguments(),
        }
    }

    /// Builds a value with the given tag from the topmost `args` slots.
    fn construct(&mut self, tag: VMIndex, args: VMIndex)
        requires
            args <= old(self).stack_view().len(),
        ensures
            final(self).type_env == old(self).type_env,
            final(self).globals == old(self).globals,
            final(self).errors == old(self).errors,
            final(self).stack_view() == {
                let stack = old(self).stack_view();
                let len = stack.len() as int;
                stack.subrange(0, len - args).push(
                    AbstractTypeView::Variant(tag, stack.subrange(len - args, len)),
                )
            },
    {
        proof {
            lemma_views(self.stack@);
        }
        let at: usize = self.stack.len() - args as usize;
        let held = self.stack.split_off(at);
        proof {
            let len = old(self).stack@.len() as int;
            lemma_views_subrange(old(self).stack@, 0, at as int);
            lemma_views_subrange(old(self).stack@, at as int, len);
            assert(self.stack@ =~= old(self).stack@.subrange(0, at as int));
            assert(held@ =~= old(self).stack@.subrange(at as int, len));
        }
        self.push(AbstractType::Variant(tag, Rc::new(held)));
    }

    /// The abstract type of field `index` of a value of the abstract type `typ`.
    fn field(typ: &AbstractType, index: VMIndex) -> (r: Option<AbstractType>)
        ensures
            r is Some == field_of(typ@, index) is Some,
            r matches Some(found) ==> field_of(typ@, index) == Some(found@),
    {
        match typ {
            AbstractType::TcType(source) => match &**source {
                Type::Record(fields) => {
                    if (index as usize) < fields.len() {
                        Some(AbstractType::TcType(share(&fields[index as usize].typ)))
                    } else {
                        None
                    }
                },
                _ => None,
            },
            AbstractType::Variant(_, args) => {
                proof {
                    lemma_views(args@);
                }
                if (index as usize) < args.len() {
                    Some(args[index as usize].clone())
                } else {
                    None
                }
            },
        }
    }

    /// Replaces the top of the stack by its field with the given index.
    fn get_field(&mut self, index: VMIndex)
        ensures
            final(self).follows(
                *old(self),
                step(old(self).type_env, old(self).globals, old(self).state(), Instruction::GetField(index)),
                Control::Next,
            ),
    {
        proof {
            lemma_views(self.stack@);
        }
        match self.stack.pop() {
            Some(top) => {
                proof {
                    let len = old(self).stack@.len() as int;
                    lemma_views_subrange(old(self).stack@, 0, len - 1);
                    assert(self.stack@ =~= old(self).stack@.subrange(0, len - 1));
                    assert(old(self).stack_view().drop_last() =~= old(self).stack_view().subrange(0, len - 1));
                }
                match Self::field(&top, index) {
                    Some(typ) => self.push(typ),
                    None => self.record(Error::FieldIsOutOfRange(top, index)),
                }
            },
            None => {
                self.record(Error::EmptyStack);
            },
        }
    }

    /// Interprets one instruction.
    fn step(&mut self, instruction: Instruction) -> (r: Control)
        requires
            admits(old(self).stack_view(), instruction),
        ensures
            final(self).follows(
                *old(self),
                step(old(self).type_env, old(self).globals, old(self).state(), instruction),
                r,
            ),
    {
        match instruction {
            Instruction::Push(i) => {
                proof {
                    lemma_views(self.stack@);
                }
                let typ = self.stack[i as usize].clone();
                self.push(typ);
                Control::Next
            },
            Instruction::PushInt(_) => {
                self.push(AbstractType::TcType(Type::builtin(BuiltinType::Int)));
                Control::Next
            },
            Instruction::PushFloat(_) => {
                self.push(AbstractType::TcType(Type::builtin(BuiltinType::Float)));
                Control::Next
            },
            Instruction::PushString(_) => {
                self.push(AbstractType::TcType(Type::builtin(BuiltinType::String)));
                Control::Next
            },
            Instruction::PushGlobal(index) => {
                match self.globals.lookup(index as usize) {
                    Some(typ) => self.push(AbstractType::TcType(typ)),
                    None => self.record(Error::UndefinedGlobal(index)),
                }
                Control::Next
            },
            Instruction::Call(args) => self.call(args),
            Instruction::TailCall(args) => self.call(args),
            Instruction::Construct(tag, args) => {
                self.construct(tag, args);
                Control::Next
            },
            Instruction::GetField(index) => {
                self.get_field(index);
                Control::Next
            },
            _ => {
                let none: Errors<Error> = Errors::new();
                assert(error_views(none.errors@) =~= Seq::<ErrorView>::empty());
                Control::Abort(none)
            },
        }
    }
}

/// What a verification hands back, as a mathematical value.
pub open spec fn result_view(result: Result<(), Errors<Error>>) -> Result<(), Seq<ErrorView>> {
    match result {
        Ok(_) => Ok(()),
        Err(errors) => Err(error_views(errors.errors@)),
    }
}

/// The state on entry to a function of type `function_type`.
pub open spec fn entry_state(function_type: Type) -> State {
    State { stack: entry(function_type), errors: Seq::empty() }
}

impl<'a, E: TypeEnv, G: Globals> Verifier<'a, E, G> {
    /// Empties the verifier and fills the stack for the entry to a function of
    /// type `bytecode_type`.
    fn enter(&mut self, bytecode_type: &TcType)
        ensures
            final(self).type_env == old(self).type_env,
            final(self).globals == old(self).globals,
            final(self).state() == entry_state(**bytecode_type),
    {
        self.stack.clear();
        let _ = self.take_errors();
        assert(views(self.stack@) =~= Seq::<AbstractTypeView>::empty());
        match bytecode_type.as_function() {
            Some((args, _)) => {
                let mut i: usize = 0;
                while i < args.len()
                    invariant
                        self.type_env == old(self).type_env,
                        self.globals == old(self).globals,
                        self.errors_view() == Seq::<ErrorView>::empty(),
                        i <= args@.len(),
                        arg_types(**bytecode_type) == args@,
                        self.stack_view() == entry(**bytecode_type).subrange(0, i as int),
                    decreases args@.len() - i,
                {
                    self.push(AbstractType::TcType(share(&args[i])));
                    assert(self.stack_view() =~= entry(**bytecode_type).subrange(0, i + 1));
                    i += 1;
                }
                assert(self.stack_view() =~= entry(**bytecode_type));
            },
            None => {
                assert(self.stack_view() =~= entry(**bytecode_type));
            },
        }
    }

    /// Verifies the instructions of a function of type `bytecode_type`, unless
    /// one of them finds a stack that does not admit it.
    ///
    /// The instructions are interpreted in order, starting from one stack slot
    /// for each formal argument. The result is `None` where an instruction is
    /// not admitted. Else it is the success, or the errors, of the
    /// verification: those recorded by the time verification is given up, or up
    /// to the end. An instruction that the verifier does not know ends the
    /// verification and reports no error at all.
    pub fn try_verify(&mut self, bytecode_type: &TcType, instructions: &[Instruction]) -> (r: Option<
        Result<(), Errors<Error>>,
    >)
        ensures
            final(self).env() == old(self).env(),
            final(self).globals() == old(self).globals(),
            final(self).errors_view() == Seq::<ErrorView>::empty(),
            r is Some == well_formed(
                old(self).env(),
                old(self).globals(),
                entry_state(**bytecode_type),
                instructions@,
            ),
            r matches Some(result) ==> {
                let outcome = run(
                    old(self).env(),
                    old(self).globals(),
                    entry_state(**bytecode_type),
                    instructions@,
                );
                &&& result_view(result) == verdict(outcome)
                &&& outcome matches Outcome::Continue(state) ==> final(self).stack_view() == state.stack
            },
    {
        self.enter(bytecode_type);
        let ghost start = self.state();
        let ghost all = instructions@;
        let mut i: usize = 0;
        assert(all.subrange(0, all.len() as int) =~= all);
        while i < instructions.len()
            invariant
                self.type_env == old(self).type_env,
                self.globals == old(self).globals,
                all == instructions@,
                start == entry_state(**bytecode_type),
                i <= all.len(),
                well_formed(self.type_env, self.globals, start, all) == well_formed(
                    self.type_env,
                    self.globals,
                    self.state(),
                    all.subrange(i as int, all.len() as int),
                ),
                run(self.type_env, self.globals, start, all) == run(
                    self.type_env,
                    self.globals,
                    self.state(),
                    all.subrange(i as int, all.len() as int),
                ),
            decreases all.len() - i,
        {
            let instruction = instructions[i];
            let ghost rest = all.subrange(i as int, all.len() as int);
            proof {
                assert(rest[0] == instruction);
                assert(rest.drop_first() =~= all.subrange(i + 1, all.len() as int));
            }
            let ghost here = self.state();
            if !self.admits(&instruction) {
                assert(!well_formed(self.type_env, self.globals, here, rest));
                let _ = self.take_errors();
                return None;
            }
            match self.step(instruction) {
                Control::Next => {},
                Control::Abort(errors) => {
                    assert(well_formed(self.type_env, self.globals, here, rest));
                    assert(run(self.type_env, self.globals, here, rest) == Outcome::Abort(
                        error_views(errors.errors@),
                    ));
                    let _ = self.take_errors();
                    return Some(Err(errors));
                },
            }
            i += 1;
        }
        if self.errors.has_errors() {
            Some(Err(self.take_errors()))
        } else {
            assert(self.errors_view() =~= Seq::<ErrorView>::empty());
            Some(Ok(()))
        }
    }

    /// Verifies the instructions of a function of type `bytecode_type`.
    ///
    /// Each instruction must find a stack that admits it: `Push` a slot with
    /// its index, `Construct` as many slots as it takes.
    pub fn verify(&mut self, bytecode_type: &TcType, instructions: &[Instruction]) -> (r: Result<
        (),
        Errors<Error>,
    >)
        requires
            well_formed(
                old(self).env(),
                old(self).globals(),
                entry_state(**bytecode_type),
                instructions@,
            ),
        ensures
            final(self).env() == old(self).env(),
            final(self).globals() == old(self).globals(),
            final(self).errors_view() == Seq::<ErrorView>::empty(),
            ({
                let outcome = run(
                    old(self).env(),
                    old(self).globals(),
                    entry_state(**bytecode_type),
                    instructions@,
                );
                &&& result_view(r) == verdict(outcome)
                &&& outcome matches Outcome::Continue(state) ==> final(self).stack_view() == state.stack
            }),
    {
        match self.try_verify(bytecode_type, instructions) {
            Some(result) => result,
            None => vstd::pervasive::unreached(),
        }
    }
}

/// On entry the stack has one slot for each formal argument.
pub proof fn lemma_entry_length(function_type: Type)
    ensures
        entry(function_type).len() == arg_types(function_type).len(),
{
}

/// What the instructions after a prefix are does not change what the prefix
/// leads to: running a sequence is running its prefix and then, where
/// verification goes on, the rest.
pub proof fn lemma_run_prefix<E: TypeEnv, G: Globals>(
    env: &E,
    globals: &G,
    state: State,
    prefix: Seq<Instruction>,
    rest: Seq<Instruction>,
)
    ensures
        run(env, globals, state, prefix + rest) == match run(env, globals, state, prefix) {
            Outcome::Continue(middle) => run(env, globals, middle, rest),
            Outcome::Abort(errors) => Outcome::Abort(errors),
        },
    decreases prefix.len(),
{
    if prefix.len() == 0 {
        assert(prefix + rest =~= rest);
    } else {
        let whole = prefix + rest;
        assert(whole[0] == prefix[0]);
        assert(whole.drop_first() =~= prefix.drop_first() + rest);
        match step(env, globals, state, prefix[0]) {
            Outcome::Continue(next) => {
                lemma_run_prefix(env, globals, next, prefix.drop_first(), rest);
            },
            Outcome::Abort(_) => {},
        }
    }
}

/// Whether two outcomes agree on whether verification goes on and, where it
/// does, on the stack.
pub open spec fn same_stack(left: Outcome, right: Outcome) -> bool {
    match left {
        Outcome::Continue(a) => right matches Outcome::Continue(b) && a.stack == b.stack,
        Outcome::Abort(_) => right is Abort,
    }
}

/// The stack after a sequence of instructions, and whether verification comes
/// that far, is determined by the stack before, the globals and the
/// instructions: neither the equivalence judgement of the type environment
/// nor the errors recorded so far have a part in it.
pub proof fn lemma_stack_determined<E1: TypeEnv, E2: TypeEnv, G: Globals>(
    env1: &E1,
    env2: &E2,
    globals: &G,
    state1: State,
    state2: State,
    instructions: Seq<Instruction>,
)
    requires
        state1.stack == state2.stack,
    ensures
        same_stack(
            run(env1, globals, state1, instructions),
            run(env2, globals, state2, instructions),
        ),
    decreases instructions.len(),
{
    if instructions.len() > 0 {
        let first = step(env1, globals, state1, instructions[0]);
        let second = step(env2, globals, state2, instructions[0]);
        assert(same_stack(first, second));
        match first {
            Outcome::Continue(next1) => {
                let next2 = second->Continue_0;
                lemma_stack_determined(env1, env2, globals, next1, next2, instructions.drop_first());
            },
            Outcome::Abort(_) => {},
        }
    }
}

/// A field taken from a value that was just constructed is the argument in its
/// place: after `Construct(tag, args)` and `GetField(index)`, with `index`
/// less than `args`, the slot that became argument `index` is on top, and no
/// error is recorded.
pub proof fn lemma_construct_get_field<E: TypeEnv, G: Globals>(
    env: &E,
    globals: &G,
    state: State,
    tag: VMIndex,
    args: VMIndex,
    index: VMIndex,
)
    requires
        args <= state.stack.len(),
        index < args,
    ensures
        run(
            env,
            globals,
            state,
            seq![Instruction::Construct(tag, args), Instruction::GetField(index)],
        ) == Outcome::Continue(
            State {
                stack: state.stack.subrange(0, state.stack.len() - args).push(
                    state.stack[state.stack.len() - args + index],
                ),
                errors: state.errors,
            },
        ),
{
    let instructions = seq![Instruction::Construct(tag, args), Instruction::GetField(index)];
    let len = state.stack.len() as int;
    let built = State {
        stack: state.stack.subrange(0, len - args).push(
            AbstractTypeView::Variant(tag, state.stack.subrange(len - args, len)),
        ),
        errors: state.errors,
    };
    assert(step(env, globals, state, instructions[0]) == Outcome::Continue(built));
    let rest = instructions.drop_first();
    assert(rest[0] == Instruction::GetField(index));
    assert(rest.drop_first().len() == 0);
    assert(built.stack.drop_last() =~= state.stack.subrange(0, len - args));
    reveal_with_fuel(run, 3);
}

/// One-sided equivalence read from the other side.
proof fn lemma_conforms_mirror<E: TypeEnv>(env: &E, source: Type, typ: AbstractTypeView)
    requires
        forall|x: Type, y: Type| env.accepts(x, y) == env.accepts(y, x),
    ensures
        conforms(env, source, typ) == conformed_by(env, typ, source),
    decreases typ,
{
    match typ {
        AbstractTypeView::Concrete(_) => {},
        AbstractTypeView::Variant(tag, args) => {
            match formals_of(source, tag) {
                Some(formals) => {
                    assert forall|i: int| 0 <= i < args.len() && i < formals.len() implies conforms(
                        env,
                        *formals[i],
                        #[trigger] args[i],
                    ) == conformed_by(env, args[i], *formals[i]) by {
                        lemma_conforms_mirror(env, *formals[i], args[i]);
                    }
                },
                None => {},
            }
        },
    }
}

/// Equivalence of abstract types is symmetric wherever the equivalence
/// judgement of the type environment is.
pub proof fn lemma_equivalent_symmetric<E: TypeEnv>(
    env: &E,
    left: AbstractTypeView,
    right: AbstractTypeView,
)
    requires
        forall|x: Type, y: Type| env.accepts(x, y) == env.accepts(y, x),
    ensures
        equivalent_spec(env, left, right) == equivalent_spec(env, right, left),
    decreases left,
{
    match left {
        AbstractTypeView::Concrete(source) => {
            lemma_conforms_mirror(env, source, right);
        },
        AbstractTypeView::Variant(left_tag, left_args) => match right {
            AbstractTypeView::Concrete(source) => {
                lemma_conforms_mirror(env, source, left);
            },
            AbstractTypeView::Variant(right_tag, right_args) => {
                assert forall|i: int| 0 <= i < left_args.len() && i < right_args.len() implies equivalent_spec(
                    env,
                    #[trigger] left_args[i],
                    right_args[i],
                ) == equivalent_spec(env, right_args[i], left_args[i]) by {
                    lemma_equivalent_symmetric(env, left_args[i], right_args[i]);
                }
                if equivalent_spec(env, left, right) {
                    assert forall|i: int| 0 <= i < right_args.len() && i < left_args.len() implies equivalent_spec(
                        env,
                        #[trigger] right_args[i],
                        left_args[i],
                    ) by {
                        assert(equivalent_spec(env, left_args[i], right_args[i]));
                    }
                }
                if equivalent_spec(env, right, left) {
                    assert forall|i: int| 0 <= i < left_args.len() && i < right_args.len() implies equivalent_spec(
                        env,
                        #[trigger] left_args[i],
                        right_args[i],
                    ) by {
                        assert(equivalent_spec(env, right_args[i], left_args[i]));
                    }
                }
            },
        },
    }
}

/// The type of what a function of type `function_type` returns. A type that is
/// no function type is that of a value that is computed without arguments.
pub open spec fn return_type(function_type: Type) -> Type {
    match function_type {
        Type::Function(_, ret) => *ret,
        _ => function_type,
    }
}

/// Whether `stack` holds the result of a function of type `function_type` and
/// nothing else: one slot, of an abstract type that is equivalent to the return
/// type.
pub open spec fn holds_result<E: TypeEnv>(
    env: &E,
    stack: Seq<AbstractTypeView>,
    function_type: Type,
) -> bool {
    stack.len() == 1 && equivalent_spec(
        env,
        AbstractTypeView::Concrete(return_type(function_type)),
        stack[0],
    )
}

impl<'a, E: TypeEnv, G: Globals> Verifier<'a, E, G> {
    /// Whether the stack, as the last verification left it, holds the result of
    /// a function of type `bytecode_type` and nothing else.
    pub fn holds_result(&self, bytecode_type: &TcType) -> (r: bool)
        ensures
            r == holds_result(self.env(), self.stack_view(), **bytecode_type),
    {
        proof {
            lemma_views(self.stack@);
        }
        if self.stack.len() != 1 {
            return false;
        }
        let expected = match bytecode_type.as_function() {
            Some((_, ret)) => AbstractType::TcType(share(ret)),
            None => AbstractType::TcType(share(bytecode_type)),
        };
        self.equivalent(&expected, &self.stack[0])
    }
}

} // verus!
