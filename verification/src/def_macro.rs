//! The macro expansion hook.
//!
//! A macro is a function from syntax tree to syntax tree that runs while the
//! front-end works. The built-in macro `def_macro` defines others: it hands
//! the transformer to the compiler, has the verifier look at what the compiler
//! made of it, puts the closure on the heap, binds it to a global and installs
//! the expander. A macro so defined is expanded by calling that closure.
//!
//! Type checking, compiling and calling a closure are the work of the
//! front-end and the interpreter. An expansion therefore goes in two steps:
//! the expander says what is to be done, and is told what came of it. A
//! definition takes effect in the second step, and as a whole or not at all.

use vstd::prelude::*;
use vstd::string::StringExecFns;
use crate::base::ast::{unit, Expr, LExpr, Location};
use crate::base::types::{share, TcType, Type};
use crate::gc::GcPtr;
use crate::gc::Move;
use crate::vm::{BytecodeFunction, ClosureData, Object, Value, Vm};

verus! {

/// The digit for a number below ten.
pub open spec fn digit(d: nat) -> char {
    if d == 0 {
        '0'
    } else if d == 1 {
        '1'
    } else if d == 2 {
        '2'
    } else if d == 3 {
        '3'
    } else if d == 4 {
        '4'
    } else if d == 5 {
        '5'
    } else if d == 6 {
        '6'
    } else if d == 7 {
        '7'
    } else if d == 8 {
        '8'
    } else {
        '9'
    }
}

/// A number written in decimal digits.
pub open spec fn decimal(n: nat) -> Seq<char>
    decreases n,
{
    if n < 10 {
        seq![digit(n)]
    } else {
        decimal(n / 10).push(digit(n % 10))
    }
}

fn digit_str(d: usize) -> (r: &'static str)
    requires
        d < 10,
    ensures
        r@ == seq![digit(d as nat)],
{
    proof {
        reveal_strlit("0");
        reveal_strlit("1");
        reveal_strlit("2");
        reveal_strlit("3");
        reveal_strlit("4");
        reveal_strlit("5");
        reveal_strlit("6");
        reveal_strlit("7");
        reveal_strlit("8");
        reveal_strlit("9");
    }
    let r = if d == 0 {
        "0"
    } else if d == 1 {
        "1"
    } else if d == 2 {
        "2"
    } else if d == 3 {
        "3"
    } else if d == 4 {
        "4"
    } else if d == 5 {
        "5"
    } else if d == 6 {
        "6"
    } else if d == 7 {
        "7"
    } else if d == 8 {
        "8"
    } else {
        "9"
    };
    assert(r@ =~= seq![digit(d as nat)]);
    r
}

/// Writes a number in decimal digits.
pub fn to_decimal(n: usize) -> (r: String)
    ensures
        r@ == decimal(n as nat),
    decreases n,
{
    if n < 10 {
        String::from_str(digit_str(n))
    } else {
        let mut text = to_decimal(n / 10);
        text.append(digit_str(n % 10));
        assert(text@ =~= decimal(n as nat));
        text
    }
}

/// What can go wrong in an expansion. Each error carries its message.
#[derive(Debug, PartialEq, Eq)]
pub enum MacroError {
    /// The macro was given the wrong number of arguments.
    ArgCountWrong(String),
    /// An argument is not of the shape that the macro asks for.
    ArgShapeWrong(String),
    /// The global that a macro is bound to does not exist, or is no
    /// transformer.
    UnknownGlobal(String),
    /// The verifier did not accept the compiled transformer of a macro.
    Rejected(String),
    /// The heap could not hold the closure of a macro.
    Allocation,
    /// An error of the type checker, or of a transformer that was run.
    Message(String),
}

/// The built-in macro that defines macros:
/// `def_macro <name> <transformer>`.
#[derive(Debug, PartialEq, Eq)]
pub struct DefMacro;

/// A macro that was defined by `def_macro`: it runs the transformer that the
/// global `id` is bound to.
#[derive(Debug, PartialEq, Eq)]
pub struct RunMacro {
    pub id: String,
}

/// What a name in the macro table is bound to.
#[derive(Debug, PartialEq, Eq)]
pub enum Expander {
    DefMacro(DefMacro),
    RunMacro(RunMacro),
}

impl Clone for Expander {
    fn clone(&self) -> (r: Expander)
        ensures
            r == *self,
    {
        match self {
            Expander::DefMacro(_) => Expander::DefMacro(DefMacro),
            Expander::RunMacro(run) => Expander::RunMacro(RunMacro { id: run.id.clone() }),
        }
    }
}

impl MacroError {
    /// The message of the error, as a mathematical value.
    pub open spec fn message_view(&self) -> Seq<char> {
        match self {
            MacroError::ArgCountWrong(message) => message@,
            MacroError::ArgShapeWrong(message) => message@,
            MacroError::UnknownGlobal(message) => message@,
            MacroError::Rejected(message) => message@,
            MacroError::Allocation => "The heap cannot hold the closure of the macro"@,
            MacroError::Message(message) => message@,
        }
    }

    /// The message of the error.
    pub fn message(&self) -> (r: String)
        ensures
            r@ == self.message_view(),
    {
        match self {
            MacroError::ArgCountWrong(message) => message.clone(),
            MacroError::ArgShapeWrong(message) => message.clone(),
            MacroError::UnknownGlobal(message) => message.clone(),
            MacroError::Rejected(message) => message.clone(),
            MacroError::Allocation => String::from_str("The heap cannot hold the closure of the macro"),
            MacroError::Message(message) => message.clone(),
        }
    }
}

/// What `def_macro` says where it is not given two arguments.
pub open spec fn count_message(given: nat) -> Seq<char> {
    "Expected 'def_macro' to receive exactly 2 arguments but got "@ + decimal(given)
}

/// What `def_macro` says where its first argument is no identifier.
pub open spec fn shape_message() -> Seq<char> {
    "Expected 'def_macro' to receive an identifier as the first argument"@
}

/// What the macro `id` says where it is given no argument.
pub open spec fn arity_message(id: Seq<char>) -> Seq<char> {
    "Expected macro '"@ + id + "' to receive at least 1 argument"@
}

/// What the macro `id` says where no global `id` holds a transformer.
pub open spec fn missing_message(id: Seq<char>) -> Seq<char> {
    "Expected macro function '"@ + id + "' to exist"@
}

/// What `def_macro` says where the verifier does not accept the transformer of
/// the macro `name`.
pub open spec fn rejected_message(name: Seq<char>) -> Seq<char> {
    "The verifier refused the transformer of macro '"@ + name + "'"@
}

/// Whether `typ` is the type of the transformers: a function from syntax tree
/// to syntax tree. The type of syntax trees is the one registered as `Expr`.
pub open spec fn is_transform_type(typ: Type) -> bool {
    typ matches Type::Function(args, ret) && args@.len() == 1 && crate::vm::is_named(
        *args@[0],
        "Expr"@,
    ) && crate::vm::is_named(*ret, "Expr"@)
}

/// The type of the transformers, given the type of syntax trees.
fn transform_type(expr: &TcType) -> (r: TcType)
    requires
        crate::vm::is_named(**expr, "Expr"@),
    ensures
        is_transform_type(*r),
{
    let mut args: Vec<TcType> = Vec::new();
    args.push(share(expr));
    Type::function(args, share(expr))
}

fn is_expr(typ: &Type) -> (r: bool)
    ensures
        r == crate::vm::is_named(*typ, "Expr"@),
{
    match typ {
        Type::Data(name, args) => args.len() == 0 && *name == String::from_str("Expr"),
        _ => false,
    }
}

fn is_transform(typ: &Type) -> (r: bool)
    ensures
        r == is_transform_type(*typ),
{
    match typ {
        Type::Function(args, ret) => args.len() == 1 && is_expr(&args[0]) && is_expr(ret),
        _ => false,
    }
}

/// A macro that is being defined: what `def_macro` hands to the compiler, and
/// what it keeps until the compiler is done.
#[derive(Debug, PartialEq, Eq)]
pub struct Definition {
    /// The name of the macro.
    pub name: String,
    /// The place of the definition.
    pub location: Location,
    /// The expression that is to be compiled.
    pub transformer: LExpr,
    /// The type that the expression is to be checked against.
    pub expected: TcType,
}

/// A transformer that is to be called, and the syntax tree it is to be called
/// with.
#[derive(Debug, PartialEq, Eq)]
pub struct Invocation<'a> {
    /// The closure of the transformer.
    pub function: GcPtr<Object>,
    pub argument: &'a LExpr,
}

/// What is to be done for an expansion to go on.
#[derive(Debug, PartialEq, Eq)]
pub enum Expansion<'a> {
    /// The transformer is to be type-checked and compiled; `Definition::complete`
    /// takes what comes of it.
    Define(Definition),
    /// The closure is to be called; `RunMacro::finish` takes what it yields.
    Invoke(Invocation<'a>),
}

/// The arguments of a definition that failed, with the transformer back in its
/// place.
pub open spec fn restored(held: Seq<LExpr>, transformer: LExpr) -> Seq<LExpr> {
    if held.len() == 2 {
        held.update(1, transformer)
    } else {
        held
    }
}

impl DefMacro {
    /// What the first step of `def_macro` does to the machine `before` and to
    /// the arguments `given`.
    ///
    /// The type of syntax trees is registered as `Expr`, if it was not. There
    /// must be two arguments, and the first an identifier: the name of the
    /// macro. The second argument is taken out, a unit expression is left in
    /// its place, and it goes to the compiler with the type of transformers.
    /// Nothing is defined yet: the macros, the globals and the heap are as
    /// they were.
    pub open spec fn defines(
        before: Vm,
        after: Vm,
        given: Seq<LExpr>,
        left: Seq<LExpr>,
        result: Result<Definition, MacroError>,
    ) -> bool {
        &&& after.wf()
        &&& after.heap() == before.heap()
        &&& after.globals() == before.globals()
        &&& after.macros() == before.macros()
        &&& after.types().has("Expr"@)
        &&& before.types().has("Expr"@) ==> after.types() == before.types()
        &&& forall|other: Seq<char>|
            other != "Expr"@ ==> after.types().has(other) == before.types().has(other) && (
            before.types().has(other) ==> after.types().value(other) == before.types().value(other))
        &&& if given.len() != 2 {
            &&& result matches Err(MacroError::ArgCountWrong(message))
            &&& message@ == count_message(given.len())
            &&& left == given
        } else {
            match given[0].value {
                Expr::Identifier(name) => {
                    &&& result matches Ok(definition)
                    &&& definition.name == name
                    &&& definition.location == given[0].location
                    &&& definition.transformer == given[1]
                    &&& is_transform_type(*definition.expected)
                    &&& left.len() == 2
                    &&& left[0] == given[0]
                    &&& left[1].is_unit()
                    &&& left[1].location == given[0].location
                },
                _ => {
                    &&& result matches Err(MacroError::ArgShapeWrong(message))
                    &&& message@ == shape_message()
                    &&& left == given
                },
            }
        }
    }

    /// The first step of the expansion of `def_macro <name> <transformer>`.
    pub fn expand(&self, vm: &mut Vm, arguments: &mut Vec<LExpr>) -> (r: Result<
        Definition,
        MacroError,
    >)
        requires
            old(vm).wf(),
        ensures
            Self::defines(*old(vm), *final(vm), old(arguments)@, final(arguments)@, r),
    {
        let expr_type = vm.register_type(String::from_str("Expr"));
        if arguments.len() != 2 {
            let mut message = String::from_str(
                "Expected 'def_macro' to receive exactly 2 arguments but got ",
            );
            message.append(to_decimal(arguments.len()).as_str());
            return Err(MacroError::ArgCountWrong(message));
        }
        let name: String = match &arguments[0].value {
            Expr::Identifier(id) => id.clone(),
            _ => {
                return Err(
                    MacroError::ArgShapeWrong(
                        String::from_str(
                            "Expected 'def_macro' to receive an identifier as the first argument",
                        ),
                    ),
                );
            },
        };
        let location = arguments[0].location;
        let mut transformer = unit(location);
        core::mem::swap(&mut arguments[1], &mut transformer);
        Ok(Definition { name, location, transformer, expected: transform_type(&expr_type) })
    }
}

impl Definition {
    /// Whether the definition takes effect in the machine `before`, given what
    /// the compiler made of the transformer: the compiler made a function of
    /// it, the verifier accepts that function as one of the expected type, and
    /// the heap can account for its closure.
    pub open spec fn succeeds(self, before: Vm, compiled: Result<BytecodeFunction, MacroError>) -> bool {
        &&& compiled matches Ok(function)
        &&& before.verified(*self.expected, function.instructions@)
        &&& before.heap().fits(vstd::layout::size_of::<Object>() as usize)
    }

    /// What a definition that takes effect does to the machine `before`, given
    /// the function that the compiler made of the transformer.
    ///
    /// The function becomes a closure without captured values on the heap, at
    /// the head of the live list; the global of the macro's name is bound to
    /// it, with the type of transformers; the macro's name is bound to an
    /// expander that runs that global; and the expansion is a unit expression
    /// at the place of the definition. Every object that was on the heap stays
    /// there as it was, and so do the other globals and macros.
    pub open spec fn installs(
        self,
        before: Vm,
        after: Vm,
        function: BytecodeFunction,
        result: Result<LExpr, MacroError>,
    ) -> bool {
        &&& result matches Ok(node)
        &&& node.is_unit()
        &&& node.location == self.location
        &&& after.globals().has(self.name@)
        &&& after.globals().value(self.name@).typ == self.expected
        &&& after.globals().value(self.name@).value matches Value::Closure(ptr)
        &&& exists|upvars: Vec<Value>|
            upvars@.len() == 0 && #[trigger] after.heap().extends(
                before.heap(),
                ptr.addr(),
                Move(Object::Closure(ClosureData { function, upvars })),
            )
        &&& forall|other: Seq<char>|
            other != self.name@ ==> after.globals().has(other) == before.globals().has(other) && (
            before.globals().has(other) ==> after.globals().value(other) == before.globals().value(
                other,
            ) && after.globals().place(other) == before.globals().place(other))
        &&& before.globals().has(self.name@) ==> after.globals().place(self.name@)
            == before.globals().place(self.name@)
        &&& after.macros().has(self.name@)
        &&& after.macros().value(self.name@) == Expander::RunMacro(RunMacro { id: self.name })
        &&& forall|other: Seq<char>|
            other != self.name@ ==> after.macros().has(other) == before.macros().has(other) && (
            before.macros().has(other) ==> after.macros().value(other) == before.macros().value(
                other,
            ))
        &&& after.macros().entries().len() == before.macros().entries().len() + if before.macros().has(
            self.name@,
        ) {
            0int
        } else {
            1int
        }
    }

    /// The error of a definition that does not take effect: that of the
    /// compiler, or that the verifier refused the function, or that the heap has
    /// no room, in this order.
    pub open spec fn fails(
        self,
        before: Vm,
        compiled: Result<BytecodeFunction, MacroError>,
        result: Result<LExpr, MacroError>,
    ) -> bool {
        match compiled {
            Err(error) => result == Err::<LExpr, MacroError>(error),
            Ok(function) => if before.verified(*self.expected, function.instructions@) {
                result == Err::<LExpr, MacroError>(MacroError::Allocation)
            } else {
                result matches Err(MacroError::Rejected(message)) && message@ == rejected_message(
                    self.name@,
                )
            },
        }
    }

    /// What the second step of `def_macro` does to the machine `before` and to
    /// the arguments `held`, given what the compiler made of the transformer.
    ///
    /// Where the definition takes effect, it installs the macro and leaves the
    /// arguments as they are. Where it does not, nothing is defined: the
    /// machine is as it was, the transformer is put back among the arguments,
    /// and the result is the error.
    pub open spec fn completes(
        self,
        before: Vm,
        after: Vm,
        held: Seq<LExpr>,
        left: Seq<LExpr>,
        compiled: Result<BytecodeFunction, MacroError>,
        result: Result<LExpr, MacroError>,
    ) -> bool {
        &&& after.wf()
        &&& after.types() == before.types()
        &&& if self.succeeds(before, compiled) {
            &&& left == held
            &&& self.installs(before, after, compiled->Ok_0, result)
        } else {
            &&& after.heap() == before.heap()
            &&& after.globals() == before.globals()
            &&& after.macros() == before.macros()
            &&& left == restored(held, self.transformer)
            &&& self.fails(before, compiled, result)
        }
    }

    /// Hands the transformer back to the arguments of a definition that
    /// failed.
    fn give_back(self, arguments: &mut Vec<LExpr>)
        ensures
            final(arguments)@ == restored(old(arguments)@, self.transformer),
    {
        if arguments.len() == 2 {
            let mut transformer = self.transformer;
            core::mem::swap(&mut arguments[1], &mut transformer);
        }
    }

    /// The second step of the expansion of `def_macro`: takes what the compiler
    /// made of the transformer.
    pub fn complete(
        self,
        vm: &mut Vm,
        arguments: &mut Vec<LExpr>,
        compiled: Result<BytecodeFunction, MacroError>,
    ) -> (r: Result<LExpr, MacroError>)
        requires
            old(vm).wf(),
        ensures
            self.completes(*old(vm), *final(vm), old(arguments)@, final(arguments)@, compiled, r),
    {
        let function = match compiled {
            Ok(function) => function,
            Err(error) => {
                self.give_back(arguments);
                return Err(error);
            },
        };
        if !vm.verifies(&self.expected, &function) {
            let mut message = String::from_str("The verifier refused the transformer of macro '");
            message.append(self.name.as_str());
            message.append("'");
            self.give_back(arguments);
            return Err(MacroError::Rejected(message));
        }
        let upvars: Vec<Value> = Vec::new();
        let ghost captured = upvars;
        match vm.new_closure(function, upvars) {
            Ok(ptr) => {
                let location = self.location;
                let ghost allocated = *vm;
                vm.define_global(self.name.clone(), self.expected, Value::Closure(ptr));
                vm.set_macro(self.name.clone(), Expander::RunMacro(RunMacro { id: self.name }));
                let r = Ok(unit(location));
                proof {
                    assert(self.succeeds(*old(vm), compiled));
                    assert(captured@.len() == 0 && vm.heap().extends(
                        old(vm).heap(),
                        ptr.addr(),
                        Move(Object::Closure(ClosureData { function: compiled->Ok_0, upvars: captured })),
                    ));
                    let bound = vm.globals().value(self.name@);
                    assert(bound.typ == self.expected && bound.value == Value::Closure(ptr));
                    assert(exists|upvars: Vec<Value>|
                        upvars@.len() == 0 && #[trigger] vm.heap().extends(
                            old(vm).heap(),
                            bound.value->Closure_0.addr(),
                            Move(Object::Closure(ClosureData { function: compiled->Ok_0, upvars })),
                        )) by {
                        assert(vm.heap().extends(
                            old(vm).heap(),
                            bound.value->Closure_0.addr(),
                            Move(
                                Object::Closure(
                                    ClosureData { function: compiled->Ok_0, upvars: captured },
                                ),
                            ),
                        ));
                    }
                    assert(vm.macros().value(self.name@) == Expander::RunMacro(
                        RunMacro { id: self.name },
                    ));
                    assert(vm.macros().entries().len() == old(vm).macros().entries().len() + if old(
                        vm,
                    ).macros().has(self.name@) {
                        0int
                    } else {
                        1int
                    });
                    assert(self.installs(*old(vm), *vm, compiled->Ok_0, r));
                }
                r
            },
            Err(_) => {
                self.give_back(arguments);
                Err(MacroError::Allocation)
            },
        }
    }
}

/// A definition that fails defines nothing: after both steps the heap, the
/// globals, the macros and the arguments are what they were before the first.
pub proof fn lemma_failed_definition(
    definition: Definition,
    before: Vm,
    begun: Vm,
    after: Vm,
    given: Seq<LExpr>,
    held: Seq<LExpr>,
    left: Seq<LExpr>,
    compiled: Result<BytecodeFunction, MacroError>,
    error: MacroError,
)
    requires
        DefMacro::defines(before, begun, given, held, Ok(definition)),
        definition.completes(begun, after, held, left, compiled, Err(error)),
    ensures
        after.heap() == before.heap(),
        after.globals() == before.globals(),
        after.macros() == before.macros(),
        left == given,
{
    assert(left =~= given);
}

/// The closure that the global `id` binds as a transformer, if it does.
pub open spec fn callable(vm: Vm, id: Seq<char>) -> Option<GcPtr<Object>> {
    if vm.globals().has(id) && is_transform_type(*vm.globals().value(id).typ) {
        match vm.globals().value(id).value {
            Value::Closure(ptr) => Some(ptr),
            _ => None,
        }
    } else {
        None
    }
}

impl RunMacro {
    /// What the first step of the macro `id` makes of the arguments `given` in
    /// the machine `vm`.
    ///
    /// There must be an argument, and the global `id` must bind a closure as a
    /// transformer. The first argument goes to that closure.
    pub open spec fn invokes(
        vm: Vm,
        id: Seq<char>,
        given: Seq<LExpr>,
        result: Result<Invocation, MacroError>,
    ) -> bool {
        if given.len() < 1 {
            &&& result matches Err(MacroError::ArgCountWrong(message))
            &&& message@ == arity_message(id)
        } else {
            match callable(vm, id) {
                Some(ptr) => {
                    &&& result matches Ok(invocation)
                    &&& invocation.function == ptr
                    &&& *invocation.argument == given[0]
                },
                None => {
                    &&& result matches Err(MacroError::UnknownGlobal(message))
                    &&& message@ == missing_message(id)
                },
            }
        }
    }

    /// The first step of the expansion of a macro that `def_macro` defined.
    /// Neither the machine nor the arguments are changed.
    pub fn expand<'a>(&self, vm: &Vm, arguments: &'a Vec<LExpr>) -> (r: Result<
        Invocation<'a>,
        MacroError,
    >)
        requires
            vm.wf(),
        ensures
            Self::invokes(*vm, self.id@, arguments@, r),
    {
        if arguments.len() < 1 {
            let mut message = String::from_str("Expected macro '");
            message.append(self.id.as_str());
            message.append("' to receive at least 1 argument");
            return Err(MacroError::ArgCountWrong(message));
        }
        let function: Option<GcPtr<Object>> = match vm.get_global(&self.id) {
            Some(global) => {
                if is_transform(&global.typ) {
                    match global.value {
                        Value::Closure(ptr) => Some(ptr),
                        _ => None,
                    }
                } else {
                    None
                }
            },
            None => None,
        };
        match function {
            Some(ptr) => Ok(Invocation { function: ptr, argument: &arguments[0] }),
            None => {
                let mut message = String::from_str("Expected macro function '");
                message.append(self.id.as_str());
                message.append("' to exist");
                Err(MacroError::UnknownGlobal(message))
            },
        }
    }

    /// The second step: the expansion is the syntax tree that the transformer
    /// yields, and an error of the transformer is passed on.
    pub fn finish(outcome: Result<LExpr, MacroError>) -> (r: Result<LExpr, MacroError>)
        ensures
            r == outcome,
    {
        outcome
    }
}

/// What comes of an expansion whose transformer behaves as `transformer`.
pub open spec fn expansion(
    call: Result<Invocation, MacroError>,
    transformer: spec_fn(LExpr) -> Result<LExpr, MacroError>,
) -> Result<LExpr, MacroError> {
    match call {
        Ok(invocation) => transformer(*invocation.argument),
        Err(error) => Err(error),
    }
}

/// A macro whose transformer yields its argument expands a call to the first
/// argument of the call, unchanged.
pub proof fn lemma_identity_transformer(
    vm: Vm,
    id: Seq<char>,
    given: Seq<LExpr>,
    call: Result<Invocation, MacroError>,
)
    requires
        RunMacro::invokes(vm, id, given, call),
        given.len() >= 1,
        callable(vm, id) is Some,
    ensures
        expansion(call, |e: LExpr| Ok::<LExpr, MacroError>(e)) == Ok::<LExpr, MacroError>(given[0]),
{
}

/// Defining a macro anew replaces its expander and binds its global to the new
/// closure; the closure of the first definition stays on the heap as it was.
pub proof fn lemma_redefinition(
    first: Definition,
    second: Definition,
    defined: Vm,
    completed: Vm,
    redefined: Vm,
    recompleted: Vm,
    first_held: Seq<LExpr>,
    first_left: Seq<LExpr>,
    given: Seq<LExpr>,
    held: Seq<LExpr>,
    left: Seq<LExpr>,
    old_function: BytecodeFunction,
    new_function: BytecodeFunction,
    node: LExpr,
    again: LExpr,
)
    requires
        defined.wf(),
        first.completes(defined, completed, first_held, first_left, Ok(old_function), Ok(node)),
        DefMacro::defines(completed, redefined, given, held, Ok(second)),
        second.name@ == first.name@,
        second.completes(redefined, recompleted, held, left, Ok(new_function), Ok(again)),
    ensures
        recompleted.macros().entries().len() == completed.macros().entries().len(),
        recompleted.macros().value(first.name@) == Expander::RunMacro(RunMacro { id: second.name }),
        ({
            &&& completed.globals().value(first.name@).value matches Value::Closure(old_closure)
            &&& recompleted.globals().value(first.name@).value matches Value::Closure(new_closure)
            &&& old_closure.addr() != new_closure.addr()
            &&& recompleted.heap().contains(old_closure.addr())
            &&& recompleted.heap().payload(old_closure.addr()) == completed.heap().payload(
                old_closure.addr(),
            )
            &&& recompleted.heap().payload(new_closure.addr()) matches Object::Closure(closure)
            &&& closure.function == new_function
        }),
{
    let old_closure = completed.globals().value(first.name@).value->Closure_0;
    assert(completed.heap().live()[0] == old_closure.addr());
    assert(completed.heap().contains(old_closure.addr()));
    let new_closure = recompleted.globals().value(first.name@).value->Closure_0;
    assert(recompleted.heap().live()[1] == completed.heap().live()[0]);
}

impl Vm {
    /// Expands the macro `name` on `arguments`, as far as this can be done
    /// without the compiler or the interpreter. The result says what is to be
    /// done next, and is `None` where no macro has that name.
    pub fn expand<'a>(&mut self, name: &String, arguments: &'a mut Vec<LExpr>) -> (r: Option<
        Result<Expansion<'a>, MacroError>,
    >)
        requires
            old(self).wf(),
        ensures
            final(self).wf(),
            r is Some == old(self).macros().has(name@),
            r matches Some(result) ==> match old(self).macros().value(name@) {
                Expander::DefMacro(_) => match result {
                    Ok(Expansion::Define(definition)) => DefMacro::defines(
                        *old(self),
                        *final(self),
                        old(arguments)@,
                        final(arguments)@,
                        Ok(definition),
                    ),
                    Ok(Expansion::Invoke(_)) => false,
                    Err(error) => DefMacro::defines(
                        *old(self),
                        *final(self),
                        old(arguments)@,
                        final(arguments)@,
                        Err(error),
                    ),
                },
                Expander::RunMacro(run) => *final(self) == *old(self) && final(arguments)@ == old(
                    arguments,
                )@ && match result {
                    Ok(Expansion::Invoke(invocation)) => RunMacro::invokes(
                        *old(self),
                        run.id@,
                        old(arguments)@,
                        Ok(invocation),
                    ),
                    Ok(Expansion::Define(_)) => false,
                    Err(error) => RunMacro::invokes(*old(self), run.id@, old(arguments)@, Err(error)),
                },
            },
            r is None ==> *final(self) == *old(self) && final(arguments)@ == old(arguments)@,
    {
        let expander: Expander = match self.get_macro(name) {
            Some(expander) => expander.clone(),
            None => {
                return None;
            },
        };
        match expander {
            Expander::DefMacro(def) => match def.expand(self, arguments) {
                Ok(definition) => Some(Ok(Expansion::Define(definition))),
                Err(error) => Some(Err(error)),
            },
            Expander::RunMacro(run) => match run.expand(self, arguments) {
                Ok(invocation) => Some(Ok(Expansion::Invoke(invocation))),
                Err(error) => Some(Err(error)),
            },
        }
    }
}

} // verus!
