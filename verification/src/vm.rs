//! The state that the front-end and the interpreter share: the heap, the
//! globals, the macros and the types that the host has registered.

use vstd::prelude::*;
use vstd::string::StringExecFns;
use std::rc::Rc;
use crate::base::table::Table;
use crate::base::types::{lemma_same_type_symmetric, same_type, share, TcType, Type, TypeEnv};
use crate::def_macro::{DefMacro, Expander};
use crate::gc::{
    pointers_of, DataDef, Error, GcAllocator, GcPtr, Move, Tracer, Traverseable, TypedGc,
};
use crate::types::{Instruction, VMIndex, VMInt};
use crate::verify::{
    entry_state, equivalent_spec, run, verdict, well_formed, AbstractTypeView, Globals, Verifier,
};

verus! {

/// A compiled function.
#[derive(Debug, PartialEq, Eq)]
pub struct BytecodeFunction {
    pub name: String,
    /// The number of arguments.
    pub args: VMIndex,
    pub instructions: Vec<Instruction>,
}

/// A function together with the values it has captured.
#[derive(Debug, PartialEq, Eq)]
pub struct ClosureData {
    pub function: BytecodeFunction,
    pub upvars: Vec<Value>,
}

/// What lives on the heap.
#[derive(Debug, PartialEq, Eq)]
pub enum Object {
    /// The fields of a record, of a tuple or of a constructed value.
    Data(Vec<Value>),
    Closure(ClosureData),
}

/// A value of the virtual machine.
#[derive(Debug, Clone, Copy, PartialEq, Eq)]
pub enum Value {
    Int(VMInt),
    Data(GcPtr<Object>),
    Closure(GcPtr<Object>),
}

impl Traverseable for Value {
    open spec fn pointers(&self) -> Set<usize> {
        match self {
            Value::Int(_) => Set::empty(),
            Value::Data(ptr) => set![ptr.addr()],
            Value::Closure(ptr) => set![ptr.addr()],
        }
    }

    fn traverse(&self, gc: &mut Tracer) {
        match self {
            Value::Int(_) => {
                assert(old(gc)@.union(Set::<usize>::empty()) =~= old(gc)@);
            },
            Value::Data(ptr) => ptr.traverse(gc),
            Value::Closure(ptr) => ptr.traverse(gc),
        }
    }
}

impl Traverseable for Object {
    open spec fn pointers(&self) -> Set<usize> {
        match self {
            Object::Data(fields) => pointers_of(fields@),
            Object::Closure(closure) => pointers_of(closure.upvars@),
        }
    }

    fn traverse(&self, gc: &mut Tracer) {
        match self {
            Object::Data(fields) => fields.traverse(gc),
            Object::Closure(closure) => closure.upvars.traverse(gc),
        }
    }
}

/// What a global name is bound to.
#[derive(Debug, PartialEq, Eq)]
pub struct Global {
    pub typ: TcType,
    pub value: Value,
}

/// Whether `typ` is the type that was registered under `name`: the type known
/// by that name, without type arguments.
pub open spec fn is_named(typ: Type, name: Seq<char>) -> bool {
    typ matches Type::Data(known, args) && known@ == name && args@.len() == 0
}

/// The state of the virtual machine.
pub struct Vm {
    gc: TypedGc<Object>,
    globals: Table<Global>,
    macros: Table<Expander>,
    types: Table<TcType>,
}

impl Vm {
    /// The heap.
    pub closed spec fn heap(&self) -> TypedGc<Object> {
        self.gc
    }

    /// The globals, by name.
    pub closed spec fn globals(&self) -> Table<Global> {
        self.globals
    }

    /// The macros, by name.
    pub closed spec fn macros(&self) -> Table<Expander> {
        self.macros
    }

    /// The types that the host has registered, by name.
    pub closed spec fn types(&self) -> Table<TcType> {
        self.types
    }

    /// The heap is well formed, no name is bound twice in a table, and a
    /// registered type is the type known by its name.
    pub open spec fn wf(&self) -> bool {
        &&& self.heap().wf()
        &&& self.globals().wf()
        &&& self.macros().wf()
        &&& self.types().wf()
        &&& forall|i: int|
            0 <= i < self.types().entries().len() ==> is_named(
                *(#[trigger] self.types().entries()[i]).1,
                self.types().entries()[i].0@,
            )
    }

    /// The addresses that the globals hold handles to: the roots of a
    /// collection.
    pub open spec fn roots(&self) -> Set<usize> {
        Set::new(
            |a: usize|
                exists|i: int|
                    0 <= i < self.globals().entries().len() && (
                    #[trigger] self.globals().entries()[i]).1.value.pointers().contains(a),
        )
    }

    /// A machine with an empty heap, without globals or registered types, and
    /// with the one macro that is built in: `def_macro`.
    pub fn new() -> (r: Vm)
        ensures
            r.wf(),
            r.heap().live() == Seq::<usize>::empty(),
            r.globals().entries() == Seq::<(String, Global)>::empty(),
            r.types().entries() == Seq::<(String, TcType)>::empty(),
            r.macros().entries().len() == 1,
            r.macros().has("def_macro"@),
            r.macros().value("def_macro"@) is DefMacro,
    {
        let mut macros: Table<Expander> = Table::new();
        macros.insert(String::from_str("def_macro"), Expander::DefMacro(DefMacro));
        Vm { gc: TypedGc::new(), globals: Table::new(), macros, types: Table::new() }
    }

    /// The heap.
    pub fn gc(&self) -> (r: &TypedGc<Object>)
        ensures
            *r == self.heap(),
    {
        &self.gc
    }

    /// Binds the macro `name` to `expander`, in the place of the expander it
    /// was bound to, if any.
    pub fn set_macro(&mut self, name: String, expander: Expander)
        requires
            old(self).wf(),
        ensures
            final(self).wf(),
            final(self).heap() == old(self).heap(),
            final(self).globals() == old(self).globals(),
            final(self).types() == old(self).types(),
            final(self).macros().has(name@),
            final(self).macros().value(name@) == expander,
            forall|other: Seq<char>|
                other != name@ ==> final(self).macros().has(other) == old(self).macros().has(other)
                    && (old(self).macros().has(other) ==> final(self).macros().value(other) == old(
                    self,
                ).macros().value(other)),
            final(self).macros().entries().len() == old(self).macros().entries().len() + if old(
                self,
            ).macros().has(name@) {
                0int
            } else {
                1int
            },
    {
        self.macros.insert(name, expander);
    }

    /// The expander that the macro `name` is bound to.
    pub fn get_macro(&self, name: &String) -> (r: Option<&Expander>)
        requires
            self.wf(),
        ensures
            r is Some == self.macros().has(name@),
            r matches Some(expander) ==> *expander == self.macros().value(name@),
    {
        self.macros.get(name)
    }

    /// Binds the global `name` to `value`, of type `typ`, in the place of what
    /// it was bound to, if anything. A global keeps its index.
    pub fn define_global(&mut self, name: String, typ: TcType, value: Value)
        requires
            old(self).wf(),
        ensures
            final(self).wf(),
            final(self).heap() == old(self).heap(),
            final(self).macros() == old(self).macros(),
            final(self).types() == old(self).types(),
            final(self).globals().has(name@),
            final(self).globals().value(name@) == (Global { typ, value }),
            forall|other: Seq<char>|
                other != name@ ==> final(self).globals().has(other) == old(self).globals().has(other)
                    && (old(self).globals().has(other) ==> final(self).globals().value(other) == old(
                    self,
                ).globals().value(other) && final(self).globals().place(other) == old(
                    self,
                ).globals().place(other)),
            old(self).globals().has(name@) ==> final(self).globals().place(name@) == old(
                self,
            ).globals().place(name@),
    {
        self.globals.insert(name, Global { typ, value });
    }

    /// What the global `name` is bound to.
    pub fn get_global(&self, name: &String) -> (r: Option<&Global>)
        requires
            self.wf(),
        ensures
            r is Some == self.globals().has(name@),
            r matches Some(global) ==> *global == self.globals().value(name@),
    {
        self.globals.get(name)
    }

    /// The type that was registered under `name`.
    pub fn get_type(&self, name: &String) -> (r: Option<&TcType>)
        requires
            self.wf(),
        ensures
            r is Some == self.types().has(name@),
            r matches Some(typ) ==> *typ == self.types().value(name@) && is_named(**typ, name@),
    {
        let r = self.types.get(name);
        proof {
            if r is Some {
                let i = self.types().place(name@);
                assert(is_named(*self.types().entries()[i].1, self.types().entries()[i].0@));
            }
        }
        r
    }

    /// Registers a type of the host under `name`, unless one is registered
    /// under it already, and gives the type that is registered under it then.
    pub fn register_type(&mut self, name: String) -> (r: TcType)
        requires
            old(self).wf(),
        ensures
            final(self).wf(),
            final(self).heap() == old(self).heap(),
            final(self).globals() == old(self).globals(),
            final(self).macros() == old(self).macros(),
            final(self).types().has(name@),
            final(self).types().value(name@) == r,
            is_named(*r, name@),
            old(self).types().has(name@) ==> final(self).types() == old(self).types(),
            forall|other: Seq<char>|
                other != name@ ==> final(self).types().has(other) == old(self).types().has(other)
                    && (old(self).types().has(other) ==> final(self).types().value(other) == old(
                    self,
                ).types().value(other)),
    {
        match self.get_type(&name) {
            Some(typ) => share(typ),
            None => {
                let typ: TcType = Rc::new(Type::Data(name.clone(), Vec::new()));
                let known = share(&typ);
                let ghost before = self.types.entries();
                self.types.insert(name, typ);
                proof {
                    let after = self.types.entries();
                    assert forall|i: int| 0 <= i < after.len() implies is_named(
                        *(#[trigger] after[i]).1,
                        after[i].0@,
                    ) by {
                        if i < before.len() {
                            assert(after[i] == before[i]);
                            assert(is_named(*old(self).types().entries()[i].1, old(self).types().entries()[i].0@));
                        }
                    }
                }
                known
            },
        }
    }

    /// The values that the globals are bound to.
    fn root_values(&self) -> (r: Vec<Value>)
        ensures
            pointers_of(r@) == self.roots(),
    {
        let mut values: Vec<Value> = Vec::new();
        let mut i: usize = 0;
        while i < self.globals.len()
            invariant
                i <= self.globals.entries().len(),
                values@.len() == i,
                forall|j: int| 0 <= j < i ==> (#[trigger] values@[j]) == self.globals.entries()[j].1.value,
            decreases self.globals.entries().len() - i,
        {
            match self.globals.entry(i) {
                Some(entry) => {
                    values.push(entry.1.value);
                },
                None => {},
            }
            i += 1;
        }
        proof {
            assert forall|a: usize| pointers_of(values@).contains(a) <==> self.roots().contains(a) by {
                if pointers_of(values@).contains(a) {
                    let j = choose|j: int| 0 <= j < values@.len() && #[trigger] values@[j].pointers().contains(a);
                    assert(self.globals().entries()[j].1.value.pointers().contains(a));
                }
                if self.roots().contains(a) {
                    let j = choose|j: int|
                        0 <= j < self.globals().entries().len() && (
                        #[trigger] self.globals().entries()[j]).1.value.pointers().contains(a);
                    assert(values@[j].pointers().contains(a));
                }
            }
            assert(pointers_of(values@) =~= self.roots());
        }
        values
    }

    /// Collects the heap. The roots are the values of the globals and the
    /// handles that `roots` holds.
    pub fn collect<R: Traverseable>(&mut self, roots: R)
        requires
            old(self).wf(),
        ensures
            final(self).wf(),
            final(self).globals() == old(self).globals(),
            final(self).macros() == old(self).macros(),
            final(self).types() == old(self).types(),
            final(self).heap().live() == old(self).heap().live().filter(
                old(self).heap().reachable_from(old(self).roots().union(roots.pointers())),
            ),
            forall|a: usize|
                final(self).heap().contains(a) <==> old(self).heap().contains(a) && old(
                    self,
                ).heap().reachable(old(self).roots().union(roots.pointers()), a),
            forall|a: usize|
                final(self).heap().contains(a) ==> final(self).heap().payload(a) == old(
                    self,
                ).heap().payload(a),
            final(self).heap().limit() == 2 * final(self).heap().allocated(),
    {
        let held = self.root_values();
        self.gc.collect((held, roots));
    }

    /// Puts a closure of `function` over `upvars` on the heap, unless the heap
    /// cannot account for it.
    pub fn new_closure(&mut self, function: BytecodeFunction, upvars: Vec<Value>) -> (r: Result<
        GcPtr<Object>,
        Error,
    >)
        requires
            old(self).wf(),
        ensures
            final(self).wf(),
            final(self).globals() == old(self).globals(),
            final(self).macros() == old(self).macros(),
            final(self).types() == old(self).types(),
            r is Ok == old(self).heap().fits(vstd::layout::size_of::<Object>() as usize),
            r is Err ==> final(self).heap() == old(self).heap(),
            r matches Ok(ptr) ==> final(self).heap().extends(
                old(self).heap(),
                ptr.addr(),
                Move(Object::Closure(ClosureData { function, upvars })),
            ),
    {
        self.gc.try_allocate(Move(Object::Closure(ClosureData { function, upvars })))
    }
}

/// The globals of the machine, by index.
impl Globals for Vm {
    open spec fn global_type(&self, index: usize) -> Option<TcType> {
        if index < self.globals().entries().len() {
            Some(self.globals().entries()[index as int].1.typ)
        } else {
            None
        }
    }

    fn lookup(&self, index: usize) -> (r: Option<TcType>) {
        match self.globals.entry(index) {
            Some(entry) => Some(share(&entry.1.typ)),
            None => None,
        }
    }
}

/// In the machine two source-level types are equivalent where they are the
/// same type.
impl TypeEnv for Vm {
    open spec fn accepts(&self, expected: Type, actual: Type) -> bool {
        same_type(expected, actual)
    }

    fn equivalent(&self, expected: &TcType, actual: &TcType) -> (r: bool) {
        expected.same_as(actual)
    }
}

/// In the machine, equivalence of abstract types is symmetric.
pub proof fn lemma_equivalent_symmetric(vm: &Vm, left: AbstractTypeView, right: AbstractTypeView)
    ensures
        equivalent_spec(vm, left, right) == equivalent_spec(vm, right, left),
{
    assert forall|x: Type, y: Type| vm.accepts(x, y) == vm.accepts(y, x) by {
        lemma_same_type_symmetric(x, y);
    }
    crate::verify::lemma_equivalent_symmetric(vm, left, right);
}

/// The machine allocates on its heap; its tables stay as they are.
impl GcAllocator<Object> for Vm {
    open spec fn heap(&self) -> TypedGc<Object> {
        Vm::heap(self)
    }

    fn allocate<D: DataDef<Value = Object>>(&mut self, def: D) -> (r: Result<GcPtr<Object>, Error>)
        ensures
            final(self).globals() == old(self).globals(),
            final(self).macros() == old(self).macros(),
            final(self).types() == old(self).types(),
            old(self).wf() ==> final(self).wf(),
    {
        self.gc.try_allocate(def)
    }
}

impl Vm {
    /// Whether the verifier accepts `instructions` as the code of a function of
    /// type `typ`, with this machine as the type environment and as the source
    /// of the types of the globals: every instruction finds a stack that
    /// admits it, and verification comes to the end without an error.
    pub open spec fn verified(&self, typ: Type, instructions: Seq<Instruction>) -> bool {
        let start = entry_state(typ);
        &&& well_formed(self, self, start, instructions)
        &&& verdict(run(self, self, start, instructions)) is Ok
    }

    /// Runs the verifier on `function` as a function of type `typ`.
    pub fn verifies(&self, typ: &TcType, function: &BytecodeFunction) -> (r: bool)
        ensures
            r == self.verified(**typ, function.instructions@),
    {
        let mut verifier = Verifier::new(self, self);
        match verifier.try_verify(typ, function.instructions.as_slice()) {
            Some(Ok(_)) => true,
            _ => false,
        }
    }
}

} // verus!
