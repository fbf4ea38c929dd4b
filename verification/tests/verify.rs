use std::rc::Rc;
use vm::base::error::Errors;
use vm::base::table::Table;
use vm::base::types::{BuiltinType, Field, TcType, Type, TypeEnv};
use vm::types::Instruction::{
    Call, Construct, GetField, Jump, Push, PushFloat, PushGlobal, PushInt, PushString, TailCall,
};
use vm::verify::{AbstractType, Error, Verifier};

/// An environment in which two types are equivalent where they are the same.
struct Env;

impl TypeEnv for Env {
    // What the contracts call the judgement. Only proofs speak of it: it is
    // never run.
    fn accepts(&self, _expected: Type, _actual: Type) -> bool {
        unreachable!()
    }

    fn equivalent(&self, expected: &TcType, actual: &TcType) -> bool {
        expected == actual
    }
}

/// An environment in which a value of type `Int` may not stand for an `Int`,
/// though all else is as in `Env`.
struct Strict;

impl TypeEnv for Strict {
    fn accepts(&self, _expected: Type, _actual: Type) -> bool {
        unreachable!()
    }

    fn equivalent(&self, expected: &TcType, actual: &TcType) -> bool {
        expected == actual && **expected != Type::Builtin(BuiltinType::Int)
    }
}

fn int_type() -> TcType {
    Type::builtin(BuiltinType::Int)
}

fn float() -> TcType {
    Type::builtin(BuiltinType::Float)
}

fn string() -> TcType {
    Type::builtin(BuiltinType::String)
}

fn function(args: Vec<TcType>, ret: TcType) -> TcType {
    Type::function(args, ret)
}

fn concrete(typ: TcType) -> AbstractType {
    AbstractType::TcType(typ)
}

fn variant(tag: u32, args: Vec<AbstractType>) -> AbstractType {
    AbstractType::Variant(tag, Rc::new(args))
}

/// `Some Int | None`
fn option_of_int() -> TcType {
    let rc = Rc::new(Type::Variants(vec![
        ("Some".to_string(), function(vec![int_type()], Type::builtin(BuiltinType::Unit))),
        ("None".to_string(), Type::builtin(BuiltinType::Unit)),
    ]));
    rc
}

fn no_globals() -> Vec<Option<TcType>> {
    Vec::new()
}

#[test]
fn construct_then_get_field_yields_the_argument() {
    let globals = no_globals();
    let mut verifier = Verifier::new(&Env, &globals);
    let typ = function(vec![], int_type());
    let result = verifier.verify(&typ, &[PushInt(0), Construct(2, 1), GetField(0)]);
    assert!(result.is_ok());
    assert_eq!(verifier.stack().len(), 1);
    assert_eq!(verifier.stack().last(), Some(&concrete(int_type())));
    assert!(verifier.holds_result(&typ));
}

#[test]
fn the_result_is_one_slot_of_the_return_type() {
    let globals = no_globals();
    let mut verifier = Verifier::new(&Env, &globals);
    let typ = function(vec![], option_of_int());
    assert!(verifier.verify(&typ, &[PushInt(0), Construct(0, 1)]).is_ok());
    assert!(verifier.holds_result(&typ));
    assert!(!verifier.holds_result(&function(vec![], int_type())));
    assert!(verifier.holds_result(&option_of_int()));
    assert!(verifier.verify(&typ, &[PushInt(0), PushInt(0), Construct(0, 1)]).is_ok());
    assert!(!verifier.holds_result(&typ));
    assert!(verifier.verify(&typ, &[]).is_ok());
    assert!(!verifier.holds_result(&typ));
}

#[test]
fn call_without_enough_stack_aborts() {
    let globals = no_globals();
    let mut verifier = Verifier::new(&Env, &globals);
    // two arguments: two items on the stack
    let typ = function(vec![int_type(), int_type()], int_type());
    let errors = verifier.verify(&typ, &[Call(3), PushInt(1), GetField(0)]).unwrap_err();
    assert_eq!(errors.errors, vec![Error::NotEnoughArguments]);
    // nothing after the call was looked at
    assert_eq!(verifier.stack().len(), 2);
}

#[test]
fn field_of_an_int_is_out_of_range() {
    let globals = no_globals();
    let mut verifier = Verifier::new(&Env, &globals);
    let typ = function(vec![], int_type());
    let errors = verifier.verify(&typ, &[PushInt(0), GetField(0)]).unwrap_err();
    assert_eq!(errors.errors, vec![Error::FieldIsOutOfRange(concrete(int_type()), 0)]);
    assert_eq!(verifier.stack().len(), 0);
}

#[test]
fn entry_stack_holds_the_formal_arguments_in_order() {
    let globals = no_globals();
    let mut verifier = Verifier::new(&Env, &globals);
    let typ = function(vec![int_type(), string(), float()], int_type());
    assert!(verifier.verify(&typ, &[]).is_ok());
    assert_eq!(
        verifier.stack(),
        &vec![concrete(int_type()), concrete(string()), concrete(float())]
    );
    // a type that is no function has no formal arguments
    assert!(verifier.verify(&int_type(), &[]).is_ok());
    assert_eq!(verifier.stack().len(), 0);
}

#[test]
fn pushes_push_the_types_of_the_constants() {
    let globals = no_globals();
    let mut verifier = Verifier::new(&Env, &globals);
    let typ = function(vec![string()], int_type());
    let result = verifier.verify(&typ, &[PushInt(7), PushFloat(0), PushString(3), Push(0), Push(2)]);
    assert!(result.is_ok());
    assert_eq!(
        verifier.stack(),
        &vec![
            concrete(string()),
            concrete(int_type()),
            concrete(float()),
            concrete(string()),
            concrete(string()),
            concrete(float()),
        ]
    );
}

#[test]
fn undefined_global_is_recorded_and_verification_goes_on() {
    let globals = vec![Some(int_type()), None];
    let mut verifier = Verifier::new(&Env, &globals);
    let typ = function(vec![], int_type());
    let errors = verifier
        .verify(&typ, &[PushGlobal(0), PushGlobal(1), PushGlobal(9), PushInt(0)])
        .unwrap_err();
    assert_eq!(errors.errors, vec![Error::UndefinedGlobal(1), Error::UndefinedGlobal(9)]);
    assert_eq!(verifier.stack(), &vec![concrete(int_type()), concrete(int_type())]);
}

#[test]
fn call_compares_arguments_and_pushes_the_return_type() {
    let callee = function(vec![int_type(), string()], float());
    let globals = vec![Some(callee)];
    let mut verifier = Verifier::new(&Env, &globals);
    let typ = function(vec![int_type()], float());
    // stack: [Int, callee, Int, String]
    let result = verifier.verify(&typ, &[PushGlobal(0), Push(0), PushString(0), Call(2)]);
    assert!(result.is_ok());
    assert_eq!(verifier.stack(), &vec![concrete(int_type()), concrete(float())]);
    // a tail call is verified as a call
    let result = verifier.verify(&typ, &[PushGlobal(0), Push(0), PushString(0), TailCall(2)]);
    assert!(result.is_ok());
    assert_eq!(verifier.stack(), &vec![concrete(int_type()), concrete(float())]);
}

#[test]
fn call_records_each_mismatch_and_goes_on() {
    let callee = function(vec![int_type(), string()], float());
    let globals = vec![Some(callee)];
    let mut verifier = Verifier::new(&Env, &globals);
    let typ = function(vec![int_type()], float());
    // stack: [Int, callee, String, Int]
    let errors = verifier
        .verify(&typ, &[PushGlobal(0), PushString(0), PushInt(0), Call(2), GetField(0)])
        .unwrap_err();
    assert_eq!(
        errors.errors,
        vec![
            Error::TypeMismatch(concrete(int_type()), concrete(string())),
            Error::TypeMismatch(concrete(string()), concrete(int_type())),
            Error::FieldIsOutOfRange(concrete(float()), 0),
        ]
    );
    assert_eq!(verifier.stack(), &vec![concrete(int_type())]);
}

#[test]
fn call_compares_as_far_as_formals_and_arguments_go() {
    let callee = function(vec![int_type()], float());
    let globals = vec![Some(callee)];
    let mut verifier = Verifier::new(&Env, &globals);
    let typ = function(vec![int_type()], float());
    // more arguments than formal arguments: the second one is not compared
    let result = verifier.verify(&typ, &[PushGlobal(0), PushInt(0), PushString(0), Call(2)]);
    assert!(result.is_ok());
    assert_eq!(verifier.stack(), &vec![concrete(int_type()), concrete(float())]);
    // fewer arguments than formal arguments
    let result = verifier.verify(&typ, &[PushGlobal(0), Call(0)]);
    assert!(result.is_ok());
    assert_eq!(verifier.stack(), &vec![concrete(int_type()), concrete(float())]);
}

#[test]
fn call_needs_a_slot_below_the_callee() {
    let callee = function(vec![], int_type());
    let globals = vec![Some(callee)];
    let mut verifier = Verifier::new(&Env, &globals);
    let typ = function(vec![], int_type());
    let errors = verifier.verify(&typ, &[PushGlobal(0), Call(0)]).unwrap_err();
    assert_eq!(errors.errors, vec![Error::NotEnoughArguments]);
}

#[test]
fn call_of_what_is_no_function_aborts_with_the_errors_so_far() {
    let globals = no_globals();
    let mut verifier = Verifier::new(&Env, &globals);
    let typ = function(vec![int_type()], int_type());
    // the callee is an Int
    let errors = verifier
        .verify(&typ, &[PushGlobal(4), PushInt(0), PushInt(1), Call(1), PushInt(2)])
        .unwrap_err();
    assert_eq!(errors.errors, vec![Error::UndefinedGlobal(4), Error::NotEnoughArguments]);
    // the callee is a constructed value
    let errors = verifier
        .verify(&typ, &[PushInt(0), Construct(0, 1), PushInt(1), Call(1)])
        .unwrap_err();
    assert_eq!(errors.errors, vec![Error::NotEnoughArguments]);
}

#[test]
fn get_field_on_an_empty_stack_is_recorded_and_verification_goes_on() {
    let globals = no_globals();
    let mut verifier = Verifier::new(&Env, &globals);
    let typ = function(vec![], int_type());
    let errors = verifier.verify(&typ, &[GetField(0), PushInt(0)]).unwrap_err();
    assert_eq!(errors.errors, vec![Error::EmptyStack]);
    assert_eq!(verifier.stack(), &vec![concrete(int_type())]);
}

#[test]
fn get_field_of_a_record_pushes_the_type_of_the_field() {
    let record = Rc::new(Type::Record(vec![
        Field { name: "x".to_string(), typ: int_type() },
        Field { name: "y".to_string(), typ: string() },
    ]));
    let globals = no_globals();
    let mut verifier = Verifier::new(&Env, &globals);
    let typ = function(vec![record.clone()], string());
    assert!(verifier.verify(&typ, &[Push(0), GetField(1)]).is_ok());
    assert_eq!(verifier.stack(), &vec![concrete(record.clone()), concrete(string())]);
    let errors = verifier.verify(&typ, &[Push(0), GetField(2)]).unwrap_err();
    assert_eq!(errors.errors, vec![Error::FieldIsOutOfRange(concrete(record.clone()), 2)]);
}

#[test]
fn get_field_of_a_constructed_value_knows_its_arguments() {
    let globals = no_globals();
    let mut verifier = Verifier::new(&Env, &globals);
    let typ = function(vec![], int_type());
    let program = [PushInt(0), PushString(0), PushFloat(0), Construct(1, 3), GetField(1)];
    assert!(verifier.verify(&typ, &program).is_ok());
    assert_eq!(verifier.stack(), &vec![concrete(string())]);
    let program = [PushInt(0), PushString(0), PushFloat(0), Construct(1, 2), GetField(2)];
    let errors = verifier.verify(&typ, &program).unwrap_err();
    assert_eq!(
        errors.errors,
        vec![Error::FieldIsOutOfRange(variant(1, vec![concrete(string()), concrete(float())]), 2)]
    );
    assert_eq!(verifier.stack(), &vec![concrete(int_type())]);
}

#[test]
fn construct_takes_its_arguments_off_the_stack() {
    let globals = no_globals();
    let mut verifier = Verifier::new(&Env, &globals);
    let typ = function(vec![int_type()], int_type());
    assert!(verifier.verify(&typ, &[PushString(0), Construct(5, 2), Construct(6, 0)]).is_ok());
    assert_eq!(
        verifier.stack(),
        &vec![variant(5, vec![concrete(int_type()), concrete(string())]), variant(6, vec![])]
    );
}

#[test]
fn unknown_instruction_aborts_without_errors() {
    let globals = no_globals();
    let mut verifier = Verifier::new(&Env, &globals);
    let typ = function(vec![], int_type());
    let errors = verifier.verify(&typ, &[PushInt(0), GetField(0), Jump(3), GetField(0)]).unwrap_err();
    assert_eq!(errors.errors, vec![]);
}

#[test]
fn errors_of_one_verification_do_not_show_in_the_next() {
    let globals = no_globals();
    let mut verifier = Verifier::new(&Env, &globals);
    let typ = function(vec![], int_type());
    assert!(verifier.verify(&typ, &[GetField(0), Jump(0)]).is_err());
    assert!(verifier.verify(&typ, &[PushInt(0)]).is_ok());
}

#[test]
fn try_verify_refuses_what_the_stack_does_not_admit() {
    let globals = no_globals();
    let mut verifier = Verifier::new(&Env, &globals);
    let typ = function(vec![int_type()], int_type());
    assert!(verifier.try_verify(&typ, &[Push(1)]).is_none());
    assert!(verifier.try_verify(&typ, &[Construct(0, 2)]).is_none());
    assert!(verifier.try_verify(&typ, &[PushInt(0), Push(1), Construct(0, 3)]).unwrap().is_ok());
    // what follows an abort is not looked at
    assert!(verifier.try_verify(&typ, &[Jump(0), Push(9)]).unwrap().is_err());
    assert!(verifier.admits(&GetField(3)));
}

#[test]
fn equivalent_follows_the_environment_on_source_types() {
    let globals = no_globals();
    let verifier = Verifier::new(&Env, &globals);
    assert!(verifier.equivalent(&concrete(int_type()), &concrete(int_type())));
    assert!(!verifier.equivalent(&concrete(int_type()), &concrete(string())));
    let strict = Verifier::new(&Strict, &globals);
    assert!(!strict.equivalent(&concrete(int_type()), &concrete(int_type())));
    assert!(strict.equivalent(&concrete(string()), &concrete(string())));
}

#[test]
fn equivalent_compares_a_variant_type_with_a_constructed_value() {
    let globals = no_globals();
    let verifier = Verifier::new(&Env, &globals);
    let option = concrete(option_of_int());
    let some_int = variant(0, vec![concrete(int_type())]);
    let some_string = variant(0, vec![concrete(string())]);
    let none = variant(1, vec![]);
    assert!(verifier.equivalent(&option, &some_int));
    assert!(verifier.equivalent(&some_int, &option));
    assert!(!verifier.equivalent(&option, &some_string));
    assert!(!verifier.equivalent(&some_string, &option));
    assert!(verifier.equivalent(&option, &none));
    assert!(verifier.equivalent(&none, &option));
    // no constructor has that tag
    assert!(!verifier.equivalent(&option, &variant(2, vec![])));
    assert!(!verifier.equivalent(&variant(2, vec![]), &option));
    // no variant type at all
    assert!(!verifier.equivalent(&concrete(int_type()), &none));
    assert!(!verifier.equivalent(&none, &concrete(int_type())));
    // a constructed value has as many arguments as its constructor takes
    let too_many = variant(0, vec![concrete(int_type()), concrete(string())]);
    let too_few = variant(0, vec![]);
    assert!(!verifier.equivalent(&option, &too_many));
    assert!(!verifier.equivalent(&too_many, &option));
    assert!(!verifier.equivalent(&option, &too_few));
    assert!(!verifier.equivalent(&too_few, &option));
    assert!(!verifier.equivalent(&option, &variant(1, vec![concrete(int_type())])));
    assert!(!verifier.equivalent(&variant(1, vec![concrete(int_type())]), &option));
}

#[test]
fn equivalent_compares_constructed_values_by_tag_and_arguments() {
    let globals = no_globals();
    let verifier = Verifier::new(&Env, &globals);
    let a = variant(3, vec![concrete(int_type()), variant(0, vec![concrete(int_type())])]);
    let b = variant(3, vec![concrete(int_type()), concrete(option_of_int())]);
    let c = variant(3, vec![concrete(int_type()), variant(0, vec![concrete(string())])]);
    let d = variant(4, vec![concrete(int_type()), variant(0, vec![concrete(int_type())])]);
    assert!(verifier.equivalent(&a, &a));
    assert!(verifier.equivalent(&a, &b));
    assert!(verifier.equivalent(&b, &a));
    assert!(!verifier.equivalent(&a, &c));
    assert!(!verifier.equivalent(&c, &a));
    assert!(!verifier.equivalent(&a, &d));
    // as many arguments, one by one
    let shorter = variant(3, vec![concrete(int_type())]);
    assert!(!verifier.equivalent(&a, &shorter));
    assert!(!verifier.equivalent(&shorter, &a));
    assert!(!verifier.equivalent(
        &variant(0, vec![concrete(int_type())]),
        &variant(0, vec![concrete(int_type()), concrete(int_type())])
    ));
    assert!(verifier.equivalent(&variant(0, vec![]), &variant(0, vec![])));
}

#[test]
fn abstract_type_from_a_source_type_and_its_copy() {
    let a: AbstractType = int_type().into();
    assert_eq!(a, concrete(int_type()));
    let b = variant(1, vec![a.clone()]);
    assert_eq!(b.clone(), b);
}

#[test]
fn the_machine_is_an_environment_of_structural_equivalence() {
    let machine = vm::vm::Vm::new();
    let verifier = Verifier::new(&machine, &machine);
    let record = |name: &str, typ: TcType| {
        Rc::new(Type::Record(vec![Field { name: name.to_string(), typ }]))
    };
    assert!(machine.equivalent(&int_type(), &int_type()));
    assert!(!machine.equivalent(&int_type(), &float()));
    assert!(machine.equivalent(&option_of_int(), &option_of_int()));
    assert!(machine.equivalent(&record("x", int_type()), &record("x", int_type())));
    assert!(!machine.equivalent(&record("x", int_type()), &record("y", int_type())));
    assert!(!machine.equivalent(&record("x", int_type()), &record("x", string())));
    assert!(machine.equivalent(
        &function(vec![int_type(), string()], float()),
        &function(vec![int_type(), string()], float())
    ));
    assert!(!machine.equivalent(
        &function(vec![int_type()], float()),
        &function(vec![int_type(), string()], float())
    ));
    assert!(!machine.equivalent(&function(vec![int_type()], float()), &function(vec![int_type()], string())));
    let named = |name: &str, args: Vec<TcType>| Rc::new(Type::Data(name.to_string(), args));
    assert!(machine.equivalent(&named("List", vec![int_type()]), &named("List", vec![int_type()])));
    assert!(!machine.equivalent(&named("List", vec![int_type()]), &named("Set", vec![int_type()])));
    assert!(!machine.equivalent(&named("List", vec![int_type()]), &named("List", vec![float()])));
    assert!(verifier.equivalent(&concrete(option_of_int()), &variant(0, vec![concrete(int_type())])));
    assert!(verifier.equivalent(&variant(0, vec![concrete(int_type())]), &concrete(option_of_int())));
    assert!(!verifier.equivalent(&concrete(option_of_int()), &variant(0, vec![concrete(float())])));
}

#[test]
fn the_stack_after_a_prefix_depends_on_neither_the_environment_nor_what_follows() {
    let callee = function(vec![int_type(), string()], float());
    let globals = vec![Some(callee)];
    let typ = function(vec![int_type()], float());
    let prefix = [PushGlobal(0), PushString(0), PushInt(0), Call(2), PushInt(1), Construct(1, 2)];
    let mut lenient = Verifier::new(&Env, &globals);
    let mut strict = Verifier::new(&Strict, &globals);
    let first = lenient.verify(&typ, &prefix).unwrap_err();
    let second = strict.verify(&typ, &prefix).unwrap_err();
    // the environments disagree on the errors, not on the stack
    assert_eq!(first.errors.len(), 2);
    assert_eq!(second.errors.len(), 2);
    assert_eq!(lenient.stack(), strict.stack());
    assert_eq!(
        lenient.stack(),
        &vec![concrete(int_type()), variant(1, vec![concrete(float()), concrete(int_type())])]
    );
    // with more instructions after it, the prefix leads to the same stack
    let mut longer = prefix.to_vec();
    longer.push(PushString(0));
    let mut again = Verifier::new(&Env, &globals);
    assert!(again.verify(&typ, &longer).is_err());
    assert_eq!(&again.stack()[..2], &lenient.stack()[..]);
    assert_eq!(again.stack().len(), 3);
    // on entry the stack is as long as the function has arguments
    let mut fresh = Verifier::new(&Env, &globals);
    assert!(fresh.verify(&typ, &[]).is_ok());
    assert_eq!(fresh.stack().len(), 1);
}

#[test]
fn a_function_type_gives_its_arguments_and_its_return_type() {
    let typ = function(vec![int_type(), string()], float());
    let (args, ret) = typ.as_function().unwrap();
    assert_eq!(args, &vec![int_type(), string()]);
    assert_eq!(ret, &float());
    assert!(int_type().as_function().is_none());
    assert!(typ.same_as(&function(vec![int_type(), string()], float())));
    assert!(!typ.same_as(&int_type()));
}

#[test]
fn errors_are_listed_in_the_order_they_were_recorded() {
    let mut errors = Errors::new();
    assert!(!errors.has_errors());
    errors.error(Error::EmptyStack);
    errors.error(Error::UndefinedGlobal(3));
    assert!(errors.has_errors());
    assert_eq!(errors.errors, vec![Error::EmptyStack, Error::UndefinedGlobal(3)]);
}

#[test]
fn a_table_binds_each_name_once_and_keeps_its_place() {
    let mut table = Table::new();
    assert_eq!(table.len(), 0);
    assert_eq!(table.insert("a".to_string(), 1), None);
    assert_eq!(table.insert("b".to_string(), 2), None);
    assert_eq!(table.insert("a".to_string(), 3), Some(1));
    assert_eq!(table.len(), 2);
    assert_eq!(table.get(&"a".to_string()), Some(&3));
    assert_eq!(table.get(&"b".to_string()), Some(&2));
    assert_eq!(table.get(&"c".to_string()), None);
    assert_eq!(table.index_of(&"a".to_string()), Some(0));
    assert_eq!(table.index_of(&"b".to_string()), Some(1));
    assert_eq!(table.index_of(&"c".to_string()), None);
    assert_eq!(table.entry(0), Some(&("a".to_string(), 3)));
    assert_eq!(table.entry(2), None);
}
