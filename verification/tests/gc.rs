use std::cell::Cell;
use vm::gc::{
    checked_value_offset, sized_value_offset, value_offset, DataDef, FromPtr, Gc, GcAllocator,
    GcPtr, HasHeader, Initialized, Move, Tracer, Traverseable, TypedGc, WriteOnly,
};
use vm::vm::{Object, Value};

/// Describes a data object whose fields are copied from a slice.
struct Def<'a> {
    elems: &'a [Value],
}

impl<'a> DataDef for Def<'a> {
    type Value = Object;

    // The size, the count and the payload as the contracts speak of them. Only
    // proofs do: the three are never run.
    fn spec_size(&self) -> usize {
        unreachable!()
    }

    fn spec_count(&self) -> usize {
        unreachable!()
    }

    fn initializes(&self, _ptr: WriteOnly<Object>, _value: Object) -> bool {
        unreachable!()
    }

    fn size(&self) -> usize {
        self.elems.len() * std::mem::size_of::<Value>()
    }

    fn count(&self) -> usize {
        1
    }

    fn initialize(self, result: WriteOnly<Object>) -> Initialized<Object> {
        result.write(Object::Data(self.elems.to_vec()))
    }
}

/// Describes a payload of bytes that is filled from a slice.
struct Bytes<'a>(&'a [u8]);

impl<'a> DataDef for Bytes<'a> {
    type Value = Vec<u8>;

    fn spec_size(&self) -> usize {
        unreachable!()
    }

    fn spec_count(&self) -> usize {
        unreachable!()
    }

    fn initializes(&self, _ptr: WriteOnly<Vec<u8>>, _value: Vec<u8>) -> bool {
        unreachable!()
    }

    fn size(&self) -> usize {
        self.0.len()
    }

    fn count(&self) -> usize {
        self.0.len()
    }

    fn initialize(self, result: WriteOnly<Vec<u8>>) -> Initialized<Vec<u8>> {
        result.write_slice(self.0)
    }
}

/// Describes a payload of text, and notes where it was asked to write it.
struct Text<'a> {
    text: &'a str,
    written_at: &'a Cell<usize>,
}

impl<'a> DataDef for Text<'a> {
    type Value = String;

    fn spec_size(&self) -> usize {
        unreachable!()
    }

    fn spec_count(&self) -> usize {
        unreachable!()
    }

    fn initializes(&self, _ptr: WriteOnly<String>, _value: String) -> bool {
        unreachable!()
    }

    fn size(&self) -> usize {
        self.text.len()
    }

    fn count(&self) -> usize {
        1
    }

    fn initialize(self, mut result: WriteOnly<String>) -> Initialized<String> {
        self.written_at.set(result.as_mut_ptr());
        result.write_str(self.text)
    }
}

fn new_data(gc: &mut TypedGc<Object>, elems: Vec<Value>) -> Value {
    Value::Data(gc.try_allocate(Move(Object::Data(elems))).unwrap())
}

fn fields<'a>(gc: &'a TypedGc<Object>, value: Value) -> &'a Vec<Value> {
    match value {
        Value::Data(ptr) => match gc.get(ptr) {
            Object::Data(fields) => fields,
            _ => panic!(),
        },
        _ => panic!(),
    }
}

fn handle(value: Value) -> GcPtr<Object> {
    match value {
        Value::Data(ptr) => ptr,
        Value::Closure(ptr) => ptr,
        _ => panic!(),
    }
}

#[test]
fn gc_header() {
    let mut gc = TypedGc::new();
    let ptr = gc.allocate(Def { elems: &[Value::Int(1)] });
    let header = gc.head().unwrap();
    assert_eq!(header, ptr);
}

#[test]
fn basic() {
    let mut gc = TypedGc::new();
    let mut stack: Vec<Value> = Vec::new();
    stack.push(Value::Data(gc.allocate(Def { elems: &[Value::Int(1)] })));
    let d2 = Value::Data(gc.allocate(Def { elems: &[stack[0]] }));
    stack.push(d2);
    assert_eq!(gc.object_count(), 2);
    gc.collect(&stack);
    assert_eq!(gc.object_count(), 2);
    assert_eq!(fields(&gc, stack[0])[0], Value::Int(1));
    assert_eq!(fields(&gc, stack[1])[0], stack[0]);
    stack.pop();
    stack.pop();
    gc.collect(&stack);
    assert_eq!(gc.object_count(), 0);
}

#[test]
fn new_heap_is_empty_and_collects_from_100_bytes() {
    let gc: TypedGc<Object> = TypedGc::new();
    assert_eq!(gc.object_count(), 0);
    assert_eq!(gc.allocated_memory(), 0);
    assert_eq!(gc.collect_limit(), 100);
    assert!(gc.head().is_none());
}

#[test]
fn allocation_links_at_the_head_and_counts_its_bytes() {
    let mut gc = TypedGc::new();
    let a = handle(new_data(&mut gc, vec![Value::Int(1)]));
    let size = sized_value_offset::<Object>() + std::mem::size_of::<Object>();
    assert_eq!(gc.allocated_memory(), size);
    let b = handle(new_data(&mut gc, vec![Value::Int(2)]));
    assert_eq!(gc.allocated_memory(), 2 * size);
    assert!(gc.head().unwrap() == b);
    assert!(a != b);
    assert!(gc.is_live(a) && gc.is_live(b));
    assert_eq!(gc.collect_limit(), 100);
}

#[test]
fn payload_offset_is_the_least_aligned_offset() {
    let offset = sized_value_offset::<Object>();
    let align = std::mem::align_of::<Object>();
    assert_eq!(offset % align, 0);
    assert_eq!(checked_value_offset::<Object>(), Some(offset));
    let bytes = sized_value_offset::<u8>();
    assert_eq!(checked_value_offset::<u8>(), Some(bytes));
    assert!(bytes <= offset);
    assert!(offset - bytes < align);
}

#[test]
fn unreachable_objects_are_freed_and_reachable_ones_kept_unchanged() {
    let mut gc = TypedGc::new();
    let a = new_data(&mut gc, vec![Value::Int(1)]);
    let b = new_data(&mut gc, vec![a, Value::Int(7)]);
    let c = new_data(&mut gc, vec![Value::Int(3)]);
    let d = new_data(&mut gc, vec![c]);
    assert_eq!(gc.object_count(), 4);
    // b reaches a; c and d are reachable from nowhere
    gc.collect(vec![b]);
    assert_eq!(gc.object_count(), 2);
    assert!(gc.is_live(handle(a)));
    assert!(gc.is_live(handle(b)));
    assert!(!gc.is_live(handle(c)));
    assert!(!gc.is_live(handle(d)));
    assert!(gc.try_get(handle(c)).is_none());
    assert!(fields(&gc, b)[0] == a);
    assert!(fields(&gc, b)[1] == Value::Int(7));
    assert!(fields(&gc, a)[0] == Value::Int(1));
    // the survivors keep their order: the newer one is the head
    assert!(gc.head().unwrap() == handle(b));
}

#[test]
fn limit_is_twice_what_is_left_after_a_collection() {
    let mut gc = TypedGc::new();
    let a = new_data(&mut gc, vec![Value::Int(1)]);
    let _b = new_data(&mut gc, vec![Value::Int(2)]);
    let _c = new_data(&mut gc, vec![Value::Int(3)]);
    let size = sized_value_offset::<Object>() + std::mem::size_of::<Object>();
    assert_eq!(gc.allocated_memory(), 3 * size);
    gc.collect(a);
    assert_eq!(gc.allocated_memory(), size);
    assert_eq!(gc.collect_limit(), 2 * size);
    gc.collect(());
    assert_eq!(gc.allocated_memory(), 0);
    assert_eq!(gc.collect_limit(), 0);
}

#[test]
fn a_cycle_is_kept_whole_or_freed_whole() {
    let mut gc = TypedGc::new();
    let a = new_data(&mut gc, vec![Value::Int(1)]);
    let b = new_data(&mut gc, vec![a]);
    let c = new_data(&mut gc, vec![b]);
    // close the cycle: a now holds a handle to c
    let old = gc.replace(handle(a), Object::Data(vec![c]));
    assert!(old == Object::Data(vec![Value::Int(1)]));
    let outside = new_data(&mut gc, vec![Value::Int(9)]);
    assert_eq!(gc.object_count(), 4);
    // one member is a root: the collection ends and all three stay
    gc.collect(b);
    assert_eq!(gc.object_count(), 3);
    assert!(gc.is_live(handle(a)) && gc.is_live(handle(b)) && gc.is_live(handle(c)));
    assert!(!gc.is_live(handle(outside)));
    assert!(fields(&gc, a)[0] == c);
    // no member is a root: all three go
    gc.collect(());
    assert_eq!(gc.object_count(), 0);
    assert!(!gc.is_live(handle(a)) && !gc.is_live(handle(b)) && !gc.is_live(handle(c)));
}

#[test]
fn a_handle_to_nothing_is_passed_over() {
    let mut gc = TypedGc::new();
    let a = new_data(&mut gc, vec![Value::Int(1)]);
    let b = new_data(&mut gc, vec![a]);
    gc.collect(b);
    gc.collect(());
    // both handles dangle now
    let c = new_data(&mut gc, vec![Value::Int(5)]);
    let d = new_data(&mut gc, vec![Value::Int(6)]);
    let e = new_data(&mut gc, vec![Value::Int(7)]);
    gc.collect((d, (a, b)));
    assert!(gc.is_live(handle(d)));
    assert!(fields(&gc, d)[0] == Value::Int(6));
    let _ = (c, e);
}

#[test]
fn alloc_and_collect_collects_once_the_limit_is_reached() {
    let mut gc = TypedGc::new();
    let size = sized_value_offset::<Object>() + std::mem::size_of::<Object>();
    let mut count = 0;
    // below the limit nothing is collected, whatever the roots are
    while gc.allocated_memory() < gc.collect_limit() {
        gc.alloc_and_collect((), Move(Object::Data(vec![Value::Int(count)])));
        count += 1;
        assert_eq!(gc.object_count(), count as usize);
    }
    assert_eq!(gc.collect_limit(), 100);
    let keep = Value::Data(gc.head().unwrap());
    // at the limit the roots and the handles of the descriptor decide
    let other = Value::Data(gc.alloc_and_collect(vec![keep], Move(Object::Data(vec![keep]))));
    assert_eq!(gc.object_count(), 2);
    assert!(gc.is_live(handle(keep)));
    assert!(gc.head().unwrap() == handle(other));
    assert_eq!(gc.collect_limit(), 2 * size);
    assert_eq!(gc.allocated_memory(), 2 * size);
    // what the descriptor holds survives though no root names it
    let mut full = TypedGc::new();
    let mut last = Value::Int(0);
    while full.allocated_memory() < full.collect_limit() {
        last = Value::Data(full.alloc_and_collect((), Move(Object::Data(vec![Value::Int(1)]))));
    }
    let next = full.alloc_and_collect((), Move(Object::Data(vec![last])));
    assert_eq!(full.object_count(), 2);
    assert!(full.is_live(handle(last)));
    assert!(full.is_live(next));
}

#[test]
fn a_freed_slot_is_used_again() {
    let mut gc = TypedGc::new();
    let a = handle(new_data(&mut gc, vec![Value::Int(1)]));
    gc.collect(());
    assert!(!gc.is_live(a));
    let b = handle(new_data(&mut gc, vec![Value::Int(2)]));
    assert_eq!(a.address(), b.address());
    assert!(fields(&gc, Value::Data(b))[0] == Value::Int(2));
}

#[test]
fn has_room_says_when_allocation_succeeds() {
    let mut gc: TypedGc<Object> = TypedGc::new();
    assert!(gc.has_room(std::mem::size_of::<Object>()));
    assert!(!gc.has_room(usize::MAX));
    assert!(!gc.has_room(usize::MAX / 2));
    let before = gc.allocated_memory();
    assert!(gc.try_allocate(Move(Object::Data(vec![]))).is_ok());
    assert!(gc.allocated_memory() > before);
}

#[test]
fn payloads_compare_by_content_and_handles_by_address() {
    let mut gc = TypedGc::new();
    let a = handle(new_data(&mut gc, vec![Value::Int(1)]));
    let b = handle(new_data(&mut gc, vec![Value::Int(1)]));
    let c = handle(new_data(&mut gc, vec![Value::Int(2)]));
    assert!(a != b);
    assert!(!a.ptr_eq(&b));
    assert!(a.ptr_eq(&a.clone()));
    assert!(gc.payload_eq(a, b));
    assert!(!gc.payload_eq(a, c));
    assert_eq!(a.as_traverseable().address(), a.address());
}

#[test]
fn traversal_visits_every_handle_held() {
    let mut gc = TypedGc::new();
    let a = new_data(&mut gc, vec![Value::Int(1)]);
    let b = new_data(&mut gc, vec![Value::Int(2)]);
    let mut tracer = Tracer::new();
    (a, vec![b, Value::Int(3)], Box::new(a), 5u8).traverse(&mut tracer);
    let mut seen = Vec::new();
    while let Some(address) = tracer.next() {
        seen.push(address);
    }
    seen.sort();
    seen.dedup();
    let mut expected = vec![handle(a).address(), handle(b).address()];
    expected.sort();
    assert_eq!(seen, expected);
}

#[test]
fn a_header_knows_the_size_of_its_object() {
    let mut gc = TypedGc::new();
    let a = handle(new_data(&mut gc, vec![Value::Int(1)]));
    let header = gc.header(a);
    assert_eq!(header.align_of(), std::mem::align_of::<Object>());
    assert_eq!(value_offset(header), sized_value_offset::<Object>());
    assert_eq!(header.size(), gc.allocated_memory());
    assert_eq!(header.size(), value_offset(header) + std::mem::size_of::<Object>());
}

#[test]
fn collection_in_the_machine_starts_from_globals_and_given_roots() {
    let mut machine = vm::vm::Vm::new();
    let function = |name: &str| vm::vm::BytecodeFunction {
        name: name.to_string(),
        args: 0,
        instructions: Vec::new(),
    };
    let bound = machine.new_closure(function("bound"), Vec::new()).unwrap();
    let held = machine.new_closure(function("held"), vec![Value::Int(1)]).unwrap();
    let inner = machine.new_closure(function("inner"), Vec::new()).unwrap();
    let outer = machine.new_closure(function("outer"), vec![Value::Closure(inner)]).unwrap();
    let lost = machine.new_closure(function("lost"), vec![Value::Closure(bound)]).unwrap();
    let unit = vm::base::types::Type::builtin(vm::base::types::BuiltinType::Unit);
    machine.define_global("f".to_string(), unit.clone(), Value::Closure(bound));
    machine.define_global("g".to_string(), unit, Value::Closure(outer));
    machine.collect(held);
    assert_eq!(machine.gc().object_count(), 4);
    assert!(machine.gc().is_live(bound));
    assert!(machine.gc().is_live(held));
    assert!(machine.gc().is_live(inner));
    assert!(machine.gc().is_live(outer));
    assert!(!machine.gc().is_live(lost));
    machine.collect(());
    assert_eq!(machine.gc().object_count(), 3);
    assert!(!machine.gc().is_live(held));
}

#[test]
fn a_descriptor_sizes_and_fills_its_payload() {
    let mut gc = TypedGc::new();
    let a = gc.allocate(Def { elems: &[Value::Int(1), Value::Int(2), Value::Int(3)] });
    assert_eq!(gc.get(a), &Object::Data(vec![Value::Int(1), Value::Int(2), Value::Int(3)]));
    assert_eq!(
        gc.allocated_memory(),
        sized_value_offset::<Object>() + 3 * std::mem::size_of::<Value>()
    );
    assert_eq!(gc.header(a).size(), gc.allocated_memory());
}

#[test]
fn a_slice_is_copied_into_the_storage() {
    let mut gc: TypedGc<Vec<u8>> = TypedGc::new();
    let a = gc.allocate(Bytes(&[1, 2, 3]));
    let b = gc.allocate(Bytes(&[]));
    assert_eq!(gc.get(a), &vec![1, 2, 3]);
    assert_eq!(gc.get(b), &Vec::<u8>::new());
    assert_eq!(gc.allocated_memory(), 2 * sized_value_offset::<Vec<u8>>() + 3);
    gc.collect(());
    assert_eq!(gc.object_count(), 0);
}

#[test]
fn a_string_is_copied_into_the_storage_that_was_handed_out() {
    let mut gc: TypedGc<String> = TypedGc::new();
    let written_at = Cell::new(usize::MAX);
    let a = gc.allocate(Text { text: "hello", written_at: &written_at });
    assert_eq!(gc.get(a), "hello");
    assert_eq!(written_at.get(), a.address());
    assert_eq!(gc.allocated_memory(), sized_value_offset::<String>() + 5);
    let b = gc.allocate(Text { text: "", written_at: &written_at });
    assert_eq!(written_at.get(), b.address());
    assert!(a != b);
}

/// Describes a payload that claims more bytes than any heap can account for.
struct Huge;

impl DataDef for Huge {
    type Value = Object;

    fn spec_size(&self) -> usize {
        unreachable!()
    }

    fn spec_count(&self) -> usize {
        unreachable!()
    }

    fn initializes(&self, _ptr: WriteOnly<Object>, _value: Object) -> bool {
        unreachable!()
    }

    fn size(&self) -> usize {
        usize::MAX / 2
    }

    fn count(&self) -> usize {
        1
    }

    fn initialize(self, result: WriteOnly<Object>) -> Initialized<Object> {
        result.write(Object::Data(Vec::new()))
    }
}

#[test]
fn an_allocator_refuses_what_it_cannot_account_for() {
    let mut gc: TypedGc<Object> = TypedGc::new();
    assert!(GcAllocator::allocate(&mut gc, Huge).is_err());
    assert_eq!(gc.object_count(), 0);
    assert_eq!(gc.allocated_memory(), 0);
    let a = GcAllocator::allocate(&mut gc, Def { elems: &[Value::Int(4)] }).unwrap();
    assert_eq!(gc.object_count(), 1);
    assert_eq!(fields(&gc, Value::Data(a))[0], Value::Int(4));
    let b = Gc::alloc_and_collect(&mut gc, (), Move(Object::Data(vec![Value::Data(a)])));
    assert_eq!(gc.object_count(), 2);
    Gc::collect(&mut gc, b);
    assert_eq!(gc.object_count(), 2);
    Gc::collect(&mut gc, a);
    assert_eq!(gc.object_count(), 1);
    assert!(gc.is_live(a));
}

#[test]
fn a_handle_is_formed_from_an_address() {
    let mut gc = TypedGc::new();
    let a = handle(new_data(&mut gc, vec![Value::Int(1)]));
    let again: GcPtr<Object> = FromPtr::make_ptr((), a.address());
    assert_eq!(again, a);
    assert_eq!(fields(&gc, Value::Data(again))[0], Value::Int(1));
    let nowhere: GcPtr<Object> = FromPtr::make_ptr((), a.address() + 1);
    assert!(!gc.is_live(nowhere));
    assert!(gc.try_get(nowhere).is_none());
}

/// Describes a payload of values that take no bytes.
struct Units<'a>(&'a [()]);

impl<'a> DataDef for Units<'a> {
    type Value = Vec<()>;

    fn spec_size(&self) -> usize {
        unreachable!()
    }

    fn spec_count(&self) -> usize {
        unreachable!()
    }

    fn initializes(&self, _ptr: WriteOnly<Vec<()>>, _value: Vec<()>) -> bool {
        unreachable!()
    }

    fn size(&self) -> usize {
        0
    }

    fn count(&self) -> usize {
        self.0.len()
    }

    fn initialize(self, result: WriteOnly<Vec<()>>) -> Initialized<Vec<()>> {
        result.write_slice(self.0)
    }
}

#[test]
fn elements_without_bytes_are_counted_all_the_same() {
    let mut gc: TypedGc<Vec<()>> = TypedGc::new();
    let a = gc.allocate(Units(&[(), (), ()]));
    assert_eq!(gc.get(a).len(), 3);
    assert_eq!(gc.allocated_memory(), sized_value_offset::<Vec<()>>());
}
