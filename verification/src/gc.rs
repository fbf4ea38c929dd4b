//! A precise mark-and-sweep heap.
//!
//! Objects live in an arena. Each occupied slot holds a header followed by the
//! payload, and the headers are threaded into one singly linked list of all live
//! objects, newest first. A handle is the address of a slot; it keeps nothing
//! alive. What survives a collection is decided by reachability from the roots
//! alone.

use vstd::prelude::*;
use core::marker::PhantomData;
use vstd::std_specs::cmp::{PartialEqSpec, PartialEqSpecImpl};
use vstd::string::StringSliceAdditionalSpecFns;

mod adapters;

verus! {

/// A copyable, non-owning reference to a heap object.
#[derive(Debug)]
pub struct GcPtr<T: ?Sized> {
    address: usize,
    marker: PhantomData<T>,
}

impl<T: ?Sized> Clone for GcPtr<T> {
    fn clone(&self) -> (r: Self)
        ensures
            r == *self,
    {
        GcPtr { address: self.address, marker: PhantomData }
    }
}

impl<T: ?Sized> Copy for GcPtr<T> {

}

/// Two handles are equal where they address the same object.
impl<T: ?Sized> PartialEq for GcPtr<T> {
    fn eq(&self, other: &GcPtr<T>) -> (r: bool) {
        self.address == other.address
    }
}

impl<T: ?Sized> PartialEqSpecImpl for GcPtr<T> {
    open spec fn obeys_eq_spec() -> bool {
        true
    }

    open spec fn eq_spec(&self, other: &GcPtr<T>) -> bool {
        self.addr() == other.addr()
    }
}

impl<T: ?Sized> Eq for GcPtr<T> {

}

impl<T: ?Sized> GcPtr<T> {
    /// The address of the object this handle refers to.
    pub closed spec fn addr(&self) -> usize {
        self.address
    }

    /// Handles are determined by their address.
    pub proof fn lemma_same_address(a: GcPtr<T>, b: GcPtr<T>)
        requires
            a.addr() == b.addr(),
        ensures
            a == b,
    {
    }

    /// The address of the object this handle refers to.
    pub fn address(&self) -> (r: usize)
        ensures
            r == self.addr(),
    {
        self.address
    }

    /// Raw identity: do the two handles address the same object?
    pub fn ptr_eq(&self, other: &GcPtr<T>) -> (r: bool)
        ensures
            r == (self.addr() == other.addr()),
            r == (*self == *other),
    {
        self.address == other.address
    }
}

impl<T: Traverseable> GcPtr<T> {
    /// The same handle, to be held wherever only traversal is asked of the
    /// payload.
    pub fn as_traverseable<'a>(self) -> (r: GcPtr<dyn Traverseable + 'a>)
        where T: 'a
        ensures
            r.addr() == self.addr(),
    {
        GcPtr { address: self.address, marker: PhantomData }
    }
}

/// Forms the handle to a payload from the address of its storage.
pub trait FromPtr<D>: Sized {
    fn make_ptr(data: D, ptr: usize) -> (r: GcPtr<Self>)
        ensures
            r.addr() == ptr,
    ;
}

impl<D, T> FromPtr<D> for T {
    fn make_ptr(_data: D, ptr: usize) -> (r: GcPtr<T>) {
        GcPtr { address: ptr, marker: PhantomData }
    }
}

/// The visitor handed to `Traverseable::traverse`: it collects the handles that
/// a traversal comes across, to be marked by the collector.
pub struct Tracer {
    pending: Vec<usize>,
}

impl View for Tracer {
    type V = Set<usize>;

    /// The addresses that were visited and are still waiting to be marked.
    closed spec fn view(&self) -> Set<usize> {
        self.pending@.to_set()
    }
}

impl Tracer {
    /// How many visits are waiting, repeated addresses counted each time.
    pub closed spec fn count(&self) -> nat {
        self.pending@.len()
    }

    /// A visitor that has visited nothing yet.
    pub fn new() -> (r: Tracer)
        ensures
            r@ == Set::<usize>::empty(),
            r.count() == 0,
    {
        let r = Tracer { pending: Vec::new() };
        assert(r.pending@.to_set() =~= Set::<usize>::empty());
        r
    }

    /// Visits the object at `address`.
    pub fn visit(&mut self, address: usize)
        ensures
            final(self)@ == old(self)@.insert(address),
            final(self).count() == old(self).count() + 1,
    {
        self.pending.push(address);
        proof {
            let before = old(self).pending@;
            let after = self.pending@;
            assert(after =~= before.push(address));
            assert forall|a: usize| after.contains(a) <==> (before.contains(a) || a == address) by {
                if before.contains(a) {
                    let i = choose|i: int| 0 <= i < before.len() && before[i] == a;
                    assert(after[i] == a);
                }
                if a == address {
                    assert(after[after.len() - 1] == a);
                }
            }
            assert(after.to_set() =~= before.to_set().insert(address));
        }
    }

    /// Takes one waiting address out, if there is any.
    pub fn next(&mut self) -> (r: Option<usize>)
        ensures
            r is None ==> {
                &&& old(self).count() == 0
                &&& old(self)@ == Set::<usize>::empty()
                &&& final(self)@ == old(self)@
                &&& final(self).count() == 0
            },
            r matches Some(a) ==> {
                &&& old(self)@.contains(a)
                &&& final(self).count() + 1 == old(self).count()
                &&& final(self)@.subset_of(old(self)@)
                &&& old(self)@.subset_of(final(self)@.insert(a))
            },
    {
        let r = self.pending.pop();
        proof {
            let before = old(self).pending@;
            let after = self.pending@;
            match r {
                None => {
                    assert(before.to_set() =~= Set::<usize>::empty());
                },
                Some(a) => {
                    assert(before[before.len() - 1] == a);
                    assert forall|x: usize| after.contains(x) implies before.contains(x) by {
                        let i = choose|i: int| 0 <= i < after.len() && after[i] == x;
                        assert(before[i] == x);
                    }
                    assert forall|x: usize| before.contains(x) implies after.contains(x) || x
                        == a by {
                        let i = choose|i: int| 0 <= i < before.len() && before[i] == x;
                        if i < after.len() {
                            assert(after[i] == x);
                        }
                    }
                },
            }
        }
        r
    }
}

/// What every payload and every root must offer: enumerate the handles it holds
/// directly. A containing type calls `traverse` on each of its fields that may
/// hold a handle.
pub trait Traverseable {
    /// The addresses of the handles held directly.
    spec fn pointers(&self) -> Set<usize>;

    /// Calls the visitor on each handle held directly.
    fn traverse(&self, gc: &mut Tracer)
        ensures
            final(gc)@ == old(gc)@.union(self.pointers()),
    ;
}

/// Traversing a handle visits the object it addresses.
impl<T: ?Sized> Traverseable for GcPtr<T> {
    open spec fn pointers(&self) -> Set<usize> {
        set![self.addr()]
    }

    fn traverse(&self, gc: &mut Tracer) {
        gc.visit(self.address);
        assert(old(gc)@.insert(self.address) =~= old(gc)@.union(set![self.address]));
    }
}

/// The handles held by the elements of a sequence.
pub open spec fn pointers_of<U: Traverseable>(items: Seq<U>) -> Set<usize> {
    Set::new(|a: usize| exists|i: int| 0 <= i < items.len() && #[trigger] items[i].pointers().contains(a))
}

/// Write-only access to the storage that was reserved for one payload.
///
/// It can be used once: writing the payload consumes it.
pub struct WriteOnly<T> {
    address: usize,
    size: usize,
    count: usize,
    marker: PhantomData<T>,
}

/// A payload together with the storage it was written to.
pub struct Initialized<T> {
    address: usize,
    value: T,
}

impl<T> Initialized<T> {
    /// The address of the storage that holds the payload.
    pub closed spec fn addr(&self) -> usize {
        self.address
    }

    /// The payload.
    pub closed spec fn value(&self) -> T {
        self.value
    }
}

impl<T> WriteOnly<T> {
    /// The address of the reserved storage.
    pub closed spec fn addr(&self) -> usize {
        self.address
    }

    /// The number of bytes that were reserved.
    pub closed spec fn size(&self) -> usize {
        self.size
    }

    /// The number of elements that the storage was reserved for: those of a
    /// sequence, and one for any other payload.
    pub closed spec fn count(&self) -> usize {
        self.count
    }

    /// The address of the reserved storage.
    pub fn as_mut_ptr(&mut self) -> (r: usize)
        ensures
            r == old(self).addr(),
            *final(self) == *old(self),
    {
        self.address
    }

    /// Moves `t` into the storage.
    pub fn write(self, t: T) -> (r: Initialized<T>)
        ensures
            r.addr() == self.addr(),
            r.value() == t,
    {
        Initialized { address: self.address, value: t }
    }
}

impl<T: Copy> WriteOnly<Vec<T>> {
    /// Fills the storage with a copy of `s`, element by element.
    pub fn write_slice(self, s: &[T]) -> (r: Initialized<Vec<T>>)
        requires
            s@.len() == self.count(),
        ensures
            r.addr() == self.addr(),
            r.value()@ == s@,
    {
        let mut copy: Vec<T> = Vec::new();
        let mut i: usize = 0;
        while i < s.len()
            invariant
                i <= s@.len(),
                copy@ == s@.subrange(0, i as int),
            decreases s@.len() - i,
        {
            copy.push(s[i]);
            assert(copy@ =~= s@.subrange(0, i + 1));
            i += 1;
        }
        assert(s@.subrange(0, i as int) =~= s@);
        Initialized { address: self.address, value: copy }
    }
}

impl WriteOnly<String> {
    /// Fills the storage with the text of `s`.
    pub fn write_str(self, s: &str) -> (r: Initialized<String>)
        requires
            s.spec_bytes().len() == self.size(),
        ensures
            r.addr() == self.addr(),
            r.value()@ == s@,
    {
        Initialized { address: self.address, value: s.to_owned() }
    }
}

/// A one-shot description of an allocation: how many bytes the payload takes and
/// how to construct it in the storage reserved for it.
pub trait DataDef: Sized {
    type Value;

    /// The byte size of the payload.
    spec fn spec_size(&self) -> usize;

    /// The number of elements of the payload: those of a sequence, and one for
    /// any other payload.
    spec fn spec_count(&self) -> usize;

    /// Whether `value` is the payload that this descriptor constructs in the
    /// storage `ptr`.
    spec fn initializes(&self, ptr: WriteOnly<Self::Value>, value: Self::Value) -> bool;

    fn size(&self) -> (r: usize)
        ensures
            r == self.spec_size(),
    ;

    fn count(&self) -> (r: usize)
        ensures
            r == self.spec_count(),
    ;

    /// Constructs the payload in `ptr`. What comes back must be the very storage
    /// that was handed in.
    fn initialize(self, ptr: WriteOnly<Self::Value>) -> (r: Initialized<Self::Value>)
        requires
            ptr.size() == self.spec_size(),
            ptr.count() == self.spec_count(),
        ensures
            r.addr() == ptr.addr(),
            self.initializes(ptr, r.value()),
    ;
}

/// A descriptor that moves its value straight into the storage.
pub struct Move<T>(pub T);

impl<T> DataDef for Move<T> {
    type Value = T;

    open spec fn spec_size(&self) -> usize {
        vstd::layout::size_of::<T>() as usize
    }

    open spec fn initializes(&self, ptr: WriteOnly<T>, value: T) -> bool {
        value == self.0
    }

    open spec fn spec_count(&self) -> usize {
        1
    }

    fn size(&self) -> (r: usize) {
        core::mem::size_of::<T>()
    }

    fn count(&self) -> (r: usize) {
        1
    }

    fn initialize(self, ptr: WriteOnly<T>) -> (r: Initialized<T>) {
        ptr.write(self.0)
    }
}

impl<T: Traverseable> Traverseable for Move<T> {
    open spec fn pointers(&self) -> Set<usize> {
        self.0.pointers()
    }

    fn traverse(&self, gc: &mut Tracer) {
        self.0.traverse(gc)
    }
}

/// What precedes every payload: the link to the next live object, the payload's
/// byte size and the mark bit.
struct Header {
    next: Option<usize>,
    value_size: usize,
    marked: bool,
}

/// The byte size of an object's header.
pub closed spec fn header_size() -> nat {
    vstd::layout::size_of::<Header>()
}

/// The least multiple of `align` that is no less than `size`.
pub open spec fn round_up(size: nat, align: nat) -> nat {
    (size + (align - size % align) % (align as int)) as nat
}

/// `round_up` yields a multiple of the alignment, and the least one.
pub proof fn lemma_round_up(size: nat, align: nat)
    requires
        align > 0,
    ensures
        round_up(size, align) % align == 0,
        size <= round_up(size, align) < size + align,
{
    let r = size % align;
    vstd::arithmetic::div_mod::lemma_fundamental_div_mod(size as int, align as int);
    vstd::arithmetic::div_mod::lemma_mod_bound(size as int, align as int);
    if r == 0 {
        vstd::arithmetic::div_mod::lemma_mod_self_0(align as int);
        assert((align - r) % (align as int) == 0);
    } else {
        vstd::arithmetic::div_mod::lemma_small_mod((align - r) as nat, align);
        let q = size as int / align as int;
        assert(size + (align - r) == align * (q + 1)) by (nonlinear_arith)
            requires
                size == align * q + r,
        ;
        vstd::arithmetic::div_mod::lemma_mod_multiples_basic(q + 1, align as int);
        assert((align * (q + 1)) % (align as int) == 0) by (nonlinear_arith)
            requires
                ((q + 1) * align) % (align as int) == 0,
        ;
    }
}

/// The offset of a payload of type `T` from the start of its header, which is
/// what the header adds to the size of an object.
pub open spec fn payload_offset<T>() -> nat {
    round_up(header_size(), vstd::layout::align_of::<T>())
}

/// What the collector needs of an object: its mark bit and the alignment of its
/// payload.
pub trait HasHeader {
    /// Whether the mark bit is set.
    spec fn marked(&self) -> bool;

    /// The alignment that the payload asks for.
    spec fn alignment(&self) -> nat;

    /// Sets the mark bit and says whether it was set before.
    fn mark_header(&mut self) -> (r: bool)
        ensures
            r == old(self).marked(),
            final(self).marked(),
            final(self).alignment() == old(self).alignment(),
    ;

    fn align_of(&self) -> (r: usize)
        ensures
            r == self.alignment(),
            r > 0,
    ;
}

/// An object that the collector can both mark and traverse.
pub trait GcTraverseable: Traverseable + HasHeader {

}

impl<T: Traverseable + HasHeader> GcTraverseable for T {

}

/// A heap object: the header, then the payload.
pub struct GcHeader<T> {
    header: Header,
    value: T,
}

impl<T> GcHeader<T> {
    /// The payload.
    pub closed spec fn payload(&self) -> T {
        self.value
    }

    /// The byte size of the payload.
    pub closed spec fn value_size(&self) -> usize {
        self.header.value_size
    }

    /// The address of the next object on the live list.
    pub closed spec fn next(&self) -> Option<usize> {
        self.header.next
    }

    /// The bytes that the object takes: the payload, and the header in front of
    /// it at the offset that aligns the payload.
    pub open spec fn spec_size(&self) -> nat {
        payload_offset::<T>() + self.value_size() as nat
    }

    /// The payload behind the header.
    fn value(&mut self) -> (r: &mut T)
        ensures
            *r == old(self).payload(),
            final(self).payload() == *final(r),
            final(self).value_size() == old(self).value_size(),
            final(self).next() == old(self).next(),
            final(self).marked() == old(self).marked(),
    {
        &mut self.value
    }

    /// The bytes that the object takes, header included.
    pub fn size(&self) -> (r: usize)
        requires
            self.spec_size() <= usize::MAX,
        ensures
            r == self.spec_size(),
    {
        value_offset(self) + self.header.value_size
    }
}

impl<T> HasHeader for GcHeader<T> {
    closed spec fn marked(&self) -> bool {
        self.header.marked
    }

    open spec fn alignment(&self) -> nat {
        vstd::layout::align_of::<T>()
    }

    fn mark_header(&mut self) -> (r: bool)
        ensures
            final(self).payload() == old(self).payload(),
            final(self).value_size() == old(self).value_size(),
            final(self).next() == old(self).next(),
    {
        if self.header.marked {
            true
        } else {
            self.header.marked = true;
            false
        }
    }

    fn align_of(&self) -> (r: usize) {
        proof {
            broadcast use vstd::layout::align_nonzero;
        }
        core::mem::align_of::<T>()
    }
}

impl<T: Traverseable> Traverseable for GcHeader<T> {
    open spec fn pointers(&self) -> Set<usize> {
        self.payload().pointers()
    }

    fn traverse(&self, gc: &mut Tracer) {
        self.value.traverse(gc)
    }
}

/// The offset of the payload of `value` from the start of its header.
pub fn value_offset<T: HasHeader>(value: &T) -> (r: usize)
    requires
        round_up(header_size(), value.alignment()) <= usize::MAX,
    ensures
        r == round_up(header_size(), value.alignment()),
{
    let hs: usize = core::mem::size_of::<Header>();
    let max_align: usize = value.align_of();
    hs + ((max_align - (hs % max_align)) % max_align)
}

/// The offset of a payload of type `T` from the start of its header.
pub fn sized_value_offset<T>() -> (r: usize)
    requires
        round_up(header_size(), vstd::layout::align_of::<T>()) <= usize::MAX,
    ensures
        r == round_up(header_size(), vstd::layout::align_of::<T>()),
{
    proof {
        broadcast use vstd::layout::align_nonzero;
    }
    let hs: usize = core::mem::size_of::<Header>();
    let max_align: usize = core::mem::align_of::<T>();
    hs + ((max_align - (hs % max_align)) % max_align)
}

/// The offset of a payload of type `T`, unless it is beyond what the machine can
/// address.
pub fn checked_value_offset<T>() -> (r: Option<usize>)
    ensures
        r is Some == (payload_offset::<T>() <= usize::MAX),
        r matches Some(offset) ==> offset == payload_offset::<T>(),
{
    broadcast use vstd::layout::align_nonzero;

    let hs: usize = core::mem::size_of::<Header>();
    let max_align: usize = core::mem::align_of::<T>();
    hs.checked_add((max_align - (hs % max_align)) % max_align)
}

/// The head of a list of addresses.
pub open spec fn head_of(live: Seq<usize>) -> Option<usize> {
    if live.len() == 0 {
        None
    } else {
        Some(live[0])
    }
}

/// The address that follows position `i` in a list of addresses.
pub open spec fn link_of(live: Seq<usize>, i: int) -> Option<usize> {
    if i + 1 < live.len() {
        Some(live[i + 1])
    } else {
        None
    }
}

/// The bytes taken by the objects at the addresses `live`, one after the other.
spec fn sum_sizes<T>(slots: Seq<Option<GcHeader<T>>>, live: Seq<usize>) -> nat
    decreases live.len(),
{
    if live.len() == 0 {
        0
    } else {
        slots[live[0] as int]->0.spec_size() + sum_sizes(slots, live.drop_first())
    }
}

/// The sum depends only on the sizes of the objects it runs over.
proof fn lemma_sum_frame<T>(
    before: Seq<Option<GcHeader<T>>>,
    after: Seq<Option<GcHeader<T>>>,
    live: Seq<usize>,
)
    requires
        forall|i: int|
            0 <= i < live.len() ==> before[#[trigger] live[i] as int]->0.spec_size()
                == after[live[i] as int]->0.spec_size(),
    ensures
        sum_sizes(before, live) == sum_sizes(after, live),
    decreases live.len(),
{
    if live.len() > 0 {
        let rest = live.drop_first();
        assert(before[live[0] as int]->0.spec_size() == after[live[0] as int]->0.spec_size());
        assert forall|i: int| 0 <= i < rest.len() implies before[#[trigger] rest[i] as int]->0.spec_size()
            == after[rest[i] as int]->0.spec_size() by {
            assert(rest[i] == live[i + 1]);
        }
        lemma_sum_frame(before, after, rest);
    }
}

/// Taking one address out of the list takes the size of its object off the sum.
proof fn lemma_sum_remove<T>(slots: Seq<Option<GcHeader<T>>>, live: Seq<usize>, k: int)
    requires
        0 <= k < live.len(),
    ensures
        sum_sizes(slots, live) == sum_sizes(slots, live.remove(k)) + slots[live[k] as int]->0.spec_size(),
    decreases live.len(),
{
    if k == 0 {
        assert(live.remove(0) =~= live.drop_first());
    } else {
        let rest = live.drop_first();
        lemma_sum_remove(slots, rest, k - 1);
        assert(rest[k - 1] == live[k]);
        assert(live.remove(k).drop_first() =~= rest.remove(k - 1));
        assert(live.remove(k)[0] == live[0]);
    }
}

/// The size of each object on the list is part of the sum.
proof fn lemma_sum_bound<T>(slots: Seq<Option<GcHeader<T>>>, live: Seq<usize>, k: int)
    requires
        0 <= k < live.len(),
    ensures
        slots[live[k] as int]->0.spec_size() <= sum_sizes(slots, live),
{
    lemma_sum_remove(slots, live, k);
}

/// The error of an allocation that the heap cannot account for.
#[derive(Debug)]
pub struct Error;

/// A mark-and-sweep heap of payloads of type `T`.
pub struct TypedGc<T> {
    /// The arena: a slot is either unused or holds one object.
    slots: Vec<Option<GcHeader<T>>>,
    /// The addresses of the unused slots.
    free: Vec<usize>,
    /// The head of the live list.
    values: Option<usize>,
    allocated_memory: usize,
    collect_limit: usize,
    /// The live list, as the links between the headers spell it out.
    live: Ghost<Seq<usize>>,
}

impl<T> TypedGc<T> {
    /// The addresses of the live objects, in the order of the live list: the
    /// newest allocation first.
    pub closed spec fn live(&self) -> Seq<usize> {
        self.live@
    }

    /// Whether `address` holds a live object.
    pub open spec fn contains(&self, address: usize) -> bool {
        self.live().contains(address)
    }

    /// The payload of the object at `address`.
    pub closed spec fn payload(&self, address: usize) -> T {
        self.slots@[address as int]->0.payload()
    }

    /// The byte size that the object at `address` was allocated with.
    pub closed spec fn value_size(&self, address: usize) -> usize {
        self.slots@[address as int]->0.value_size()
    }

    /// Whether the mark bit of the object at `address` is set.
    pub closed spec fn is_marked(&self, address: usize) -> bool {
        self.slots@[address as int]->0.marked()
    }

    /// The bytes taken by the object at `address`, header included.
    pub open spec fn object_size(&self, address: usize) -> nat {
        payload_offset::<T>() + self.value_size(address) as nat
    }

    /// The running count of allocated bytes.
    pub closed spec fn allocated(&self) -> nat {
        self.allocated_memory as nat
    }

    /// The count of allocated bytes from which on an allocation collects first.
    pub closed spec fn limit(&self) -> nat {
        self.collect_limit as nat
    }

    /// The bytes taken by the objects at `addresses`, one after the other.
    pub open spec fn bytes_of(&self, addresses: Seq<usize>) -> nat
        decreases addresses.len(),
    {
        if addresses.len() == 0 {
            0
        } else {
            self.object_size(addresses[0]) + self.bytes_of(addresses.drop_first())
        }
    }

    /// The bytes taken by all live objects together.
    pub open spec fn live_bytes(&self) -> nat {
        self.bytes_of(self.live())
    }

    /// The structure of the heap: the links between the headers spell out the
    /// live list, every occupied slot is on it exactly once, and the byte count
    /// is that of the live objects. Mark bits may be set.
    pub closed spec fn linked(&self) -> bool {
        &&& self.chained()
        // no slot is lost: each one is live or on the free list
        &&& self.live@.len() + self.free@.len() == self.slots@.len()
    }

    /// The links, the unused slots and the byte count are in order.
    spec fn chained(&self) -> bool {
        let live = self.live@;
        let slots = self.slots@;
        let free = self.free@;
        // every address on the live list is that of an occupied slot, once
        &&& live.no_duplicates()
        &&& forall|i: int|
            0 <= i < live.len() ==> (#[trigger] live[i]) < slots.len()
                && slots[live[i] as int] is Some
        // and every occupied slot is on the live list
        &&& forall|a: usize|
            a < slots.len() && (#[trigger] slots[a as int]) is Some ==> live.contains(a)
        // the links lead through the live list, from the head to the end
        &&& self.values == head_of(live)
        &&& forall|i: int|
            0 <= i < live.len() ==> slots[live[i] as int]->0.next()
                == #[trigger] link_of(live, i)
        // the free list holds unused slots, each once
        &&& free.no_duplicates()
        &&& forall|j: int|
            0 <= j < free.len() ==> (#[trigger] free[j]) < slots.len()
                && slots[free[j] as int] is None
        // the byte count is that of the live objects, and can be doubled
        &&& self.allocated_memory == sum_sizes(slots, live)
        &&& 2 * self.allocated_memory <= usize::MAX
    }

    /// The heap as it is between collections: well linked, and no mark bit set.
    pub open spec fn wf(&self) -> bool {
        &&& self.linked()
        &&& forall|a: usize| self.contains(a) ==> !self.is_marked(a)
    }

    /// Whether an object with a payload of `value_size` bytes can still be
    /// accounted for.
    pub open spec fn fits(&self, value_size: usize) -> bool {
        2 * (self.allocated() + payload_offset::<T>() + value_size) <= usize::MAX
    }

    /// Whether the object at `address` is the one that `def` describes: of the
    /// size that `def` asks for, with the payload that `def` constructs in
    /// storage of that size, for that many elements, at that address.
    pub open spec fn constructed<D: DataDef<Value = T>>(&self, address: usize, def: D) -> bool {
        &&& self.value_size(address) == def.spec_size()
        &&& exists|ptr: WriteOnly<T>|
            ptr.addr() == address && ptr.size() == def.spec_size() && ptr.count()
                == def.spec_count() && #[trigger] def.initializes(
                ptr,
                self.payload(address),
            )
    }

    /// Whether `self` is `before` with one more object, the one that `def`
    /// describes, at `address` and at the head of the live list.
    pub open spec fn extends<D: DataDef<Value = T>>(&self, before: Self, address: usize, def: D) -> bool {
        &&& self.wf()
        &&& !before.contains(address)
        &&& self.live() == seq![address] + before.live()
        &&& self.constructed(address, def)
        &&& forall|a: usize|
            #![trigger self.payload(a)]
            #![trigger self.value_size(a)]
            before.contains(a) ==> self.payload(a) == before.payload(a) && self.value_size(a)
                == before.value_size(a)
        &&& self.allocated() == before.allocated() + payload_offset::<T>() + def.spec_size()
        &&& self.limit() == before.limit()
    }

    /// Whether `self` is `before` with the payload `value` at the live object
    /// `address`, and all else as it was.
    pub open spec fn replaces(&self, before: Self, address: usize, value: T) -> bool {
        &&& self.wf()
        &&& self.live() == before.live()
        &&& self.payload(address) == value
        &&& forall|a: usize|
            before.contains(a) && a != address ==> self.payload(a) == before.payload(a)
        &&& forall|a: usize| before.contains(a) ==> self.value_size(a) == before.value_size(a)
        &&& self.allocated() == before.allocated()
        &&& self.limit() == before.limit()
    }

    /// The objects whose mark bit is set.
    pub open spec fn marked_in(&self) -> spec_fn(usize) -> bool {
        |a: usize| self.is_marked(a)
    }

    /// The bytes of the objects at `addresses` are the sizes in their headers.
    proof fn lemma_bytes_of(&self, addresses: Seq<usize>)
        ensures
            self.bytes_of(addresses) == sum_sizes(self.slots@, addresses),
        decreases addresses.len(),
    {
        if addresses.len() > 0 {
            self.lemma_bytes_of(addresses.drop_first());
        }
    }

    /// In a well-linked heap the byte count is that of the live objects, twice
    /// that count is still a number of the machine, and no object is on the
    /// live list twice.
    pub proof fn lemma_allocated(&self)
        requires
            self.linked(),
        ensures
            self.allocated() == self.live_bytes(),
            2 * self.allocated() <= usize::MAX,
            self.live().no_duplicates(),
    {
        self.lemma_bytes_of(self.live@);
    }

    /// A heap stays well linked while the headers keep their links and their
    /// sizes.
    proof fn lemma_headers_kept(before: Self, after: Self)
        requires
            before.linked(),
            after.live@ == before.live@,
            after.free@ == before.free@,
            after.values == before.values,
            after.allocated_memory == before.allocated_memory,
            after.slots@.len() == before.slots@.len(),
            forall|a: int|
                0 <= a < before.slots@.len() ==> ((#[trigger] after.slots@[a]) is Some)
                    == (before.slots@[a] is Some),
            forall|a: int|
                0 <= a < before.slots@.len() && before.slots@[a] is Some ==> (
                #[trigger] after.slots@[a])->0.next() == before.slots@[a]->0.next()
                    && after.slots@[a]->0.value_size() == before.slots@[a]->0.value_size(),
        ensures
            after.linked(),
    {
        let live = before.live@;
        assert forall|i: int| 0 <= i < live.len() implies (#[trigger] live[i]) < after.slots@.len()
            && after.slots@[live[i] as int] is Some by {
            assert(before.slots@[live[i] as int] is Some);
        }
        assert forall|i: int| 0 <= i < live.len() implies before.slots@[#[trigger] live[i] as int]->0.spec_size()
            == after.slots@[live[i] as int]->0.spec_size() by {
            assert(before.slots@[live[i] as int] is Some);
        }
        lemma_sum_frame(before.slots@, after.slots@, live);
        assert forall|i: int| 0 <= i < live.len() implies after.slots@[live[i] as int]->0.next()
            == #[trigger] link_of(live, i) by {
            assert(before.slots@[live[i] as int]->0.next() == link_of(live, i));
            assert(before.slots@[live[i] as int] is Some);
        }
        assert forall|a: usize| a < after.slots@.len() && (#[trigger] after.slots@[a as int]) is Some implies live.contains(
            a,
        ) by {
            assert(before.slots@[a as int] is Some);
        }
        assert forall|k: int| 0 <= k < after.free@.len() implies (#[trigger] after.free@[k])
            < after.slots@.len() && after.slots@[after.free@[k] as int] is None by {
            assert(before.slots@[before.free@[k] as int] is None);
        }
    }

    /// A heap without objects. It collects for the first time once 100 bytes are
    /// allocated.
    pub fn new() -> (r: TypedGc<T>)
        ensures
            r.wf(),
            r.live() == Seq::<usize>::empty(),
            r.allocated() == 0,
            r.limit() == 100,
    {
        let r = TypedGc {
            slots: Vec::new(),
            free: Vec::new(),
            values: None,
            allocated_memory: 0,
            collect_limit: 100,
            live: Ghost(Seq::empty()),
        };
        r
    }

    /// The number of objects on the live list.
    pub fn object_count(&self) -> (r: usize)
        requires
            self.linked(),
        ensures
            r == self.live().len(),
    {
        let mut count: usize = 0;
        let mut cursor: Option<usize> = self.values;
        let ghost mut i: int = 0;
        loop
            invariant
                self.linked(),
                0 <= i <= self.live@.len(),
                count == i,
                cursor == (if i < self.live@.len() {
                    Some(self.live@[i])
                } else {
                    None
                }),
            ensures
                count == self.live@.len(),
            decreases self.live@.len() - i,
        {
            match cursor {
                Some(address) => {
                    assert(self.slots@[self.live@[i] as int]->0.next() == link_of(self.live@, i));
                    match &self.slots[address] {
                        Some(cell) => {
                            cursor = cell.header.next;
                        },
                        None => {
                            cursor = None;
                        },
                    }
                    assert(self.live@.len() <= self.slots.len());
                    count += 1;
                    proof {
                        i = i + 1;
                    }
                },
                None => {
                    break ;
                },
            }
        }
        count
    }

    /// The running count of allocated bytes.
    pub fn allocated_memory(&self) -> (r: usize)
        ensures
            r == self.allocated(),
    {
        self.allocated_memory
    }

    /// The count of allocated bytes from which on an allocation collects first.
    pub fn collect_limit(&self) -> (r: usize)
        ensures
            r == self.limit(),
    {
        self.collect_limit
    }

    /// The newest live object, which is the head of the live list.
    pub fn head(&self) -> (r: Option<GcPtr<T>>)
        requires
            self.linked(),
        ensures
            r is Some == (self.live().len() > 0),
            r matches Some(p) ==> p.addr() == self.live()[0],
    {
        match self.values {
            Some(address) => Some(GcPtr { address, marker: PhantomData }),
            None => None,
        }
    }

    /// Whether the handle addresses a live object.
    pub fn is_live(&self, ptr: GcPtr<T>) -> (r: bool)
        requires
            self.linked(),
        ensures
            r == self.contains(ptr.addr()),
    {
        if ptr.address < self.slots.len() {
            let r = self.slots[ptr.address].is_some();
            proof {
                if !r && self.contains(ptr.addr()) {
                    let i = choose|i: int| 0 <= i < self.live@.len() && self.live@[i] == ptr.address;
                    assert(self.slots@[self.live@[i] as int] is Some);
                }
            }
            r
        } else {
            proof {
                if self.contains(ptr.addr()) {
                    let i = choose|i: int| 0 <= i < self.live@.len() && self.live@[i] == ptr.address;
                    assert(self.live@[i] < self.slots@.len());
                }
            }
            false
        }
    }

    /// The payload that the handle addresses.
    pub fn get(&self, ptr: GcPtr<T>) -> (r: &T)
        requires
            self.linked(),
            self.contains(ptr.addr()),
        ensures
            *r == self.payload(ptr.addr()),
    {
        proof {
            let i = choose|i: int| 0 <= i < self.live@.len() && self.live@[i] == ptr.address;
            assert(self.live@[i] < self.slots@.len() && self.slots@[self.live@[i] as int] is Some);
        }
        match &self.slots[ptr.address] {
            Some(cell) => &cell.value,
            None => vstd::pervasive::unreached(),
        }
    }

    /// The payload that the handle addresses, if it addresses a live object.
    pub fn try_get(&self, ptr: GcPtr<T>) -> (r: Option<&T>)
        requires
            self.linked(),
        ensures
            r is Some == self.contains(ptr.addr()),
            r matches Some(value) ==> *value == self.payload(ptr.addr()),
    {
        if self.is_live(ptr) {
            Some(self.get(ptr))
        } else {
            None
        }
    }

    /// The header of the object that the handle addresses, with the payload
    /// behind it.
    pub fn header(&self, ptr: GcPtr<T>) -> (r: &GcHeader<T>)
        requires
            self.linked(),
            self.contains(ptr.addr()),
        ensures
            r.payload() == self.payload(ptr.addr()),
            r.value_size() == self.value_size(ptr.addr()),
            r.marked() == self.is_marked(ptr.addr()),
            r.next() == link_of(self.live(), self.live().index_of(ptr.addr())),
            r.spec_size() == self.object_size(ptr.addr()),
            r.spec_size() <= self.allocated(),
    {
        proof {
            let live = self.live@;
            let i = live.index_of(ptr.address);
            assert(live[i] < self.slots@.len() && self.slots@[live[i] as int] is Some);
            assert(self.slots@[live[i] as int]->0.next() == link_of(live, i));
            lemma_sum_bound(self.slots@, live, i);
        }
        match &self.slots[ptr.address] {
            Some(cell) => cell,
            None => vstd::pervasive::unreached(),
        }
    }

    /// Puts `value` in the place of the payload that the handle addresses, and
    /// hands the old payload out. The object keeps its place and its size.
    pub fn replace(&mut self, ptr: GcPtr<T>, value: T) -> (r: T)
        requires
            old(self).wf(),
            old(self).contains(ptr.addr()),
        ensures
            r == old(self).payload(ptr.addr()),
            final(self).replaces(*old(self), ptr.addr(), value),
    {
        let ghost live = self.live@;
        let address: usize = ptr.address;
        proof {
            let i = choose|i: int| 0 <= i < live.len() && live[i] == address;
            assert(live[i] < self.slots@.len() && self.slots@[live[i] as int] is Some);
        }
        let mut held = value;
        match &mut self.slots[address] {
            Some(cell) => {
                core::mem::swap(cell.value(), &mut held);
            },
            None => {},
        }
        proof {
            Self::lemma_headers_kept(*old(self), *self);
            assert forall|a: usize| self.contains(a) implies !self.is_marked(a) by {
                assert(!old(self).is_marked(a));
            }
        }
        held
    }
}

impl<T: PartialEq> TypedGc<T> {
    /// Structural equality: whether the payloads that the two handles address
    /// compare equal.
    pub fn payload_eq(&self, a: GcPtr<T>, b: GcPtr<T>) -> (r: bool)
        requires
            self.linked(),
            self.contains(a.addr()),
            self.contains(b.addr()),
        ensures
            T::obeys_eq_spec() ==> r == self.payload(a.addr()).eq_spec(&self.payload(b.addr())),
    {
        *self.get(a) == *self.get(b)
    }
}

impl<T> TypedGc<T> {
    /// Reserves the slot for a new object: an unused one, or a new one at the end
    /// of the arena.
    fn reserve(&mut self) -> (address: usize)
        requires
            old(self).linked(),
        ensures
            final(self).chained(),
            final(self).live@ == old(self).live@,
            final(self).values == old(self).values,
            final(self).allocated_memory == old(self).allocated_memory,
            final(self).collect_limit == old(self).collect_limit,
            address < final(self).slots@.len(),
            !final(self).free@.contains(address),
            final(self).slots@[address as int] is None,
            final(self).free@.len() + 1 + final(self).live@.len() == final(self).slots@.len(),
            forall|a: int|
                0 <= a < old(self).slots@.len() ==> final(self).slots@[a] == old(self).slots@[a],
            old(self).slots@.len() <= final(self).slots@.len(),
    {
        match self.free.pop() {
            Some(address) => {
                proof {
                    let before = old(self).free@;
                    assert(before[before.len() - 1] == address);
                    assert(self.free@ =~= before.drop_last());
                    if self.free@.contains(address) {
                        let j = choose|j: int| 0 <= j < self.free@.len() && self.free@[j] == address;
                        assert(before[j] == before[before.len() - 1]);
                    }
                    assert forall|j: int| 0 <= j < self.free@.len() implies (#[trigger] self.free@[j])
                        < self.slots@.len() && self.slots@[self.free@[j] as int] is None by {
                        assert(self.free@[j] == before[j]);
                    }
                }
                address
            },
            None => {
                self.slots.push(None);
                let address: usize = self.slots.len() - 1;
                proof {
                    let live = self.live@;
                    assert forall|a: usize| a < self.slots@.len() && (#[trigger] self.slots@[a as int]) is Some implies live.contains(
                        a,
                    ) by {
                        assert(old(self).slots@[a as int] is Some);
                    }
                    lemma_sum_frame(old(self).slots@, self.slots@, live);
                }
                address
            },
        }
    }

    /// Allocates the object that `def` describes and links it at the head of the
    /// live list.
    pub fn allocate<D: DataDef<Value = T>>(&mut self, def: D) -> (r: GcPtr<T>)
        requires
            old(self).wf(),
            old(self).fits(def.spec_size()),
        ensures
            final(self).extends(*old(self), r.addr(), def),
    {
        let value_size: usize = def.size();
        let address: usize = self.reserve();
        let ghost reserved = *self;
        let ptr = WriteOnly { address, size: value_size, count: def.count(), marker: PhantomData };
        let ghost storage = ptr;
        let written = def.initialize(ptr);
        let cell = GcHeader {
            header: Header { next: self.values, value_size, marked: false },
            value: written.value,
        };
        let size: usize = cell.size();
        self.allocated_memory += size;
        self.slots[address] = Some(cell);
        self.values = Some(address);
        proof {
            let before = reserved.live@;
            let after = seq![address] + before;
            self.live@ = after;
            let slots = self.slots@;
            assert(slots =~= reserved.slots@.update(address as int, Some(cell)));
            assert(!before.contains(address)) by {
                if before.contains(address) {
                    let i = choose|i: int| 0 <= i < before.len() && before[i] == address;
                    assert(reserved.slots@[before[i] as int] is Some);
                }
            }
            assert forall|i: int| 0 <= i < after.len() implies (#[trigger] after[i]) < slots.len()
                && slots[after[i] as int] is Some by {
                if i > 0 {
                    assert(after[i] == before[i - 1]);
                }
            }
            assert forall|i: int, j: int| 0 <= i < after.len() && 0 <= j < after.len() && i != j implies after[i] != after[j] by {
                if i > 0 {
                    assert(after[i] == before[i - 1]);
                }
                if j > 0 {
                    assert(after[j] == before[j - 1]);
                }
            }
            assert forall|a: usize| a < slots.len() && (#[trigger] slots[a as int]) is Some implies after.contains(
                a,
            ) by {
                if a == address {
                    assert(after[0] == address);
                } else {
                    assert(reserved.slots@[a as int] is Some);
                    let i = choose|i: int| 0 <= i < before.len() && before[i] == a;
                    assert(after[i + 1] == a);
                }
            }
            assert forall|i: int| 0 <= i < after.len() implies slots[after[i] as int]->0.next()
                == #[trigger] link_of(after, i) by {
                if i == 0 {
                    assert(reserved.values == head_of(before));
                    if before.len() > 0 {
                        assert(after[1] == before[0]);
                    }
                } else {
                    assert(after[i] == before[i - 1]);
                    assert(reserved.slots@[before[i - 1] as int]->0.next() == link_of(before, i - 1));
                    if i < before.len() {
                        assert(after[i + 1] == before[i]);
                    }
                }
            }
            assert forall|j: int| 0 <= j < self.free@.len() implies (#[trigger] self.free@[j])
                < slots.len() && slots[self.free@[j] as int] is None by {
                assert(reserved.free@[j] != address);
            }
            assert(after.drop_first() =~= before);
            lemma_sum_frame(reserved.slots@, slots, before);
            assert forall|a: usize| after.contains(a) implies !self.is_marked(a) by {
                if a != address {
                    let i = choose|i: int| 0 <= i < after.len() && after[i] == a;
                    assert(after[i] == before[i - 1]);
                    assert(reserved.contains(a));
                    assert(!old(self).is_marked(a));
                }
            }
            assert forall|a: usize| old(self).contains(a) implies self.payload(a) == old(self).payload(a)
                && self.value_size(a) == old(self).value_size(a) by {
                let i = choose|i: int| 0 <= i < before.len() && before[i] == a;
                assert(before[i] < old(self).slots@.len());
            }
            assert(storage.addr() == address && storage.size() == def.spec_size()
                && storage.count() == def.spec_count() && def.initializes(
                storage,
                self.payload(address),
            ));
        }
        GcPtr { address, marker: PhantomData }
    }

    /// Whether the heap can account for one more object of `value_size` bytes.
    pub fn has_room(&self, value_size: usize) -> (r: bool)
        ensures
            r == self.fits(value_size),
    {
        match checked_value_offset::<T>() {
            Some(offset) => match offset.checked_add(value_size) {
                Some(size) => match self.allocated_memory.checked_add(size) {
                    Some(total) => total <= usize::MAX / 2,
                    None => false,
                },
                None => false,
            },
            None => false,
        }
    }

    /// Allocates as `allocate` does where the heap can account for the object,
    /// and leaves the heap as it is where it cannot.
    pub fn try_allocate<D: DataDef<Value = T>>(&mut self, def: D) -> (r: Result<GcPtr<T>, Error>)
        requires
            old(self).wf(),
        ensures
            r is Ok == old(self).fits(def.spec_size()),
            r matches Ok(ptr) ==> final(self).extends(*old(self), ptr.addr(), def),
            r is Err ==> *final(self) == *old(self),
    {
        if self.has_room(def.size()) {
            Ok(self.allocate(def))
        } else {
            Err(Error)
        }
    }
}

/// What filtering a prefix makes of one more element.
proof fn lemma_filter_step(items: Seq<usize>, keep: spec_fn(usize) -> bool, j: int)
    requires
        0 <= j < items.len(),
    ensures
        items.subrange(0, j + 1).filter(keep) == if keep(items[j]) {
            items.subrange(0, j).filter(keep).push(items[j])
        } else {
            items.subrange(0, j).filter(keep)
        },
{
    reveal(Seq::filter);
    assert(items.subrange(0, j + 1).drop_last() =~= items.subrange(0, j));
}

impl<T> TypedGc<T> {
    /// Takes the object at `address` out of its slot and its bytes off the count.
    fn free(&mut self, address: usize)
        requires
            address < old(self).slots@.len(),
            old(self).slots@[address as int] is Some,
            old(self).slots@[address as int]->0.spec_size() <= old(self).allocated_memory,
        ensures
            final(self).slots@ == old(self).slots@.update(address as int, None),
            final(self).free@ == old(self).free@.push(address),
            final(self).allocated_memory == old(self).allocated_memory - old(self).slots@[address as int]->0.spec_size(),
            final(self).values == old(self).values,
            final(self).collect_limit == old(self).collect_limit,
            final(self).live@ == old(self).live@,
    {
        let mut cell: Option<GcHeader<T>> = None;
        core::mem::swap(&mut self.slots[address], &mut cell);
        if let Some(ref ptr) = cell {
            self.allocated_memory -= ptr.size();
        }
        self.free.push(address);
    }

    /// Reads the header of the live object at `address`: its link and its mark
    /// bit.
    fn header_at(&self, address: usize, Ghost(pos): Ghost<int>) -> (r: (Option<usize>, bool))
        requires
            self.linked(),
            0 <= pos < self.live@.len(),
            self.live@[pos] == address,
        ensures
            r.0 == link_of(self.live@, pos),
            r.1 == self.is_marked(address),
    {
        proof {
            assert(self.live@[pos] < self.slots@.len() && self.slots@[self.live@[pos] as int] is Some);
            assert(self.slots@[self.live@[pos] as int]->0.next() == link_of(self.live@, pos));
        }
        match &self.slots[address] {
            Some(cell) => (cell.header.next, cell.header.marked),
            None => (None, false),
        }
    }

    /// Clears the mark bit of the live object at `address`.
    fn clear_mark(&mut self, address: usize, Ghost(pos): Ghost<int>)
        requires
            old(self).linked(),
            0 <= pos < old(self).live@.len(),
            old(self).live@[pos] == address,
        ensures
            final(self).linked(),
            final(self).live@ == old(self).live@,
            final(self).collect_limit == old(self).collect_limit,
            final(self).allocated_memory == old(self).allocated_memory,
            !final(self).is_marked(address),
            forall|a: usize|
                a != address && old(self).live@.contains(a) ==> final(self).is_marked(a) == old(self).is_marked(a),
            forall|a: usize|
                old(self).live@.contains(a) ==> final(self).payload(a) == old(self).payload(a)
                    && final(self).value_size(a) == old(self).value_size(a),
    {
        let ghost live = self.live@;
        proof {
            assert(live[pos] < self.slots@.len() && self.slots@[live[pos] as int] is Some);
        }
        match &mut self.slots[address] {
            Some(cell) => {
                cell.header.marked = false;
            },
            None => {},
        }
        proof {
            Self::lemma_headers_kept(*old(self), *self);
        }
    }

    /// Points the link in front of position `pos` of the live list at `next`: the
    /// head of the list, or the link of the object before.
    fn relink(&mut self, previous: Option<usize>, next: Option<usize>, Ghost(pos): Ghost<int>)
        requires
            old(self).linked(),
            0 <= pos < old(self).live@.len(),
            previous == (if pos > 0 {
                Some(old(self).live@[pos - 1])
            } else {
                None
            }),
        ensures
            final(self).slots@.len() == old(self).slots@.len(),
            final(self).free@ == old(self).free@,
            final(self).live@ == old(self).live@,
            final(self).allocated_memory == old(self).allocated_memory,
            final(self).collect_limit == old(self).collect_limit,
            pos == 0 ==> final(self).values == next && final(self).slots@ == old(self).slots@,
            pos > 0 ==> {
                let before = old(self).live@[pos - 1] as int;
                &&& final(self).values == old(self).values
                &&& final(self).slots@[before] is Some
                &&& final(self).slots@[before]->0.next() == next
                &&& final(self).slots@[before]->0.payload() == old(self).slots@[before]->0.payload()
                &&& final(self).slots@[before]->0.value_size() == old(self).slots@[before]->0.value_size()
                &&& final(self).slots@[before]->0.marked() == old(self).slots@[before]->0.marked()
                &&& forall|a: int|
                    0 <= a < old(self).slots@.len() && a != before ==> final(self).slots@[a] == old(self).slots@[a]
            },
    {
        match previous {
            Some(before) => {
                proof {
                    assert(self.live@[pos - 1] < self.slots@.len() && self.slots@[self.live@[pos - 1] as int] is Some);
                }
                match &mut self.slots[before] {
                    Some(cell) => {
                        cell.header.next = next;
                    },
                    None => {},
                }
            },
            None => {
                self.values = next;
            },
        }
    }

    /// Takes the object at position `pos` of the live list off the list and frees
    /// it.
    fn unlink(&mut self, previous: Option<usize>, address: usize, Ghost(pos): Ghost<int>)
        requires
            old(self).linked(),
            0 <= pos < old(self).live@.len(),
            old(self).live@[pos] == address,
            previous == (if pos > 0 {
                Some(old(self).live@[pos - 1])
            } else {
                None
            }),
        ensures
            final(self).linked(),
            final(self).live@ == old(self).live@.remove(pos),
            final(self).collect_limit == old(self).collect_limit,
            final(self).allocated_memory <= old(self).allocated_memory,
            forall|a: usize|
                a != address && old(self).live@.contains(a) ==> final(self).is_marked(a) == old(self).is_marked(a)
                    && final(self).payload(a) == old(self).payload(a) && final(self).value_size(a)
                    == old(self).value_size(a),
    {
        let ghost live = self.live@;
        let (next, _) = self.header_at(address, Ghost(pos));
        proof {
            assert(live[pos] < self.slots@.len() && self.slots@[live[pos] as int] is Some);
            lemma_sum_bound(self.slots@, live, pos);
            if pos > 0 {
                assert(live[pos - 1] < self.slots@.len() && self.slots@[live[pos - 1] as int] is Some);
            }
        }
        self.relink(previous, next, Ghost(pos));
        let ghost relinked = *self;
        proof {
            lemma_sum_frame(old(self).slots@, self.slots@, live);
            lemma_sum_remove(self.slots@, live, pos);
        }
        self.free(address);
        proof {
            let rest = live.remove(pos);
            self.live@ = rest;
            Self::lemma_unlinked(*old(self), relinked, *self, pos);
        }
    }

    /// The heap is well linked again once the object at position `pos` has been
    /// bypassed and freed.
    proof fn lemma_unlinked(start: Self, relinked: Self, end: Self, pos: int)
        requires
            start.linked(),
            0 <= pos < start.live@.len(),
            relinked.slots@.len() == start.slots@.len(),
            relinked.free@ == start.free@,
            relinked.live@ == start.live@,
            relinked.allocated_memory == start.allocated_memory,
            pos == 0 ==> relinked.values == link_of(start.live@, pos) && relinked.slots@ == start.slots@,
            pos > 0 ==> {
                let before = start.live@[pos - 1] as int;
                &&& relinked.values == start.values
                &&& relinked.slots@[before] is Some
                &&& relinked.slots@[before]->0.next() == link_of(start.live@, pos)
                &&& relinked.slots@[before]->0.value_size() == start.slots@[before]->0.value_size()
                &&& forall|a: int|
                    0 <= a < start.slots@.len() && a != before ==> relinked.slots@[a] == start.slots@[a]
            },
            end.slots@ == relinked.slots@.update(start.live@[pos] as int, None),
            end.free@ == relinked.free@.push(start.live@[pos]),
            end.allocated_memory == relinked.allocated_memory - relinked.slots@[start.live@[pos] as int]->0.spec_size(),
            end.values == relinked.values,
            end.live@ == start.live@.remove(pos),
            sum_sizes(relinked.slots@, start.live@) == start.allocated_memory,
        ensures
            end.linked(),
    {
        let live = start.live@;
        let rest = end.live@;
        let address = live[pos];
        let slots = end.slots@;
        assert(live[pos] < start.slots@.len() && start.slots@[live[pos] as int] is Some);
        assert forall|i: int| 0 <= i < rest.len() implies rest[i] == live[if i < pos { i } else { i + 1 }] by {}
        assert forall|i: int| 0 <= i < rest.len() implies (#[trigger] rest[i]) < slots.len()
            && slots[rest[i] as int] is Some && rest[i] != address by {
            let i0 = if i < pos { i } else { i + 1 };
            assert(rest[i] == live[i0]);
            assert(live[i0] < start.slots@.len() && start.slots@[live[i0] as int] is Some);
        }
        assert(rest.no_duplicates()) by {
            assert forall|x: int, y: int| 0 <= x < rest.len() && 0 <= y < rest.len() && x != y implies rest[x] != rest[y] by {
                let x0 = if x < pos { x } else { x + 1 };
                let y0 = if y < pos { y } else { y + 1 };
                assert(rest[x] == live[x0] && rest[y] == live[y0]);
            }
        }
        assert forall|a: usize| a < slots.len() && (#[trigger] slots[a as int]) is Some implies rest.contains(
            a,
        ) by {
            assert(a != address);
            assert(start.slots@[a as int] is Some);
            let i = choose|i: int| 0 <= i < live.len() && live[i] == a;
            if i < pos {
                assert(rest[i] == a);
            } else {
                assert(i != pos);
                assert(rest[i - 1] == a);
            }
        }
        assert forall|i: int| 0 <= i < rest.len() implies slots[rest[i] as int]->0.next()
            == #[trigger] link_of(rest, i) by {
            if i < pos - 1 {
                assert(rest[i] == live[i]);
                assert(rest[i + 1] == live[i + 1]);
                assert(start.slots@[live[i] as int]->0.next() == link_of(live, i));
                assert(live[i] != live[pos - 1]);
            } else if i == pos - 1 {
                assert(rest[i] == live[i]);
                if pos < rest.len() {
                    assert(rest[pos] == live[pos + 1]);
                }
            } else {
                assert(rest[i] == live[i + 1]);
                assert(start.slots@[live[i + 1] as int]->0.next() == link_of(live, i + 1));
                if pos > 0 {
                    assert(live[i + 1] != live[pos - 1]);
                }
                if i + 1 < rest.len() {
                    assert(rest[i + 1] == live[i + 2]);
                }
            }
        }
        assert(end.values == head_of(rest)) by {
            if pos > 0 {
                assert(rest[0] == live[0]);
            } else if rest.len() > 0 {
                assert(rest[0] == live[1]);
            }
        }
        assert(end.free@.no_duplicates()) by {
            assert forall|x: int, y: int| 0 <= x < end.free@.len() && 0 <= y < end.free@.len() && x != y implies end.free@[x] != end.free@[y] by {
                if x == end.free@.len() - 1 {
                    assert(start.slots@[start.free@[y] as int] is None);
                }
                if y == end.free@.len() - 1 {
                    assert(start.slots@[start.free@[x] as int] is None);
                }
            }
        }
        assert forall|k: int| 0 <= k < end.free@.len() implies (#[trigger] end.free@[k]) < slots.len()
            && slots[end.free@[k] as int] is None by {
            if k < start.free@.len() {
                assert(start.free@[k] < start.slots@.len() && start.slots@[start.free@[k] as int] is None);
                if pos > 0 {
                    assert(start.slots@[live[pos - 1] as int] is Some);
                }
            }
        }
        assert forall|i: int| 0 <= i < rest.len() implies relinked.slots@[#[trigger] rest[i] as int]->0.spec_size()
            == slots[rest[i] as int]->0.spec_size() by {
            assert(rest[i] != address);
        }
        lemma_sum_frame(relinked.slots@, slots, rest);
        lemma_sum_remove(relinked.slots@, live, pos);
    }

    /// Frees every object whose mark bit is unset and clears the mark bit of
    /// every other one. The survivors keep their order on the live list.
    pub fn sweep(&mut self)
        requires
            old(self).linked(),
        ensures
            final(self).wf(),
            final(self).live() == old(self).live().filter(old(self).marked_in()),
            forall|a: usize|
                final(self).contains(a) ==> final(self).payload(a) == old(self).payload(a)
                    && final(self).value_size(a) == old(self).value_size(a),
            final(self).limit() == old(self).limit(),
            final(self).allocated() <= old(self).allocated(),
    {
        let ghost start = *self;
        let ghost all = self.live@;
        let ghost keep = self.marked_in();
        let ghost mut j: int = 0;
        let ghost mut kept: Seq<usize> = Seq::empty();
        let mut previous: Option<usize> = None;
        let mut cursor: Option<usize> = self.values;
        proof {
            reveal(Seq::filter);
            assert(all.subrange(0, 0) =~= Seq::<usize>::empty());
            assert(kept + all.subrange(0, all.len() as int) =~= all);
        }
        loop
            invariant
                start.linked(),
                all == start.live@,
                keep == start.marked_in(),
                self.linked(),
                0 <= j <= all.len(),
                self.live@ == kept + all.subrange(j, all.len() as int),
                kept == all.subrange(0, j).filter(keep),
                cursor == (if j < all.len() {
                    Some(all[j])
                } else {
                    None
                }),
                previous == (if kept.len() > 0 {
                    Some(kept.last())
                } else {
                    None
                }),
                forall|i: int| 0 <= i < kept.len() ==> !self.is_marked(#[trigger] kept[i]),
                forall|i: int| j <= i < all.len() ==> self.is_marked(#[trigger] all[i]) == start.is_marked(all[i]),
                forall|a: usize|
                    self.live@.contains(a) ==> self.payload(a) == start.payload(a)
                        && self.value_size(a) == start.value_size(a),
                self.collect_limit == start.collect_limit,
                self.allocated_memory <= start.allocated_memory,
            ensures
                self.linked(),
                self.allocated_memory <= start.allocated_memory,
                self.live@ == all.filter(keep),
                forall|i: int| 0 <= i < self.live@.len() ==> !self.is_marked(#[trigger] self.live@[i]),
                forall|a: usize|
                    self.live@.contains(a) ==> self.payload(a) == start.payload(a)
                        && self.value_size(a) == start.value_size(a),
                self.collect_limit == start.collect_limit,
            decreases all.len() - j,
        {
            let address: usize = match cursor {
                Some(address) => address,
                None => {
                    proof {
                        assert(all.subrange(0, j) =~= all);
                        assert(kept + all.subrange(j, all.len() as int) =~= kept);
                    }
                    break ;
                },
            };
            let ghost here = *self;
            let ghost live = self.live@;
            let ghost pos = kept.len() as int;
            proof {
                assert(live[pos] == all[j]);
                if j + 1 < all.len() {
                    assert(live[pos + 1] == all[j + 1]);
                }
                lemma_filter_step(all, keep, j);
                assert(all.no_duplicates());
            }
            let (next, marked) = self.header_at(address, Ghost(pos));
            if marked {
                self.clear_mark(address, Ghost(pos));
                proof {
                    let more = kept.push(address);
                    assert(more + all.subrange(j + 1, all.len() as int) =~= live);
                    assert forall|i: int| 0 <= i < more.len() implies !self.is_marked(#[trigger] more[i]) by {
                        if i < kept.len() {
                            assert(live[i] == kept[i]);
                            assert(!here.is_marked(kept[i]));
                        }
                    }
                    assert forall|i: int| j + 1 <= i < all.len() implies self.is_marked(#[trigger] all[i])
                        == start.is_marked(all[i]) by {
                        assert(live[pos + (i - j)] == all[i]);
                        assert(here.is_marked(all[i]) == start.is_marked(all[i]));
                    }
                    kept = more;
                    j = j + 1;
                }
                previous = Some(address);
            } else {
                proof {
                    if pos > 0 {
                        assert(live[pos - 1] == kept[pos - 1]);
                    }
                }
                self.unlink(previous, address, Ghost(pos));
                proof {
                    let rest = kept + all.subrange(j + 1, all.len() as int);
                    assert(rest =~= live.remove(pos));
                    assert forall|i: int| 0 <= i < kept.len() implies kept[i] != address by {
                        assert(live[i] == kept[i]);
                    }
                    assert forall|a: usize| rest.contains(a) implies live.contains(a) && a != address by {
                        let i = choose|i: int| 0 <= i < rest.len() && rest[i] == a;
                        if i < pos {
                            assert(rest[i] == live[i]);
                        } else {
                            assert(rest[i] == live[i + 1]);
                        }
                    }
                    assert forall|i: int| 0 <= i < kept.len() implies !self.is_marked(#[trigger] kept[i]) by {
                        assert(rest[i] == kept[i]);
                        assert(!here.is_marked(kept[i]));
                    }
                    assert forall|i: int| j + 1 <= i < all.len() implies self.is_marked(#[trigger] all[i])
                        == start.is_marked(all[i]) by {
                        assert(rest[pos + (i - j - 1)] == all[i]);
                        assert(here.is_marked(all[i]) == start.is_marked(all[i]));
                    }
                    j = j + 1;
                }
            }
            cursor = next;
        }
        proof {
            assert forall|a: usize| self.contains(a) implies !self.is_marked(a) by {
                let i = choose|i: int| 0 <= i < self.live@.len() && self.live@[i] == a;
                assert(!self.is_marked(self.live@[i]));
            }
        }
    }
}

/// Two predicates that agree on the elements of a sequence filter it alike.
proof fn lemma_filter_agree(items: Seq<usize>, p: spec_fn(usize) -> bool, q: spec_fn(usize) -> bool)
    requires
        forall|i: int| 0 <= i < items.len() ==> p(#[trigger] items[i]) == q(items[i]),
    ensures
        items.filter(p) == items.filter(q),
    decreases items.len(),
{
    reveal(Seq::filter);
    if items.len() > 0 {
        let front = items.drop_last();
        assert forall|i: int| 0 <= i < front.len() implies p(#[trigger] front[i]) == q(front[i]) by {
            assert(front[i] == items[i]);
        }
        lemma_filter_agree(front, p, q);
        assert(p(items[items.len() - 1]) == q(items[items.len() - 1]));
    }
}

impl<T: Traverseable> TypedGc<T> {
    /// Whether `self` is what a collection with the given roots leaves of
    /// `before`: the objects that the roots reach, in the order they had and
    /// with the payloads they had, with no mark bit set, and a limit of twice
    /// their bytes.
    pub open spec fn collects(&self, before: Self, roots: Set<usize>) -> bool {
        &&& self.wf()
        &&& self.live() == before.live().filter(before.reachable_from(roots))
        &&& forall|a: usize| self.contains(a) <==> before.contains(a) && before.reachable(roots, a)
        &&& forall|a: usize|
            #![trigger self.payload(a)]
            #![trigger self.value_size(a)]
            self.contains(a) ==> self.payload(a) == before.payload(a) && self.value_size(a)
                == before.value_size(a)
        &&& self.allocated() == self.live_bytes()
        &&& self.allocated() <= before.allocated()
        &&& self.limit() == 2 * self.allocated()
    }

    /// Whether `self` is what an allocation of the object that `def` describes
    /// makes of `before`, at `address`, after a collection with the given roots
    /// where the count of allocated bytes had reached the limit.
    pub open spec fn collects_and_extends<D: DataDef<Value = T>>(
        &self,
        before: Self,
        roots: Set<usize>,
        address: usize,
        def: D,
    ) -> bool {
        let collects = before.allocated() >= before.limit();
        let kept = if collects {
            before.live().filter(before.reachable_from(roots))
        } else {
            before.live()
        };
        &&& self.wf()
        &&& self.live() == seq![address] + kept
        &&& !kept.contains(address)
        &&& forall|a: usize|
            #![trigger self.payload(a)]
            #![trigger self.value_size(a)]
            self.contains(a) && a != address ==> self.payload(a) == before.payload(a)
                && self.value_size(a) == before.value_size(a)
        &&& self.constructed(address, def)
        &&& self.allocated() == self.live_bytes()
        &&& self.limit() == if collects {
            2 * (self.allocated() - payload_offset::<T>() - def.spec_size())
        } else {
            before.limit() as int
        }
    }

    /// Whether `path` leads from a root through live objects, each holding a
    /// handle to the next.
    pub open spec fn is_path(&self, roots: Set<usize>, path: Seq<usize>) -> bool {
        &&& path.len() > 0
        &&& roots.contains(path[0])
        &&& forall|i: int| 0 <= i < path.len() ==> self.contains(#[trigger] path[i])
        &&& forall|i: int|
            0 <= i < path.len() - 1 ==> self.payload(#[trigger] path[i]).pointers().contains(
                path[i + 1],
            )
    }

    /// Whether the live object at `address` can be reached from the roots.
    pub open spec fn reachable(&self, roots: Set<usize>, address: usize) -> bool {
        exists|path: Seq<usize>| self.is_path(roots, path) && path.last() == address
    }

    /// The objects that can be reached from the roots.
    pub open spec fn reachable_from(&self, roots: Set<usize>) -> spec_fn(usize) -> bool {
        |a: usize| self.reachable(roots, a)
    }

    /// A live object that a root addresses is reachable.
    pub proof fn lemma_root_reachable(&self, roots: Set<usize>, address: usize)
        requires
            roots.contains(address),
            self.contains(address),
        ensures
            self.reachable(roots, address),
    {
        let path = seq![address];
        assert(self.is_path(roots, path) && path.last() == address);
    }

    /// A live object to which a reachable object holds a handle is reachable.
    pub proof fn lemma_step_reachable(&self, roots: Set<usize>, from: usize, to: usize)
        requires
            self.reachable(roots, from),
            self.payload(from).pointers().contains(to),
            self.contains(to),
        ensures
            self.reachable(roots, to),
    {
        let path = choose|path: Seq<usize>| self.is_path(roots, path) && path.last() == from;
        let longer = path.push(to);
        assert forall|i: int| 0 <= i < longer.len() implies self.contains(#[trigger] longer[i]) by {
            if i < path.len() {
                assert(longer[i] == path[i]);
            }
        }
        assert forall|i: int| 0 <= i < longer.len() - 1 implies self.payload(#[trigger] longer[i]).pointers().contains(
            longer[i + 1],
        ) by {
            assert(longer[i] == path[i]);
            if i < path.len() - 1 {
                assert(longer[i + 1] == path[i + 1]);
            }
        }
        assert(longer[0] == path[0]);
        assert(self.is_path(roots, longer) && longer.last() == to);
    }

    /// A set that holds the live roots and, with an object, the live objects it
    /// holds handles to, holds the end of every path.
    proof fn lemma_closed(&self, roots: Set<usize>, closed: Set<usize>, path: Seq<usize>)
        requires
            self.is_path(roots, path),
            forall|a: usize| roots.contains(a) && self.contains(a) ==> closed.contains(a),
            forall|m: usize, b: usize|
                closed.contains(m) && #[trigger] self.payload(m).pointers().contains(b)
                    && self.contains(b) ==> closed.contains(b),
        ensures
            closed.contains(path.last()),
        decreases path.len(),
    {
        if path.len() == 1 {
            assert(self.contains(path[0]));
        } else {
            let front = path.drop_last();
            assert forall|i: int| 0 <= i < front.len() implies self.contains(#[trigger] front[i]) by {
                assert(front[i] == path[i]);
            }
            assert forall|i: int| 0 <= i < front.len() - 1 implies self.payload(#[trigger] front[i]).pointers().contains(
                front[i + 1],
            ) by {
                assert(front[i] == path[i]);
                assert(front[i + 1] == path[i + 1]);
            }
            assert(front[0] == path[0]);
            self.lemma_closed(roots, closed, front);
            let m = path[path.len() - 2];
            assert(front.last() == m);
            assert(self.payload(path[path.len() - 2]).pointers().contains(path[path.len() - 2 + 1]));
            assert(self.contains(path[path.len() - 1]));
        }
    }

    /// Sets the mark bit of the object at `address`, if there is a live one, and
    /// says whether it was set before.
    fn mark_at(&mut self, address: usize) -> (r: Option<bool>)
        requires
            old(self).linked(),
        ensures
            final(self).linked(),
            final(self).live@ == old(self).live@,
            final(self).collect_limit == old(self).collect_limit,
            final(self).allocated_memory == old(self).allocated_memory,
            r is Some == old(self).contains(address),
            r matches Some(was) ==> was == old(self).is_marked(address) && final(self).is_marked(address),
            forall|a: usize|
                a != address && old(self).contains(a) ==> final(self).is_marked(a) == old(self).is_marked(a),
            forall|a: usize|
                old(self).contains(a) ==> final(self).payload(a) == old(self).payload(a)
                    && final(self).value_size(a) == old(self).value_size(a),
    {
        let ghost live = self.live@;
        if address >= self.slots.len() {
            proof {
                if live.contains(address) {
                    let i = choose|i: int| 0 <= i < live.len() && live[i] == address;
                    assert(live[i] < self.slots@.len());
                }
            }
            return None;
        }
        let r = match &mut self.slots[address] {
            Some(cell) => Some(cell.mark_header()),
            None => None,
        };
        proof {
            if r is None && live.contains(address) {
                let i = choose|i: int| 0 <= i < live.len() && live[i] == address;
                assert(old(self).slots@[live[i] as int] is Some);
            }
            Self::lemma_headers_kept(*old(self), *self);
        }
        r
    }

    /// The mark pass: sets the mark bit of every live object that can be reached
    /// from `roots`, and of no other.
    ///
    /// An object is traversed when its mark bit is set for the first time, and
    /// never again, so that cycles among the objects end the pass like any other
    /// graph. A handle that addresses no live object is passed over.
    pub fn mark<R: Traverseable>(&mut self, roots: &R)
        requires
            old(self).wf(),
        ensures
            final(self).linked(),
            final(self).live() == old(self).live(),
            final(self).limit() == old(self).limit(),
            final(self).allocated() == old(self).allocated(),
            forall|a: usize|
                old(self).contains(a) ==> final(self).payload(a) == old(self).payload(a)
                    && final(self).value_size(a) == old(self).value_size(a),
            forall|a: usize|
                old(self).contains(a) ==> final(self).is_marked(a) == old(self).reachable(
                    roots.pointers(),
                    a,
                ),
    {
        let ghost start = *self;
        let ghost from = roots.pointers();
        let ghost mut done: Set<usize> = Set::empty();
        let mut tracer = Tracer::new();
        roots.traverse(&mut tracer);
        proof {
            assert(tracer@ =~= from);
            assert forall|a: usize| tracer@.contains(a) && start.contains(a) implies start.reachable(
                from,
                a,
            ) by {
                start.lemma_root_reachable(from, a);
            }
            start.live@.unique_seq_to_set();
        }
        loop
            invariant
                start.wf(),
                self.linked(),
                self.live@ == start.live@,
                self.collect_limit == start.collect_limit,
                self.allocated_memory == start.allocated_memory,
                from == roots.pointers(),
                forall|a: usize|
                    start.contains(a) ==> self.payload(a) == start.payload(a) && self.value_size(a)
                        == start.value_size(a),
                done.finite(),
                done.subset_of(start.live@.to_set()),
                done.len() <= start.live@.len(),
                start.live@.to_set().len() == start.live@.len(),
                forall|a: usize| start.contains(a) ==> (self.is_marked(a) <==> done.contains(a)),
                forall|a: usize| done.contains(a) ==> start.reachable(from, a),
                forall|a: usize| tracer@.contains(a) && start.contains(a) ==> start.reachable(from, a),
                forall|a: usize|
                    from.contains(a) && start.contains(a) ==> done.contains(a) || tracer@.contains(a),
                forall|m: usize, b: usize|
                    done.contains(m) && #[trigger] start.payload(m).pointers().contains(b)
                        && start.contains(b) ==> done.contains(b) || tracer@.contains(b),
            ensures
                self.linked(),
                self.live@ == start.live@,
                self.collect_limit == start.collect_limit,
                self.allocated_memory == start.allocated_memory,
                forall|a: usize|
                    start.contains(a) ==> self.payload(a) == start.payload(a) && self.value_size(a)
                        == start.value_size(a),
                forall|a: usize| start.contains(a) ==> (self.is_marked(a) <==> done.contains(a)),
                forall|a: usize| done.contains(a) ==> start.reachable(from, a),
                forall|a: usize| from.contains(a) && start.contains(a) ==> done.contains(a),
                forall|m: usize, b: usize|
                    done.contains(m) && #[trigger] start.payload(m).pointers().contains(b)
                        && start.contains(b) ==> done.contains(b),
            decreases start.live@.len() - done.len(), tracer.count(),
        {
            let address: usize = match tracer.next() {
                Some(address) => address,
                None => {
                    break ;
                },
            };
            let ghost waiting = tracer@;
            match self.mark_at(address) {
                Some(false) => {
                    let payload = self.get(GcPtr { address, marker: PhantomData });
                    payload.traverse(&mut tracer);
                    proof {
                        let more = done.insert(address);
                        assert(start.live@.to_set().contains(address));
                        vstd::set_lib::lemma_len_subset(more, start.live@.to_set());
                        assert forall|m: usize, b: usize|
                            more.contains(m) && #[trigger] start.payload(m).pointers().contains(b)
                                && start.contains(b) implies more.contains(b) || tracer@.contains(
                            b,
                        ) by {
                            if m != address {
                                assert(done.contains(b) || waiting.contains(b) || b == address);
                            }
                        }
                        assert forall|a: usize| tracer@.contains(a) && start.contains(a) implies start.reachable(
                            from,
                            a,
                        ) by {
                            if !waiting.contains(a) {
                                start.lemma_step_reachable(from, address, a);
                            }
                        }
                        done = more;
                    }
                },
                _ => {},
            }
        }
        proof {
            assert forall|a: usize| old(self).contains(a) implies self.is_marked(a) == old(self).reachable(
                roots.pointers(),
                a,
            ) by {
                assert(start.contains(a));
                assert(self.is_marked(a) <==> done.contains(a));
                if start.reachable(from, a) {
                    let path = choose|path: Seq<usize>| start.is_path(from, path) && path.last() == a;
                    start.lemma_closed(from, done, path);
                    assert(done.contains(a));
                }
                if done.contains(a) {
                    assert(start.reachable(from, a));
                }
            }
        }
    }

    /// A mark-and-sweep collection: every live object that cannot be reached from
    /// `roots` is freed, every other one is left as it is, and the limit for the
    /// next collection becomes twice the bytes that are left.
    pub fn collect<R: Traverseable>(&mut self, roots: R)
        requires
            old(self).wf(),
        ensures
            final(self).collects(*old(self), roots.pointers()),
    {
        self.mark(&roots);
        let ghost marked = *self;
        self.sweep();
        let ghost swept = *self;
        self.collect_limit = 2 * self.allocated_memory;
        proof {
            assert(self.linked());
            self.lemma_allocated();
            assert forall|a: usize| self.contains(a) implies !self.is_marked(a) by {
                assert(swept.contains(a));
                assert(!swept.is_marked(a));
            }
            let all = old(self).live();
            let keep = old(self).reachable_from(roots.pointers());
            assert forall|i: int| 0 <= i < all.len() implies (marked.marked_in())(#[trigger] all[i])
                == keep(all[i]) by {
                assert(old(self).contains(all[i]));
            }
            lemma_filter_agree(all, marked.marked_in(), keep);
            assert forall|a: usize| self.contains(a) <==> old(self).contains(a) && old(self).reachable(
                roots.pointers(),
                a,
            ) by {
                if self.contains(a) {
                    all.lemma_filter_contains_rev(keep, a);
                    let i = choose|i: int| 0 <= i < all.filter(keep).len() && all.filter(keep)[i] == a;
                    all.lemma_filter_pred(keep, i);
                }
                if old(self).contains(a) && old(self).reachable(roots.pointers(), a) {
                    let i = choose|i: int| 0 <= i < all.len() && all[i] == a;
                    all.lemma_filter_contains(keep, i);
                }
            }
        }
    }

    /// Allocates the object that `def` describes, after a collection where the
    /// count of allocated bytes has reached the limit. The roots of that
    /// collection are `roots` and the handles that `def` itself holds.
    pub fn alloc_and_collect<R: Traverseable, D: DataDef<Value = T> + Traverseable>(
        &mut self,
        roots: R,
        def: D,
    ) -> (r: GcPtr<T>)
        requires
            old(self).wf(),
            old(self).fits(def.spec_size()),
        ensures
            final(self).collects_and_extends(
                *old(self),
                roots.pointers().union(def.pointers()),
                r.addr(),
                def,
            ),
    {
        if self.allocated_memory >= self.collect_limit {
            self.collect((roots, &def));
        }
        let ghost collected = *self;
        let r = self.allocate(def);
        proof {
            self.lemma_allocated();
            let kept = collected.live();
            assert forall|a: usize| self.contains(a) && a != r.addr() implies self.payload(a) == old(
                self,
            ).payload(a) && self.value_size(a) == old(self).value_size(a) by {
                let i = choose|i: int| 0 <= i < self.live().len() && self.live()[i] == a;
                assert(kept[i - 1] == a);
                assert(collected.contains(a));
                assert(self.payload(a) == collected.payload(a));
            }
        }
        r
    }

    /// What the roots of an allocation reach is alive afterwards, as it was:
    /// the new object may hold handles to it.
    pub proof fn lemma_reach_kept<D: DataDef<Value = T>>(
        before: Self,
        after: Self,
        roots: Set<usize>,
        address: usize,
        def: D,
        reached: usize,
    )
        requires
            after.collects_and_extends(before, roots, address, def),
            before.contains(reached),
            before.reachable(roots, reached),
        ensures
            after.contains(reached),
            reached != address,
            after.payload(reached) == before.payload(reached),
            after.value_size(reached) == before.value_size(reached),
    {
        let all = before.live();
        let i = choose|i: int| 0 <= i < all.len() && all[i] == reached;
        let kept = if before.allocated() >= before.limit() {
            all.filter(before.reachable_from(roots))
        } else {
            all
        };
        if before.allocated() >= before.limit() {
            all.lemma_filter_contains(before.reachable_from(roots), i);
        }
        assert(kept.contains(reached));
        let k = choose|k: int| 0 <= k < kept.len() && kept[k] == reached;
        assert(after.live()[k + 1] == reached);
    }

    /// A live object that a root addresses survives the collection, and so does
    /// every live object that a survivor holds a handle to.
    pub proof fn lemma_roots_survive(before: Self, after: Self, roots: Set<usize>, address: usize)
        requires
            after.collects(before, roots),
            before.contains(address),
            roots.contains(address) || exists|from: usize|
                after.contains(from) && #[trigger] before.payload(from).pointers().contains(address),
        ensures
            after.contains(address),
            after.payload(address) == before.payload(address),
    {
        if roots.contains(address) {
            before.lemma_root_reachable(roots, address);
        } else {
            let from = choose|from: usize|
                after.contains(from) && #[trigger] before.payload(from).pointers().contains(address);
            before.lemma_step_reachable(roots, from, address);
        }
    }

    /// A collection keeps a cycle of handles whole where the roots reach one of
    /// its members, and frees all of it where they reach none.
    pub proof fn lemma_cycle(before: Self, after: Self, roots: Set<usize>, cycle: Seq<usize>)
        requires
            cycle.len() > 0,
            forall|k: int| 0 <= k < cycle.len() ==> before.contains(#[trigger] cycle[k]),
            forall|k: int|
                0 <= k < cycle.len() ==> before.payload(#[trigger] cycle[k]).pointers().contains(
                    cycle[(k + 1) % (cycle.len() as int)],
                ),
            forall|a: usize|
                after.contains(a) <==> before.contains(a) && before.reachable(roots, a),
        ensures
            (exists|k: int| 0 <= k < cycle.len() && before.reachable(roots, #[trigger] cycle[k]))
                ==> (forall|k: int| 0 <= k < cycle.len() ==> after.contains(#[trigger] cycle[k])),
            !(exists|k: int| 0 <= k < cycle.len() && before.reachable(roots, #[trigger] cycle[k]))
                ==> (forall|k: int| 0 <= k < cycle.len() ==> !after.contains(#[trigger] cycle[k])),
    {
        if exists|k: int| 0 <= k < cycle.len() && before.reachable(roots, #[trigger] cycle[k]) {
            let k0 = choose|k: int| 0 <= k < cycle.len() && before.reachable(roots, #[trigger] cycle[k]);
            assert forall|k: int| 0 <= k < cycle.len() implies after.contains(#[trigger] cycle[k]) by {
                let n = cycle.len() as int;
                let steps = if k >= k0 { k - k0 } else { k - k0 + n };
                before.lemma_around(roots, cycle, k0, steps as nat);
                assert((k0 + steps) % n == k) by {
                    if k >= k0 {
                        vstd::arithmetic::div_mod::lemma_small_mod(k as nat, n as nat);
                    } else {
                        vstd::arithmetic::div_mod::lemma_mod_add_multiples_vanish(k, n);
                        vstd::arithmetic::div_mod::lemma_small_mod(k as nat, n as nat);
                    }
                }
            }
        }
    }

    /// Going round a cycle from a reachable member reaches every member.
    proof fn lemma_around(&self, roots: Set<usize>, cycle: Seq<usize>, from: int, steps: nat)
        requires
            cycle.len() > 0,
            0 <= from < cycle.len(),
            self.reachable(roots, cycle[from]),
            forall|k: int| 0 <= k < cycle.len() ==> self.contains(#[trigger] cycle[k]),
            forall|k: int|
                0 <= k < cycle.len() ==> self.payload(#[trigger] cycle[k]).pointers().contains(
                    cycle[(k + 1) % (cycle.len() as int)],
                ),
        ensures
            self.reachable(roots, cycle[(from + steps) % (cycle.len() as int)]),
        decreases steps,
    {
        let n = cycle.len() as int;
        if steps == 0 {
            vstd::arithmetic::div_mod::lemma_small_mod(from as nat, n as nat);
        } else {
            self.lemma_around(roots, cycle, from, (steps - 1) as nat);
            let at = (from + steps - 1) % n;
            vstd::arithmetic::div_mod::lemma_mod_bound(from + steps - 1, n);
            assert(self.payload(cycle[at]).pointers().contains(cycle[(at + 1) % n]));
            assert((at + 1) % n == (from + steps) % n) by {
                vstd::arithmetic::div_mod::lemma_add_mod_noop(from + steps - 1, 1, n);
                vstd::arithmetic::div_mod::lemma_mod_twice(from + steps - 1, n);
                vstd::arithmetic::div_mod::lemma_add_mod_noop(at, 1, n);
            }
            vstd::arithmetic::div_mod::lemma_mod_bound(from + steps, n);
            assert(self.contains(cycle[(from + steps) % n]));
            self.lemma_step_reachable(roots, cycle[at], cycle[(from + steps) % n]);
        }
    }
}


/// Something that allocates payloads of type `T` on a heap.
pub trait GcAllocator<T> {
    /// The heap that the payloads are allocated on.
    spec fn heap(&self) -> TypedGc<T>;

    /// Allocates the object that `def` describes, unless the heap cannot account
    /// for it.
    fn allocate<D: DataDef<Value = T>>(&mut self, def: D) -> (r: Result<GcPtr<T>, Error>)
        requires
            old(self).heap().wf(),
        ensures
            r is Ok == old(self).heap().fits(def.spec_size()),
            r matches Ok(ptr) ==> final(self).heap().extends(old(self).heap(), ptr.addr(), def),
            r is Err ==> final(self).heap() == old(self).heap(),
    ;
}

impl<T> GcAllocator<T> for TypedGc<T> {
    open spec fn heap(&self) -> TypedGc<T> {
        *self
    }

    fn allocate<D: DataDef<Value = T>>(&mut self, def: D) -> (r: Result<GcPtr<T>, Error>) {
        self.try_allocate(def)
    }
}

/// Something that allocates payloads of type `T` on a heap and collects it.
pub trait Gc<T: Traverseable>: GcAllocator<T> {
    /// Allocates the object that `def` describes, after a collection where the
    /// count of allocated bytes has reached the limit. The roots of that
    /// collection are `roots` and the handles that `def` itself holds.
    fn alloc_and_collect<R: Traverseable, D: DataDef<Value = T> + Traverseable>(
        &mut self,
        roots: R,
        def: D,
    ) -> (r: GcPtr<T>)
        requires
            old(self).heap().wf(),
            old(self).heap().fits(def.spec_size()),
        ensures
            final(self).heap().collects_and_extends(
                old(self).heap(),
                roots.pointers().union(def.pointers()),
                r.addr(),
                def,
            ),
    ;

    /// A mark-and-sweep collection that starts from `roots`.
    fn collect<R: Traverseable>(&mut self, roots: R)
        requires
            old(self).heap().wf(),
        ensures
            final(self).heap().collects(old(self).heap(), roots.pointers()),
    ;
}

impl<T: Traverseable> Gc<T> for TypedGc<T> {
    fn alloc_and_collect<R: Traverseable, D: DataDef<Value = T> + Traverseable>(
        &mut self,
        roots: R,
        def: D,
    ) -> (r: GcPtr<T>) {
        TypedGc::alloc_and_collect(self, roots, def)
    }

    fn collect<R: Traverseable>(&mut self, roots: R) {
        TypedGc::collect(self, roots)
    }
}

} // verus!
