//! Traversal of the types that hold handles only through their parts, or not
//! at all.

use vstd::prelude::*;
use crate::gc::{pointers_of, Tracer, Traverseable};

verus! {

/// The handles held by one more element of a sequence.
proof fn lemma_pointers_step<U: Traverseable>(items: Seq<U>, i: int)
    requires
        0 <= i < items.len(),
    ensures
        pointers_of(items.subrange(0, i + 1)) == pointers_of(items.subrange(0, i)).union(
            items[i].pointers(),
        ),
{
    let before = items.subrange(0, i);
    let after = items.subrange(0, i + 1);
    assert forall|a: usize| pointers_of(after).contains(a) <==> (pointers_of(before).contains(a)
        || items[i].pointers().contains(a)) by {
        if pointers_of(after).contains(a) {
            let j = choose|j: int| 0 <= j < after.len() && #[trigger] after[j].pointers().contains(a);
            if j < i {
                assert(before[j].pointers().contains(a));
            }
        }
        if pointers_of(before).contains(a) {
            let j = choose|j: int| 0 <= j < before.len() && #[trigger] before[j].pointers().contains(a);
            assert(after[j].pointers().contains(a));
        }
        if items[i].pointers().contains(a) {
            assert(after[i].pointers().contains(a));
        }
    }
    assert(pointers_of(after) =~= pointers_of(before).union(items[i].pointers()));
}

impl<T: Traverseable + ?Sized> Traverseable for Box<T> {
    open spec fn pointers(&self) -> Set<usize> {
        (**self).pointers()
    }

    fn traverse(&self, gc: &mut Tracer) {
        (**self).traverse(gc)
    }
}

impl<'a, T: Traverseable + ?Sized> Traverseable for &'a T {
    open spec fn pointers(&self) -> Set<usize> {
        (**self).pointers()
    }

    fn traverse(&self, gc: &mut Tracer) {
        (**self).traverse(gc)
    }
}

impl<'a, T: Traverseable + ?Sized> Traverseable for &'a mut T {
    open spec fn pointers(&self) -> Set<usize> {
        (**self).pointers()
    }

    fn traverse(&self, gc: &mut Tracer) {
        (**self).traverse(gc)
    }
}

impl<U: Traverseable> Traverseable for [U] {
    open spec fn pointers(&self) -> Set<usize> {
        pointers_of(self@)
    }

    fn traverse(&self, gc: &mut Tracer) {
        let mut i: usize = 0;
        while i < self.len()
            invariant
                i <= self@.len(),
                gc@ == old(gc)@.union(pointers_of(self@.subrange(0, i as int))),
            decreases self@.len() - i,
        {
            self[i].traverse(gc);
            proof {
                lemma_pointers_step(self@, i as int);
                assert(gc@ =~= old(gc)@.union(pointers_of(self@.subrange(0, i + 1))));
            }
            i += 1;
        }
        assert(self@.subrange(0, i as int) =~= self@);
    }
}

impl<U: Traverseable> Traverseable for Vec<U> {
    open spec fn pointers(&self) -> Set<usize> {
        pointers_of(self@)
    }

    fn traverse(&self, gc: &mut Tracer) {
        self.as_slice().traverse(gc)
    }
}

impl Traverseable for () {
    open spec fn pointers(&self) -> Set<usize> {
        Set::empty()
    }

    fn traverse(&self, gc: &mut Tracer) {
        assert(old(gc)@.union(Set::<usize>::empty()) =~= old(gc)@);
    }
}

impl Traverseable for u8 {
    open spec fn pointers(&self) -> Set<usize> {
        Set::empty()
    }

    fn traverse(&self, gc: &mut Tracer) {
        assert(old(gc)@.union(Set::<usize>::empty()) =~= old(gc)@);
    }
}

impl Traverseable for i64 {
    open spec fn pointers(&self) -> Set<usize> {
        Set::empty()
    }

    fn traverse(&self, gc: &mut Tracer) {
        assert(old(gc)@.union(Set::<usize>::empty()) =~= old(gc)@);
    }
}

impl Traverseable for str {
    open spec fn pointers(&self) -> Set<usize> {
        Set::empty()
    }

    fn traverse(&self, gc: &mut Tracer) {
        assert(old(gc)@.union(Set::<usize>::empty()) =~= old(gc)@);
    }
}

impl Traverseable for String {
    open spec fn pointers(&self) -> Set<usize> {
        Set::empty()
    }

    fn traverse(&self, gc: &mut Tracer) {
        assert(old(gc)@.union(Set::<usize>::empty()) =~= old(gc)@);
    }
}

impl<A: Traverseable> Traverseable for (A,) {
    open spec fn pointers(&self) -> Set<usize> {
        self.0.pointers()
    }

    fn traverse(&self, gc: &mut Tracer) {
        self.0.traverse(gc);
    }
}

impl<A: Traverseable, B: Traverseable> Traverseable for (A, B) {
    open spec fn pointers(&self) -> Set<usize> {
        self.0.pointers()
            .union(self.1.pointers())
    }

    fn traverse(&self, gc: &mut Tracer) {
        self.0.traverse(gc);
        self.1.traverse(gc);
        assert(gc@ =~= old(gc)@.union(self.pointers()));
    }
}

impl<A: Traverseable, B: Traverseable, C: Traverseable> Traverseable for (A, B, C) {
    open spec fn pointers(&self) -> Set<usize> {
        self.0.pointers()
            .union(self.1.pointers())
            .union(self.2.pointers())
    }

    fn traverse(&self, gc: &mut Tracer) {
        self.0.traverse(gc);
        self.1.traverse(gc);
        self.2.traverse(gc);
        assert(gc@ =~= old(gc)@.union(self.pointers()));
    }
}

impl<
    A: Traverseable,
    B: Traverseable,
    C: Traverseable,
    D: Traverseable,
> Traverseable for (A, B, C, D) {
    open spec fn pointers(&self) -> Set<usize> {
        self.0.pointers()
            .union(self.1.pointers())
            .union(self.2.pointers())
            .union(self.3.pointers())
    }

    fn traverse(&self, gc: &mut Tracer) {
        self.0.traverse(gc);
        self.1.traverse(gc);
        self.2.traverse(gc);
        self.3.traverse(gc);
        assert(gc@ =~= old(gc)@.union(self.pointers()));
    }
}

impl<
    A: Traverseable,
    B: Traverseable,
    C: Traverseable,
    D: Traverseable,
    E: Traverseable,
> Traverseable for (A, B, C, D, E) {
    open spec fn pointers(&self) -> Set<usize> {
        self.0.pointers()
            .union(self.1.pointers())
            .union(self.2.pointers())
            .union(self.3.pointers())
            .union(self.4.pointers())
    }

    fn traverse(&self, gc: &mut Tracer) {
        self.0.traverse(gc);
        self.1.traverse(gc);
        self.2.traverse(gc);
        self.3.traverse(gc);
        self.4.traverse(gc);
        assert(gc@ =~= old(gc)@.union(self.pointers()));
    }
}

impl<
    A: Traverseable,
    B: Traverseable,
    C: Traverseable,
    D: Traverseable,
    E: Traverseable,
    F: Traverseable,
> Traverseable for (A, B, C, D, E, F) {
    open spec fn pointers(&self) -> Set<usize> {
        self.0.pointers()
            .union(self.1.pointers())
            .union(self.2.pointers())
            .union(self.3.pointers())
            .union(self.4.pointers())
            .union(self.5.pointers())
    }

    fn traverse(&self, gc: &mut Tracer) {
        self.0.traverse(gc);
        self.1.traverse(gc);
        self.2.traverse(gc);
        self.3.traverse(gc);
        self.4.traverse(gc);
        self.5.traverse(gc);
        assert(gc@ =~= old(gc)@.union(self.pointers()));
    }
}

impl<
    A: Traverseable,
    B: Traverseable,
    C: Traverseable,
    D: Traverseable,
    E: Traverseable,
    F: Traverseable,
    G: Traverseable,
> Traverseable for (A, B, C, D, E, F, G) {
    open spec fn pointers(&self) -> Set<usize> {
        self.0.pointers()
            .union(self.1.pointers())
            .union(self.2.pointers())
            .union(self.3.pointers())
            .union(self.4.pointers())
            .union(self.5.pointers())
            .union(self.6.pointers())
    }

    fn traverse(&self, gc: &mut Tracer) {
        self.0.traverse(gc);
        self.1.traverse(gc);
        self.2.traverse(gc);
        self.3.traverse(gc);
        self.4.traverse(gc);
        self.5.traverse(gc);
        self.6.traverse(gc);
        assert(gc@ =~= old(gc)@.union(self.pointers()));
    }
}

impl<
    A: Traverseable,
    B: Traverseable,
    C: Traverseable,
    D: Traverseable,
    E: Traverseable,
    F: Traverseable,
    G: Traverseable,
    H: Traverseable,
> Traverseable for (A, B, C, D, E, F, G, H) {
    open spec fn pointers(&self) -> Set<usize> {
        self.0.pointers()
            .union(self.1.pointers())
            .union(self.2.pointers())
            .union(self.3.pointers())
            .union(self.4.pointers())
            .union(self.5.pointers())
            .union(self.6.pointers())
            .union(self.7.pointers())
    }

    fn traverse(&self, gc: &mut Tracer) {
        self.0.traverse(gc);
        self.1.traverse(gc);
        self.2.traverse(gc);
        self.3.traverse(gc);
        self.4.traverse(gc);
        self.5.traverse(gc);
        self.6.traverse(gc);
        self.7.traverse(gc);
        assert(gc@ =~= old(gc)@.union(self.pointers()));
    }
}

impl<
    A: Traverseable,
    B: Traverseable,
    C: Traverseable,
    D: Traverseable,
    E: Traverseable,
    F: Traverseable,
    G: Traverseable,
    H: Traverseable,
    I: Traverseable,
> Traverseable for (A, B, C, D, E, F, G, H, I) {
    open spec fn pointers(&self) -> Set<usize> {
        self.0.pointers()
            .union(self.1.pointers())
            .union(self.2.pointers())
            .union(self.3.pointers())
            .union(self.4.pointers())
            .union(self.5.pointers())
            .union(self.6.pointers())
            .union(self.7.pointers())
            .union(self.8.pointers())
    }

    fn traverse(&self, gc: &mut Tracer) {
        self.0.traverse(gc);
        self.1.traverse(gc);
        self.2.traverse(gc);
        self.3.traverse(gc);
        self.4.traverse(gc);
        self.5.traverse(gc);
        self.6.traverse(gc);
        self.7.traverse(gc);
        self.8.traverse(gc);
        assert(gc@ =~= old(gc)@.union(self.pointers()));
    }
}

impl<
    A: Traverseable,
    B: Traverseable,
    C: Traverseable,
    D: Traverseable,
    E: Traverseable,
    F: Traverseable,
    G: Traverseable,
    H: Traverseable,
    I: Traverseable,
    J: Traverseable,
> Traverseable for (A, B, C, D, E, F, G, H, I, J) {
    open spec fn pointers(&self) -> Set<usize> {
        self.0.pointers()
            .union(self.1.pointers())
            .union(self.2.pointers())
            .union(self.3.pointers())
            .union(self.4.pointers())
            .union(self.5.pointers())
            .union(self.6.pointers())
            .union(self.7.pointers())
            .union(self.8.pointers())
            .union(self.9.pointers())
    }

    fn traverse(&self, gc: &mut Tracer) {
        self.0.traverse(gc);
        self.1.traverse(gc);
        self.2.traverse(gc);
        self.3.traverse(gc);
        self.4.traverse(gc);
        self.5.traverse(gc);
        self.6.traverse(gc);
        self.7.traverse(gc);
        self.8.traverse(gc);
        self.9.traverse(gc);
        assert(gc@ =~= old(gc)@.union(self.pointers()));
    }
}

} // verus!
