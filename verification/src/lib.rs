//! A fixed-capacity, contiguous vector.
//!
//! [`ArrayVec<T, C>`] holds at most `C` elements. It is created empty and
//! never grows past its capacity: appending to a full container is a
//! precondition violation, not a reallocation. The live elements always
//! occupy the leading indices `0..len`, and the view `self@` is exactly
//! that sequence.

use vstd::prelude::*;

verus! {

/// Whether the spec predicate `p` describes the exec predicate `f`
/// exactly: whenever `f` can return `b` for an element, `b` agrees
/// with `p` on that element.
pub open spec fn abstracts<T, F: Fn(&T) -> bool>(f: F, p: spec_fn(T) -> bool) -> bool {
    forall|t: T, b: bool| #[trigger] call_ensures(f, (&t,), b) ==> b == p(t)
}

/// Filtering a prefix one element longer appends that element to the
/// filtered prefix exactly when the predicate holds of it.
proof fn lemma_filter_take_one<T>(s: Seq<T>, j: int, p: spec_fn(T) -> bool)
    requires
        0 <= j < s.len(),
    ensures
        s.subrange(0, j + 1).filter(p) == if p(s[j]) {
            s.subrange(0, j).filter(p).push(s[j])
        } else {
            s.subrange(0, j).filter(p)
        },
{
    let a = s.subrange(0, j);
    let b = seq![s[j]];
    assert(s.subrange(0, j + 1) =~= a + b);
    Seq::<T>::filter_distributes_over_add(a, b, p);
    assert(b.filter(p) == if p(s[j]) { seq![s[j]] } else { Seq::<T>::empty() }) by {
        reveal_with_fuel(Seq::filter, 2);
        assert(b.drop_last() =~= Seq::<T>::empty());
    }
    if p(s[j]) {
        assert(a.filter(p) + seq![s[j]] =~= a.filter(p).push(s[j]));
    } else {
        assert(a.filter(p) + Seq::<T>::empty() =~= a.filter(p));
    }
}

/// A vector with a fixed maximum number of elements, chosen at the type
/// level by the const parameter `C`.
///
/// The abstract value of a container is the sequence `self@` of its live
/// elements, in index order; its length never exceeds `C`.
pub struct ArrayVec<T, const C: usize> {
    data: Vec<T>,
}

impl<T, const C: usize> View for ArrayVec<T, C> {
    type V = Seq<T>;

    closed spec fn view(&self) -> Seq<T> {
        self.data@
    }
}

impl<T, const C: usize> ArrayVec<T, C> {
    /// The one internal invariant: the live region never exceeds the
    /// declared capacity.
    #[verifier::type_invariant]
    spec fn capacity_bounded(self) -> bool {
        self.data@.len() <= C
    }

    /// Creates a new empty `ArrayVec`.
    pub fn new() -> (v: Self)
        ensures
            v@ == Seq::<T>::empty(),
    {
        ArrayVec { data: Vec::new() }
    }

    /// The maximum number of elements the vector can store.
    pub fn capacity(&self) -> (r: usize)
        ensures
            r == C,
    {
        C
    }

    /// The current number of elements the vector stores.
    ///
    /// Law: at every observable point, `0 <= len <= capacity`. The view
    /// of a vector is exactly the sequence of its live slots — slot `i`
    /// holds a live element if and only if `i < len` — so the length
    /// never exceeds `C`, whatever operations produced the value.
    pub fn len(&self) -> (r: usize)
        ensures
            r == self@.len(),
            r <= C,
    {
        proof {
            use_type_invariant(&*self);
        }
        self.data.len()
    }

    /// Whether the vector has reached its capacity.
    pub fn is_full(&self) -> (r: bool)
        ensures
            r <==> self@.len() == C,
    {
        self.data.len() == C
    }

    /// Whether the vector holds no elements.
    pub fn is_empty(&self) -> (r: bool)
        ensures
            r <==> self@.len() == 0,
    {
        self.data.is_empty()
    }

    /// Appends an item to the end of the vector. The container must not
    /// be full.
    pub fn push(&mut self, item: T)
        requires
            old(self)@.len() < C,
        ensures
            final(self)@ == old(self)@.push(item),
    {
        let mut data: Vec<T> = Vec::new();
        core::mem::swap(&mut data, &mut self.data);
        data.push(item);
        self.data = data;
    }

    /// Removes the last element and returns it, or returns `None` when the
    /// vector is empty.
    pub fn pop(&mut self) -> (r: Option<T>)
        ensures
            old(self)@.len() == 0 ==> r is None && final(self)@ == old(self)@,
            old(self)@.len() > 0 ==> r == Some(old(self)@.last()) && final(self)@ == old(
                self,
            )@.drop_last(),
    {
        proof {
            use_type_invariant(&*self);
        }
        let mut data: Vec<T> = Vec::new();
        core::mem::swap(&mut data, &mut self.data);
        let r = data.pop();
        self.data = data;
        r
    }

    /// Removes all elements from the vector.
    pub fn clear(&mut self)
        ensures
            final(self)@ == Seq::<T>::empty(),
    {
        let mut data: Vec<T> = Vec::new();
        core::mem::swap(&mut data, &mut self.data);
        data.clear();
        self.data = data;
    }

    /// Removes the value at `index` and returns it, keeping the order of
    /// the remaining elements. The index must be in bounds.
    pub fn remove(&mut self, index: usize) -> (r: T)
        requires
            index < old(self)@.len(),
        ensures
            r == old(self)@[index as int],
            final(self)@ == old(self)@.remove(index as int),
    {
        proof {
            use_type_invariant(&*self);
        }
        let mut data: Vec<T> = Vec::new();
        core::mem::swap(&mut data, &mut self.data);
        let r = data.remove(index);
        self.data = data;
        r
    }

    /// Removes the value at `index` and returns it, moving the last element
    /// into the vacated slot instead of shifting; the order of the remaining
    /// elements is not kept. The index must be in bounds.
    pub fn swap_remove(&mut self, index: usize) -> (r: T)
        requires
            index < old(self)@.len(),
        ensures
            r == old(self)@[index as int],
            final(self)@ == old(self)@.update(index as int, old(self)@.last()).drop_last(),
    {
        proof {
            use_type_invariant(&*self);
        }
        let mut data: Vec<T> = Vec::new();
        core::mem::swap(&mut data, &mut self.data);
        let r = data.swap_remove(index);
        self.data = data;
        r
    }

    /// Inserts `item` at `index`, shifting the elements at `index` and
    /// beyond one slot toward the back. The index must name an existing
    /// element (appending goes through `push`), and the vector must not be
    /// full.
    pub fn insert(&mut self, index: usize, item: T)
        requires
            index < old(self)@.len(),
            old(self)@.len() < C,
        ensures
            final(self)@ == old(self)@.insert(index as int, item),
    {
        let mut data: Vec<T> = Vec::new();
        core::mem::swap(&mut data, &mut self.data);
        data.insert(index, item);
        self.data = data;
    }

    /// Retains only the elements for which `f` returns true, in their
    /// original order; the others are removed. For any spec predicate
    /// that describes `f` exactly, the result is the corresponding
    /// filtering of the old contents.
    pub fn retain<F: Fn(&T) -> bool>(&mut self, f: F)
        requires
            forall|t: &T| #[trigger] call_requires(f, (t,)),
        ensures
            forall|p: spec_fn(T) -> bool|
                #[trigger] abstracts(f, p) ==> final(self)@ == old(self)@.filter(p),
    {
        proof {
            use_type_invariant(&*self);
        }
        let mut data: Vec<T> = Vec::new();
        core::mem::swap(&mut data, &mut self.data);
        let ghost orig: Seq<T> = data@;
        let mut i: usize = 0;
        let ghost mut j: int = 0;
        while i < data.len()
            invariant
                orig.len() <= C,
                0 <= i <= data@.len(),
                i <= j <= orig.len(),
                data@.len() - i == orig.len() - j,
                data@.subrange(i as int, data@.len() as int) == orig.subrange(j, orig.len() as int),
                forall|t: &T| #[trigger] call_requires(f, (t,)),
                forall|p: spec_fn(T) -> bool|
                    #[trigger] abstracts(f, p) ==> data@.subrange(0, i as int) == orig.subrange(
                        0,
                        j,
                    ).filter(p),
            decreases data@.len() - i,
        {
            let ghost pre: Seq<T> = data@;
            proof {
                assert(pre[i as int] == orig[j]) by {
                    assert(pre.subrange(i as int, pre.len() as int)[0] == orig.subrange(
                        j,
                        orig.len() as int,
                    )[0]);
                }
            }
            let keep = f(&data[i]);
            if keep {
                i += 1;
                proof {
                    j = j + 1;
                    assert(data@.subrange(i as int, data@.len() as int) =~= orig.subrange(
                        j,
                        orig.len() as int,
                    )) by {
                        assert forall|k: int| 0 <= k < data@.len() - i implies data@.subrange(
                            i as int,
                            data@.len() as int,
                        )[k] == orig.subrange(j, orig.len() as int)[k] by {
                            assert(pre.subrange(i - 1, pre.len() as int)[k + 1] == orig.subrange(
                                j - 1,
                                orig.len() as int,
                            )[k + 1]);
                        }
                    }
                    assert forall|p: spec_fn(T) -> bool| #[trigger] abstracts(f, p) implies data@.subrange(
                        0,
                        i as int,
                    ) == orig.subrange(0, j).filter(p) by {
                        lemma_filter_take_one(orig, j - 1, p);
                        assert(p(orig[j - 1]));
                        assert(data@.subrange(0, i as int) =~= data@.subrange(0, i - 1).push(
                            orig[j - 1],
                        ));
                    }
                }
            } else {
                let _ = data.remove(i);
                proof {
                    j = j + 1;
                    assert(data@.subrange(0, i as int) =~= pre.subrange(0, i as int));
                    assert(data@.subrange(i as int, data@.len() as int) =~= orig.subrange(
                        j,
                        orig.len() as int,
                    )) by {
                        assert forall|k: int| 0 <= k < data@.len() - i implies data@.subrange(
                            i as int,
                            data@.len() as int,
                        )[k] == orig.subrange(j, orig.len() as int)[k] by {
                            assert(data@[i + k] == pre[i + k + 1]);
                            assert(pre.subrange(i as int, pre.len() as int)[k + 1] == orig.subrange(
                                j - 1,
                                orig.len() as int,
                            )[k + 1]);
                        }
                    }
                    assert forall|p: spec_fn(T) -> bool| #[trigger] abstracts(f, p) implies data@.subrange(
                        0,
                        i as int,
                    ) == orig.subrange(0, j).filter(p) by {
                        lemma_filter_take_one(orig, j - 1, p);
                        assert(!p(orig[j - 1]));
                        assert(pre.subrange(0, i as int) == orig.subrange(0, j - 1).filter(p));
                    }
                }
            }
        }
        proof {
            assert(data@.subrange(0, i as int) =~= data@);
            assert(orig.subrange(0, j) =~= orig);
        }
        self.data = data;
    }

    /// A reference to the element at `index`, or `None` when the index is
    /// out of bounds.
    pub fn get(&self, index: usize) -> (r: Option<&T>)
        ensures
            index < self@.len() ==> r is Some && *r.unwrap() == self@[index as int],
            index >= self@.len() ==> r is None,
    {
        if index < self.data.len() {
            Some(&self.data[index])
        } else {
            None
        }
    }

    /// A mutable reference to the element at `index`, or `None` when the
    /// index is out of bounds.
    pub fn get_mut(&mut self, index: usize) -> (r: Option<&mut T>)
        ensures
            index >= old(self)@.len() ==> r is None && final(self)@ == old(self)@,
            index < old(self)@.len() ==> r is Some && *r.unwrap() == old(self)@[index as int]
                && final(self)@ == old(self)@.update(index as int, *final(r.unwrap())),
    {
        proof {
            use_type_invariant(&*self);
        }
        if index < self.data.len() {
            Some(&mut self.data[index])
        } else {
            None
        }
    }

    /// A borrowed view of the live elements, in index order.
    pub fn as_slice(&self) -> (r: &[T])
        ensures
            r@ == self@,
    {
        self.data.as_slice()
    }

    /// A non-consuming iterator over references to the live elements, in
    /// index order. A fresh call yields a fresh iterator that starts over.
    pub fn iter(&self) -> (r: core::slice::Iter<'_, T>)
        ensures
            vstd::std_specs::slice::into_iter_elts(r) == self@,
    {
        let s = self.as_slice();
        let r = s.iter();
        proof {
            assert(vstd::std_specs::slice::into_iter_elts(r) =~= s@.as_ref().unref());
            assert(s@.as_ref().unref() =~= s@);
        }
        r
    }

    /// Consumes the vector. When it is full, returns all `C` elements in
    /// index order; otherwise returns `None` (and the elements are
    /// released with the consumed vector).
    pub fn into_array(self) -> (r: Option<Vec<T>>)
        ensures
            match r {
                Some(a) => self@.len() == C && a@ == self@,
                None => self@.len() != C,
            },
    {
        if self.data.len() == C {
            Some(self.data)
        } else {
            None
        }
    }

    /// Consuming iteration: hands back ownership of every live element,
    /// in index order — exactly `len` of them, so nothing is dropped
    /// early and nothing is left behind.
    pub fn into_iter(self) -> (r: Vec<T>)
        ensures
            r@ == self@,
    {
        self.data
    }

    /// Consumes the vector and moves its elements, in order, into a new
    /// vector of capacity `NEW_C`. Fails with `None` when the live elements
    /// do not fit; elements are never discarded to force a fit.
    pub fn resize<const NEW_C: usize>(self) -> (r: Option<ArrayVec<T, NEW_C>>)
        ensures
            match r {
                Some(v) => self@.len() <= NEW_C && v@ == self@,
                None => self@.len() > NEW_C,
            },
    {
        if self.data.len() > NEW_C {
            return None;
        }
        Some(ArrayVec { data: self.data })
    }
}

impl<T: Clone, const C: usize> ArrayVec<T, C> {
    /// Appends a clone of each element of `other`, in order. The combined
    /// length must fit within the capacity.
    pub fn extend_from_slice(&mut self, other: &[T])
        requires
            old(self)@.len() + other@.len() <= C,
        ensures
            final(self)@.len() == old(self)@.len() + other@.len(),
            forall|i: int| 0 <= i < old(self)@.len() ==> final(self)@[i] == old(self)@[i],
            forall|i: int|
                0 <= i < other@.len() ==> cloned::<T>(
                    other@[i],
                    #[trigger] final(self)@[old(self)@.len() + i],
                ),
    {
        let mut data: Vec<T> = Vec::new();
        core::mem::swap(&mut data, &mut self.data);
        data.extend_from_slice(other);
        self.data = data;
    }
}

impl<T: Clone, const C: usize> Clone for ArrayVec<T, C> {
    /// An independent vector of the same length whose every element is a
    /// clone of the element at the same index.
    fn clone(&self) -> (r: Self)
        ensures
            r@.len() == self@.len(),
            forall|i: int| 0 <= i < self@.len() ==> cloned::<T>(self@[i], #[trigger] r@[i]),
    {
        proof {
            use_type_invariant(&*self);
        }
        ArrayVec { data: self.data.clone() }
    }
}

impl<T, const C: usize> Default for ArrayVec<T, C> {
    /// Equivalent to `new`: the empty vector.
    fn default() -> (v: Self)
        ensures
            v@ == Seq::<T>::empty(),
    {
        ArrayVec::new()
    }
}

/// Law: push/pop round trip. Appending an element and then taking one
/// from the back yields that element and restores the original
/// sequence; hence pushing `capacity` elements and then popping
/// `capacity` times returns them in exact reverse order, and one more
/// pop yields nothing.
pub proof fn lemma_push_pop_round_trip<T>(s: Seq<T>, x: T)
    ensures
        s.push(x).last() == x,
        s.push(x).drop_last() == s,
{
    assert(s.push(x).drop_last() =~= s);
}

/// Law: popping repeatedly returns the elements in exact reverse order.
/// Starting from a vector whose view is `s`, the view left after `i`
/// pops is the prefix of length `len - i`, so the next pop returns
/// `s[len - 1 - i]`: the elements come back newest first, and once all
/// have been returned the vector is empty and pop yields nothing.
pub proof fn lemma_pop_reverse_order<T>(s: Seq<T>, i: int)
    requires
        0 <= i < s.len(),
    ensures
        s.subrange(0, s.len() - i).last() == s[s.len() - 1 - i],
        s.subrange(0, s.len() - i).drop_last() == s.subrange(0, s.len() - 1 - i),
{
    assert(s.subrange(0, s.len() - i).drop_last() =~= s.subrange(0, s.len() - 1 - i));
}

} // verus!
