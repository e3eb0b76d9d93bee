//! A growable array with an explicit capacity that doubles when it is full.

use vstd::prelude::*;
use vstd::slice::SliceIndexSpec;

verus! {

/// The capacity of a full array after it has grown once: 16 from nothing,
/// else twice what it was.
pub open spec fn grown_capacity(capacity: usize) -> int {
    if capacity == 0 {
        16
    } else {
        2 * capacity
    }
}

/// The capacity after one push onto an array of `len` elements and capacity
/// `capacity`: it grows only when no room is left.
pub open spec fn capacity_after_push(len: nat, capacity: usize) -> int {
    if len < capacity {
        capacity as int
    } else {
        grown_capacity(capacity)
    }
}

/// Whether `n` more elements can be pushed onto an array of `len` elements
/// and capacity `capacity` without the capacity outgrowing `usize`.
pub open spec fn room_for(len: nat, capacity: usize, n: nat) -> bool
    decreases n,
{
    n == 0 || (capacity_after_push(len, capacity) <= usize::MAX && room_for(
        len + 1,
        capacity_after_push(len, capacity) as usize,
        (n - 1) as nat,
    ))
}

/// The capacity after `n` pushes onto an array of `len` elements and
/// capacity `capacity`.
pub open spec fn capacity_after_pushes(len: nat, capacity: usize, n: nat) -> int
    decreases n,
{
    if n == 0 {
        capacity as int
    } else {
        capacity_after_pushes(len + 1, capacity_after_push(len, capacity) as usize, (n - 1) as nat)
    }
}

/// The iterator of std over a slice that hands out each element to be changed
/// in place; nothing is read from it.
#[verifier::external_type_specification]
#[verifier::external_body]
#[verifier::reject_recursive_types(Item)]
pub struct ExIterMut<'a, Item: 'a>(core::slice::IterMut<'a, Item>);

/// Calls `iter_mut` of std's slices, which hands out the elements in order,
/// each to be changed in place: the slice keeps its length.
#[verifier::external_body]
fn slice_iter_mut<'a, T>(slice: &'a mut [T]) -> (iter: core::slice::IterMut<'a, T>)
    ensures
        final(slice)@.len() == old(slice)@.len(),
{
    slice.iter_mut()
}

/// An owned, contiguous, resizable sequence of `T`.
///
/// Its view is the sequence of its live elements, in array order.
pub struct Vec<T> {
    elements: std::vec::Vec<T>,
    capacity: usize,
}

impl<T> View for Vec<T> {
    type V = Seq<T>;

    closed spec fn view(&self) -> Seq<T> {
        self.elements@
    }
}

impl<T> Vec<T> {
    /// The number of elements that the array has room for.
    pub closed spec fn spec_capacity(&self) -> usize {
        self.capacity
    }

    /// The array holds no more elements than it has room for.
    pub open spec fn wf(&self) -> bool {
        self@.len() <= self.spec_capacity()
    }

    /// Whether one more element can be pushed: the array has room left, or
    /// the capacity to which it grows fits in `usize`.
    pub open spec fn can_push(&self) -> bool {
        capacity_after_push(self@.len(), self.spec_capacity()) <= usize::MAX
    }

    /// Whether `n` more elements can be pushed.
    pub open spec fn has_room_for(&self, n: nat) -> bool {
        room_for(self@.len(), self.spec_capacity(), n)
    }

    /// An empty array with room for `c` elements.
    pub fn with_capacity(c: usize) -> (v: Self)
        ensures
            v@ == Seq::<T>::empty(),
            v.spec_capacity() == c,
            v.wf(),
    {
        if c == 0 {
            Self::new()
        } else {
            Self { elements: std::vec::Vec::with_capacity(c), capacity: c }
        }
    }

    /// An empty array that has reserved nothing.
    pub fn new() -> (v: Self)
        ensures
            v@ == Seq::<T>::empty(),
            v.spec_capacity() == 0,
            v.wf(),
    {
        Self { elements: std::vec::Vec::new(), capacity: 0 }
    }

    /// The live elements as a slice.
    pub fn as_slice(&self) -> (slice: &[T])
        ensures
            slice@ == self@,
    {
        self.elements.as_slice()
    }

    /// The live elements as a slice through which they can be changed.
    pub fn as_mut_slice(&mut self) -> (slice: &mut [T])
        ensures
            slice@ == old(self)@,
            final(slice)@ == final(self)@,
            final(self).spec_capacity() == old(self).spec_capacity(),
    {
        self.elements.as_mut_slice()
    }

    /// The number of live elements.
    pub fn len(&self) -> (n: usize)
        ensures
            n == self@.len(),
    {
        self.elements.len()
    }

    /// Appends `t`. A full array first grows, to room for 16 elements from
    /// none, else to twice its capacity, and its elements move to the new
    /// storage.
    pub fn push(&mut self, t: T)
        requires
            old(self).can_push(),
        ensures
            final(self)@ == old(self)@.push(t),
            final(self).spec_capacity() == capacity_after_push(
                old(self)@.len(),
                old(self).spec_capacity(),
            ),
            old(self).wf() ==> final(self).wf(),
            forall|n: nat| old(self).has_room_for(n + 1) ==> final(self).has_room_for(n),
    {
        if self.elements.len() >= self.capacity {
            let new_size: usize = if self.capacity == 0 {
                16
            } else {
                self.capacity * 2
            };
            let mut grown: std::vec::Vec<T> = std::vec::Vec::with_capacity(new_size);
            grown.append(&mut self.elements);
            self.elements = grown;
            self.capacity = new_size;
        }
        self.elements.push(t);
    }

    /// Takes the last element out of the array, if there is one.
    pub fn pop(&mut self) -> (last: Option<T>)
        ensures
            old(self)@.len() == 0 ==> last.is_none() && final(self)@ == old(self)@,
            old(self)@.len() > 0 ==> last == Some(old(self)@.last()) && final(self)@ == old(
                self,
            )@.drop_last(),
            final(self).spec_capacity() == old(self).spec_capacity(),
    {
        if self.elements.len() == 0 {
            None
        } else {
            self.elements.pop()
        }
    }

    /// The element at `idx`, which the caller knows to be in range.
    pub fn get_unchecked(&self, idx: usize) -> (element: &T)
        requires
            idx < self@.len(),
        ensures
            *element == self@[idx as int],
    {
        &self.elements[idx]
    }

    /// The element at `idx`, which the caller knows to be in range, to be
    /// changed in place.
    pub fn get_unchecked_mut(&mut self, idx: usize) -> (element: &mut T)
        requires
            idx < old(self)@.len(),
        ensures
            *element == old(self)@[idx as int],
            final(self)@ == old(self)@.update(idx as int, *final(element)),
            final(self).spec_capacity() == old(self).spec_capacity(),
    {
        &mut self.elements[idx]
    }

    /// The last element, if there is one.
    pub fn last(&self) -> (last: Option<&T>)
        ensures
            self@.len() == 0 ==> last.is_none(),
            self@.len() > 0 ==> last == Some(&self@.last()),
    {
        if self.elements.len() == 0 {
            None
        } else {
            Some(&self.elements[self.elements.len() - 1])
        }
    }

    /// The number of elements that the array has room for.
    #[verifier::when_used_as_spec(spec_capacity)]
    pub fn capacity(&self) -> (c: usize)
        ensures
            c == self.spec_capacity(),
    {
        self.capacity
    }

    /// An iterator over the live elements, in array order.
    pub fn to_iter(&self) -> (iter: core::slice::Iter<'_, T>)
        ensures
            vstd::std_specs::slice::into_iter_elts(iter) == self@,
            exists|s: &[T]|
                #[trigger] s@ == self@ && iter == vstd::std_specs::slice::spec_slice_iter(s),
            vstd::std_specs::iter::IteratorSpec::decrease(&iter) is Some,
            vstd::std_specs::iter::IteratorSpec::initial_value_relation(&iter, &iter),
    {
        self.elements.as_slice().iter()
    }

    /// An iterator over the live elements, in array order.
    pub fn iter(&self) -> (iter: core::slice::Iter<'_, T>)
        ensures
            vstd::std_specs::slice::into_iter_elts(iter) == self@,
            exists|s: &[T]|
                #[trigger] s@ == self@ && iter == vstd::std_specs::slice::spec_slice_iter(s),
            vstd::std_specs::iter::IteratorSpec::decrease(&iter) is Some,
            vstd::std_specs::iter::IteratorSpec::initial_value_relation(&iter, &iter),
    {
        self.as_slice().iter()
    }

    /// An iterator over the live elements, in array order, that hands out
    /// each to be changed in place.
    pub fn iter_mut(&mut self) -> (iter: core::slice::IterMut<'_, T>)
        ensures
            final(self)@.len() == old(self)@.len(),
            final(self).spec_capacity() == old(self).spec_capacity(),
    {
        slice_iter_mut(self.as_mut_slice())
    }

    /// The array that owns the elements of `elements`, of which there are
    /// `len`, with room for `cap`.
    pub fn from_raw_parts(elements: std::vec::Vec<T>, len: usize, cap: usize) -> (v: Self)
        requires
            len == elements@.len(),
        ensures
            v@ == elements@,
            v.spec_capacity() == cap,
    {
        Self { elements, capacity: cap }
    }
}

impl<T, I: core::slice::SliceIndex<[T]>> core::ops::Index<I> for Vec<T> {
    type Output = I::Output;

    /// The element, or the elements, at `index`, which must lie within the
    /// live elements.
    fn index(&self, index: I) -> (output: &Self::Output)
        ensures
            exists|s: &[T]|
                #[trigger] s@ == self@ && call_ensures(
                    <I as core::slice::SliceIndex<[T]>>::index,
                    (index, s),
                    output,
                ),
    {
        core::ops::Index::index(self.as_slice(), index)
    }
}

impl<T, I: core::slice::SliceIndex<[T]>> vstd::std_specs::core::IndexSpecImpl<I> for Vec<T> {
    open spec fn index_req(&self, index: &I) -> bool {
        forall|s: &[T]| #[trigger] s@ == self@ ==> index.index_req(s)
    }
}

impl<'a, T> IntoIterator for &'a Vec<T> {
    type Item = &'a T;

    type IntoIter = core::slice::Iter<'a, T>;

    /// An iterator over the live elements, in array order.
    fn into_iter(self) -> (iter: core::slice::Iter<'a, T>)
        ensures
            vstd::std_specs::slice::into_iter_elts(iter) == self@,
    {
        self.iter()
    }
}

impl<'a, T> IntoIterator for &'a mut Vec<T> {
    type Item = &'a mut T;

    type IntoIter = core::slice::IterMut<'a, T>;

    /// An iterator over the live elements, in array order, that hands out
    /// each to be changed in place.
    fn into_iter(self) -> (iter: core::slice::IterMut<'a, T>)
        ensures
            final(self)@.len() == old(self)@.len(),
            final(self).spec_capacity() == old(self).spec_capacity(),
    {
        self.iter_mut()
    }
}

impl<T: Clone> Vec<T> {
    /// A new array that holds a clone of each element, in order, built by
    /// pushing them onto an empty array.
    pub fn clone(&self) -> (copy: Self)
        requires
            room_for(0, 0, self@.len()),
        ensures
            copy@.len() == self@.len(),
            forall|i: int| 0 <= i < self@.len() ==> cloned(self@[i], #[trigger] copy@[i]),
            copy.spec_capacity() == capacity_after_pushes(0, 0, self@.len()),
    {
        let mut c = Vec::<T>::new();
        let count: usize = self.elements.len();
        let mut i: usize = 0;
        while i < count
            invariant
                i <= count,
                count == self@.len(),
                c@.len() == i,
                forall|j: int| 0 <= j < i ==> cloned(self@[j], #[trigger] c@[j]),
                c.has_room_for((count - i) as nat),
                capacity_after_pushes(c@.len(), c.spec_capacity(), (count - i) as nat)
                    == capacity_after_pushes(0, 0, self@.len()),
            decreases count - i,
        {
            let v = self.get_unchecked(i);
            c.push(v.clone());
            i += 1;
        }
        c
    }
}

/// Appending a slice of copyable elements to a collection.
pub trait VecAppend<E: Copy> {
    /// The elements of the collection, in order.
    spec fn elements(&self) -> Seq<E>;

    /// Whether `n` more elements can be appended.
    spec fn can_append(&self, n: nat) -> bool;

    /// Appends the elements of `arr`, in order.
    fn append(&mut self, arr: &[E])
        requires
            old(self).can_append(arr@.len()),
        ensures
            final(self).elements() == old(self).elements() + arr@,
    ;
}

impl<T: Copy> VecAppend<T> for Vec<T> {
    open spec fn elements(&self) -> Seq<T> {
        self@
    }

    open spec fn can_append(&self, n: nat) -> bool {
        self.has_room_for(n)
    }

    /// Pushes the elements of `arr` one after another.
    fn append(&mut self, arr: &[T])
        ensures
            final(self).spec_capacity() == capacity_after_pushes(
                old(self)@.len(),
                old(self).spec_capacity(),
                arr@.len(),
            ),
    {
        let mut i: usize = 0;
        while i < arr.len()
            invariant
                i <= arr@.len(),
                self@ == old(self)@ + arr@.subrange(0, i as int),
                self.has_room_for((arr@.len() - i) as nat),
                capacity_after_pushes(self@.len(), self.spec_capacity(), (arr@.len() - i) as nat)
                    == capacity_after_pushes(
                    old(self)@.len(),
                    old(self).spec_capacity(),
                    arr@.len(),
                ),
            decreases arr@.len() - i,
        {
            self.push(arr[i]);
            i += 1;
            assert(self@ =~= old(self)@ + arr@.subrange(0, i as int));
        }
        assert(arr@.subrange(0, arr@.len() as int) =~= arr@);
    }
}

/// The contents after the elements of `values` have been pushed, one after
/// another, onto the contents `start`.
pub open spec fn pushed_all<T>(start: Seq<T>, values: Seq<T>) -> Seq<T>
    decreases values.len(),
{
    if values.len() == 0 {
        start
    } else {
        pushed_all(start.push(values.first()), values.drop_first())
    }
}

/// After the elements of `values` have been pushed onto an empty array, the
/// array has as many elements as `values`, and the element at each index is
/// the one that was pushed at that turn.
pub proof fn lemma_pushes_onto_empty<T>(values: Seq<T>)
    ensures
        pushed_all(Seq::<T>::empty(), values).len() == values.len(),
        forall|i: int|
            0 <= i < values.len() ==> pushed_all(Seq::<T>::empty(), values)[i] == values[i],
{
    lemma_pushes_append(Seq::<T>::empty(), values);
    assert(Seq::<T>::empty() + values =~= values);
}

/// Pushing the elements of `values` one after another appends `values`.
pub proof fn lemma_pushes_append<T>(start: Seq<T>, values: Seq<T>)
    ensures
        pushed_all(start, values) == start + values,
    decreases values.len(),
{
    if values.len() == 0 {
        assert(start + values =~= start);
    } else {
        lemma_pushes_append(start.push(values.first()), values.drop_first());
        assert(start.push(values.first()) + values.drop_first() =~= start + values);
    }
}

/// A pop right after a push returns the pushed element and leaves the
/// contents, and so the length, as they were before the push.
pub proof fn lemma_pop_undoes_push<T>(contents: Seq<T>, x: T)
    ensures
        contents.push(x).len() > 0,
        contents.push(x).last() == x,
        contents.push(x).drop_last() == contents,
        contents.push(x).drop_last().len() == contents.len(),
{
    assert(contents.push(x).drop_last() =~= contents);
}

/// A pop right after a push returns the pushed element and leaves the
/// elements, and so the length, as they were before the push; the capacity
/// stays as the push left it.
pub proof fn lemma_pop_after_push<T>(
    array: &mut Vec<T>,
    x: T,
    pushed: &mut Vec<T>,
    out: Option<T>,
)
    requires
        call_requires(Vec::<T>::push, (array, x)),
        call_ensures(Vec::<T>::push, (array, x), ()),
        *pushed == *final(array),
        call_ensures(Vec::<T>::pop, (pushed,), out),
    ensures
        out == Some(x),
        final(pushed)@ == old(array)@,
        final(pushed)@.len() == old(array)@.len(),
        final(pushed).spec_capacity() == final(array).spec_capacity(),
{
    assert(old(array)@.push(x).drop_last() =~= old(array)@);
}

/// An array that holds no more than it has room for can take `n` more
/// elements if they fit into its capacity, or if the length that it then has
/// is at most half of the largest `usize`, rounded up.
pub proof fn lemma_room_for(len: nat, capacity: usize, n: nat)
    requires
        len <= capacity,
        len + n <= capacity || len + n <= usize::MAX / 2 + 1,
    ensures
        room_for(len, capacity, n),
    decreases n,
{
    if n > 0 {
        lemma_room_for(len + 1, capacity_after_push(len, capacity) as usize, (n - 1) as nat);
    }
}

} // verus!
