//! The exclusive owner of one heap value.

use vstd::prelude::*;

verus! {

/// The one owning pointer to a heap value.
pub struct Unique<T: ?Sized> {
    ptr: std::boxed::Box<T>,
}

impl<T: ?Sized> Unique<T> {
    /// The value that the pointer owns.
    pub closed spec fn value(&self) -> &T {
        &*self.ptr
    }

    /// Wraps the owning pointer `ptr`.
    pub fn new(ptr: std::boxed::Box<T>) -> (unique: Self)
        ensures
            unique.value() == &*ptr,
    {
        Self { ptr }
    }

    /// The owned value, to be changed in place.
    pub fn get_mut_ptr(&mut self) -> (value: &mut T)
        ensures
            &*value == old(self).value(),
            final(self).value() == &*final(value),
    {
        &mut *self.ptr
    }

    /// The owned value.
    pub fn get_ptr(&self) -> (value: &T)
        ensures
            value == self.value(),
    {
        &*self.ptr
    }
}

/// The exclusive owner of one heap value: the value lives as long as its
/// owner, and leaves the heap when the owner is released.
pub struct Box<T: ?Sized> {
    uptr: Unique<T>,
}

impl<T: Sized> Box<T> {
    /// Moves `x` to the heap and owns it there.
    pub fn new(x: T) -> (owner: Self)
        ensures
            *owner.value() == x,
    {
        Self { uptr: Unique::new(std::boxed::Box::new(x)) }
    }

    /// Consumes the owner and gives back the value that it held.
    pub fn unbox(self) -> (value: T)
        ensures
            value == *self.value(),
    {
        *Self::into_raw(self)
    }

    /// The owning pointer inside the owner.
    pub fn get_unique(&mut self) -> (unique: &mut Unique<T>)
        ensures
            *unique == old(self).unique(),
            final(self).unique() == *final(unique),
    {
        &mut self.uptr
    }
}

impl<T: ?Sized> Box<T> {
    /// The owning pointer inside the owner.
    pub closed spec fn unique(&self) -> Unique<T> {
        self.uptr
    }

    /// The value that the owner holds.
    pub open spec fn value(&self) -> &T {
        self.unique().value()
    }

    /// The owned value.
    pub fn as_ref(&self) -> (value: &T)
        ensures
            value == self.value(),
    {
        self.uptr.get_ptr()
    }

    /// The owned value, to be changed in place.
    pub fn as_mut(&mut self) -> (value: &mut T)
        ensures
            &*value == old(self).value(),
            final(self).value() == &*final(value),
    {
        self.uptr.get_mut_ptr()
    }

    /// Gives up the owner for the bare owning pointer.
    pub fn into_raw(this: Self) -> (raw: std::boxed::Box<T>)
        ensures
            &*raw == this.value(),
    {
        this.uptr.ptr
    }

    /// The owner of what the bare owning pointer `raw` owns.
    pub fn from_raw(raw: std::boxed::Box<T>) -> (owner: Self)
        ensures
            owner.value() == &*raw,
    {
        Self { uptr: Unique::new(raw) }
    }
}

/// Releasing a freshly created owner gives back the very value that was
/// stored in it.
pub proof fn lemma_unbox_returns_stored<T>(x: T, owner: Box<T>, released: T)
    requires
        call_ensures(Box::<T>::new, (x,), owner),
        call_ensures(Box::<T>::unbox, (owner,), released),
    ensures
        released == x,
{
}

/// An owner that went to a bare pointer and back holds the value that it
/// held before.
pub proof fn lemma_raw_round_trip<T>(owner: Box<T>, raw: std::boxed::Box<T>, back: Box<T>)
    requires
        call_ensures(Box::<T>::into_raw, (owner,), raw),
        call_ensures(Box::<T>::from_raw, (raw,), back),
    ensures
        back.value() == owner.value(),
{
}

} // verus!
