//! The shared owner of one heap value, with a count of its live handles.

use vstd::prelude::*;

verus! {

/// Calls `fetch_sub` of std's `AtomicIsize` with 1 and the sequentially
/// consistent ordering. The count wraps on overflow, so the call never
/// unwinds. Other handles may change the count at any time: nothing is
/// claimed of the value that comes back.
#[verifier::external_body]
fn fetch_sub_one(count: &core::sync::atomic::AtomicIsize) -> (previous: isize)
    opens_invariants none
    no_unwind
{
    count.fetch_sub(1, core::sync::atomic::Ordering::SeqCst)
}

/// Calls `clone` of std's `Arc`: the pointer that it returns points to the
/// allocation that `block` points to, so both hold the same block.
#[verifier::external_body]
fn share_block<T: ?Sized>(block: &std::sync::Arc<ArcCell<T>>) -> (shared: std::sync::Arc<
    ArcCell<T>,
>)
    ensures
        shared == *block,
{
    block.clone()
}

/// The block that the handles share: the value and the number of handles.
pub struct ArcCell<T: ?Sized> {
    count: core::sync::atomic::AtomicIsize,
    data: T,
}

impl<T: Sized> ArcCell<T> {
    /// A block that holds `x` and counts one handle.
    pub fn new(x: T) -> (cell: Self)
        ensures
            *cell.value() == x,
    {
        ArcCell { data: x, count: core::sync::atomic::AtomicIsize::new(1) }
    }
}

impl<T: ?Sized> ArcCell<T> {
    /// The value in the block.
    pub closed spec fn value(&self) -> &T {
        &self.data
    }

    /// The number of handles, as it is at some moment during the call.
    pub fn count(&self) -> isize {
        self.count.load(core::sync::atomic::Ordering::Relaxed)
    }

    /// Counts one handle more, atomically.
    pub fn inc(&self) {
        self.count.fetch_add(1, core::sync::atomic::Ordering::SeqCst);
    }

    /// Counts one handle less, atomically, and returns the count from before.
    pub fn dec(&self) -> isize
        opens_invariants none
        no_unwind
    {
        fetch_sub_one(&self.count)
    }
}

/// A handle on a shared heap value. The value lives as long as its
/// longest-lived handle.
pub struct Arc<T: ?Sized>(std::sync::Arc<ArcCell<T>>);

impl<T: ?Sized> Arc<T> {
    /// The shared value.
    pub closed spec fn value(&self) -> &T {
        self.0.value()
    }

    /// The shared value.
    pub fn as_ptr(this: &Arc<T>) -> (value: &T)
        ensures
            value == this.value(),
    {
        &this.0.data
    }

}

impl<T: ?Sized> AsRef<T> for Arc<T> {
    /// The shared value.
    fn as_ref(&self) -> (value: &T)
        ensures
            value == self.value(),
    {
        &self.0.data
    }
}

impl<T: Sized> Arc<T> {
    /// Moves `x` into a new block with one handle, and returns that handle.
    pub fn new(x: T) -> (handle: Self)
        ensures
            *handle.value() == x,
    {
        Self(std::sync::Arc::new(ArcCell::new(x)))
    }
}

impl<T: ?Sized> Clone for Arc<T> {
    /// Another handle on the same block, which then counts one handle more.
    fn clone(&self) -> (handle: Self)
        ensures
            handle.value() == self.value(),
    {
        self.0.inc();
        Self(share_block(&self.0))
    }
}

impl<T: ?Sized> core::ops::Deref for Arc<T> {
    type Target = T;

    fn deref(&self) -> (value: &T)
        ensures
            value == self.value(),
    {
        &self.0.data
    }
}

impl<T: ?Sized> Drop for Arc<T> {
    /// Counts one handle less, and finds from the count before whether this
    /// was the last handle. The value is left as it is: the pointer to the
    /// block goes after this, and with the last pointer the block.
    fn drop(&mut self)
        ensures
            final(self).value() == old(self).value(),
        opens_invariants none
        no_unwind
    {
        let previous = self.0.dec();
        let _last = tears_down_last(previous);
    }
}

/// What happens to a block through one of its handles.
pub enum HandleEvent {
    /// The handle is duplicated: the count goes up by one.
    Duplicate,
    /// The handle is torn down: the count goes down by one.
    Teardown,
}

/// Whether a teardown that found the count at `previous`, before its
/// decrement, tore down the last handle.
pub open spec fn is_last_handle(previous: int) -> bool {
    previous == 1
}

/// The count after `event`.
pub open spec fn count_after(count: int, event: HandleEvent) -> int {
    match event {
        HandleEvent::Duplicate => count + 1,
        HandleEvent::Teardown => count - 1,
    }
}

/// Whether a teardown that found the count at `previous`, before its
/// decrement, tore down the last handle.
pub fn tears_down_last(previous: isize) -> (last: bool)
    ensures
        last == is_last_handle(previous as int),
    opens_invariants none
    no_unwind
{
    previous == 1
}

/// One step of the count: the count after `event`, and whether `event` tore
/// down the last handle.
pub fn count_step(count: isize, event: HandleEvent) -> (next: (isize, bool))
    requires
        isize::MIN < count < isize::MAX,
    ensures
        next.0 == count_after(count as int, event),
        next.1 == (event == HandleEvent::Teardown && is_last_handle(count as int)),
{
    match event {
        HandleEvent::Duplicate => (count + 1, false),
        HandleEvent::Teardown => (count - 1, tears_down_last(count)),
    }
}

/// The count after all of `events`, in order.
pub open spec fn count_after_all(count: int, events: Seq<HandleEvent>) -> int
    decreases events.len(),
{
    if events.len() == 0 {
        count
    } else {
        count_after_all(count_after(count, events.first()), events.drop_first())
    }
}

/// Whether each of `events` comes through a live handle: the count is at
/// least one whenever an event happens.
pub open spec fn handles_live(count: int, events: Seq<HandleEvent>) -> bool
    decreases events.len(),
{
    events.len() == 0 || (count >= 1 && handles_live(
        count_after(count, events.first()),
        events.drop_first(),
    ))
}

/// How many of the teardowns among `events` tear down the last handle.
pub open spec fn last_teardowns(count: int, events: Seq<HandleEvent>) -> nat
    decreases events.len(),
{
    if events.len() == 0 {
        0
    } else {
        let here: nat = if events.first() == HandleEvent::Teardown && is_last_handle(count) {
            1
        } else {
            0
        };
        here + last_teardowns(count_after(count, events.first()), events.drop_first())
    }
}

/// When the handles of a block are duplicated and torn down in any order,
/// each through a live handle, until the count is zero, exactly one teardown
/// finds the count at one, and it is the event that comes last.
pub proof fn lemma_one_last_teardown(count: int, events: Seq<HandleEvent>)
    requires
        count >= 1,
        handles_live(count, events),
        count_after_all(count, events) == 0,
    ensures
        events.len() > 0,
        events.last() == HandleEvent::Teardown,
        last_teardowns(count, events) == 1,
        last_teardowns(count, events.drop_last()) == 0,
    decreases events.len(),
{
    if events.len() == 0 {
        assert(count_after_all(count, events) == count);
    }
    let next = count_after(count, events.first());
    let rest = events.drop_first();
    assert(handles_live(next, rest));
    assert(count_after_all(next, rest) == 0);
    if next == 0 {
        assert(rest.len() == 0);
        assert(last_teardowns(next, rest) == 0);
        assert(events.drop_last() =~= Seq::<HandleEvent>::empty());
    } else {
        lemma_one_last_teardown(next, rest);
        assert(events.last() == rest.last());
        assert(events.drop_last().drop_first() =~= rest.drop_last());
        assert(events.drop_last().first() == events.first());
    }
}

} // verus!
