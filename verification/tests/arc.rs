#![allow(non_snake_case)]

use rs_alloc::arc::Arc;
use rs_alloc::arc::HandleEvent;

struct TestStruct {
    a: std::vec::Vec<usize>,
}

impl Drop for TestStruct {
    fn drop(&mut self) {}
}

#[test]
fn testArc() {
    let mut v = std::vec::Vec::new();
    v.push(123);
    v.push(456);
    let _ = Arc::new(TestStruct { a: v });
}

#[test]
fn testArcRef() {
    let mut v = std::vec::Vec::new();
    v.push(123);
    v.push(456);
    let a = Arc::new(TestStruct { a: v });
    let d = a.as_ref();
    assert_eq!(d.a[0], 123);
    assert_eq!(d.a[1], 456);
    let f = &*a;
    assert_eq!(f.a[0], 123);
    assert_eq!(f.a[1], 456);
}

struct CountsDrops(std::sync::Arc<std::sync::atomic::AtomicUsize>);

impl Drop for CountsDrops {
    fn drop(&mut self) {
        self.0.fetch_add(1, std::sync::atomic::Ordering::SeqCst);
    }
}

#[test]
fn shared_value_is_dropped_once_with_the_last_handle() {
    let drops = std::sync::Arc::new(std::sync::atomic::AtomicUsize::new(0));
    let first = Arc::new(CountsDrops(drops.clone()));
    let mut handles = std::vec::Vec::new();
    for _ in 0..5 {
        handles.push(first.clone());
    }
    // Tear the six handles down in a mixed order.
    drop(handles.remove(2));
    assert_eq!(drops.load(std::sync::atomic::Ordering::SeqCst), 0);
    drop(first);
    assert_eq!(drops.load(std::sync::atomic::Ordering::SeqCst), 0);
    drop(handles.remove(0));
    drop(handles.pop());
    drop(handles.pop());
    assert_eq!(drops.load(std::sync::atomic::Ordering::SeqCst), 0);
    assert_eq!(handles.len(), 1);
    drop(handles.pop());
    assert_eq!(drops.load(std::sync::atomic::Ordering::SeqCst), 1);
}

#[test]
fn handles_share_one_value() {
    let a = Arc::new(std::vec::Vec::from([1, 2, 3]));
    let b = a.clone();
    assert_eq!(*b.as_ref(), [1, 2, 3]);
    assert!(std::ptr::eq(a.as_ref(), b.as_ref()));
    assert!(std::ptr::eq(Arc::as_ptr(&a), &*b));
    drop(a);
    assert_eq!(b.len(), 3);
}

#[test]
fn block_counts_its_handles() {
    let cell = rs_alloc::arc::ArcCell::new(5u8);
    assert_eq!(cell.count(), 1);
    cell.inc();
    cell.inc();
    assert_eq!(cell.count(), 3);
    assert_eq!(cell.dec(), 3);
    assert_eq!(cell.dec(), 2);
    assert_eq!(cell.count(), 1);
    assert_eq!(cell.dec(), 1);
    assert_eq!(cell.count(), 0);
}

#[test]
fn only_a_count_of_one_marks_the_last_handle() {
    assert!(rs_alloc::arc::tears_down_last(1));
    assert!(!rs_alloc::arc::tears_down_last(2));
    assert!(!rs_alloc::arc::tears_down_last(0));
    assert!(!rs_alloc::arc::tears_down_last(-1));
    assert!(!rs_alloc::arc::tears_down_last(isize::MAX));
}

#[test]
fn count_steps_follow_the_handles() {
    assert_eq!(rs_alloc::arc::count_step(1, HandleEvent::Duplicate), (2, false));
    assert_eq!(rs_alloc::arc::count_step(2, HandleEvent::Teardown), (1, false));
    assert_eq!(rs_alloc::arc::count_step(1, HandleEvent::Teardown), (0, true));
    // Three duplications and four teardowns in a mixed order.
    let events = [
        HandleEvent::Duplicate,
        HandleEvent::Teardown,
        HandleEvent::Duplicate,
        HandleEvent::Duplicate,
        HandleEvent::Teardown,
        HandleEvent::Teardown,
        HandleEvent::Teardown,
    ];
    let mut count: isize = 1;
    let mut last_seen = 0;
    let mut last_at = 0;
    for (i, e) in events.into_iter().enumerate() {
        let (next, last) = rs_alloc::arc::count_step(count, e);
        count = next;
        if last {
            last_seen += 1;
            last_at = i;
        }
    }
    assert_eq!(count, 0);
    assert_eq!(last_seen, 1);
    assert_eq!(last_at, 6);
}

#[test]
fn block_and_decision_agree() {
    let cell = rs_alloc::arc::ArcCell::new(0u8);
    cell.inc();
    assert!(!rs_alloc::arc::tears_down_last(cell.dec()));
    assert!(rs_alloc::arc::tears_down_last(cell.dec()));
}
