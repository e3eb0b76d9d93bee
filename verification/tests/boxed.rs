#![allow(non_snake_case)]

use rs_alloc::boxed::Box;
use rs_alloc::boxed::Unique;

#[test]
fn testDrop() {
    let _b0 = Box::new(1234);
    let _b1 = Box::new(1234345);
    let mut v = std::vec::Vec::new();
    for i in 0..100 {
        v.push(i);
    }
    let _bv = Box::new(v);
}

#[test]
fn testDropVecVec() {
    let _b0 = Box::new(1234);
    let _b1 = Box::new(1234345);
    let mut v = std::vec::Vec::new();
    for _ in 0..100 {
        let mut vj = std::vec::Vec::new();
        for j in 0..100 {
            vj.push(j);
        }
        v.push(vj);
    }
    let _bv = Box::new(v);
}

#[test]
fn testBoxUnbox() {
    let b = Box::new(1234);
    let _v = b.unbox();
}

#[test]
fn testBoxUnboxVecVec() {
    let _b0 = Box::new(1234);
    let _b1 = Box::new(1234345);
    let mut v = std::vec::Vec::new();
    for _ in 0..100 {
        let mut vj = std::vec::Vec::new();
        for j in 0..100 {
            vj.push(j);
        }
        v.push(vj);
    }
    let v2 = Box::new(v);
    let _v3 = v2.unbox();
}

#[test]
fn testBoxFromToRaw() {
    let b = Box::new(1234);
    let r = Box::into_raw(b);
    let _b = Box::from_raw(r);
}

trait TestTrait: Drop {
    fn blabla(&self);
}

struct TestStruct {
    a: std::vec::Vec<usize>,
}

impl TestTrait for TestStruct {
    fn blabla(&self) {}
}

impl Drop for TestStruct {
    fn drop(&mut self) {}
}

#[test]
fn testTrait() {
    let mut v = std::vec::Vec::new();
    v.push(123);
    v.push(456);
    let a = Box::new(TestStruct { a: v });
    let raw = Box::into_raw(a);
    let b = Box::from_raw(raw as std::boxed::Box<dyn TestTrait>);
    b.as_ref().blabla();
}

#[test]
fn unbox_returns_the_stored_value() {
    let b = Box::new(0x1234_5678_9abc_def0u64);
    assert_eq!(b.unbox(), 0x1234_5678_9abc_def0u64);
    let s = Box::new(std::string::String::from("kept"));
    assert_eq!(s.unbox(), "kept");
}

#[test]
fn owner_lends_its_value() {
    let mut b = Box::new(TestStruct { a: vec![1, 2] });
    assert_eq!(b.as_ref().a, vec![1, 2]);
    assert_eq!(b.as_mut().a, vec![1, 2]);
    b.as_mut().a[0] = 9;
    assert_eq!(b.as_ref().a, vec![9, 2]);
    b.as_mut().a[0] = 1;
    b.get_unique().get_mut_ptr().a.push(3);
    assert_eq!(b.get_unique().get_ptr().a, vec![1, 2, 3]);
    assert_eq!(b.as_ref().a, vec![1, 2, 3]);
}

#[test]
fn raw_round_trip_keeps_the_value() {
    let b = Box::new(41);
    let mut raw = Box::into_raw(b);
    *raw += 1;
    let back = Box::from_raw(raw);
    assert_eq!(*back.as_ref(), 42);
    let u = Unique::new(std::boxed::Box::new(5));
    assert_eq!(*u.get_ptr(), 5);
}

struct CountsDrops<'a>(&'a std::cell::Cell<u32>);

impl<'a> Drop for CountsDrops<'a> {
    fn drop(&mut self) {
        self.0.set(self.0.get() + 1);
    }
}

#[test]
fn owned_value_is_dropped_once() {
    let drops = std::cell::Cell::new(0);
    {
        let _b = Box::new(CountsDrops(&drops));
        assert_eq!(drops.get(), 0);
    }
    assert_eq!(drops.get(), 1);
    let released = Box::new(CountsDrops(&drops)).unbox();
    assert_eq!(drops.get(), 1);
    drop(released);
    assert_eq!(drops.get(), 2);
}

#[test]
fn writing_through_as_mut_changes_the_owned_value() {
    let mut b = Box::new(5u32);
    let before = std::ptr::from_ref(b.as_ref()).addr();
    assert_eq!(*b.as_mut(), 5);
    *b.as_mut() = 6;
    assert_eq!(*b.as_ref(), 6);
    let after = std::ptr::from_ref(b.as_ref()).addr();
    assert_eq!(before, after);
    assert_eq!(b.unbox(), 6);
}
