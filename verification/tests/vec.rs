use rs_alloc::vec::Vec;
use rs_alloc::vec::VecAppend;

#[test]
fn test_destructor() {
    let mut v = Vec::<Vec<i32>>::new();
    for i in 0..100 {
        let mut vj = Vec::<i32>::new();
        for j in 0..100 {
            vj.push(j * i);
        }
        v.push(vj);
    }
}

#[test]
fn test_iter() {
    let mut v = Vec::new();
    for i in 0..4 {
        v.push(i);
        assert!(v[i] == i);
    }

    let mut counter = 0;
    for i in v.to_iter() {
        if *i != counter {
            panic!("invalid {} != {}", i, counter)
        }
        counter += 1;
    }
}

#[test]
fn test_pop_destructor() {
    let mut v = Vec::<Vec<i32>>::new();
    for i in 0..100 {
        let mut vj = Vec::<i32>::new();
        for j in 0..100 {
            vj.push(j * i);
        }
        v.push(vj);
    }

    assert!(v.len() == 100);
    for _ in 0..100 {
        v.pop();
    }
    assert!(v.len() == 0);
}

#[test]
fn test_pop_destructor_push() {
    let mut v = Vec::<Vec<i32>>::new();
    for i in 0..100 {
        let mut vj = Vec::<i32>::new();
        for j in 0..100 {
            vj.push(j * i);
        }
        v.push(vj);
    }

    for _ in 0..100 {
        v.pop();
    }

    assert!(v.len() == 0);

    for i in 0..100 {
        let mut vj = Vec::<i32>::new();
        for j in 0..100 {
            vj.push(j * i);
        }
        v.push(vj);
    }

    assert!(v.len() == 100);
}

#[test]
fn pushes_keep_their_order() {
    let mut v = Vec::<u64>::new();
    for i in 0..1000u64 {
        v.push(i * 3 + 1);
    }
    assert_eq!(v.len(), 1000);
    for i in 0..1000usize {
        assert_eq!(v[i], (i as u64) * 3 + 1);
        assert_eq!(*v.get_unchecked(i), (i as u64) * 3 + 1);
    }
}

#[test]
fn pop_gives_back_what_was_pushed() {
    let mut v = Vec::<i32>::new();
    v.push(1);
    v.push(2);
    let before = v.len();
    v.push(77);
    assert_eq!(v.pop(), Some(77));
    assert_eq!(v.len(), before);
    assert_eq!(v.pop(), Some(2));
    assert_eq!(v.pop(), Some(1));
    assert_eq!(v.pop(), None);
    assert_eq!(v.len(), 0);
}

#[test]
fn capacity_starts_at_sixteen_and_doubles() {
    let mut v = Vec::<u8>::new();
    assert_eq!(v.capacity(), 0);
    v.push(0);
    assert_eq!(v.capacity(), 16);
    for i in 1..16 {
        v.push(i);
    }
    assert_eq!(v.capacity(), 16);
    v.push(16);
    assert_eq!(v.capacity(), 32);
    for i in 17..33 {
        v.push(i);
    }
    assert_eq!(v.capacity(), 64);
    assert_eq!(v.len(), 33);
    for _ in 0..33 {
        v.pop();
    }
    assert_eq!(v.capacity(), 64);
}

#[test]
fn with_capacity_reserves_without_elements() {
    let mut v = Vec::<i32>::with_capacity(3);
    assert_eq!(v.len(), 0);
    assert_eq!(v.capacity(), 3);
    v.push(1);
    v.push(2);
    v.push(3);
    assert_eq!(v.capacity(), 3);
    v.push(4);
    assert_eq!(v.capacity(), 6);
    let w = Vec::<i32>::with_capacity(0);
    assert_eq!(w.capacity(), 0);
}

#[test]
fn last_and_slices_follow_the_elements() {
    let mut v = Vec::<i32>::new();
    assert_eq!(v.last(), None);
    v.push(4);
    v.push(5);
    assert_eq!(v.last(), Some(&5));
    assert_eq!(v.as_slice(), &[4, 5]);
    v.as_mut_slice()[0] = 40;
    *v.get_unchecked_mut(1) = 50;
    assert_eq!(v.as_slice(), &[40, 50]);
    assert_eq!(v[0..1], [40]);
    let seen: std::vec::Vec<i32> = v.iter().copied().collect();
    assert_eq!(seen, vec![40, 50]);
}

#[test]
fn append_and_clone_copy_the_elements() {
    let mut v = Vec::<u8>::new();
    v.push(1);
    v.append(&[2, 3, 4]);
    assert_eq!(v.as_slice(), &[1, 2, 3, 4]);
    let c = v.clone();
    assert_eq!(c.as_slice(), &[1, 2, 3, 4]);
    assert_eq!(c.capacity(), 16);
    v.append(&[]);
    assert_eq!(v.len(), 4);
}

#[test]
fn from_raw_parts_takes_over_the_storage() {
    let v = Vec::from_raw_parts(vec![7, 8, 9], 3, 10);
    assert_eq!(v.len(), 3);
    assert_eq!(v.capacity(), 10);
    assert_eq!(v.as_slice(), &[7, 8, 9]);
}

#[test]
fn references_iterate_in_order() {
    let mut v = Vec::<i32>::new();
    for i in 0..5 {
        v.push(i);
    }
    let mut seen = std::vec::Vec::new();
    for x in &v {
        seen.push(*x);
    }
    assert_eq!(seen, vec![0, 1, 2, 3, 4]);
    for x in &mut v {
        *x *= 10;
    }
    for x in v.iter_mut() {
        *x += 1;
    }
    assert_eq!(v.as_slice(), &[1, 11, 21, 31, 41]);
    assert_eq!(v.len(), 5);
}
