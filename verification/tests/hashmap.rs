use rs_alloc::hashmap::HashMap;
use rs_alloc::vec::Vec;

#[test]
fn test_insert() {
    let mut hm = HashMap::<i32, i32>::new();
    for i in 0..100 {
        hm.set(i, i * 2);
    }

    for i in 0..100 {
        let ret = hm.get(i);
        assert!(ret.is_some());
        match ret {
            Some(o) => assert!(*o == i * 2),
            None => assert!(false),
        }
    }
}

#[test]
fn test_remove() {
    let mut hm = HashMap::<i32, i32>::new();
    for i in 0..100 {
        hm.set(i, i * 2);
    }

    for i in 45..55 {
        hm.remove(i);
        assert!(hm.exist(i) == false);
    }

    for i in 0..45 {
        let ret = hm.get(i);
        assert!(ret.is_some());
        match ret {
            Some(o) => assert!(*o == i * 2),
            None => assert!(false),
        }
    }

    for i in 55..100 {
        let ret = hm.get(i);
        assert!(ret.is_some());
        match ret {
            Some(o) => assert!(*o == i * 2),
            None => assert!(false),
        }
    }

    for i in 45..55 {
        assert!(hm.exist(i) == false);
    }

    assert!(hm.count() == 90);
}

#[test]
fn test_vec_insert() {
    let mut hm = HashMap::<i32, Vec<i32>>::new();
    for i in 0..100 {
        let mut v = Vec::new();
        for j in 0..i * 2 {
            v.push(j);
        }
        hm.set(i, v);
    }

    for i in 0..100 {
        let ret = hm.get(i);
        assert!(ret.is_some());
        match ret {
            Some(o) => {
                for j in 0..i * 2 {
                    assert!((*o)[j as usize] == j)
                }
            }
            None => assert!(false),
        }
    }
}

#[test]
fn empty_map_has_no_entries() {
    let mut hm = HashMap::<i32, i32>::new();
    assert_eq!(hm.count(), 0);
    assert!(hm.get(7).is_none());
    assert!(!hm.exist(7));
    hm.remove(7);
    assert_eq!(hm.count(), 0);
}

#[test]
fn last_set_of_a_key_wins() {
    let mut hm = HashMap::<i32, i32>::new();
    hm.set(5, 1);
    hm.set(9, 100);
    hm.set(5, 2);
    hm.set(5, 3);
    assert_eq!(hm.get(5), Some(&3));
    assert_eq!(hm.get(9), Some(&100));
    assert_eq!(hm.count(), 2);
}

#[test]
fn key_with_hash_zero_is_stored() {
    let mut hm = HashMap::<i32, i32>::new();
    hm.set(0, 11);
    hm.set(1, 22);
    assert_eq!(hm.get(0), Some(&11));
    assert_eq!(hm.get(1), Some(&22));
    hm.remove(0);
    assert!(!hm.exist(0));
    assert_eq!(hm.get(1), Some(&22));
    assert_eq!(hm.count(), 1);
}

#[test]
fn colliding_keys_survive_removals() {
    // With 16 slots the keys 3, 19, 35 and 51 all start probing at slot 3.
    let mut hm = HashMap::<i32, i32>::new();
    for k in [3, 19, 35, 51, 2, 1, 0, 15] {
        hm.set(k, k * 10);
    }
    hm.remove(19);
    hm.remove(3);
    for k in [35, 51, 2, 1, 0, 15] {
        assert_eq!(hm.get(k), Some(&(k * 10)));
    }
    assert!(!hm.exist(3));
    assert!(!hm.exist(19));
    assert_eq!(hm.count(), 6);
    hm.set(3, 33);
    assert_eq!(hm.get(3), Some(&33));
    assert_eq!(hm.count(), 7);
}

#[test]
fn removing_every_other_key_keeps_the_rest() {
    let mut hm = HashMap::<i32, i32>::new();
    for i in -200..200 {
        hm.set(i, i + 1);
    }
    for i in -200..200 {
        if i % 2 == 0 {
            hm.remove(i);
        }
    }
    for i in -200..200 {
        if i % 2 == 0 {
            assert!(!hm.exist(i));
        } else {
            assert_eq!(hm.get(i), Some(&(i + 1)));
        }
    }
    assert_eq!(hm.count(), 200);
    for i in -200..200 {
        hm.remove(i);
    }
    assert_eq!(hm.count(), 0);
}

#[test]
fn removing_an_absent_key_changes_nothing() {
    let mut hm = HashMap::<i32, i32>::new();
    hm.set(1, 10);
    hm.remove(2);
    assert_eq!(hm.count(), 1);
    assert_eq!(hm.get(1), Some(&10));
}

#[test]
fn strings_are_keys() {
    let mut hm = HashMap::<rs_alloc::string::String, i32>::new();
    let words = ["alpha", "beta", "gamma", "delta", "epsilon", "zeta", "eta", "theta"];
    for (i, w) in words.iter().enumerate() {
        hm.set(rs_alloc::string::String::from(w), i as i32);
    }
    assert_eq!(hm.count(), 8);
    hm.remove(rs_alloc::string::String::from("gamma"));
    hm.set(rs_alloc::string::String::from("beta"), 100);
    assert_eq!(hm.get(rs_alloc::string::String::from("beta")), Some(&100));
    assert_eq!(hm.get(rs_alloc::string::String::from("theta")), Some(&7));
    assert!(!hm.exist(rs_alloc::string::String::from("gamma")));
    assert_eq!(hm.count(), 7);
}

#[derive(PartialEq)]
struct Point {
    x: i32,
    y: i32,
}

impl rs_alloc::hash::Hash for Point {
    fn spec_hash(&self) -> usize {
        self.x as usize
    }

    fn hash(&self) -> usize {
        // Every point of one column collides.
        self.x as usize
    }
}

#[test]
fn keys_of_a_caller_work_with_collisions() {
    let mut hm = HashMap::<Point, i32>::new();
    for x in 0..4 {
        for y in 0..25 {
            hm.set(Point { x, y }, x * 100 + y);
        }
    }
    assert_eq!(hm.count(), 100);
    for y in 0..25 {
        hm.remove(Point { x: 2, y });
    }
    assert_eq!(hm.count(), 75);
    for x in 0..4 {
        for y in 0..25 {
            let got = hm.get(Point { x, y });
            if x == 2 {
                assert!(got.is_none());
            } else {
                assert_eq!(got, Some(&(x * 100 + y)));
            }
        }
    }
}

#[test]
fn map_agrees_with_a_reference_under_mixed_operations() {
    let mut hm = HashMap::<i32, i32>::new();
    let mut reference = std::collections::HashMap::<i32, i32>::new();
    let mut state: u64 = 0x2545f4914f6cdd1d;
    for round in 0..20000 {
        state = state
            .wrapping_mul(6364136223846793005)
            .wrapping_add(1442695040888963407);
        let key = ((state >> 33) % 512) as i32 - 256;
        let remove = (state >> 20) % 3 == 0;
        if remove {
            hm.remove(key);
            reference.remove(&key);
        } else {
            hm.set(key, round);
            reference.insert(key, round);
        }
        assert_eq!(hm.count(), reference.len());
        if round % 997 == 0 {
            for k in -256..256 {
                assert_eq!(hm.get(k), reference.get(&k));
                assert_eq!(hm.exist(k), reference.contains_key(&k));
            }
        }
    }
    for k in -256..256 {
        assert_eq!(hm.get(k), reference.get(&k));
    }
}

#[test]
fn equal_strings_are_one_key() {
    let mut hm = HashMap::<rs_alloc::string::String, i32>::new();
    hm.set(rs_alloc::string::String::from("key"), 1);
    let mut roomy = rs_alloc::string::String::with_capacity(64);
    roomy.push_str("key");
    hm.set(roomy, 2);
    assert_eq!(hm.count(), 1);
    let mut asked = rs_alloc::string::String::with_capacity(7);
    asked.push_str("key");
    assert_eq!(hm.get(asked), Some(&2));
    hm.remove(rs_alloc::string::String::from("key"));
    assert_eq!(hm.count(), 0);
    assert!(!hm.exist(rs_alloc::string::String::from("key")));
}
