use stackvec::ArrayVec;

use std::cell::Cell;
use std::rc::Rc;

/// An element type that counts how many times it is released.
struct Counted {
    releases: Rc<Cell<u32>>,
}

impl Drop for Counted {
    fn drop(&mut self) {
        self.releases.set(self.releases.get() + 1);
    }
}

#[test]
fn clear_releases_each_element_once() {
    let releases = Rc::new(Cell::new(0));
    let mut v = ArrayVec::<Counted, 8>::new();
    for _ in 0..4 {
        v.push(Counted {
            releases: Rc::clone(&releases),
        });
    }
    assert_eq!(releases.get(), 0);
    v.clear();
    assert_eq!(releases.get(), 4);
    assert!(v.is_empty());
    assert_eq!(v.len(), 0);
    drop(v);
    assert_eq!(releases.get(), 4);
}

#[test]
fn destruction_releases_each_element_once() {
    let releases = Rc::new(Cell::new(0));
    let v = {
        let mut v = ArrayVec::<Counted, 4>::new();
        for _ in 0..3 {
            v.push(Counted {
                releases: Rc::clone(&releases),
            });
        }
        v
    };
    drop(v);
    assert_eq!(releases.get(), 3);
}

#[test]
fn push_pop_round_trip_reverses() {
    let mut v = ArrayVec::<u32, 4>::new();
    let input = [10, 20, 30, 40];
    for x in input {
        v.push(x);
    }
    assert!(v.is_full());
    for x in input.iter().rev() {
        assert_eq!(v.pop(), Some(*x));
    }
    assert_eq!(v.pop(), None);
    assert!(v.is_empty());
}

#[test]
fn swap_remove_moves_last_to_front() {
    let mut v = ArrayVec::<i32, 3>::new();
    for x in [1, 2, 3] {
        v.push(x);
    }
    assert_eq!(v.swap_remove(0), 1);
    assert_eq!(v.as_slice(), [3, 2]);
}

#[test]
fn into_array_fails_when_not_full() {
    let mut v = ArrayVec::<i32, 5>::new();
    v.push(1);
    v.push(2);
    assert!(v.into_array().is_none());
}

#[test]
fn into_array_succeeds_exactly_when_full() {
    let mut v = ArrayVec::<i32, 2>::new();
    v.push(7);
    v.push(9);
    assert_eq!(v.into_array().unwrap(), [7, 9]);
}

#[test]
fn resize_grow_preserves_order() {
    let mut v = ArrayVec::<i32, 3>::new();
    for x in [1, 2, 3] {
        v.push(x);
    }
    let mut w = v.resize::<5>().unwrap();
    assert_eq!(w.as_slice(), [1, 2, 3]);
    assert_eq!(w.capacity(), 5);
    w.push(4);
    w.push(5);
    assert_eq!(w.as_slice(), [1, 2, 3, 4, 5]);
}

#[test]
fn resize_shrink_below_len_fails() {
    let mut v = ArrayVec::<i32, 5>::new();
    for x in [1, 2, 3] {
        v.push(x);
    }
    assert!(v.resize::<2>().is_none());
}

#[test]
fn resize_shrink_to_exact_len_succeeds() {
    let mut v = ArrayVec::<i32, 5>::new();
    for x in [1, 2, 3] {
        v.push(x);
    }
    let w = v.resize::<3>().unwrap();
    assert_eq!(w.as_slice(), [1, 2, 3]);
    assert!(w.is_full());
}

#[test]
fn consuming_iteration_yields_every_live_element() {
    let mut v = ArrayVec::<i32, 5>::new();
    for x in [4, 5, 6] {
        v.push(x);
    }
    let out = v.into_iter();
    assert_eq!(out.len(), 3);
    assert_eq!(out, vec![4, 5, 6]);
}

#[test]
fn iteration_is_ordered_and_restartable() {
    let mut v = ArrayVec::<i32, 4>::new();
    for x in [8, 6, 7] {
        v.push(x);
    }
    let first: Vec<i32> = v.iter().copied().collect();
    assert_eq!(first, vec![8, 6, 7]);
    let second: Vec<i32> = v.iter().copied().collect();
    assert_eq!(second, vec![8, 6, 7]);
}

#[test]
fn extend_from_slice_appends_clones_in_order() {
    let mut v = ArrayVec::<String, 4>::new();
    v.push(String::from("a"));
    let more = [String::from("b"), String::from("c")];
    v.extend_from_slice(&more);
    assert_eq!(v.len(), 3);
    assert_eq!(v.as_slice(), ["a", "b", "c"]);
    assert_eq!(more[0], "b");
}

#[test]
fn clone_is_independent() {
    let mut v = ArrayVec::<i32, 3>::new();
    for x in [1, 2, 3] {
        v.push(x);
    }
    let mut w = v.clone();
    assert_eq!(w.as_slice(), [1, 2, 3]);
    *w.get_mut(0).unwrap() = 99;
    assert_eq!(v.as_slice(), [1, 2, 3]);
    assert_eq!(w.as_slice(), [99, 2, 3]);
}

#[test]
fn default_is_empty() {
    let v: ArrayVec<i32, 3> = Default::default();
    assert!(v.is_empty());
    assert_eq!(v.capacity(), 3);
}

#[test]
fn get_on_empty_is_none() {
    let v = ArrayVec::<i32, 3>::new();
    assert_eq!(v.get(0), None);
    assert!(!v.is_full());
}

#[test]
fn retain_keeps_nothing_when_predicate_is_false() {
    let mut v = ArrayVec::<i32, 4>::new();
    for x in [1, 2, 3] {
        v.push(x);
    }
    v.retain(|_| false);
    assert!(v.is_empty());
}

#[test]
fn retain_keeps_everything_when_predicate_is_true() {
    let mut v = ArrayVec::<i32, 4>::new();
    for x in [1, 2, 3] {
        v.push(x);
    }
    v.retain(|_| true);
    assert_eq!(v.as_slice(), [1, 2, 3]);
}
