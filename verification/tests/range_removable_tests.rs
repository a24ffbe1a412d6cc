use std::cell::RefCell;
use std::rc::Rc;

use inline_collections::RangeRemovable;

struct Marker {
    value: i32,
    id: usize,
    drops: Rc<RefCell<Vec<usize>>>,
}

impl Drop for Marker {
    fn drop(&mut self) {
        self.drops.borrow_mut()[self.id] += 1;
    }
}

fn alloc_marker(drops: &Rc<RefCell<Vec<usize>>>, value: i32) -> Marker {
    let id = drops.borrow().len();
    drops.borrow_mut().push(0);
    Marker {
        value,
        id,
        drops: Rc::clone(drops),
    }
}

fn validate_swap_remove<const N: usize>(source: [i32; N], pred: impl Fn(&i32) -> bool) {
    let drops: Rc<RefCell<Vec<usize>>> = Rc::new(RefCell::new(Vec::new()));
    {
        let mut vec = Vec::new();
        for x in source {
            vec.push(alloc_marker(&drops, x));
        }
        let removed = vec.swap_remove_all(|e: &Marker| pred(&e.value));
        for e in removed.iter() {
            assert!(pred(&e.value));
        }
        for e in vec.iter() {
            assert!(!pred(&e.value));
        }
    }
    assert!(drops.borrow().iter().all(|count| *count == 1));
}

#[test]
fn swap_remove_all() {
    validate_swap_remove([1, 2, 3], |i| i % 2 == 0);
    validate_swap_remove([1, 2, 3, 4, 5, 6], |i| i % 2 == 0);
}

fn validate_remove<const N: usize>(source: [i32; N], pred: impl Fn(&i32) -> bool) {
    let drops: Rc<RefCell<Vec<usize>>> = Rc::new(RefCell::new(Vec::new()));
    {
        let mut vec = Vec::new();
        for x in source {
            vec.push(alloc_marker(&drops, x));
        }
        let removed = vec.remove_all(|e: &Marker| pred(&e.value));
        for e in removed.iter() {
            assert!(pred(&e.value));
        }
        for e in vec.iter() {
            assert!(!pred(&e.value));
        }
    }
    assert!(drops.borrow().iter().all(|count| *count == 1));
}

#[test]
fn remove_all() {
    validate_remove([1, 2, 3], |i| i % 2 == 0);
    validate_remove([1, 2, 3, 4, 5, 6], |i| i % 2 == 0);
}

#[test]
fn remove_all_keeps_order() {
    let mut v = vec![1, 2, 3, 4, 5, 6];
    let removed = v.remove_all(|x: &i32| x % 2 == 0);
    assert_eq!(v, vec![1, 3, 5]);
    assert_eq!(removed, vec![2, 4, 6]);
}

#[test]
fn swap_remove_all_kept_set() {
    let mut v = vec![1, 2, 3, 4, 5, 6];
    let removed = v.swap_remove_all(|x: &i32| x % 2 == 0);
    let mut kept = v.clone();
    kept.sort();
    assert_eq!(kept, vec![1, 3, 5]);
    let mut taken = removed.clone();
    taken.sort();
    assert_eq!(taken, vec![2, 4, 6]);
}

#[test]
fn swap_remove_all_rightmost_first() {
    let mut v = vec![1, 2, 3, 4, 5, 6];
    let removed = v.swap_remove_all(|x: &i32| x % 2 == 0);
    assert_eq!(removed, vec![6, 4, 2]);
}

#[test]
fn no_match_leaves_unchanged() {
    let mut v = vec![1, 2, 3, 4];
    let removed = v.remove_all(|_x: &i32| false);
    assert_eq!(v, vec![1, 2, 3, 4]);
    assert_eq!(removed.len(), 0);

    let mut w = vec![5, 6, 7];
    let gone = w.swap_remove_all(|_x: &i32| false);
    assert_eq!(w, vec![5, 6, 7]);
    assert_eq!(gone.len(), 0);
}

#[test]
fn remove_all_matches_everything() {
    let mut v = vec![2, 4, 6];
    let removed = v.remove_all(|x: &i32| x % 2 == 0);
    assert!(v.is_empty());
    assert_eq!(removed, vec![2, 4, 6]);
}
