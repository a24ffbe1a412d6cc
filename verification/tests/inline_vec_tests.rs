use std::cell::RefCell;
use std::rc::Rc;

use inline_collections::InlineVec;

#[test]
fn push_pop_reverse() {
    let values = [10, 20, 30, 40];
    let mut v: InlineVec<i32, 8> = InlineVec::new();
    for x in values {
        assert!(v.push(x).is_ok());
    }
    assert_eq!(v.len(), values.len());
    for x in values.iter().rev() {
        assert_eq!(v.pop(), Some(*x));
    }
    assert!(v.is_empty());
    assert_eq!(v.pop(), None);
}

#[test]
fn push_full_rejects() {
    let mut v: InlineVec<i32, 3> = InlineVec::new();
    assert!(v.push(1).is_ok());
    assert!(v.push(2).is_ok());
    assert!(v.push(3).is_ok());
    assert_eq!(v.len(), 3);
    assert_eq!(v.push(99), Err(99));
    assert_eq!(v.len(), 3);
    assert_eq!(v.items(), &[1, 2, 3]);
}

#[test]
fn capacity_is_fixed() {
    let v: InlineVec<u8, 5> = InlineVec::new();
    assert_eq!(v.capacity(), 5);
    assert_eq!(v.len(), 0);
    assert!(v.is_empty());
}

#[test]
fn peek_and_get() {
    let mut v: InlineVec<i32, 4> = InlineVec::new();
    assert!(v.peek().is_none());
    assert!(v.get(0).is_none());
    v.push(7).unwrap();
    v.push(8).unwrap();
    assert_eq!(v.peek(), Some(&8));
    assert_eq!(v.get(0), Some(&7));
    assert_eq!(v.get(1), Some(&8));
    assert_eq!(v.get(2), None);
    assert_eq!(v.items(), &[7, 8]);
}

struct Marker {
    value: i32,
    id: usize,
    drops: Rc<RefCell<Vec<usize>>>,
}

impl Drop for Marker {
    fn drop(&mut self) {
        self.drops.borrow_mut()[self.id] += 1;
    }
}

fn alloc_marker(drops: &Rc<RefCell<Vec<usize>>>, value: i32) -> Marker {
    let id = drops.borrow().len();
    drops.borrow_mut().push(0);
    Marker {
        value,
        id,
        drops: Rc::clone(drops),
    }
}

#[test]
fn drops_each_live_element_once() {
    let drops: Rc<RefCell<Vec<usize>>> = Rc::new(RefCell::new(Vec::new()));
    {
        let mut v: InlineVec<Marker, 4> = InlineVec::new();
        for value in [1, 2, 3] {
            assert!(v.push(alloc_marker(&drops, value)).is_ok());
        }
        let popped = v.pop().unwrap();
        assert_eq!(popped.value, 3);
        drop(popped);
        assert_eq!(drops.borrow().as_slice(), &[0, 0, 1]);
    }
    assert_eq!(drops.borrow().as_slice(), &[1, 1, 1]);
}

#[test]
fn items_mut_rewrites_in_place() {
    let mut v: InlineVec<i32, 4> = InlineVec::new();
    v.push(1).unwrap();
    v.push(2).unwrap();
    let s = v.items_mut();
    s[0] = 10;
    s.swap(0, 1);
    assert_eq!(v.items(), &[2, 10]);
    assert_eq!(v.len(), 2);
}
