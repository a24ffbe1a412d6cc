use inline_collections::iterators::AnyPeekable;
use inline_collections::iterators::VecPeekable;

fn validate_peek_any<const N: usize>(items: [i32; N]) {
    let mut peekable = AnyPeekable::from_items(items.to_vec());
    assert!(peekable.peek_any().iter().eq(items.iter()));
    for expected in items.iter() {
        assert_eq!(peekable.next().as_ref(), Some(expected));
    }
    assert_eq!(peekable.next(), None);
}

#[test]
fn peek_any() {
    validate_peek_any([1, 2, 3, 4, 5]);
    validate_peek_any([0; 0]);
    validate_peek_any([1]);
}

#[test]
fn peek_does_not_consume() {
    let mut peekable = AnyPeekable::from_items(vec![7, 8]);
    assert_eq!(peekable.peek(), Some(&7));
    assert_eq!(peekable.peek(), Some(&7));
    assert_eq!(peekable.nth_peek(1), Some(&8));
    assert_eq!(peekable.nth_peek(2), None);
    assert_eq!(peekable.next(), Some(7));
    assert_eq!(peekable.peek(), Some(&8));
    assert_eq!(peekable.next(), Some(8));
    assert_eq!(peekable.peek(), None);
}

#[test]
fn vec_peekable_peeks_by_value() {
    let peekable = VecPeekable::from_items(vec![3, 4, 5]);
    assert_eq!(peekable.peek(), Some(3));
    assert_eq!(peekable.nth_peek(2), Some(5));
    assert_eq!(peekable.nth_peek(3), None);
    assert!(peekable.peek_any().iter().eq([3, 4, 5].iter()));

    let empty: VecPeekable<i32> = VecPeekable::from_items(Vec::new());
    assert_eq!(empty.peek(), None);
}
