use rslox::utils::Peeknextable;
use rslox::utils::UtilsIterator;

#[test]
fn peek_looks_at_the_next_item_without_taking_it() {
    let mut it = vec![1, 2, 3].into_iter().peeknextable();
    assert_eq!(it.peek(), Some(&1));
    assert_eq!(it.peek(), Some(&1));
    assert_eq!(it.next(), Some(1));
    assert_eq!(it.peek(), Some(&2));
}

#[test]
fn peek_next_looks_at_the_item_after_the_next() {
    let mut it = vec![1, 2, 3].into_iter().peeknextable();
    assert_eq!(it.peek_next(), Some(&2));
    assert_eq!(it.peek(), Some(&1));
    assert_eq!(it.peek_next(), Some(&2));
    assert_eq!(it.next(), Some(1));
    assert_eq!(it.peek_next(), Some(&3));
    assert_eq!(it.next(), Some(2));
    assert_eq!(it.peek_next(), None);
    assert_eq!(it.peek(), Some(&3));
    assert_eq!(it.next(), Some(3));
    assert_eq!(it.peek(), None);
    assert_eq!(it.peek_next(), None);
    assert_eq!(it.next(), None);
}

#[test]
fn next_hands_out_every_item_in_order() {
    let mut it = Peeknextable::new("abc".chars());
    assert_eq!(it.next(), Some('a'));
    assert_eq!(it.peek_next(), Some(&'c'));
    assert_eq!(it.next(), Some('b'));
    assert_eq!(it.next(), Some('c'));
    assert_eq!(it.next(), None);
    assert_eq!(it.next(), None);
}

#[test]
fn an_empty_iterator_has_nothing_ahead() {
    let mut it = Vec::<u8>::new().into_iter().peeknextable();
    assert_eq!(it.peek_next(), None);
    assert_eq!(it.peek(), None);
    assert_eq!(it.next(), None);
}

#[test]
fn a_single_item_has_nothing_after_it() {
    let mut it = vec![7].into_iter().peeknextable();
    assert_eq!(it.peek_next(), None);
    assert_eq!(it.peek(), Some(&7));
    assert_eq!(it.next(), Some(7));
    assert_eq!(it.next(), None);
}
