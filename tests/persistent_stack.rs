use labyrinth::persistent_stack::List;

#[test]
fn basics() {
    let list = List::<u32>::new();
    assert_eq!(list.head(), None);

    let list = list.append(1).append(2).append(3);
    assert_eq!(list.head(), Some(&3));

    let list = list.tail();
    assert_eq!(list.head(), Some(&2));

    let list = list.tail();
    assert_eq!(list.head(), Some(&1));

    let list = list.tail();
    assert_eq!(list.head(), None);

    let list = list.tail();
    assert_eq!(list.head(), None);
}

#[test]
fn iter() {
    let list = List::new().append(1).append(2).append(3);

    let mut iter = list.iter();
    assert_eq!(iter.next(), Some(&3));
    assert_eq!(iter.next(), Some(&2));
    assert_eq!(iter.next(), Some(&1));
    assert_eq!(iter.next(), None);
    assert_eq!(iter.next(), None);
}

#[test]
fn versions_share_but_do_not_change() {
    let base = List::new().append(1);
    let left = base.append(2);
    let right = base.append(3);
    assert_eq!(base.head(), Some(&1));
    assert_eq!(left.head(), Some(&2));
    assert_eq!(right.head(), Some(&3));
    assert_eq!(left.tail().head(), Some(&1));
    assert_eq!(right.tail().head(), Some(&1));
}
