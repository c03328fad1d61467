use piscine::list::List;

#[test]
fn default_list_is_empty() {
    let list: List<i32> = Default::default();
    assert_eq!(list.count(), 0);
}

#[test]
fn cloned_list_are_equal() {
    let mut list = List::new();
    list.push_back(String::from("Hello"));
    list.push_back(String::from("World"));

    let cloned = list.clone();
    assert_eq!(cloned.count(), list.count());
    assert_eq!(cloned.get(0), cloned.get(0));
    assert_eq!(cloned.get(1), cloned.get(1));
}

#[test]
fn pushes_pops_and_lookups() {
    let mut list: List<u32> = List::new();
    list.push_back(2);
    list.push_front(1);
    list.push_back(3);
    assert_eq!(list.count(), 3);
    assert_eq!(list.get(0), Some(&1));
    assert_eq!(list.get(1), Some(&2));
    assert_eq!(list.get(2), Some(&3));
    assert_eq!(list.get(3), None);

    if let Some(v) = list.get_mut(1) {
        *v = 20;
    }
    assert_eq!(list.get(1), Some(&20));

    assert_eq!(list.remove_front(), Some(1));
    assert_eq!(list.remove_back(), Some(3));
    assert_eq!(list.remove_back(), Some(20));
    assert_eq!(list.remove_back(), None);

    list.push_back(9);
    list.clear();
    assert_eq!(list.count(), 0);
}
