use linked_list::render::join_texts;
use linked_list::{LinkedList, LinkedListIter};

#[test]
fn an_empty_list_renders_as_the_empty_text() {
    let list: LinkedList<u32> = LinkedList::new();
    assert_eq!(list.to_string(), "");
}

#[test]
fn a_list_renders_each_value_behind_a_space() {
    let mut list: LinkedList<u32> = LinkedList::new();
    list.push_front(1);
    list.push_front(2);
    list.push_front(3);
    assert_eq!(list.to_string(), " 3 2 1");
    assert_eq!(list.get_size(), 3);
}

#[test]
fn a_list_of_one_value_renders_with_the_leading_space() {
    let mut list: LinkedList<i64> = LinkedList::new();
    list.push_front(-7);
    assert_eq!(list.to_string(), " -7");
}

#[test]
fn a_list_of_texts_renders_them_as_they_are() {
    let mut list: LinkedList<String> = LinkedList::new();
    list.push_front(String::from("world"));
    list.push_front(String::from(""));
    list.push_front(String::from("hello"));
    assert_eq!(list.to_string(), " hello  world");
}

#[test]
fn join_texts_puts_a_space_before_each_text() {
    let texts: Vec<String> = vec![String::from("3"), String::from("2"), String::from("1")];
    assert_eq!(join_texts(&texts), " 3 2 1");
    assert_eq!(join_texts(&vec![String::from("x")]), " x");
}

#[test]
fn join_texts_of_nothing_is_the_empty_text() {
    let texts: Vec<String> = Vec::new();
    assert_eq!(join_texts(&texts), "");
}

#[test]
fn walking_a_list_gives_its_values_from_the_head() {
    let mut list: LinkedList<u32> = LinkedList::new();
    list.push_front(1);
    list.push_front(2);
    list.push_front(3);
    let mut walk: LinkedListIter<'_, u32> = list.iter();
    assert_eq!(walk.next(), Some(3));
    assert_eq!(walk.next(), Some(2));
    assert_eq!(walk.next(), Some(1));
    assert_eq!(walk.next(), None);
    assert_eq!(walk.next(), None);
    assert_eq!(list.get_size(), 3);
}

#[test]
fn walking_a_list_leaves_it_as_it_was() {
    let mut list: LinkedList<String> = LinkedList::new();
    list.push_front(String::from("b"));
    list.push_front(String::from("a"));
    let mut first_walk = list.iter();
    let mut seen: Vec<String> = Vec::new();
    while let Some(value) = first_walk.next() {
        seen.push(value);
    }
    assert_eq!(seen, vec![String::from("a"), String::from("b")]);
    let mut second_walk = list.iter();
    assert_eq!(second_walk.next(), Some(String::from("a")));
    assert_eq!(list.get_size(), 2);
    assert_eq!(list.pop_front(), Some(String::from("a")));
    assert_eq!(list.pop_front(), Some(String::from("b")));
}

#[test]
fn two_walks_along_one_list_do_not_disturb_each_other() {
    let mut list: LinkedList<u32> = LinkedList::new();
    list.push_front(2);
    list.push_front(1);
    let mut a = list.iter();
    let mut b = list.iter();
    assert_eq!(a.next(), Some(1));
    assert_eq!(b.next(), Some(1));
    assert_eq!(a.next(), Some(2));
    assert_eq!(a.next(), None);
    assert_eq!(b.next(), Some(2));
    assert_eq!(b.next(), None);
}

#[test]
fn walking_an_empty_list_gives_nothing() {
    let list: LinkedList<u32> = LinkedList::new();
    let mut walk = list.iter();
    assert_eq!(walk.next(), None);
    assert_eq!(list.get_size(), 0);
}
