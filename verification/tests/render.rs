use keyed_list::digits::u64_to_string;
use keyed_list::llist::LList;

#[test]
fn render_three_pairs_exactly() {
    let mut l = LList::new();
    l.push(1, String::from("a"));
    l.push(2, String::from("b"));
    l.push(3, String::from("c"));
    assert_eq!(l.render(), "1 -> a\n2 -> b\n3 -> c\n");
}

#[test]
fn render_empty_is_empty() {
    let l = LList::new();
    assert_eq!(l.render(), "");
}

#[test]
fn render_ignores_cursor() {
    let mut l = LList::new();
    l.push(1, String::from("a"));
    l.push(2, String::from("b"));
    assert_eq!(l.next(), Some((1, String::from("a"))));
    assert_eq!(l.render(), "1 -> a\n2 -> b\n");
}

#[test]
fn render_after_mutations() {
    let mut l = LList::new();
    l.push(2, String::from("b"));
    l.push_front(1, String::from("a"));
    l.push(4, String::from("d"));
    l.insert(3, String::from("c"), 1);
    l.remove(2);
    assert_eq!(l.render(), "1 -> a\n3 -> c\n4 -> d\n");
}

#[test]
fn decimal_small_values() {
    assert_eq!(u64_to_string(0), "0");
    assert_eq!(u64_to_string(7), "7");
    assert_eq!(u64_to_string(10), "10");
    assert_eq!(u64_to_string(69), "69");
}

#[test]
fn decimal_large_values() {
    assert_eq!(u64_to_string(12345), "12345");
    assert_eq!(u64_to_string(1000000), "1000000");
    assert_eq!(u64_to_string(u64::MAX), "18446744073709551615");
}
