use keyed_list::llist::LList;

fn drain(l: &mut LList) -> Vec<(u64, String)> {
    let mut out: Vec<(u64, String)> = Vec::new();
    while let Some(p) = l.next() {
        out.push(p);
    }
    out
}

#[test]
fn append_order_and_len() {
    let mut l = LList::new();
    let pairs = [(10u64, "ten"), (20u64, "twenty"), (30u64, "thirty"), (40u64, "forty")];
    for (k, v) in pairs.iter() {
        l.push(*k, String::from(*v));
    }
    assert_eq!(l.len(), 4);
    let got = drain(&mut l);
    assert_eq!(got.len(), 4);
    for (i, (k, v)) in pairs.iter().enumerate() {
        assert_eq!(got[i].0, *k);
        assert_eq!(got[i].1, *v);
    }
}

#[test]
fn push_front_iterates_first() {
    let mut l = LList::new();
    l.push(1, String::from("one"));
    l.push(2, String::from("two"));
    l.push_front(9, String::from("front"));
    let got = drain(&mut l);
    assert_eq!(
        got,
        vec![
            (9, String::from("front")),
            (1, String::from("one")),
            (2, String::from("two")),
        ]
    );
}

#[test]
fn push_front_on_empty_sets_single_node() {
    let mut l = LList::new();
    l.push_front(5, String::from("only"));
    assert_eq!(l.len(), 1);
    assert_eq!(l.get(5), Some(String::from("only")));
    assert_eq!(drain(&mut l), vec![(5, String::from("only"))]);
}

#[test]
fn get_after_append_and_absent() {
    let mut l = LList::new();
    l.push(7, String::from("x"));
    l.push(8, String::from("y"));
    assert_eq!(l.get(7), Some(String::from("x")));
    assert_eq!(l.get(8), Some(String::from("y")));
    assert_eq!(l.get(9), None);
}

#[test]
fn remove_returns_value_and_shrinks() {
    let mut l = LList::new();
    l.push(1, String::from("a"));
    l.push(2, String::from("b"));
    l.push(3, String::from("c"));
    assert_eq!(l.remove(2), Some(String::from("b")));
    assert_eq!(l.len(), 2);
    assert_eq!(l.get(2), None);
    assert_eq!(l.remove(2), None);
    assert_eq!(l.len(), 2);
    assert_eq!(drain(&mut l), vec![(1, String::from("a")), (3, String::from("c"))]);
}

#[test]
fn remove_head_and_tail() {
    let mut l = LList::new();
    l.push(1, String::from("a"));
    l.push(2, String::from("b"));
    l.push(3, String::from("c"));
    assert_eq!(l.remove(1), Some(String::from("a")));
    assert_eq!(l.remove(3), Some(String::from("c")));
    assert_eq!(drain(&mut l), vec![(2, String::from("b"))]);
    // the tail was recomputed: a push lands after the one survivor
    l.push(4, String::from("d"));
    assert_eq!(drain(&mut l), vec![(2, String::from("b")), (4, String::from("d"))]);
}

#[test]
fn insert_places_after_index() {
    let mut l = LList::new();
    l.push(1, String::from("a"));
    l.push(2, String::from("b"));
    l.push(3, String::from("c"));
    l.insert(10, String::from("mid"), 1);
    assert_eq!(l.len(), 4);
    let keys: Vec<u64> = drain(&mut l).into_iter().map(|p| p.0).collect();
    assert_eq!(keys, vec![1, 2, 10, 3]);
}

#[test]
fn insert_after_last_index_appends() {
    let mut l = LList::new();
    l.push(1, String::from("a"));
    l.push(2, String::from("b"));
    l.insert(3, String::from("end"), 1);
    let keys: Vec<u64> = drain(&mut l).into_iter().map(|p| p.0).collect();
    assert_eq!(keys, vec![1, 2, 3]);
}

#[test]
fn remove_sole_element_gives_fresh_list() {
    let mut l = LList::new();
    l.push(1, String::from("only"));
    assert_eq!(l.remove(1), Some(String::from("only")));
    assert_eq!(l.len(), 0);
    assert_eq!(l.get(1), None);
    l.push(2, String::from("fresh"));
    assert_eq!(l.len(), 1);
    assert_eq!(drain(&mut l), vec![(2, String::from("fresh"))]);
    // the fresh node is the tail too: another push chains after it
    l.push(3, String::from("next"));
    assert_eq!(drain(&mut l), vec![(2, String::from("fresh")), (3, String::from("next"))]);
}

#[test]
fn scenario_five_appends() {
    let mut l = LList::new();
    l.push(1, String::from("Hello!"));
    l.push(2, String::from("World!"));
    l.push(3, String::from("a"));
    l.push(4, String::from("b"));
    l.push(5, String::from("c"));
    assert_eq!(l.len(), 5);
    assert_eq!(
        drain(&mut l),
        vec![
            (1, String::from("Hello!")),
            (2, String::from("World!")),
            (3, String::from("a")),
            (4, String::from("b")),
            (5, String::from("c")),
        ]
    );
}

#[test]
fn scenario_remove_from_five() {
    let mut l = LList::new();
    l.push(1, String::from("Hello!"));
    l.push(2, String::from("World!"));
    l.push(3, String::from("a"));
    l.push(4, String::from("b"));
    l.push(5, String::from("c"));
    assert_eq!(l.remove(3), Some(String::from("a")));
    assert_eq!(l.len(), 4);
    assert_eq!(l.get(3), None);
}

#[test]
fn scenario_insert_after_removal() {
    let mut l = LList::new();
    l.push(1, String::from("Hello!"));
    l.push(2, String::from("World!"));
    l.push(3, String::from("a"));
    l.push(4, String::from("b"));
    l.push(5, String::from("c"));
    l.remove(3);
    l.insert(69, String::from("test"), 1);
    let got = drain(&mut l);
    let keys: Vec<u64> = got.iter().map(|p| p.0).collect();
    assert_eq!(keys, vec![1, 2, 69, 4, 5]);
    assert_eq!(got[2].1, "test");
}

#[test]
fn iteration_exhausts_until_reset() {
    let mut l = LList::new();
    l.push(1, String::from("a"));
    l.push(2, String::from("b"));
    assert_eq!(drain(&mut l).len(), 2);
    // exhausted: nothing more without an explicit reset
    assert_eq!(l.next(), None);
    assert_eq!(l.next(), None);
    l.reset_cursor();
    assert_eq!(drain(&mut l).len(), 2);
}

#[test]
fn mutation_restarts_iteration() {
    let mut l = LList::new();
    l.push(1, String::from("a"));
    l.push(2, String::from("b"));
    assert_eq!(l.next(), Some((1, String::from("a"))));
    // a structural mutation repoints the cursor at the head
    l.push(3, String::from("c"));
    let keys: Vec<u64> = drain(&mut l).into_iter().map(|p| p.0).collect();
    assert_eq!(keys, vec![1, 2, 3]);
}

#[test]
fn empty_list_behavior() {
    let mut l = LList::new();
    assert_eq!(l.len(), 0);
    assert_eq!(l.get(1), None);
    assert_eq!(l.remove(1), None);
    assert_eq!(l.next(), None);
    l.reset_cursor();
    assert_eq!(l.next(), None);
}

#[test]
fn key_presence_is_reported() {
    let mut l = LList::new();
    assert!(!l.check_if_key_exists(&4));
    l.push(4, String::from("v"));
    assert!(l.check_if_key_exists(&4));
    l.remove(4);
    assert!(!l.check_if_key_exists(&4));
}
