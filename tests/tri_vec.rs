use string_art::TriVec;

#[test]
fn new_table_holds_the_default_everywhere() {
    let t = TriVec::new(4, &7u32);
    assert_eq!(t.size(), 4);
    for x in 0..4 {
        for y in 0..4 {
            assert_eq!(*t.at(x, y), 7);
        }
    }
}

#[test]
fn cells_are_shared_by_both_orders() {
    let mut t = TriVec::new(5, &0i32);
    t.set(1, 3, 42);
    assert_eq!(*t.at(3, 1), 42);
    assert_eq!(*t.at(1, 3), 42);
    *t.at_mut(4, 0) = -5;
    assert_eq!(*t.at(0, 4), -5);
    assert_eq!(*t.at(2, 2), 0);
    assert_eq!(*t.at(3, 2), 0);
}

#[test]
fn rows_grow_by_one() {
    let mut t = TriVec::new(3, &String::from("a"));
    t.set(2, 1, String::from("b"));
    assert_eq!(t.all_at(0).len(), 1);
    assert_eq!(t.all_at(2).len(), 3);
    assert_eq!(t.all_at(2)[1], "b");
    assert_eq!(t.all_at(2)[0], "a");
}

#[test]
fn vector_cells_are_independent_clones() {
    let mut t = TriVec::new(3, &vec![1u8, 2]);
    t.at_mut(2, 0).push(3);
    assert_eq!(t.at(0, 2), &vec![1, 2, 3]);
    assert_eq!(t.at(1, 0), &vec![1, 2]);
}
