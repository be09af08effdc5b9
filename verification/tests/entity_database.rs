use snowfall::entity_database::EntityDatabase;

#[test]
fn select_finds_first_of_kind() {
    let mut db: EntityDatabase<&str> = EntityDatabase::new();
    let mut items = vec![(1u64, "camera"), (2u64, "mesh a"), (2u64, "mesh b")];
    db.append(&mut items);
    assert!(items.is_empty());
    assert_eq!(db.select(2), Some(&"mesh a"));
    assert_eq!(db.select(3), None);
    assert_eq!(db.query(2), vec![&"mesh a", &"mesh b"]);
    assert!(db.query(5).is_empty());
}

#[test]
fn select_mut_changes_first_entity() {
    let mut db: EntityDatabase<i32> = EntityDatabase::new();
    db.append(&mut vec![(7u64, 1), (7u64, 2)]);
    *db.select_mut(7).unwrap() += 10;
    assert_eq!(db.query(7), vec![&11, &2]);
    assert!(db.select_mut(8).is_none());
    *db.must_select_mut(7) = 0;
    assert_eq!(db.select(7), Some(&0));
}

#[test]
fn query_after_append_keeps_order() {
    let mut db: EntityDatabase<i32> = EntityDatabase::new();
    db.append(&mut vec![(1u64, 1), (2u64, 2)]);
    db.append(&mut vec![(1u64, 3)]);
    assert_eq!(db.query(1), vec![&1, &3]);
}

#[test]
fn swap_twice_restores() {
    let mut a: EntityDatabase<i32> = EntityDatabase::new();
    let mut b: EntityDatabase<i32> = EntityDatabase::new();
    a.append(&mut vec![(1u64, 10)]);
    b.append(&mut vec![(2u64, 20)]);
    a.swap_entities(&mut b);
    assert_eq!(a.select(2), Some(&20));
    assert_eq!(b.select(1), Some(&10));
    a.swap_entities(&mut b);
    assert_eq!(a.select(1), Some(&10));
    assert_eq!(b.select(2), Some(&20));
}
