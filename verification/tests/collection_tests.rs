use robo_sim4::collection::GameObjCollection;

#[test]
fn objects_are_found_by_name() {
    let c = GameObjCollection::from_iter(vec![("platform", 10), ("agent", 20), ("camera", 30)]);
    assert_eq!(c.objects, vec![10, 20, 30]);
    assert_eq!(*c.get_unknown("platform"), 10);
    assert_eq!(*c.get_unknown("agent"), 20);
    assert_eq!(*c.get_unknown("camera"), 30);
    assert_eq!(c.index_of("agent"), Some(1));
}

#[test]
fn a_repeated_name_finds_the_later_object() {
    let c = GameObjCollection::from_iter(vec![("cube", 1), ("floor", 2), ("cube", 3)]);
    assert_eq!(c.objects.len(), 3);
    assert_eq!(c.index_of("cube"), Some(2));
    assert_eq!(*c.get_unknown("cube"), 3);
}

#[test]
fn an_unknown_name_finds_nothing() {
    let c = GameObjCollection::from_iter(vec![("cube", 1)]);
    assert_eq!(c.index_of("sphere"), None);
    assert_eq!(c.index_of("cub"), None);
    let empty: GameObjCollection<i32> = GameObjCollection::from_iter(vec![]);
    assert_eq!(empty.index_of("cube"), None);
}

#[test]
fn changing_one_object_leaves_the_others() {
    let mut c = GameObjCollection::from_iter(vec![("a", String::from("x")), ("b", String::from("y"))]);
    c.get_mut_unknown("b").push('!');
    assert_eq!(c.objects, vec![String::from("x"), String::from("y!")]);
    assert_eq!(c.index_of("a"), Some(0));
    assert_eq!(c.index_of("b"), Some(1));
}
