use bevy_cryotheum::registry::{ArcRegistry, Registry, RegistryError, RegistryErrors, RegistryId, RegistryItem};

#[derive(Debug, PartialEq)]
struct Block(u32);

impl RegistryItem for Block {}

fn id(s: &str) -> RegistryId {
    RegistryId::parse(s).unwrap()
}

#[test]
fn insert_and_look_up() {
    let mut r: Registry<Block> = Registry::new();
    assert_eq!(r.insert(id("core:stone"), Block(1)).ok(), Some(0));
    assert_eq!(r.insert(id("core:dirt"), Block(2)).ok(), Some(1));
    match r.insert(id("core:stone"), Block(3)) {
        Err(RegistryError::DuplicateId(dup)) => assert_eq!(dup.id(), "core:stone"),
        _ => panic!("duplicate id accepted"),
    }
    assert_eq!(r.get(&id("core:dirt")), Some(&Block(2)));
    assert_eq!(r.get(&id("core:sand")), None);
    assert_eq!(r.index_of(&id("core:dirt")), Some(1));
    assert_eq!(r.id_of(0).unwrap().name(), "stone");
    assert!(r.id_of(2).is_none());
    r.get_mut(&id("core:stone")).unwrap().0 = 10;
    assert_eq!(r.get(&id("core:stone")), Some(&Block(10)));
    assert_eq!(r.items().len(), 2);
    r.clear();
    assert_eq!(r.items().len(), 0);
}

#[test]
fn insert_all_reports_each_item() {
    let mut r: Registry<Block> = Registry::new();
    assert!(r.insert_all(vec![(id("a:x"), Block(1)), (id("a:y"), Block(2))]).is_ok());
    match r.insert_all(vec![(id("a:z"), Block(3)), (id("a:x"), Block(4))]) {
        Err(RegistryErrors::OptionalErrors(errors)) => {
            assert_eq!(errors.len(), 2);
            assert!(errors[0].is_none());
            assert!(errors[1].is_some());
        }
        _ => panic!("expected one error"),
    }
    assert_eq!(r.items().len(), 3);
}

#[test]
fn arc_registry_shares_items() {
    let mut r: ArcRegistry<Block> = ArcRegistry::new();
    assert_eq!(r.insert(id("core:ice"), Block(5)).ok(), Some(0));
    let shared = r.get_arc(&id("core:ice")).unwrap();
    assert_eq!(*shared, Block(5));
    assert_eq!(r.get_ref(&id("core:ice")), Some(&Block(5)));
    assert!(r.get_arc(&id("core:fire")).is_none());
    assert!(r.insert_all(vec![(id("core:snow"), Block(6))]).is_ok());
    assert_eq!(r.registry().items().len(), 2);
}
