use black_box::Key;
use black_box::Resource;
use black_box::ResourcePool;
use std::any::TypeId;

#[derive(Debug, Clone, PartialEq)]
struct Config {
    name: String,
    level: u8,
}

#[test]
fn new_pool_is_empty() {
    let pool = ResourcePool::new();
    assert!(!pool.contains::<u32>());
    assert!(!pool.contains_id(TypeId::of::<u32>()));
    assert_eq!(pool.get::<u32>(), None);
    assert_eq!(pool.get_clone::<String>(), None);
}

#[test]
fn insert_replaces_and_returns_previous() {
    let mut pool = ResourcePool::new();
    assert_eq!(pool.insert::<u32>(1), None);
    assert_eq!(pool.insert::<u32>(2), Some(1));
    assert_eq!(pool.get::<u32>(), Some(&2));
}

#[test]
fn one_value_per_type() {
    let mut pool = ResourcePool::new();
    assert_eq!(pool.insert(7u8), None);
    assert_eq!(pool.insert(70u16), None);
    assert_eq!(pool.insert(String::from("seven")), None);
    assert_eq!(pool.insert(8u8), Some(7));
    assert_eq!(pool.get::<u8>(), Some(&8));
    assert_eq!(pool.get::<u16>(), Some(&70));
    assert_eq!(pool.get::<String>(), Some(&String::from("seven")));
    assert!(pool.contains::<u8>());
    assert!(pool.contains::<u16>());
    assert!(!pool.contains::<u32>());
}

#[test]
fn contains_id_tells_types_apart() {
    let mut pool = ResourcePool::new();
    pool.insert(1u8);
    assert!(pool.contains_id(TypeId::of::<u8>()));
    assert!(!pool.contains_id(TypeId::of::<i8>()));
    pool.insert(-1i8);
    assert!(pool.contains_id(TypeId::of::<i8>()));
}

#[test]
fn get_clone_copies_the_value() {
    let mut pool = ResourcePool::new();
    let config = Config { name: String::from("a"), level: 3 };
    pool.insert(config.clone());
    assert_eq!(pool.get_clone::<Config>(), Some(config.clone()));
    assert_eq!(pool.get::<Config>(), Some(&config));
}

#[test]
fn get_mut_changes_the_stored_value() {
    let mut pool = ResourcePool::new();
    pool.insert(Config { name: String::from("a"), level: 3 });
    pool.insert(5u64);
    match pool.get_mut::<Config>() {
        Some(config) => config.level = 4,
        None => panic!("the config was inserted"),
    }
    assert_eq!(pool.get::<Config>(), Some(&Config { name: String::from("a"), level: 4 }));
    assert_eq!(pool.get::<u64>(), Some(&5));
    assert!(pool.get_mut::<u8>().is_none());
    assert!(pool.contains::<Config>());
}

#[test]
fn remove_takes_the_value_out() {
    let mut pool = ResourcePool::new();
    pool.insert(1u8);
    pool.insert(2u16);
    pool.insert(3u32);
    assert_eq!(pool.remove::<u8>(), Some(1));
    assert_eq!(pool.remove::<u8>(), None);
    assert!(!pool.contains::<u8>());
    assert_eq!(pool.get::<u16>(), Some(&2));
    assert_eq!(pool.get::<u32>(), Some(&3));
    assert_eq!(pool.remove::<u32>(), Some(3));
    assert_eq!(pool.remove::<u16>(), Some(2));
    assert_eq!(pool.remove::<u16>(), None);
}

#[test]
fn remove_with_key_uses_the_given_key() {
    let mut pool = ResourcePool::new();
    pool.insert(1u8);
    pool.insert(2u16);
    let key = Key::of::<u8>();
    assert_eq!(key.id(), TypeId::of::<u8>());
    assert_eq!(pool.remove_with_key::<u8>(&key), Some(1));
    assert_eq!(pool.remove_with_key::<u8>(&key), None);
    // the value under the key is no `u32`: it leaves the pool and is dropped
    let other = Key::from_id(TypeId::of::<u16>());
    assert_eq!(pool.remove_with_key::<u32>(&other), None);
    assert!(!pool.contains::<u16>());
}

#[test]
fn resources_know_their_type() {
    let resource = Resource::new(9u32);
    assert_eq!(resource.type_id(), TypeId::of::<u32>());
    assert_eq!(resource.get::<u32>(), Some(&9));
    assert_eq!(resource.get::<u64>(), None);
    assert_eq!(resource.into_inner::<u32>(), Some(9));
    assert_eq!(Resource::new(9u32).into_inner::<i32>(), None);
}

#[test]
fn erased_functions_agree_with_typed_ones() {
    let mut pool = ResourcePool::new();
    assert!(pool.insert_resource(Resource::new(1u8)).is_none());
    let previous = pool.insert_resource(Resource::new(2u8));
    assert_eq!(previous.and_then(|r| r.into_inner::<u8>()), Some(1));
    assert_eq!(pool.get::<u8>(), Some(&2));
    let seen = pool.get_resource(TypeId::of::<u8>());
    assert_eq!(seen.and_then(|r| r.get::<u8>()), Some(&2));
    assert!(pool.get_resource(TypeId::of::<u16>()).is_none());
    let removed = pool.remove_resource(TypeId::of::<u8>());
    assert_eq!(removed.and_then(|r| r.into_inner::<u8>()), Some(2));
    assert!(pool.remove_resource(TypeId::of::<u8>()).is_none());
    assert!(!pool.contains::<u8>());
}

#[test]
fn many_types_many_times() {
    let mut pool = ResourcePool::new();
    for round in 0..50u32 {
        let expected = if round == 0 { None } else { Some(round - 1) };
        assert_eq!(pool.insert(round), expected);
        let expected = if round == 0 { None } else { Some(u64::from(round) - 1) };
        assert_eq!(pool.insert(u64::from(round)), expected);
        if round % 2 == 1 {
            assert_eq!(pool.remove::<bool>(), Some(true));
        } else {
            assert_eq!(pool.insert(true), None);
        }
    }
    assert_eq!(pool.get::<u32>(), Some(&49));
    assert_eq!(pool.get::<u64>(), Some(&49));
    assert!(!pool.contains::<bool>());
}
