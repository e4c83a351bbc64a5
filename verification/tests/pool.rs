use adam::pool::{OrganismPool, DEFAULT_ORGANISM_ID};
use std::cell::Cell;

#[test]
fn the_same_id_returns_the_same_organism_across_calls() {
    let made = Cell::new(0u32);
    let mut pool: OrganismPool<String> = OrganismPool::new();
    let make = |id: &str| -> Result<String, String> {
        made.set(made.get() + 1);
        Ok(format!("organism of {id}"))
    };
    let first = pool.get_or_create("alice", make).unwrap();
    let second = pool.get_or_create("alice", make).unwrap();
    assert_eq!(first, second);
    assert_eq!(made.get(), 1);
    assert_eq!(pool.member_mut(first).as_str(), "organism of alice");
}

#[test]
fn different_ids_get_independent_organisms() {
    let mut pool: OrganismPool<Vec<String>> = OrganismPool::new();
    let alice = pool.get_or_create("alice", |_: &str| Ok::<_, ()>(Vec::new())).unwrap();
    pool.member_mut(alice).push("alice's memory".to_string());
    let bob = pool.get_or_create("bob", |_: &str| Ok::<_, ()>(Vec::new())).unwrap();
    assert_ne!(alice, bob);
    assert!(pool.member_mut(bob).is_empty());
    assert_eq!(pool.member_mut(alice).len(), 1);
    assert_eq!(pool.known_ids(), vec!["alice", "bob"]);
}

#[test]
fn a_failing_factory_leaves_the_pool_unchanged() {
    let mut pool: OrganismPool<u32> = OrganismPool::new();
    let err = pool.get_or_create("carol", |_: &str| Err::<u32, _>("disk full")).unwrap_err();
    assert_eq!(err, "disk full");
    assert!(pool.known_ids().is_empty());
    assert_eq!(pool.find("carol"), None);
    let slot = pool.get_or_create(DEFAULT_ORGANISM_ID, |_: &str| Ok::<_, ()>(7)).unwrap();
    assert_eq!(pool.find("default"), Some(slot));
}
