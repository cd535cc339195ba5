use entity_store::entity::Entity;
use entity_store::storage::Storage;

#[test]
fn new_storage_is_empty() {
    let storage: Storage<u8> = Storage::new();
    assert!(storage.is_empty());
    assert_eq!(storage.len(), 0);
    assert_eq!(storage.get(Entity(1)), None);
    assert!(!storage.contains(Entity(1)));
    assert!(storage.iter().is_empty());
    assert!(storage.entities().is_empty());
}

#[test]
fn insert_hands_back_the_replaced_value() {
    let mut storage: Storage<&str> = Storage::new();
    assert_eq!(storage.insert(Entity(4), "first"), None);
    assert_eq!(storage.insert(Entity(4), "second"), Some("first"));
    assert_eq!(storage.insert(Entity(5), "other"), None);
    assert_eq!(storage.len(), 2);
    assert!(!storage.is_empty());
    assert_eq!(storage.get(Entity(4)), Some(&"second"));
    assert_eq!(storage.get(Entity(5)), Some(&"other"));
    assert_eq!(storage.get(Entity(6)), None);
}

#[test]
fn get_mut_writes_in_place() {
    let mut storage: Storage<i64> = Storage::new();
    storage.insert(Entity(1), 10);
    storage.insert(Entity(2), 20);
    *storage.get_mut(Entity(2)).unwrap() += 5;
    assert!(storage.get_mut(Entity(3)).is_none());
    assert_eq!(storage.get(Entity(1)), Some(&10));
    assert_eq!(storage.get(Entity(2)), Some(&25));
    assert_eq!(storage.len(), 2);
}

#[test]
fn iter_lists_every_entry_once() {
    let mut storage: Storage<u32> = Storage::new();
    for id in 1..=100u32 {
        storage.insert(Entity(id), id * id);
    }
    let mut rows = storage.iter();
    rows.sort_by_key(|row| row.0 .0);
    assert_eq!(rows.len(), 100);
    for (i, row) in rows.iter().enumerate() {
        assert_eq!(row.0, Entity(i as u32 + 1));
        assert_eq!(*row.1, (i as u32 + 1) * (i as u32 + 1));
    }
}

#[test]
fn entities_with_get_mut_walk_the_table_for_writing() {
    let mut storage: Storage<u32> = Storage::new();
    for id in [3u32, 9, 27] {
        storage.insert(Entity(id), id);
    }
    let mut ids = storage.entities();
    for entity in ids.iter() {
        *storage.get_mut(*entity).unwrap() *= 2;
    }
    ids.sort_by_key(|e| e.0);
    assert_eq!(ids, vec![Entity(3), Entity(9), Entity(27)]);
    assert_eq!(storage.get(Entity(9)), Some(&18));
    assert_eq!(storage.get(Entity(27)), Some(&54));
}

#[test]
fn the_zero_entity_is_a_key_like_any_other() {
    let mut storage: Storage<bool> = Storage::new();
    storage.insert(Entity(0), true);
    storage.insert(Entity(u32::MAX), false);
    assert_eq!(storage.get(Entity(0)), Some(&true));
    assert_eq!(storage.get(Entity(u32::MAX)), Some(&false));
    assert_eq!(storage.len(), 2);
}

#[test]
fn remove_takes_the_value_out() {
    let mut storage: Storage<&str> = Storage::new();
    storage.insert(Entity(1), "one");
    storage.insert(Entity(2), "two");
    assert_eq!(storage.remove(Entity(1)), Some("one"));
    assert_eq!(storage.remove(Entity(1)), None);
    assert_eq!(storage.remove(Entity(3)), None);
    assert_eq!(storage.get(Entity(1)), None);
    assert_eq!(storage.get(Entity(2)), Some(&"two"));
    assert_eq!(storage.len(), 1);
    assert_eq!(storage.entities(), vec![Entity(2)]);
    assert_eq!(storage.insert(Entity(1), "again"), None);
    assert_eq!(storage.len(), 2);
}
