use radar::cache::PositionCache;
use radar::components::{Degrees, RadarContact, ResourceIdentifier};
use radar::contacts::{previous_contacts, ContactBook};

fn record(entity: &str, distance: u32) -> RadarContact {
    RadarContact {
        entity_id: entity.to_string(),
        distance,
        distance_xy: distance,
        azimuth: Degrees { bits: 0 },
        elevation: Degrees { bits: 90.0f64.to_bits() },
        transponder: ResourceIdentifier { rid: format!("decs.components.s.{}.transponder", entity) },
    }
}

#[test]
fn cache_starts_empty() {
    let cache: PositionCache<(i64, i64, i64)> = PositionCache::new();
    assert_eq!(cache.len(), 0);
    assert_eq!(cache.get("ship"), None);
    assert!(!cache.contains("ship"));
    assert!(cache.snapshot().is_empty());
}

#[test]
fn last_write_wins() {
    let mut cache: PositionCache<(f64, f64, f64)> = PositionCache::new();
    cache.insert("ship".to_string(), (1.0, 2.0, 3.0));
    cache.insert("rock".to_string(), (0.0, 0.0, 0.0));
    cache.insert("ship".to_string(), (4.0, 5.0, 6.0));
    assert_eq!(cache.len(), 2);
    assert_eq!(cache.get("ship"), Some((4.0, 5.0, 6.0)));
    assert_eq!(cache.get("rock"), Some((0.0, 0.0, 0.0)));
    assert_eq!(
        cache.snapshot(),
        vec![("ship".to_string(), (4.0, 5.0, 6.0)), ("rock".to_string(), (0.0, 0.0, 0.0))]
    );
}

#[test]
fn removal_forgets_one_entity() {
    let mut cache: PositionCache<u8> = PositionCache::new();
    cache.insert("a".to_string(), 1);
    cache.insert("b".to_string(), 2);
    cache.insert("c".to_string(), 3);
    assert_eq!(cache.remove("b"), Some(2));
    assert_eq!(cache.remove("b"), None);
    assert_eq!(cache.remove("zzz"), None);
    assert!(!cache.contains("b"));
    assert_eq!(cache.snapshot(), vec![("a".to_string(), 1), ("c".to_string(), 3)]);
}

#[test]
fn eviction_forgets_every_named_entity() {
    let mut cache: PositionCache<u8> = PositionCache::new();
    for (i, id) in ["a", "b", "c", "d"].iter().enumerate() {
        cache.insert(id.to_string(), i as u8);
    }
    cache.evict(&vec!["d".to_string(), "a".to_string(), "nobody".to_string(), "a".to_string()]);
    assert_eq!(cache.snapshot(), vec![("b".to_string(), 1), ("c".to_string(), 2)]);
    cache.evict(&Vec::new());
    assert_eq!(cache.len(), 2);
}

#[test]
fn book_keeps_one_record_per_slot() {
    let mut book = ContactBook::new();
    assert_eq!(book.len(), 0);
    book.insert("slot.1".to_string(), record("ship", 3));
    book.insert("slot.2".to_string(), record("rock", 4));
    book.insert("slot.1".to_string(), record("ship", 5));
    assert_eq!(book.len(), 2);
    assert_eq!(book.get("slot.1"), Some(&record("ship", 5)));
    assert_eq!(book.get("slot.2"), Some(&record("rock", 4)));
    assert_eq!(book.get("slot.3"), None);
    assert!(book.remove("slot.1"));
    assert!(!book.remove("slot.1"));
    assert_eq!(book.len(), 1);
    assert_eq!(book.get("slot.1"), None);
}

#[test]
fn contacts_are_found_by_entity_not_by_slot() {
    let mut book = ContactBook::new();
    book.insert("ship".to_string(), record("rock", 1));
    book.insert("rock".to_string(), record("ship", 2));
    assert_eq!(book.slot_of_entity("rock"), Some(&"ship".to_string()));
    assert_eq!(book.slot_of_entity("ship"), Some(&"rock".to_string()));
    assert_eq!(book.slot_of_entity("money"), None);
}

#[test]
fn first_slot_wins_when_an_entity_is_recorded_twice() {
    let mut book = ContactBook::new();
    book.insert("slot.9".to_string(), record("ship", 1));
    book.insert("slot.1".to_string(), record("ship", 2));
    assert_eq!(book.slot_of_entity("ship"), Some(&"slot.9".to_string()));
}

#[test]
fn copies_of_a_record_are_equal() {
    let original = record("ship", 7);
    assert_eq!(original.duplicate(), original);
}

#[test]
fn previous_contacts_skip_members_without_a_record() {
    let book = previous_contacts(vec![
        ("slot.1".to_string(), Some(record("ship", 3))),
        ("slot.2".to_string(), None),
        ("slot.3".to_string(), Some(record("rock", 4))),
    ]);
    assert_eq!(book.len(), 2);
    assert_eq!(book.get("slot.1"), Some(&record("ship", 3)));
    assert_eq!(book.get("slot.2"), None);
    assert_eq!(book.get("slot.3"), Some(&record("rock", 4)));
    assert_eq!(book.slot_of_entity("rock"), Some(&"slot.3".to_string()));
}

#[test]
fn previous_contacts_keep_the_last_record_of_a_repeated_slot() {
    let book = previous_contacts(vec![
        ("slot.1".to_string(), Some(record("ship", 3))),
        ("slot.2".to_string(), Some(record("rock", 4))),
        ("slot.1".to_string(), None),
        ("slot.1".to_string(), Some(record("money", 5))),
    ]);
    assert_eq!(book.len(), 2);
    assert_eq!(book.get("slot.1"), Some(&record("money", 5)));
    assert_eq!(book.slot_of_entity("ship"), None);
    assert_eq!(book.slot_of_entity("money"), Some(&"slot.1".to_string()));
}

#[test]
fn no_members_give_an_empty_book() {
    assert_eq!(previous_contacts(Vec::new()).len(), 0);
    assert_eq!(previous_contacts(vec![("slot.1".to_string(), None)]).len(), 0);
}
