use radar::components::{Degrees, RadarContact, ResourceIdentifier};
use radar::contacts::ContactBook;
use radar::radar::{
    contact_from, judge, radar_evictions, radar_updates, transponder_present,
    wants_transponder_check, RadarContactDelta, Sighting,
};
use radar::settle::apply;

const OBSERVER: &str = "myownentity";
const SHARD: &str = "the_shard";

fn seen(entity: &str, within_radius: bool, transponder_present: bool, distance: u32) -> Sighting {
    Sighting {
        entity_id: entity.to_string(),
        within_radius,
        transponder_present,
        distance,
        distance_xy: distance,
        azimuth: Degrees { bits: 0 },
        elevation: Degrees { bits: 90.0f64.to_bits() },
    }
}

fn record(entity: &str, distance: u32) -> RadarContact {
    contact_from(SHARD, &seen(entity, true, true, distance))
}

/// Applies the deltas in order; the `i`-th addition goes into slot `new.{i}`.
fn settle(book: &mut ContactBook, deltas: &[RadarContactDelta]) {
    for (i, delta) in deltas.iter().enumerate() {
        apply(book, delta, &format!("new.{}", i));
    }
}

fn after_eviction(sightings: &[Sighting], gone: &[String]) -> Vec<Sighting> {
    sightings.iter().filter(|s| !gone.contains(&s.entity_id)).cloned().collect()
}

#[test]
fn contact_carries_the_sighting_and_the_transponder_address() {
    let s = Sighting {
        entity_id: "asteroid".to_string(),
        within_radius: true,
        transponder_present: true,
        distance: 8,
        distance_xy: 7,
        azimuth: Degrees { bits: 60.0f64.to_bits() },
        elevation: Degrees { bits: 120.0f64.to_bits() },
    };
    assert_eq!(
        contact_from(SHARD, &s),
        RadarContact {
            entity_id: "asteroid".to_string(),
            distance: 8,
            distance_xy: 7,
            azimuth: Degrees { bits: 60.0f64.to_bits() },
            elevation: Degrees { bits: 120.0f64.to_bits() },
            transponder: ResourceIdentifier {
                rid: "decs.components.the_shard.asteroid.transponder".to_string()
            },
        }
    );
}

#[test]
fn first_pass_adds_exactly_what_is_in_range() {
    let sightings = vec![
        seen(OBSERVER, true, true, 0),
        seen("asteroid", true, true, 0),
        seen("ship", true, true, 0),
        seen("money", false, true, 500),
    ];
    let deltas = radar_updates(OBSERVER, SHARD, &ContactBook::new(), &sightings);
    assert_eq!(
        deltas,
        vec![
            RadarContactDelta::Add(record("asteroid", 0)),
            RadarContactDelta::Add(record("ship", 0)),
        ]
    );
    assert!(radar_evictions(OBSERVER, &ContactBook::new(), &sightings).is_empty());
}

#[test]
fn contacts_out_of_range_are_removed() {
    let mut book = ContactBook::new();
    book.insert("decs.components.the_shard.myownentity.1".to_string(), record("asteroid", 0));
    book.insert("decs.components.the_shard.myownentity.2".to_string(), record("ship", 0));
    let sightings = vec![
        seen(OBSERVER, true, true, 0),
        seen("asteroid", false, true, 500),
        seen("ship", false, true, 500),
        seen("money", false, true, 500),
    ];
    assert_eq!(
        radar_updates(OBSERVER, SHARD, &book, &sightings),
        vec![
            RadarContactDelta::Remove("decs.components.the_shard.myownentity.1".to_string()),
            RadarContactDelta::Remove("decs.components.the_shard.myownentity.2".to_string()),
        ]
    );
    assert!(radar_evictions(OBSERVER, &book, &sightings).is_empty());
}

#[test]
fn lost_transponder_removes_and_evicts_even_in_range() {
    let mut book = ContactBook::new();
    book.insert("slot.1".to_string(), record("asteroid", 1));
    book.insert("slot.2".to_string(), record("ship", 1));
    let sightings = vec![
        seen("asteroid", true, false, 1),
        seen("ship", true, true, 2),
        seen("money", true, false, 3),
    ];
    assert_eq!(
        radar_updates(OBSERVER, SHARD, &book, &sightings),
        vec![
            RadarContactDelta::Remove("slot.1".to_string()),
            RadarContactDelta::Change("slot.2".to_string(), record("ship", 2)),
            RadarContactDelta::Add(record("money", 3)),
        ]
    );
    assert_eq!(radar_evictions(OBSERVER, &book, &sightings), vec!["asteroid".to_string()]);
}

#[test]
fn observer_never_sees_itself() {
    let mut book = ContactBook::new();
    book.insert("slot.1".to_string(), record(OBSERVER, 0));
    let sightings = vec![seen(OBSERVER, true, false, 0)];
    assert!(radar_updates(OBSERVER, SHARD, &book, &sightings).is_empty());
    assert!(radar_evictions(OBSERVER, &book, &sightings).is_empty());
    assert_eq!(judge(OBSERVER, SHARD, &ContactBook::new(), &sightings[0]), None);
}

#[test]
fn absent_contacts_are_left_alone() {
    let mut book = ContactBook::new();
    book.insert("slot.1".to_string(), record("ghost", 1));
    let sightings = vec![seen("rock", false, true, 50)];
    assert!(radar_updates(OBSERVER, SHARD, &book, &sightings).is_empty());
    assert!(radar_updates(OBSERVER, SHARD, &book, &Vec::new()).is_empty());
}

#[test]
fn slots_are_named_in_bus_spelling() {
    let mut book = ContactBook::new();
    book.insert("decs:components:s:o:radar_contacts:1".to_string(), record("rock", 1));
    book.insert("decs:components:s:o:radar_contacts:2".to_string(), record("ship", 1));
    let sightings = vec![seen("rock", false, true, 9), seen("ship", true, true, 2)];
    assert_eq!(
        radar_updates(OBSERVER, SHARD, &book, &sightings),
        vec![
            RadarContactDelta::Remove("decs.components.s.o.radar_contacts.1".to_string()),
            RadarContactDelta::Change(
                "decs.components.s.o.radar_contacts.2".to_string(),
                record("ship", 2)
            ),
        ]
    );
}

#[test]
fn one_verdict_per_sighting() {
    let book = ContactBook::new();
    assert_eq!(
        judge(OBSERVER, SHARD, &book, &seen("rock", true, false, 1)),
        Some(RadarContactDelta::Add(record("rock", 1)))
    );
    assert_eq!(judge(OBSERVER, SHARD, &book, &seen("rock", false, true, 1)), None);
}

#[test]
fn applying_deltas_changes_the_book_as_they_say() {
    let mut book = ContactBook::new();
    apply(&mut book, &RadarContactDelta::Add(record("rock", 1)), "slot.a");
    apply(&mut book, &RadarContactDelta::Add(record("ship", 2)), "slot.b");
    assert_eq!(book.len(), 2);
    assert_eq!(book.get("slot.a"), Some(&record("rock", 1)));
    apply(&mut book, &RadarContactDelta::Change("slot.a".to_string(), record("rock", 5)), "unused");
    assert_eq!(book.get("slot.a"), Some(&record("rock", 5)));
    assert_eq!(book.get("unused"), None);
    apply(&mut book, &RadarContactDelta::Remove("slot.b".to_string()), "unused");
    assert_eq!(book.len(), 1);
    assert_eq!(book.get("slot.b"), None);
}

#[test]
fn pass_leaves_exactly_the_entities_in_range_in_contact() {
    let mut book = ContactBook::new();
    book.insert("slot.1".to_string(), record("near_old", 1));
    book.insert("slot.2".to_string(), record("far_old", 1));
    book.insert("slot.3".to_string(), record("despawned", 1));
    book.insert("slot.4".to_string(), record("unsighted", 1));
    let sightings = vec![
        seen(OBSERVER, true, true, 0),
        seen("near_old", true, true, 2),
        seen("far_old", false, true, 80),
        seen("despawned", true, false, 1),
        seen("near_new", true, true, 3),
        seen("far_new", false, true, 90),
    ];
    let deltas = radar_updates(OBSERVER, SHARD, &book, &sightings);
    settle(&mut book, &deltas);
    assert_eq!(book.len(), 3);
    assert_eq!(book.get(book.slot_of_entity("near_old").unwrap()), Some(&record("near_old", 2)));
    assert_eq!(book.get(book.slot_of_entity("near_new").unwrap()), Some(&record("near_new", 3)));
    assert_eq!(book.get("slot.4"), Some(&record("unsighted", 1)));
    assert_eq!(book.slot_of_entity("far_old"), None);
    assert_eq!(book.slot_of_entity("despawned"), None);
    assert_eq!(book.slot_of_entity("far_new"), None);
    assert_eq!(book.slot_of_entity(OBSERVER), None);
}

#[test]
fn second_pass_is_silent_when_nothing_stays_in_contact() {
    let mut book = ContactBook::new();
    book.insert("slot.1".to_string(), record("far_old", 1));
    book.insert("slot.2".to_string(), record("despawned", 1));
    let sightings = vec![
        seen(OBSERVER, true, true, 0),
        seen("far_old", false, true, 80),
        seen("despawned", true, false, 1),
        seen("far_new", false, true, 90),
    ];
    let deltas = radar_updates(OBSERVER, SHARD, &book, &sightings);
    assert_eq!(deltas.len(), 2);
    let gone = radar_evictions(OBSERVER, &book, &sightings);
    settle(&mut book, &deltas);
    let remaining = after_eviction(&sightings, &gone);
    assert!(radar_updates(OBSERVER, SHARD, &book, &remaining).is_empty());
    assert!(radar_evictions(OBSERVER, &book, &remaining).is_empty());
}

#[test]
fn second_pass_only_restates_what_the_book_holds() {
    let mut book = ContactBook::new();
    book.insert("slot.1".to_string(), record("near_old", 1));
    book.insert("slot.2".to_string(), record("far_old", 1));
    book.insert("slot.3".to_string(), record("despawned", 1));
    let sightings = vec![
        seen("near_old", true, true, 2),
        seen("far_old", false, true, 80),
        seen("despawned", true, false, 1),
        seen("near_new", true, true, 3),
    ];
    let deltas = radar_updates(OBSERVER, SHARD, &book, &sightings);
    let gone = radar_evictions(OBSERVER, &book, &sightings);
    settle(&mut book, &deltas);
    let remaining = after_eviction(&sightings, &gone);
    let again = radar_updates(OBSERVER, SHARD, &book, &remaining);
    assert_eq!(again.len(), 2);
    for delta in &again {
        match delta {
            RadarContactDelta::Change(slot, rec) => assert_eq!(book.get(slot), Some(rec)),
            other => panic!("{:?}", other),
        }
    }
    let before: Vec<Option<RadarContact>> =
        ["slot.1", "new.3"].iter().map(|s| book.get(s).cloned()).collect();
    settle(&mut book, &again);
    let after: Vec<Option<RadarContact>> =
        ["slot.1", "new.3"].iter().map(|s| book.get(s).cloned()).collect();
    assert_eq!(book.len(), 2);
    assert_eq!(before, after);
}

#[test]
fn contact_added_without_transponder_goes_on_the_next_pass() {
    let mut book = ContactBook::new();
    let sightings = vec![seen("wreck", true, false, 1)];
    let deltas = radar_updates(OBSERVER, SHARD, &book, &sightings);
    assert_eq!(deltas, vec![RadarContactDelta::Add(record("wreck", 1))]);
    settle(&mut book, &deltas);
    assert_eq!(
        radar_updates(OBSERVER, SHARD, &book, &sightings),
        vec![RadarContactDelta::Remove("new.0".to_string())]
    );
    assert_eq!(radar_evictions(OBSERVER, &book, &sightings), vec!["wreck".to_string()]);
}

#[test]
fn store_is_asked_only_about_contacts() {
    let mut book = ContactBook::new();
    book.insert("slot.1".to_string(), record("rock", 1));
    book.insert("slot.2".to_string(), record(OBSERVER, 0));
    assert!(wants_transponder_check(OBSERVER, &book, "rock"));
    assert!(!wants_transponder_check(OBSERVER, &book, "ship"));
    assert!(!wants_transponder_check(OBSERVER, &book, OBSERVER));
}

#[test]
fn only_a_clear_no_counts_as_absent() {
    assert!(transponder_present(Some(true)));
    assert!(transponder_present(None));
    assert!(!transponder_present(Some(false)));
}
