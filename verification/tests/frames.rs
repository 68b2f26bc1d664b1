use radar::components::{Degrees, EntityFrame, RadarContact, ResourceIdentifier};
use radar::error::RadarError;
use radar::contacts::ContactBook;
use radar::frame::{
    batch_outcome, decode_frame, frame_keys, frame_or_error, handle_frame, is_observer,
    publication, publications, transponder_key, Params,
};
use radar::radar::{RadarContactDelta, Sighting};

fn record(entity: &str) -> RadarContact {
    RadarContact {
        entity_id: entity.to_string(),
        distance: 2,
        distance_xy: 2,
        azimuth: Degrees { bits: 0 },
        elevation: Degrees { bits: 90.0f64.to_bits() },
        transponder: ResourceIdentifier {
            rid: format!("decs.components.the_void.{}.transponder", entity),
        },
    }
}

#[test]
fn frame_body_is_read_as_json() {
    let body = br#"{"seq_no": 7, "elapsed_ms": 16, "shard": "the_void", "entity_id": "player1"}"#;
    assert_eq!(
        decode_frame(body),
        Ok(EntityFrame {
            seq_no: 7,
            elapsed_ms: 16,
            shard: "the_void".to_string(),
            entity_id: "player1".to_string(),
        })
    );
}

#[test]
fn broken_frame_body_is_rejected() {
    assert_eq!(decode_frame(b""), Err(RadarError::MalformedPayload));
    assert_eq!(decode_frame(b"{"), Err(RadarError::MalformedPayload));
    assert_eq!(decode_frame(br#"{"shard": "the_void"}"#), Err(RadarError::MalformedPayload));
    assert_eq!(
        decode_frame(br#"{"seq_no": -1, "elapsed_ms": 16, "shard": "s", "entity_id": "e"}"#),
        Err(RadarError::MalformedPayload)
    );
    assert_eq!(frame_or_error(None), Err(RadarError::MalformedPayload));
}

#[test]
fn frame_names_what_to_read() {
    let frame = EntityFrame {
        seq_no: 1,
        elapsed_ms: 1000,
        shard: "the_void".to_string(),
        entity_id: "player1".to_string(),
    };
    let keys = frame_keys(&frame);
    assert_eq!(keys.receiver, "decs:components:the_void:player1:radar_receiver");
    assert_eq!(keys.position, "decs:components:the_void:player1:position");
    assert_eq!(keys.contacts, "decs:components:the_void:player1:radar_contacts");
    assert_eq!(keys.resource_id, "decs.components.the_void.player1");
    assert_eq!(transponder_key("the_void", "rock"), "decs:components:the_void:rock:transponder");
}

#[test]
fn only_entities_with_receiver_and_position_observe() {
    assert!(is_observer(true, true));
    assert!(!is_observer(true, false));
    assert!(!is_observer(false, true));
    assert!(!is_observer(false, false));
}

#[test]
fn additions_go_to_the_collection() {
    let p = publication("decs.components.the_void.player1", &RadarContactDelta::Add(record("rock")));
    assert_eq!(p.subject, "call.decs.components.the_void.player1.radar_contacts.new");
    assert_eq!(p.params, Params::Contact(record("rock")));
}

#[test]
fn removals_go_to_the_collection_and_name_the_slot() {
    let p = publication(
        "decs.components.the_void.player1",
        &RadarContactDelta::Remove("decs:components:the_void:player1:radar_contacts:4".to_string()),
    );
    assert_eq!(p.subject, "call.decs.components.the_void.player1.radar_contacts.delete");
    assert_eq!(
        p.params,
        Params::Rid("decs.components.the_void.player1.radar_contacts.4".to_string())
    );
}

#[test]
fn changes_are_set_on_the_slot() {
    let p = publication(
        "decs.components.the_void.player1",
        &RadarContactDelta::Change(
            "decs.components.the_void.player1.radar_contacts.4".to_string(),
            record("ship"),
        ),
    );
    assert_eq!(p.subject, "call.decs.components.the_void.player1.radar_contacts.4.set");
    assert_eq!(p.params, Params::Contact(record("ship")));
}

#[test]
fn deltas_are_published_in_emission_order() {
    let deltas = vec![
        RadarContactDelta::Remove("slot.1".to_string()),
        RadarContactDelta::Add(record("rock")),
        RadarContactDelta::Change("slot.2".to_string(), record("ship")),
    ];
    let out = publications("decs.components.s.o", &deltas);
    assert_eq!(out.len(), 3);
    for (p, d) in out.iter().zip(deltas.iter()) {
        assert_eq!(*p, publication("decs.components.s.o", d));
    }
    assert!(publications("decs.components.s.o", &Vec::new()).is_empty());
}

#[test]
fn one_failed_publish_fails_the_batch() {
    assert_eq!(batch_outcome(&vec![]), Ok(()));
    assert_eq!(batch_outcome(&vec![true, true]), Ok(()));
    assert_eq!(batch_outcome(&vec![true, false, true]), Err(RadarError::PublishFailure));
    assert_eq!(batch_outcome(&vec![false]), Err(RadarError::PublishFailure));
}

#[test]
fn errors_have_messages() {
    assert_eq!(RadarError::BadDispatch.message(), "bad dispatch");
    assert_eq!(RadarError::NoMessage.message(), "No Message");
    assert_eq!(RadarError::MalformedSubject.message(), "Unexpected message received on subject");
    assert_eq!(RadarError::MalformedPayload.message(), "Malformed message body");
    assert_eq!(RadarError::StoreUnavailable.message(), "Key-value store unavailable");
    assert_eq!(RadarError::PublishFailure.message(), "Error publishing message");
}

#[test]
fn one_frame_yields_publications_and_evictions() {
    let frame = EntityFrame {
        seq_no: 3,
        elapsed_ms: 1000,
        shard: "the_void".to_string(),
        entity_id: "player1".to_string(),
    };
    let mut book = ContactBook::new();
    book.insert("decs.components.the_void.player1.radar_contacts.1".to_string(), record("gone"));
    let seen = |id: &str, within_radius: bool, transponder_present: bool| Sighting {
        entity_id: id.to_string(),
        within_radius,
        transponder_present,
        distance: 2,
        distance_xy: 2,
        azimuth: Degrees { bits: 0 },
        elevation: Degrees { bits: 90.0f64.to_bits() },
    };
    let sightings =
        vec![seen("player1", true, true), seen("gone", true, false), seen("rock", true, true)];
    let out = handle_frame(&frame, &book, &sightings);
    assert_eq!(out.evicted, vec!["gone".to_string()]);
    assert_eq!(out.publications.len(), 2);
    assert_eq!(
        out.publications[0].subject,
        "call.decs.components.the_void.player1.radar_contacts.delete"
    );
    assert_eq!(
        out.publications[0].params,
        Params::Rid("decs.components.the_void.player1.radar_contacts.1".to_string())
    );
    assert_eq!(
        out.publications[1].subject,
        "call.decs.components.the_void.player1.radar_contacts.new"
    );
    assert_eq!(out.publications[1].params, Params::Contact(record("rock")));
}
