use radar::dispatch::{handle_ping, operation_of, reply_address, registry_entry, route, Operation, Route};
use radar::error::RadarError;

#[test]
fn delivery_and_health_are_the_only_operations() {
    assert_eq!(operation_of("wascap:messaging!DeliverMessage"), Ok(Operation::DeliverMessage));
    assert_eq!(operation_of("wascap:httpsrv!HealthRequest"), Ok(Operation::HealthRequest));
    assert_eq!(operation_of("wascap:messaging!Publish"), Err(RadarError::BadDispatch));
    assert_eq!(operation_of(""), Err(RadarError::BadDispatch));
}

#[test]
fn registry_subject_routes_to_ping() {
    assert_eq!(route("decs.system.registry"), Ok(Route::RegistryPing));
}

#[test]
fn frame_subject_routes_to_tick() {
    assert_eq!(
        route("decs.frames.the_void.radar"),
        Ok(Route::FrameTick { shard: "the_void".to_string() })
    );
}

#[test]
fn position_change_routes_to_entity() {
    assert_eq!(
        route("event.decs.components.the_void.player1.position.change"),
        Ok(Route::PositionChange { shard: "the_void".to_string(), entity: "player1".to_string() })
    );
}

#[test]
fn other_subjects_are_rejected() {
    for subject in [
        "",
        "decs.frames.the_void.physics",
        "decs.frames.the_void.nested.radar",
        "decs.frames.radar",
        "decs.frames..radar.",
        "frames.decs.the_void.radar",
        "event.decs.components.the_void.player1.velocity.change",
        "event.decs.components.the_void.player1.change",
        "event.decs.components.the_void.player1.position.change.more",
        "decs.system.registry.replies",
        "call.decs.components.the_void.player1.position.set",
    ] {
        assert_eq!(route(subject), Err(RadarError::MalformedSubject), "{}", subject);
    }
}

#[test]
fn empty_segments_are_segments() {
    assert_eq!(route("decs.frames..radar"), Ok(Route::FrameTick { shard: String::new() }));
}

#[test]
fn ping_is_answered_where_it_asks() {
    assert_eq!(reply_address("inbox.42"), "inbox.42");
    assert_eq!(reply_address(""), "decs.system.registry.replies");
}

#[test]
fn radar_registers_receiver_and_position() {
    let system = registry_entry();
    assert_eq!(system.name, "radar");
    assert_eq!(system.framerate, 1);
    assert_eq!(system.components, vec!["radar_receiver".to_string(), "position".to_string()]);
}

#[test]
fn ping_reply_is_the_system_as_json() {
    let reply = handle_ping("").unwrap();
    assert_eq!(reply.subject, "decs.system.registry.replies");
    assert_eq!(
        String::from_utf8(reply.body).unwrap(),
        "{\"name\":\"radar\",\"framerate\":1,\"components\":[\"radar_receiver\",\"position\"]}"
    );
    let reply = handle_ping("inbox.7").unwrap();
    assert_eq!(reply.subject, "inbox.7");
    assert_eq!(
        String::from_utf8(reply.body).unwrap(),
        "{\"name\":\"radar\",\"framerate\":1,\"components\":[\"radar_receiver\",\"position\"]}"
    );
}

#[test]
fn every_ping_is_answered() {
    for reply_to in ["", "inbox.1", "decs.system.registry.replies", "\u{e9}.\u{1F680}", "a b"] {
        assert!(handle_ping(reply_to).is_ok(), "{}", reply_to);
    }
}
