use radar::error::RadarError;
use radar::gateway::ResProtocolRequest;

#[test]
fn requests_render_as_subjects() {
    let rid = "decs.components.the_void.player1.radar_contacts".to_string();
    assert_eq!(
        ResProtocolRequest::New(rid.clone()).to_string(),
        "call.decs.components.the_void.player1.radar_contacts.new"
    );
    assert_eq!(
        ResProtocolRequest::Delete(rid.clone()).to_string(),
        "call.decs.components.the_void.player1.radar_contacts.delete"
    );
    assert_eq!(
        ResProtocolRequest::SetValue(rid.clone()).to_string(),
        "call.decs.components.the_void.player1.radar_contacts.set"
    );
    assert_eq!(
        ResProtocolRequest::Get(rid.clone()).to_string(),
        "get.decs.components.the_void.player1.radar_contacts"
    );
    assert_eq!(
        ResProtocolRequest::Access(rid).to_string(),
        "access.decs.components.the_void.player1.radar_contacts"
    );
}

#[test]
fn subjects_parse_as_requests() {
    assert_eq!(
        ResProtocolRequest::parse("call.decs.components.the_void.player1.radar_contacts.new"),
        Ok(ResProtocolRequest::New("decs.components.the_void.player1.radar_contacts".into()))
    );
    assert_eq!(
        ResProtocolRequest::parse("call.decs.components.the_void.player1.radar_contacts.delete"),
        Ok(ResProtocolRequest::Delete("decs.components.the_void.player1.radar_contacts".into()))
    );
    assert_eq!(
        ResProtocolRequest::parse("get.decs.components.the_void.player1.radar_contacts.1"),
        Ok(ResProtocolRequest::Get("decs.components.the_void.player1.radar_contacts.1".into()))
    );
    assert_eq!(
        ResProtocolRequest::parse("call.decs.components.the_void.player1.position.set"),
        Ok(ResProtocolRequest::SetValue("decs.components.the_void.player1.position".into()))
    );
    assert_eq!(
        ResProtocolRequest::parse("access.decs.components.the_void.player1.radar_contacts.1"),
        Ok(ResProtocolRequest::Access("decs.components.the_void.player1.radar_contacts.1".into()))
    );
    assert_eq!(
        ResProtocolRequest::parse("call.decs.shard.the_void.set"),
        Ok(ResProtocolRequest::SetValue("decs.shard.the_void".into()))
    );
}

#[test]
fn empty_resource_ids_are_read_as_they_stand() {
    assert_eq!(ResProtocolRequest::parse("get."), Ok(ResProtocolRequest::Get(String::new())));
    assert_eq!(ResProtocolRequest::parse("call..new"), Ok(ResProtocolRequest::New(String::new())));
    assert_eq!(
        ResProtocolRequest::parse("call..delete"),
        Ok(ResProtocolRequest::Delete(String::new()))
    );
}

#[test]
fn unknown_subjects_fail_explicitly() {
    for subject in [
        "",
        "??",
        "call.new",
        "call.set",
        "call.delete",
        "delete",
        "xdelete",
        "foo.bar.delete",
        "call.decs.shard.the_void.incr",
        "call.decs.shard.the_voiddelete",
        "event.decs.components.the_void.player1.position.change",
        "post.decs.shard",
        "call.\u{e9}",
    ] {
        assert_eq!(
            ResProtocolRequest::parse(subject),
            Err(RadarError::MalformedSubject),
            "{}",
            subject
        );
        assert!(!ResProtocolRequest::has_shape(subject));
    }
}

#[test]
fn resource_ids_may_hold_any_character() {
    assert_eq!(
        ResProtocolRequest::parse("call.d\u{e9}cs.\u{1F680}.new"),
        Ok(ResProtocolRequest::New("d\u{e9}cs.\u{1F680}".into()))
    );
    assert_eq!(
        ResProtocolRequest::parse("call.\u{e9}.delete"),
        Ok(ResProtocolRequest::Delete("\u{e9}".into()))
    );
}

#[test]
fn requests_survive_the_round_trip() {
    for rid in ["", "a", "decs.shard.the_void", "get.x", "x.new", "call.y.delete"] {
        for request in [
            ResProtocolRequest::Get(rid.to_string()),
            ResProtocolRequest::New(rid.to_string()),
            ResProtocolRequest::SetValue(rid.to_string()),
            ResProtocolRequest::Delete(rid.to_string()),
            ResProtocolRequest::Access(rid.to_string()),
        ] {
            assert_eq!(ResProtocolRequest::parse(&request.to_string()), Ok(request));
        }
    }
}
