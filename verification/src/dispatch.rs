//! Routing of what the host hands to the radar: first by operation, then by
//! the shape of a delivered message's subject; and the radar's answer to a
//! registry ping.

use vstd::prelude::*;
use decscloud_common::systemmgr;
use crate::components::System;
use crate::error::RadarError;
use crate::text::{split, split_at, views, lemma_split_concat, lemma_split_joined, lemma_split_plain};

verus! {

/// What the host asks the radar to do.
#[derive(Clone, Copy, Debug, PartialEq, Eq, Structural)]
pub enum Operation {
    /// A broker message has arrived for the radar.
    DeliverMessage,
    /// The host wants to know whether the radar is alive.
    HealthRequest,
}

/// The name the host gives to the operation, if it is one of the two the
/// radar implements.
pub open spec fn operation_named(name: Seq<char>) -> Option<Operation> {
    if name == "wascap:messaging!DeliverMessage"@ {
        Some(Operation::DeliverMessage)
    } else if name == "wascap:httpsrv!HealthRequest"@ {
        Some(Operation::HealthRequest)
    } else {
        None
    }
}

/// `OP_DELIVER_MESSAGE` of the guest SDK's messaging codec: the operation
/// name under which the host delivers a broker message.
#[verifier::external_body]
fn deliver_message_name() -> (name: &'static str)
    ensures
        name@ == "wascap:messaging!DeliverMessage"@,
{
    waxosuit_guest::prelude::messaging::OP_DELIVER_MESSAGE
}

/// `OP_HEALTH_REQUEST` of the guest SDK's core codec: the operation name of
/// the host's liveness probe.
#[verifier::external_body]
fn health_request_name() -> (name: &'static str)
    ensures
        name@ == "wascap:httpsrv!HealthRequest"@,
{
    waxosuit_guest::prelude::core::OP_HEALTH_REQUEST
}

/// Tells the two operations the radar implements from everything else.
pub fn operation_of(operation: &str) -> (r: Result<Operation, RadarError>)
    ensures
        match r {
            Ok(op) => operation_named(operation@) == Some(op),
            Err(e) => operation_named(operation@) is None && e == RadarError::BadDispatch,
        },
{
    if *operation == *deliver_message_name() {
        Ok(Operation::DeliverMessage)
    } else if *operation == *health_request_name() {
        Ok(Operation::HealthRequest)
    } else {
        Err(RadarError::BadDispatch)
    }
}

/// What a delivered message is about.
#[derive(Clone, Debug, PartialEq)]
pub enum Route {
    /// The registry wants to know who is there.
    RegistryPing,
    /// An entity has moved.
    PositionChange { shard: String, entity: String },
    /// It is the radar's turn to work on one entity of this shard.
    FrameTick { shard: String },
}

/// What a `Route` is, as plain values.
pub enum RouteView {
    RegistryPing,
    PositionChange { shard: Seq<char>, entity: Seq<char> },
    FrameTick { shard: Seq<char> },
}

impl View for Route {
    type V = RouteView;

    open spec fn view(&self) -> RouteView {
        match self {
            Route::RegistryPing => RouteView::RegistryPing,
            Route::PositionChange { shard, entity } => RouteView::PositionChange {
                shard: shard@,
                entity: entity@,
            },
            Route::FrameTick { shard } => RouteView::FrameTick { shard: shard@ },
        }
    }
}

/// The route of a subject.
///
/// The registry pings on one fixed subject. A position change arrives on
/// `event.{ns}.components.{shard}.{entity}.position.change`, seven segments.
/// A frame for the radar arrives on `decs.frames.{shard}.radar`, four
/// segments. Every other subject has no route.
pub open spec fn route_of(subject: Seq<char>) -> Option<RouteView> {
    let parts = split_at(subject, '.');
    if subject == "decs.system.registry"@ {
        Some(RouteView::RegistryPing)
    } else if parts.len() == 7 && parts[0] == "event"@ && parts[2] == "components"@ && parts[5]
        == "position"@ && parts[6] == "change"@ {
        Some(RouteView::PositionChange { shard: parts[3], entity: parts[4] })
    } else if parts.len() == 4 && parts[0] == "decs"@ && parts[1] == "frames"@ && parts[3]
        == "radar"@ {
        Some(RouteView::FrameTick { shard: parts[2] })
    } else {
        None
    }
}

/// Finds the route of a subject, or rejects the subject.
pub fn route(subject: &str) -> (r: Result<Route, RadarError>)
    ensures
        match r {
            Ok(found) => route_of(subject@) == Some(found@),
            Err(e) => route_of(subject@) is None && e == RadarError::MalformedSubject,
        },
{
    if *subject == *"decs.system.registry" {
        return Ok(Route::RegistryPing);
    }
    let parts = split(subject, '.');
    assert(forall|i: int| 0 <= i < parts.len() ==> parts@[i]@ == views(parts@)[i]);
    if parts.len() == 7 && *parts[0] == *"event" && *parts[2] == *"components" && *parts[5]
        == *"position" && *parts[6] == *"change" {
        Ok(Route::PositionChange { shard: parts[3].clone(), entity: parts[4].clone() })
    } else if parts.len() == 4 && *parts[0] == *"decs" && *parts[1] == *"frames" && *parts[3]
        == *"radar" {
        Ok(Route::FrameTick { shard: parts[2].clone() })
    } else {
        Err(RadarError::MalformedSubject)
    }
}

/// The subject on which frames for the radar arrive in `shard`.
pub open spec fn frame_subject(shard: Seq<char>) -> Seq<char> {
    "decs.frames."@ + shard + ".radar"@
}

/// The subject on which position changes of `entity` are announced.
pub open spec fn position_subject(ns: Seq<char>, shard: Seq<char>, entity: Seq<char>) -> Seq<
    char,
> {
    "event."@ + ns + ".components."@ + shard + "."@ + entity + ".position.change"@
}

/// A frame subject routes to a frame tick for its shard.
pub proof fn lemma_frame_subject_routes(shard: Seq<char>)
    requires
        !shard.contains('.'),
    ensures
        route_of(frame_subject(shard)) == Some(RouteView::FrameTick { shard }),
{
    reveal_strlit("decs.frames.");
    reveal_strlit(".radar");
    reveal_strlit("decs");
    reveal_strlit("frames");
    reveal_strlit("radar");
    reveal_strlit("decs.system.registry");
    let subject = frame_subject(shard);
    let head = "decs"@;
    let kind = "frames"@;
    let system = "radar"@;
    assert(!head.contains('.')) by {
        if head.contains('.') {
            let i = choose|i: int| 0 <= i < head.len() && head[i] == '.';
        }
    }
    assert(!kind.contains('.')) by {
        if kind.contains('.') {
            let i = choose|i: int| 0 <= i < kind.len() && kind[i] == '.';
        }
    }
    assert(!system.contains('.')) by {
        if system.contains('.') {
            let i = choose|i: int| 0 <= i < system.len() && system[i] == '.';
        }
    }
    lemma_split_plain(head, '.');
    lemma_split_plain(kind, '.');
    lemma_split_plain(shard, '.');
    lemma_split_plain(system, '.');
    let after_kind = shard.push('.') + system;
    lemma_split_concat(shard, system, '.');
    let after_head = kind.push('.') + after_kind;
    lemma_split_concat(kind, after_kind, '.');
    lemma_split_concat(head, after_head, '.');
    assert(subject =~= head.push('.') + after_head);
    assert(split_at(subject, '.') =~= seq![head, kind, shard, system]);
    assert(subject != "decs.system.registry"@) by {
        if subject == "decs.system.registry"@ {
            assert(subject[5] == 'f');
        }
    }
}

/// A position-change subject routes to a position change of its entity.
pub proof fn lemma_position_subject_routes(ns: Seq<char>, shard: Seq<char>, entity: Seq<char>)
    requires
        !ns.contains('.'),
        !shard.contains('.'),
        !entity.contains('.'),
    ensures
        route_of(position_subject(ns, shard, entity)) == Some(
            RouteView::PositionChange { shard, entity },
        ),
{
    reveal_strlit("event.");
    reveal_strlit(".components.");
    reveal_strlit(".");
    reveal_strlit(".position.change");
    reveal_strlit("event");
    reveal_strlit("components");
    reveal_strlit("position");
    reveal_strlit("change");
    reveal_strlit("decs.system.registry");
    let subject = position_subject(ns, shard, entity);
    let head = "event"@;
    let group = "components"@;
    let component = "position"@;
    let verb = "change"@;
    assert(!head.contains('.')) by {
        if head.contains('.') {
            let i = choose|i: int| 0 <= i < head.len() && head[i] == '.';
        }
    }
    assert(!group.contains('.')) by {
        if group.contains('.') {
            let i = choose|i: int| 0 <= i < group.len() && group[i] == '.';
        }
    }
    assert(!component.contains('.')) by {
        if component.contains('.') {
            let i = choose|i: int| 0 <= i < component.len() && component[i] == '.';
        }
    }
    assert(!verb.contains('.')) by {
        if verb.contains('.') {
            let i = choose|i: int| 0 <= i < verb.len() && verb[i] == '.';
        }
    }
    lemma_split_plain(head, '.');
    lemma_split_plain(ns, '.');
    lemma_split_plain(group, '.');
    lemma_split_plain(shard, '.');
    lemma_split_plain(entity, '.');
    lemma_split_plain(component, '.');
    lemma_split_plain(verb, '.');
    let rest_e = component.push('.') + verb;
    lemma_split_concat(component, verb, '.');
    let rest_d = entity.push('.') + rest_e;
    lemma_split_concat(entity, rest_e, '.');
    let rest_c = shard.push('.') + rest_d;
    lemma_split_concat(shard, rest_d, '.');
    let rest_b = group.push('.') + rest_c;
    lemma_split_concat(group, rest_c, '.');
    let rest_a = ns.push('.') + rest_b;
    lemma_split_concat(ns, rest_b, '.');
    lemma_split_concat(head, rest_a, '.');
    assert(subject =~= head.push('.') + rest_a);
    assert(split_at(subject, '.') =~= seq![head, ns, group, shard, entity, component, verb]);
    assert(subject != "decs.system.registry"@) by {
        if subject == "decs.system.registry"@ {
            assert(subject[0] == 'e');
        }
    }
}

/// A subject that routes to a frame tick is the frame subject of that shard,
/// and the shard holds no dot.
pub proof fn lemma_frame_tick_subject(subject: Seq<char>, shard: Seq<char>)
    requires
        route_of(subject) == Some(RouteView::FrameTick { shard }),
    ensures
        subject == frame_subject(shard),
        !shard.contains('.'),
{
    reveal_strlit("decs.frames.");
    reveal_strlit(".radar");
    reveal_strlit("decs");
    reveal_strlit("frames");
    reveal_strlit("radar");
    let parts = split_at(subject, '.');
    lemma_split_joined(subject, '.');
    assert(parts.len() == 4);
    assert(parts[2] == shard);
    reveal_with_fuel(crate::text::joined, 5);
    assert(parts.drop_last().drop_last().drop_last() =~= seq![parts[0]]);
    assert(parts.drop_last().drop_last() =~= seq![parts[0], parts[1]]);
    assert(parts.drop_last() =~= seq![parts[0], parts[1], parts[2]]);
    assert(crate::text::joined(parts, '.') =~= frame_subject(shard));
}

/// A subject that routes to a position change is a position-change subject
/// of that shard and entity, and neither holds a dot.
pub proof fn lemma_position_change_subject(subject: Seq<char>, shard: Seq<char>, entity: Seq<char>)
    requires
        route_of(subject) == Some(RouteView::PositionChange { shard, entity }),
    ensures
        exists|ns: Seq<char>| !ns.contains('.') && subject == position_subject(ns, shard, entity),
        !shard.contains('.'),
        !entity.contains('.'),
{
    reveal_strlit("event.");
    reveal_strlit(".components.");
    reveal_strlit(".");
    reveal_strlit(".position.change");
    reveal_strlit("event");
    reveal_strlit("components");
    reveal_strlit("position");
    reveal_strlit("change");
    reveal_strlit("decs.system.registry");
    reveal_strlit("decs");
    reveal_strlit("frames");
    reveal_strlit("radar");
    let parts = split_at(subject, '.');
    lemma_split_joined(subject, '.');
    assert(parts.len() == 7);
    let ns = parts[1];
    assert(parts[3] == shard && parts[4] == entity);
    reveal_with_fuel(crate::text::joined, 8);
    let upto = |n: int| parts.subrange(0, n);
    assert(parts.drop_last() =~= upto(6));
    assert(upto(6).drop_last() =~= upto(5));
    assert(upto(5).drop_last() =~= upto(4));
    assert(upto(4).drop_last() =~= upto(3));
    assert(upto(3).drop_last() =~= upto(2));
    assert(upto(2).drop_last() =~= upto(1));
    assert(crate::text::joined(parts, '.') =~= position_subject(ns, shard, entity));
    assert(!ns.contains('.'));
}

/// Where the answer to a registry ping goes: to the address the ping named,
/// or to the registry's reply subject if it named none.
pub open spec fn reply_address_spec(reply_to: Seq<char>) -> Seq<char> {
    if reply_to.len() == 0 {
        "decs.system.registry.replies"@
    } else {
        reply_to
    }
}

pub fn reply_address(reply_to: &str) -> (address: String)
    ensures
        address@ == reply_address_spec(reply_to@),
{
    if reply_to.is_empty() {
        "decs.system.registry.replies".to_owned()
    } else {
        reply_to.to_owned()
    }
}

/// What the radar tells the registry: its name, one frame per second, and
/// that it works on entities that have a receiver and a position.
pub fn registry_entry() -> (system: System)
    ensures
        system.name@ == "radar"@,
        system.framerate == crate::FRAMERATE,
        views(system.components@) == seq!["radar_receiver"@, "position"@],
{
    let mut components: Vec<String> = Vec::new();
    components.push("radar_receiver".to_owned());
    components.push("position".to_owned());
    assert(views(components@) =~= seq!["radar_receiver"@, "position"@]);
    System { name: "radar".to_owned(), framerate: crate::FRAMERATE, components }
}

/// The JSON text that stands for a system description.
pub uninterp spec fn system_json(name: Seq<char>, framerate: u32, components: Seq<Seq<char>>) -> Seq<u8>;

/// `serde_json::to_vec` on the common crate's `System` with the same three
/// fields. The crate writes a struct of a string, a number and a list of
/// strings into a byte vector; the only errors it can raise on that way are
/// those of the writer, and a byte vector takes every write. So the call
/// succeeds, and what it returns depends on the fields alone.
#[verifier::external_body]
fn encoded(system: &System) -> (r: Option<Vec<u8>>)
    ensures
        r is Some,
        r->0@ == system_json(system.name@, system.framerate, views(system.components@)),
{
    let outside = systemmgr::System {
        name: system.name.clone(),
        framerate: system.framerate,
        components: system.components.clone(),
    };
    serde_json::to_vec(&outside).ok()
}

/// A message ready to go out: where to, and the bytes.
#[derive(Clone, Debug, PartialEq)]
pub struct Reply {
    pub subject: String,
    pub body: Vec<u8>,
}

/// Addresses the encoded answer as the ping asked. Without an encoded answer
/// there is nothing to send.
pub fn reply_with(reply_to: &str, body: Option<Vec<u8>>) -> (r: Result<Reply, RadarError>)
    ensures
        match r {
            Ok(reply) => body == Some(reply.body) && reply.subject@ == reply_address_spec(
                reply_to@,
            ),
            Err(e) => body is None && e == RadarError::MalformedPayload,
        },
{
    match body {
        Some(bytes) => Ok(Reply { subject: reply_address(reply_to), body: bytes }),
        None => Err(RadarError::MalformedPayload),
    }
}

/// The radar's answer to a registry ping that asked for a reply on
/// `reply_to`. There always is one: it goes to the address the ping named,
/// or to the registry's reply subject if it named none, and carries the
/// radar's description of itself.
pub fn handle_ping(reply_to: &str) -> (r: Result<Reply, RadarError>)
    ensures
        r is Ok,
        r->Ok_0.subject@ == reply_address_spec(reply_to@),
        r->Ok_0.body@ == system_json(
            "radar"@,
            crate::FRAMERATE,
            seq!["radar_receiver"@, "position"@],
        ),
{
    let system = registry_entry();
    let body = encoded(&system);
    reply_with(reply_to, body)
}

} // verus!
