//! The two spellings of an address. The store keys a component by
//! `decs:components:{shard}:{entity}:{component}`; the bus names the same
//! thing `decs.components.{shard}.{entity}.{component}`. The radar converts
//! between them at the boundary and nowhere else.

use vstd::prelude::*;
use crate::components::ResourceIdentifier;
use crate::text::{replace_char, replaced};

verus! {

/// The store key of one component of one entity.
pub open spec fn component_key_spec(
    shard: Seq<char>,
    entity: Seq<char>,
    component: Seq<char>,
) -> Seq<char> {
    "decs:components:"@ + shard + ":"@ + entity + ":"@ + component
}

/// The resource id of an entity.
pub open spec fn entity_rid_spec(shard: Seq<char>, entity: Seq<char>) -> Seq<char> {
    "decs.components."@ + shard + "."@ + entity
}

/// The resource id of one component of one entity.
pub open spec fn component_rid_spec(
    shard: Seq<char>,
    entity: Seq<char>,
    component: Seq<char>,
) -> Seq<char> {
    entity_rid_spec(shard, entity) + "."@ + component
}

/// The resource id of an entity's transponder.
pub open spec fn transponder_rid_spec(shard: Seq<char>, entity: Seq<char>) -> Seq<char> {
    component_rid_spec(shard, entity, "transponder"@)
}

/// The resource id of an observer's contact collection.
pub open spec fn contacts_rid_spec(observer_rid: Seq<char>) -> Seq<char> {
    observer_rid + ".radar_contacts"@
}

/// The dotted spelling of a key.
pub open spec fn dotted(key: Seq<char>) -> Seq<char> {
    replaced(key, ':', '.')
}

/// The colon-joined spelling of a resource id.
pub open spec fn coloned(rid: Seq<char>) -> Seq<char> {
    replaced(rid, '.', ':')
}

pub fn component_key(shard: &str, entity: &str, component: &str) -> (key: String)
    ensures
        key@ == component_key_spec(shard@, entity@, component@),
{
    let mut key = "decs:components:".to_owned();
    key.append(shard);
    key.append(":");
    key.append(entity);
    key.append(":");
    key.append(component);
    key
}

pub fn entity_rid(shard: &str, entity: &str) -> (rid: String)
    ensures
        rid@ == entity_rid_spec(shard@, entity@),
{
    let mut rid = "decs.components.".to_owned();
    rid.append(shard);
    rid.append(".");
    rid.append(entity);
    rid
}

pub fn component_rid(shard: &str, entity: &str, component: &str) -> (rid: String)
    ensures
        rid@ == component_rid_spec(shard@, entity@, component@),
{
    let mut rid = entity_rid(shard, entity);
    rid.append(".");
    rid.append(component);
    rid
}

/// Where the transponder of `entity_id` lives.
pub fn transponder_for_entity(shard: &str, entity_id: &str) -> (r: ResourceIdentifier)
    ensures
        r.rid@ == transponder_rid_spec(shard@, entity_id@),
{
    ResourceIdentifier { rid: component_rid(shard, entity_id, "transponder") }
}

/// The contact collection of the observer addressed by `observer_rid`.
pub fn contacts_rid(observer_rid: &str) -> (rid: String)
    ensures
        rid@ == contacts_rid_spec(observer_rid@),
{
    let mut rid = observer_rid.to_owned();
    rid.append(".radar_contacts");
    rid
}

/// The store key under which the resource `rid` is kept.
pub fn rid_to_key(rid: &str) -> (key: String)
    ensures
        key@ == coloned(rid@),
{
    replace_char(rid, '.', ':')
}

/// The resource id of what the store keeps under `key`.
pub fn key_to_rid(key: &str) -> (rid: String)
    ensures
        rid@ == dotted(key@),
{
    replace_char(key, ':', '.')
}

/// A text without `from` is left as it is.
pub proof fn lemma_replaced_absent(s: Seq<char>, from: char, to: char)
    requires
        !s.contains(from),
    ensures
        replaced(s, from, to) == s,
{
    assert forall|i: int| 0 <= i < s.len() implies replaced(s, from, to)[i] == s[i] by {
        assert(s.contains(s[i]));
    }
    assert(replaced(s, from, to) =~= s);
}

/// A dotted id that holds no colon survives the trip to the store and back.
pub proof fn lemma_rid_round_trip(rid: Seq<char>)
    requires
        !rid.contains(':'),
    ensures
        dotted(coloned(rid)) == rid,
{
    assert forall|i: int| 0 <= i < rid.len() implies dotted(coloned(rid))[i] == rid[i] by {
        assert(rid.contains(rid[i]));
    }
    assert(dotted(coloned(rid)) =~= rid);
}

/// A key that holds no dot survives the trip to the bus and back.
pub proof fn lemma_key_round_trip(key: Seq<char>)
    requires
        !key.contains('.'),
    ensures
        coloned(dotted(key)) == key,
{
    assert forall|i: int| 0 <= i < key.len() implies coloned(dotted(key))[i] == key[i] by {
        assert(key.contains(key[i]));
    }
    assert(coloned(dotted(key)) =~= key);
}

/// Turning a dotted id into dots again changes nothing: publishing a slot id
/// twice through `key_to_rid` is harmless.
pub proof fn lemma_dotted_idempotent(key: Seq<char>)
    ensures
        dotted(dotted(key)) == dotted(key),
{
    assert(dotted(dotted(key)) =~= dotted(key));
}

/// The two spellings of a component's address are images of each other, as
/// long as shard, entity and component hold neither separator.
pub proof fn lemma_key_is_coloned_rid(shard: Seq<char>, entity: Seq<char>, component: Seq<char>)
    requires
        !shard.contains('.') && !shard.contains(':'),
        !entity.contains('.') && !entity.contains(':'),
        !component.contains('.') && !component.contains(':'),
    ensures
        coloned(component_rid_spec(shard, entity, component)) == component_key_spec(
            shard,
            entity,
            component,
        ),
        dotted(component_key_spec(shard, entity, component)) == component_rid_spec(
            shard,
            entity,
            component,
        ),
{
    reveal_strlit("decs:components:");
    reveal_strlit("decs.components.");
    reveal_strlit(":");
    reveal_strlit(".");
    let rid = component_rid_spec(shard, entity, component);
    let key = component_key_spec(shard, entity, component);
    assert(rid.len() == key.len());
    assert forall|i: int| 0 <= i < rid.len() implies (#[trigger] coloned(rid)[i] == key[i]
        && dotted(key)[i] == rid[i]) by {
        let a = 16int;
        let b = a + shard.len();
        let c = b + 1 + entity.len();
        if i < a {
        } else if i < b {
            assert(rid[i] == shard[i - a] && key[i] == shard[i - a]);
            assert(shard.contains(shard[i - a]));
        } else if i == b {
        } else if i < c {
            assert(rid[i] == entity[i - b - 1] && key[i] == entity[i - b - 1]);
            assert(entity.contains(entity[i - b - 1]));
        } else if i == c {
        } else {
            assert(rid[i] == component[i - c - 1] && key[i] == component[i - c - 1]);
            assert(component.contains(component[i - c - 1]));
        }
    }
    assert(coloned(rid) =~= key);
    assert(dotted(key) =~= rid);
}

} // verus!
