use radar::address::{
    component_key, component_rid, contacts_rid, entity_rid, key_to_rid, rid_to_key,
    transponder_for_entity,
};
use radar::text::{chars_of, ends_with, replace_char, split, starts_with};

#[test]
fn store_keys_are_colon_joined() {
    assert_eq!(
        component_key("the_void", "player1", "position"),
        "decs:components:the_void:player1:position"
    );
    assert_eq!(component_key("", "", ""), "decs:components:::");
}

#[test]
fn resource_ids_are_dot_joined() {
    assert_eq!(entity_rid("the_void", "player1"), "decs.components.the_void.player1");
    assert_eq!(
        component_rid("the_void", "player1", "velocity"),
        "decs.components.the_void.player1.velocity"
    );
    assert_eq!(
        contacts_rid("decs.components.the_void.player1"),
        "decs.components.the_void.player1.radar_contacts"
    );
}

#[test]
fn transponder_lives_under_the_entity() {
    assert_eq!(
        transponder_for_entity("the_shard", "asteroid").rid,
        "decs.components.the_shard.asteroid.transponder"
    );
}

#[test]
fn the_two_spellings_convert_into_each_other() {
    let rid = component_rid("the_void", "player1", "radar_contacts");
    let key = component_key("the_void", "player1", "radar_contacts");
    assert_eq!(rid_to_key(&rid), key);
    assert_eq!(key_to_rid(&key), rid);
    assert_eq!(key_to_rid(&rid_to_key(&rid)), rid);
    assert_eq!(rid_to_key(&key_to_rid(&key)), key);
}

#[test]
fn converting_twice_is_converting_once() {
    let slot = "decs:components.the_void:player1.radar_contacts.3";
    let once = key_to_rid(slot);
    assert_eq!(once, "decs.components.the_void.player1.radar_contacts.3");
    assert_eq!(key_to_rid(&once), once);
}

#[test]
fn replacing_touches_only_the_named_character() {
    assert_eq!(replace_char("a.b:c.d", '.', ':'), "a:b:c:d");
    assert_eq!(replace_char("", '.', ':'), "");
    assert_eq!(replace_char("\u{e9}.\u{1F680}", '.', '\u{e9}'), "\u{e9}\u{e9}\u{1F680}");
    assert_eq!(replace_char("abc", 'x', 'y'), "abc");
}

#[test]
fn splitting_keeps_empty_pieces() {
    assert_eq!(split("a.b.c", '.'), vec!["a", "b", "c"]);
    assert_eq!(split("", '.'), vec![""]);
    assert_eq!(split(".", '.'), vec!["", ""]);
    assert_eq!(split("a..b.", '.'), vec!["a", "", "b", ""]);
    assert_eq!(split("plain", '.'), vec!["plain"]);
    assert_eq!(split("d\u{e9}cs.\u{1F680}", '.'), vec!["d\u{e9}cs", "\u{1F680}"]);
}

#[test]
fn splitting_agrees_with_the_standard_library() {
    for text in ["decs.frames.the_void.radar", "..", "a", "event.x.y", ".a."] {
        let expected: Vec<String> = text.split('.').map(|p| p.to_string()).collect();
        assert_eq!(split(text, '.'), expected);
        assert_eq!(split(text, '.').join("."), text);
    }
}

#[test]
fn prefixes_and_suffixes() {
    let s = chars_of("call.x.new");
    assert_eq!(s.len(), 10);
    assert!(starts_with(&s, "call."));
    assert!(starts_with(&s, ""));
    assert!(starts_with(&s, "call.x.new"));
    assert!(!starts_with(&s, "call.x.new."));
    assert!(!starts_with(&s, "get."));
    assert!(ends_with(&s, ".new"));
    assert!(ends_with(&s, ""));
    assert!(ends_with(&s, "call.x.new"));
    assert!(!ends_with(&s, "xcall.x.new"));
    assert!(!ends_with(&s, ".set"));
    assert_eq!(chars_of("\u{e9}\u{1F680}"), vec!['\u{e9}', '\u{1F680}']);
}
