//! The contacts an observer has on record: what the radar published for it on
//! earlier ticks, keyed by the slot each record occupies in the observer's
//! contact collection.

use vstd::prelude::*;
use crate::keyed::{
    distinct_keys, erased, find_key, key_is, lemma_erased, lemma_written, lookup, position_of,
    written,
};
use crate::components::{ContactView, RadarContact};
use crate::search::{first_where, lemma_first_where_is, lemma_first_where_none};

verus! {

/// The contents of a contact book as plain values: slot id and record.
pub type BookView = Seq<(Seq<char>, ContactView)>;

/// The test "this record is about `entity`".
pub open spec fn is_about(entity: Seq<char>) -> spec_fn((Seq<char>, ContactView)) -> bool {
    |e: (Seq<char>, ContactView)| e.1.entity_id == entity
}

/// The slot of the first record about `entity`. A record is found by the
/// entity id stored in it, never by its slot id.
pub open spec fn slot_of(book: BookView, entity: Seq<char>) -> Option<Seq<char>> {
    match first_where(book, is_about(entity)) {
        Some(i) => Some(book[i].0),
        None => None,
    }
}

/// Whether some record is about `entity`.
pub open spec fn knows(book: BookView, entity: Seq<char>) -> bool {
    slot_of(book, entity) is Some
}

/// The book that a run of collection members gives: each member that could
/// be read is written into its slot, in the order of the run, and a member
/// that was absent or unreadable is passed over.
pub open spec fn recorded_members(m: Seq<(Seq<char>, Option<ContactView>)>) -> BookView
    decreases m.len(),
{
    if m.len() == 0 {
        BookView::empty()
    } else {
        let rest = recorded_members(m.drop_last());
        match m.last().1 {
            Some(c) => written(rest, m.last().0, c),
            None => rest,
        }
    }
}

/// The members as plain values.
pub open spec fn member_views(members: Seq<(String, Option<RadarContact>)>) -> Seq<
    (Seq<char>, Option<ContactView>),
> {
    members.map_values(
        |e: (String, Option<RadarContact>)|
            (
                e.0@,
                match e.1 {
                    Some(c) => Some(c@),
                    None => None,
                },
            ),
    )
}

/// An observer's contact records by slot id, in the order in which the slots
/// were first filled. No slot id occurs twice.
pub struct ContactBook {
    entries: Vec<(String, RadarContact)>,
}

impl View for ContactBook {
    type V = BookView;

    closed spec fn view(&self) -> BookView {
        self.entries@.map_values(|e: (String, RadarContact)| (e.0@, e.1@))
    }
}

impl ContactBook {
    #[verifier::type_invariant]
    spec fn well_formed(&self) -> bool {
        distinct_keys(self@)
    }

    /// A book without records.
    pub fn new() -> (book: Self)
        ensures
            book@ == BookView::empty(),
            distinct_keys(book@),
    {
        let book = ContactBook { entries: Vec::new() };
        assert(book@ =~= BookView::empty());
        book
    }

    /// The number of records.
    pub fn len(&self) -> (n: usize)
        ensures
            n == self@.len(),
    {
        self.entries.len()
    }

    fn find_slot(entries: &Vec<(String, RadarContact)>, slot: &str) -> (r: Option<usize>)
        ensures
            match r {
                Some(i) => position_of(
                    entries@.map_values(|e: (String, RadarContact)| (e.0@, e.1@)),
                    slot@,
                ) == Some(i as int) && i < entries.len(),
                None => position_of(
                    entries@.map_values(|e: (String, RadarContact)| (e.0@, e.1@)),
                    slot@,
                ) is None,
            },
    {
        let r = find_key(entries, slot);
        proof {
            let model = entries@.map_values(|e: (String, RadarContact)| (e.0@, e.1@));
            match r {
                Some(i) => lemma_first_where_is(model, key_is::<ContactView>(slot@), i as int),
                None => lemma_first_where_none(model, key_is::<ContactView>(slot@)),
            }
        }
        r
    }

    /// Puts `contact` into `slot`, replacing what the slot held.
    pub fn insert(&mut self, slot: String, contact: RadarContact)
        ensures
            final(self)@ == written(old(self)@, slot@, contact@),
            distinct_keys(final(self)@),
    {
        proof {
            use_type_invariant(&*self);
            lemma_written(self@, slot@, contact@, slot@);
        }
        let mut entries: Vec<(String, RadarContact)> = Vec::new();
        std::mem::swap(&mut entries, &mut self.entries);
        let ghost before = entries@.map_values(|e: (String, RadarContact)| (e.0@, e.1@));
        match Self::find_slot(&entries, &slot) {
            Some(i) => {
                entries.set(i, (slot, contact));
            },
            None => {
                entries.push((slot, contact));
            },
        }
        assert(entries@.map_values(|e: (String, RadarContact)| (e.0@, e.1@)) =~= written(
            before,
            slot@,
            contact@,
        ));
        self.entries = entries;
    }

    /// Empties `slot`. Returns whether it held a record.
    pub fn remove(&mut self, slot: &str) -> (held: bool)
        ensures
            final(self)@ == erased(old(self)@, slot@),
            held == lookup(old(self)@, slot@).is_some(),
            distinct_keys(final(self)@),
    {
        proof {
            use_type_invariant(&*self);
            lemma_erased(self@, slot@, slot@);
        }
        let mut entries: Vec<(String, RadarContact)> = Vec::new();
        std::mem::swap(&mut entries, &mut self.entries);
        let ghost before = entries@.map_values(|e: (String, RadarContact)| (e.0@, e.1@));
        let held = match Self::find_slot(&entries, slot) {
            Some(i) => {
                entries.remove(i);
                true
            },
            None => false,
        };
        assert(entries@.map_values(|e: (String, RadarContact)| (e.0@, e.1@)) =~= erased(
            before,
            slot@,
        ));
        self.entries = entries;
        held
    }

    /// The record kept in `slot`.
    pub fn get(&self, slot: &str) -> (r: Option<&RadarContact>)
        ensures
            match r {
                Some(c) => lookup(self@, slot@) == Some(c@),
                None => lookup(self@, slot@) is None,
            },
    {
        match Self::find_slot(&self.entries, slot) {
            Some(i) => Some(&self.entries[i].1),
            None => None,
        }
    }

    /// The slot of the first record about `entity_id`.
    pub fn slot_of_entity(&self, entity_id: &str) -> (r: Option<&String>)
        ensures
            match r {
                Some(slot) => slot_of(self@, entity_id@) == Some(slot@),
                None => slot_of(self@, entity_id@) is None,
            },
    {
        let ghost about = is_about(entity_id@);
        let mut i: usize = 0;
        while i < self.entries.len()
            invariant
                i <= self.entries.len(),
                about == is_about(entity_id@),
                forall|j: int| 0 <= j < i ==> !about(#[trigger] self@[j]),
            decreases self.entries.len() - i,
        {
            if *self.entries[i].1.entity_id == *entity_id {
                proof {
                    lemma_first_where_is(self@, about, i as int);
                }
                return Some(&self.entries[i].0);
            }
            i += 1;
        }
        proof {
            lemma_first_where_none(self@, about);
        }
        None
    }
}

/// Rebuilds an observer's previous contacts from the members of its contact
/// collection: the slot id of each member and the record fetched for it, if
/// one could be fetched and read.
pub fn previous_contacts(members: Vec<(String, Option<RadarContact>)>) -> (book: ContactBook)
    ensures
        book@ == recorded_members(member_views(members@)),
        distinct_keys(book@),
{
    let ghost model = member_views(members@);
    let mut book = ContactBook::new();
    let mut i: usize = 0;
    assert(model.take(0) =~= Seq::<(Seq<char>, Option<ContactView>)>::empty());
    while i < members.len()
        invariant
            i <= members.len(),
            model == member_views(members@),
            book@ == recorded_members(model.take(i as int)),
            distinct_keys(book@),
        decreases members.len() - i,
    {
        assert(model.take(i + 1).drop_last() =~= model.take(i as int));
        assert(model.take(i + 1).last() == model[i as int]);
        match &members[i].1 {
            Some(contact) => {
                book.insert(members[i].0.clone(), contact.duplicate());
            },
            None => {},
        }
        i += 1;
    }
    assert(model.take(members.len() as int) =~= model);
    book
}

} // verus!
