//! The position cache: the last position heard of for each entity.
//!
//! Position-change events write into it, one entry per event, and the last
//! write for an entity wins. Reconciliation reads a snapshot of it and is the
//! only thing that ever removes an entry, when it finds that an entity it
//! had in contact has lost its transponder.

use vstd::prelude::*;
use crate::keyed::{
    distinct_keys, erased, erased_all, find_key, key_is, lemma_erased, lemma_written, lookup,
    position_of, written,
};
use crate::search::{lemma_first_where_is, lemma_first_where_none};
use crate::text::views;

verus! {

/// The last known position of every entity that has reported one. `P` is
/// whatever the caller uses for a position; the cache only keeps it.
pub struct PositionCache<P: Copy> {
    entries: Vec<(String, P)>,
}

impl<P: Copy> PositionCache<P> {
    /// The entries as plain values, oldest entity first.
    pub closed spec fn entries(&self) -> Seq<(Seq<char>, P)> {
        self.entries@.map_values(|e: (String, P)| (e.0@, e.1))
    }

    #[verifier::type_invariant]
    spec fn well_formed(&self) -> bool {
        distinct_keys(self.entries())
    }

    /// An empty cache.
    pub fn new() -> (cache: Self)
        ensures
            cache.entries() == Seq::<(Seq<char>, P)>::empty(),
            distinct_keys(cache.entries()),
    {
        let cache = PositionCache { entries: Vec::new() };
        assert(cache.entries() =~= Seq::<(Seq<char>, P)>::empty());
        cache
    }

    /// How many entities the cache knows.
    pub fn len(&self) -> (n: usize)
        ensures
            n == self.entries().len(),
    {
        self.entries.len()
    }

    fn find(entries: &Vec<(String, P)>, id: &str) -> (r: Option<usize>)
        ensures
            match r {
                Some(i) => position_of(entries@.map_values(|e: (String, P)| (e.0@, e.1)), id@)
                    == Some(i as int) && i < entries.len(),
                None => position_of(entries@.map_values(|e: (String, P)| (e.0@, e.1)), id@)
                    is None,
            },
    {
        let r = find_key(entries, id);
        proof {
            let model = entries@.map_values(|e: (String, P)| (e.0@, e.1));
            match r {
                Some(i) => lemma_first_where_is(model, key_is::<P>(id@), i as int),
                None => lemma_first_where_none(model, key_is::<P>(id@)),
            }
        }
        r
    }

    /// The position last written for `id`.
    pub fn get(&self, id: &str) -> (r: Option<P>)
        ensures
            r == lookup(self.entries(), id@),
    {
        match Self::find(&self.entries, id) {
            Some(i) => Some(self.entries[i].1),
            None => None,
        }
    }

    /// Whether the cache knows `id`.
    pub fn contains(&self, id: &str) -> (r: bool)
        ensures
            r == lookup(self.entries(), id@).is_some(),
    {
        Self::find(&self.entries, id).is_some()
    }

    /// Records that `id` is now at `position`. An earlier position of `id` is
    /// forgotten; the entity keeps its place in the order of the cache.
    pub fn insert(&mut self, id: String, position: P)
        ensures
            final(self).entries() == written(old(self).entries(), id@, position),
            distinct_keys(final(self).entries()),
    {
        proof {
            use_type_invariant(&*self);
            lemma_written(self.entries(), id@, position, id@);
        }
        let mut entries: Vec<(String, P)> = Vec::new();
        std::mem::swap(&mut entries, &mut self.entries);
        let ghost before = entries@.map_values(|e: (String, P)| (e.0@, e.1));
        match Self::find(&entries, &id) {
            Some(i) => {
                entries.set(i, (id, position));
            },
            None => {
                entries.push((id, position));
            },
        }
        assert(entries@.map_values(|e: (String, P)| (e.0@, e.1)) =~= written(
            before,
            id@,
            position,
        ));
        self.entries = entries;
    }

    /// Forgets `id`. Returns the position that was kept for it.
    pub fn remove(&mut self, id: &str) -> (r: Option<P>)
        ensures
            final(self).entries() == erased(old(self).entries(), id@),
            r == lookup(old(self).entries(), id@),
            distinct_keys(final(self).entries()),
    {
        proof {
            use_type_invariant(&*self);
            lemma_erased(self.entries(), id@, id@);
        }
        let mut entries: Vec<(String, P)> = Vec::new();
        std::mem::swap(&mut entries, &mut self.entries);
        let ghost before = entries@.map_values(|e: (String, P)| (e.0@, e.1));
        let r = match Self::find(&entries, id) {
            Some(i) => {
                let gone = entries.remove(i);
                Some(gone.1)
            },
            None => None,
        };
        assert(entries@.map_values(|e: (String, P)| (e.0@, e.1)) =~= erased(before, id@));
        self.entries = entries;
        r
    }

    /// Forgets every entity named in `ids`.
    pub fn evict(&mut self, ids: &Vec<String>)
        ensures
            final(self).entries() == erased_all(old(self).entries(), views(ids@)),
            distinct_keys(final(self).entries()),
    {
        proof {
            use_type_invariant(&*self);
        }
        let ghost names = views(ids@);
        let mut i: usize = 0;
        assert(names.take(0) =~= Seq::<Seq<char>>::empty());
        while i < ids.len()
            invariant
                i <= ids.len(),
                names == views(ids@),
                self.entries() == erased_all(old(self).entries(), names.take(i as int)),
                distinct_keys(self.entries()),
            decreases ids.len() - i,
        {
            self.remove(&ids[i]);
            assert(names.take(i + 1).drop_last() =~= names.take(i as int));
            i += 1;
        }
        assert(names.take(ids.len() as int) =~= names);
    }

    /// A copy of every entry, oldest entity first. No id occurs twice.
    pub fn snapshot(&self) -> (all: Vec<(String, P)>)
        ensures
            all@.map_values(|e: (String, P)| (e.0@, e.1)) == self.entries(),
            distinct_keys(self.entries()),
    {
        proof {
            use_type_invariant(self);
        }
        let mut all: Vec<(String, P)> = Vec::new();
        let mut i: usize = 0;
        while i < self.entries.len()
            invariant
                i <= self.entries.len(),
                all@.map_values(|e: (String, P)| (e.0@, e.1)) == self.entries().take(i as int),
            decreases self.entries.len() - i,
        {
            let ghost so_far = all@.map_values(|e: (String, P)| (e.0@, e.1));
            all.push((self.entries[i].0.clone(), self.entries[i].1));
            assert(all@.map_values(|e: (String, P)| (e.0@, e.1)) =~= so_far.push(
                self.entries()[i as int],
            ));
            assert(self.entries().take(i + 1) =~= self.entries().take(i as int).push(
                self.entries()[i as int],
            ));
            i += 1;
        }
        assert(self.entries().take(self.entries.len() as int) =~= self.entries());
        all
    }
}

} // verus!
