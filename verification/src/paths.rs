//! Places below the cache directory, and what is known of them.

use vstd::prelude::*;

verus! {

/// A place below the cache directory: the names to be joined to it, one after
/// the other.
#[derive(Debug)]
pub struct CachePath {
    pub names: Vec<String>,
}

impl View for CachePath {
    type V = Seq<Seq<char>>;

    open spec fn view(&self) -> Seq<Seq<char>> {
        self.names@.map_values(|s: String| s@)
    }
}

impl CachePath {
    /// The place of the given name, directly below the cache directory.
    pub fn top(name: &str) -> (r: Self)
        ensures
            r@ == seq![name@],
            r.names@.len() == 1,
            r.names@[0]@ == name@,
    {
        let mut names: Vec<String> = Vec::new();
        names.push(name.to_owned());
        let r = CachePath { names };
        assert(r@ =~= seq![name@]);
        r
    }

    /// The place of the given name inside this one.
    pub fn join(&self, name: &str) -> (r: Self)
        ensures
            r@ == self@.push(name@),
            r.names@.len() == self.names@.len() + 1,
            forall|i: int|
                0 <= i < self.names@.len() ==> (#[trigger] r.names@[i])@ == self.names@[i]@,
            r.names@[self.names@.len() as int]@ == name@,
    {
        let mut r = self.duplicate();
        let ghost before = r@;
        r.names.push(name.to_owned());
        assert(r@ =~= before.push(name@));
        r
    }

    /// The same place again.
    pub fn duplicate(&self) -> (r: Self)
        ensures
            r@ == self@,
            r.names@.len() == self.names@.len(),
            forall|i: int|
                0 <= i < self.names@.len() ==> (#[trigger] r.names@[i])@ == self.names@[i]@,
    {
        let mut names: Vec<String> = Vec::new();
        for i in 0..self.names.len()
            invariant
                names@.len() == i,
                i <= self.names@.len(),
                forall|j: int| 0 <= j < i ==> names@[j]@ == self.names@[j]@,
        {
            names.push(self.names[i].clone());
        }
        let r = CachePath { names };
        assert(r@ =~= self@);
        r
    }

    /// Whether this is the same place as the other.
    pub fn same(&self, other: &CachePath) -> (r: bool)
        ensures
            r == (self@ == other@),
            r <==> self.names@.len() == other.names@.len() && forall|i: int|
                0 <= i < self.names@.len() ==> (#[trigger] self.names@[i])@ == other.names@[i]@,
    {
        if self.names.len() != other.names.len() {
            assert(self@.len() != other@.len());
            return false;
        }
        for i in 0..self.names.len()
            invariant
                self.names@.len() == other.names@.len(),
                i <= self.names@.len(),
                forall|j: int| 0 <= j < i ==> self.names@[j]@ == other.names@[j]@,
        {
            if self.names[i] != other.names[i] {
                assert(self@[i as int] != other@[i as int]);
                return false;
            }
        }
        assert(self@ =~= other@);
        true
    }
}

/// The places below the cache directory that were found to exist.
#[derive(Debug)]
pub struct CacheSnapshot {
    pub present: Vec<CachePath>,
}

impl View for CacheSnapshot {
    type V = Set<Seq<Seq<char>>>;

    open spec fn view(&self) -> Set<Seq<Seq<char>>> {
        self.present@.map_values(|p: CachePath| p@).to_set()
    }
}

impl CacheSnapshot {
    /// The snapshot of a cache in which nothing exists.
    pub fn new() -> (r: Self)
        ensures
            r@ == Set::<Seq<Seq<char>>>::empty(),
            r.present@.len() == 0,
    {
        let r = CacheSnapshot { present: Vec::new() };
        assert(r.present@.map_values(|p: CachePath| p@) =~= Seq::<Seq<Seq<char>>>::empty());
        assert(r@ =~= Set::<Seq<Seq<char>>>::empty());
        r
    }

    /// Notes that a place exists.
    pub fn note(&mut self, path: CachePath)
        ensures
            final(self)@ == old(self)@.insert(path@),
            final(self).present@ == old(self).present@.push(path),
    {
        let ghost before = self.present@.map_values(|p: CachePath| p@);
        self.present.push(path);
        let ghost after = self.present@.map_values(|p: CachePath| p@);
        proof {
            assert(after =~= before.push(path@));
            assert forall|p: Seq<Seq<char>>| after.contains(p) == (before.contains(p) || p
                == path@) by {
                if before.contains(p) {
                    let i = choose|i: int| 0 <= i < before.len() && before[i] == p;
                    assert(after[i] == p);
                }
                if p == path@ {
                    assert(after[before.len() as int] == p);
                }
            }
            assert(self@ =~= old(self)@.insert(path@));
        }
    }

    /// Whether a place is known to exist.
    pub fn has(&self, path: &CachePath) -> (r: bool)
        ensures
            r == self@.contains(path@),
            r <==> exists|i: int|
                0 <= i < self.present@.len() && (#[trigger] self.present@[i])@ == path@,
    {
        let ghost places = self.present@.map_values(|p: CachePath| p@);
        proof {
            law_snapshot_is_what_was_noted(*self, path@);
        }
        for i in 0..self.present.len()
            invariant
                places == self.present@.map_values(|p: CachePath| p@),
                i <= self.present@.len(),
                forall|j: int| 0 <= j < i ==> places[j] != path@,
        {
            if self.present[i].same(path) {
                assert(places[i as int] == path@);
                assert(places.contains(path@));
                return true;
            }
        }
        assert(!places.contains(path@));
        false
    }
}

/// A path is its names, each as it is spelled, in order.
pub proof fn law_path_is_its_names(p: CachePath, i: int)
    ensures
        p@.len() == p.names@.len(),
        0 <= i < p.names@.len() ==> p@[i] == p.names@[i]@,
{
}

/// A snapshot knows of a place exactly where the place was noted.
pub proof fn law_snapshot_is_what_was_noted(s: CacheSnapshot, place: Seq<Seq<char>>)
    ensures
        s@.contains(place) <==> exists|i: int|
            0 <= i < s.present@.len() && (#[trigger] s.present@[i])@ == place,
{
    let places = s.present@.map_values(|p: CachePath| p@);
    if s@.contains(place) {
        let i = choose|i: int| 0 <= i < places.len() && places[i] == place;
        assert(s.present@[i]@ == place);
    }
    if exists|i: int| 0 <= i < s.present@.len() && (#[trigger] s.present@[i])@ == place {
        let i = choose|i: int| 0 <= i < s.present@.len() && (#[trigger] s.present@[i])@ == place;
        assert(places[i] == place);
    }
}

} // verus!
