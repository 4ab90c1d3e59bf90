//! The person store: the single collection of person records and the only
//! operations that read or mutate it.

use vstd::prelude::*;

verus! {

/// A person record: an immutable integer id, unique within the store, and a
/// mutable name held as opaque bytes (no validation is applied to it).
pub struct Person {
    pub id: u64,
    pub name: Vec<u8>,
}

impl View for Person {
    type V = (int, Seq<u8>);

    open spec fn view(&self) -> (int, Seq<u8>) {
        (self.id as int, self.name@)
    }
}

/// The records of a sequence of persons, as id and name pairs.
pub open spec fn persons_view(l: Seq<Person>) -> Seq<(int, Seq<u8>)> {
    l.map_values(|p: Person| p@)
}

/// The collection of person records, in insertion order.
pub struct PersonStore {
    pub list: Vec<Person>,
}

impl View for PersonStore {
    type V = Seq<(int, Seq<u8>)>;

    open spec fn view(&self) -> Seq<(int, Seq<u8>)> {
        persons_view(self.list@)
    }
}

/// The ids of the records strictly increase in insertion order.
pub open spec fn ids_increasing(s: Seq<(int, Seq<u8>)>) -> bool {
    forall|i: int, j: int| 0 <= i < j < s.len() ==> #[trigger] s[i].0 < #[trigger] s[j].0
}

/// The ids of the records are pairwise distinct.
pub open spec fn ids_distinct(s: Seq<(int, Seq<u8>)>) -> bool {
    forall|i: int, j: int|
        0 <= i < s.len() && 0 <= j < s.len() && i != j ==> #[trigger] s[i].0 != #[trigger] s[j].0
}

/// The id that the next added record receives: 0 on an empty collection,
/// otherwise the id of the last-inserted record plus one. Note that this is
/// not max-of-all-ids plus one: deleting the newest record and adding again
/// hands the same id out a second time. Ids present together are still
/// pairwise distinct at every instant; see the laws module.
pub open spec fn alloc_id(s: Seq<(int, Seq<u8>)>) -> int {
    if s.len() == 0 {
        0
    } else {
        s.last().0 + 1
    }
}

/// The next id fits in the machine integer that holds ids.
pub open spec fn can_alloc(s: Seq<(int, Seq<u8>)>) -> bool {
    alloc_id(s) <= u64::MAX as int
}

/// Adding a record appends it with the allocated id.
pub open spec fn spec_add(s: Seq<(int, Seq<u8>)>, name: Seq<u8>) -> Seq<(int, Seq<u8>)> {
    s.push((alloc_id(s), name))
}

/// The first record whose id matches, if any.
pub open spec fn spec_find(s: Seq<(int, Seq<u8>)>, id: int) -> Option<(int, Seq<u8>)>
    decreases s.len(),
{
    if s.len() == 0 {
        None
    } else if s[0].0 == id {
        Some(s[0])
    } else {
        spec_find(s.drop_first(), id)
    }
}

/// Deleting removes every record whose id matches, keeping the rest in order.
pub open spec fn spec_delete(s: Seq<(int, Seq<u8>)>, id: int) -> Seq<(int, Seq<u8>)>
    decreases s.len(),
{
    if s.len() == 0 {
        s
    } else {
        let rest = spec_delete(s.drop_last(), id);
        if s.last().0 == id {
            rest
        } else {
            rest.push(s.last())
        }
    }
}

/// Updating replaces the name of every record whose id matches; ids are kept.
pub open spec fn spec_update(
    s: Seq<(int, Seq<u8>)>,
    id: int,
    name: Seq<u8>,
) -> Seq<(int, Seq<u8>)> {
    s.map_values(|p: (int, Seq<u8>)| if p.0 == id { (p.0, name) } else { p })
}

/// Appending a record with an id above every present id keeps ids increasing.
pub proof fn lemma_add_keeps_increasing(s: Seq<(int, Seq<u8>)>, name: Seq<u8>)
    requires
        ids_increasing(s),
    ensures
        ids_increasing(spec_add(s, name)),
{
    let s2 = spec_add(s, name);
    assert forall|i: int, j: int| 0 <= i < j < s2.len() implies #[trigger] s2[i].0
        < #[trigger] s2[j].0 by {
        if j == s2.len() - 1 {
            if i < s.len() - 1 {
                assert(s[i].0 < s[s.len() - 1].0);
            }
        }
    }
}

/// Deleting keeps ids increasing, and does not raise the last id.
pub proof fn lemma_delete_keeps_increasing(s: Seq<(int, Seq<u8>)>, id: int)
    requires
        ids_increasing(s),
    ensures
        ids_increasing(spec_delete(s, id)),
        spec_delete(s, id).len() <= s.len(),
        spec_delete(s, id).len() > 0 ==> s.len() > 0 && spec_delete(s, id).last().0
            <= s.last().0,
    decreases s.len(),
{
    if s.len() > 0 {
        let d = s.drop_last();
        assert(ids_increasing(d)) by {
            assert forall|i: int, j: int| 0 <= i < j < d.len() implies #[trigger] d[i].0
                < #[trigger] d[j].0 by {
                assert(s[i].0 < s[j].0);
            }
        }
        lemma_delete_keeps_increasing(d, id);
        let rest = spec_delete(d, id);
        if s.last().0 != id {
            let out = rest.push(s.last());
            assert forall|i: int, j: int| 0 <= i < j < out.len() implies #[trigger] out[i].0
                < #[trigger] out[j].0 by {
                if j == out.len() - 1 {
                    if rest.len() > 0 {
                        if i < rest.len() - 1 {
                            assert(rest[i].0 < rest[rest.len() - 1].0);
                        }
                        assert(rest.last().0 <= d.last().0);
                        assert(d.last() == s[s.len() - 2]);
                        assert(s[s.len() - 2].0 < s[s.len() - 1].0);
                    }
                }
            }
        }
    }
}

/// Updating names keeps ids increasing, since every id is kept in place.
pub proof fn lemma_update_keeps_increasing(s: Seq<(int, Seq<u8>)>, id: int, name: Seq<u8>)
    requires
        ids_increasing(s),
    ensures
        ids_increasing(spec_update(s, id, name)),
{
    let s2 = spec_update(s, id, name);
    assert forall|i: int, j: int| 0 <= i < j < s2.len() implies #[trigger] s2[i].0
        < #[trigger] s2[j].0 by {
        assert(s2[i].0 == s[i].0);
        assert(s2[j].0 == s[j].0);
        assert(s[i].0 < s[j].0);
    }
}

/// Copies a byte vector.
fn copy_bytes(v: &Vec<u8>) -> (r: Vec<u8>)
    ensures
        r@ == v@,
{
    let mut r: Vec<u8> = Vec::new();
    let mut i: usize = 0;
    while i < v.len()
        invariant
            i <= v.len(),
            r@ == v@.take(i as int),
        decreases v.len() - i,
    {
        r.push(v[i]);
        assert(r@ =~= v@.take(i + 1));
        i = i + 1;
    }
    assert(v@.take(v.len() as int) =~= v@);
    r
}

impl PersonStore {
    /// The store invariant: ids strictly increase in insertion order.
    pub open spec fn wf(&self) -> bool {
        ids_increasing(self@)
    }

    /// An empty store.
    pub fn empty() -> (s: PersonStore)
        ensures
            s@ == Seq::<(int, Seq<u8>)>::empty(),
            s.wf(),
    {
        let s = PersonStore { list: Vec::new() };
        proof {
            assert(s@ =~= Seq::<(int, Seq<u8>)>::empty());
        }
        s
    }

    /// The name bytes of the first seeded record, "Jim".
    pub open spec fn jim() -> Seq<u8> {
        seq![74u8, 105u8, 109u8]
    }

    /// The name bytes of the second seeded record, "Joe".
    pub open spec fn joe() -> Seq<u8> {
        seq![74u8, 111u8, 101u8]
    }

    /// The store as it is seeded at process start: id 0 "Jim" and id 1 "Joe".
    pub fn seeded() -> (s: PersonStore)
        ensures
            s@ == seq![(0int, Self::jim()), (1int, Self::joe())],
            s.wf(),
    {
        let mut jim: Vec<u8> = Vec::new();
        jim.push(74);
        jim.push(105);
        jim.push(109);
        let mut joe: Vec<u8> = Vec::new();
        joe.push(74);
        joe.push(111);
        joe.push(101);
        let mut list: Vec<Person> = Vec::new();
        list.push(Person { id: 0, name: jim });
        list.push(Person { id: 1, name: joe });
        let s = PersonStore { list };
        proof {
            assert(jim@ =~= Self::jim());
            assert(joe@ =~= Self::joe());
            assert(s@ =~~= seq![(0int, Self::jim()), (1int, Self::joe())]);
        }
        s
    }

    /// A snapshot of every record, in collection order. Reads only.
    pub fn list_all(&self) -> (r: Vec<Person>)
        ensures
            persons_view(r@) == self@,
    {
        let mut r: Vec<Person> = Vec::new();
        let mut i: usize = 0;
        while i < self.list.len()
            invariant
                i <= self.list.len(),
                r@.map_values(|p: Person| p@) == self@.take(i as int),
            decreases self.list.len() - i,
        {
            let ghost r0 = r@;
            let p = &self.list[i];
            r.push(Person { id: p.id, name: copy_bytes(&p.name) });
            proof {
                let f = |q: Person| q@;
                assert(r0.map_values(f).len() == r0.len());
                assert(r0.map_values(f) == self@.take(i as int));
                assert(r0.len() == i as int);
                assert(r@ == r0.push(r@[i as int]));
                assert(r@[i as int]@ == self@[i as int]);
                assert forall|k: int| 0 <= k < i + 1 implies r@.map_values(f)[k] == self@.take(
                    i + 1,
                )[k] by {
                    assert(r@.map_values(f)[k] == f(r@[k]));
                    if k < i as int {
                        assert(r@[k] == r0[k]);
                        assert(r0.map_values(f)[k] == f(r0[k]));
                        assert(r0.map_values(f)[k] == self@.take(i as int)[k]);
                    }
                }
                assert(r@.map_values(f) =~~= self@.take(i + 1));
            }
            i = i + 1;
        }
        assert(self@.take(self.list.len() as int) =~= self@);
        r
    }

    /// Whether some record has this id.
    fn contains_id(&self, id: u64) -> (r: bool)
        ensures
            r == (spec_find(self@, id as int) is Some),
    {
        let s = Ghost(self@);
        proof {
            assert(s@.skip(0) =~= s@);
        }
        let mut i: usize = 0;
        while i < self.list.len()
            invariant
                i <= self.list.len(),
                s@ == self@,
                spec_find(s@, id as int) == spec_find(s@.skip(i as int), id as int),
            decreases self.list.len() - i,
        {
            if self.list[i].id == id {
                assert(s@.skip(i as int)[0] == s@[i as int]);
                return true;
            }
            assert(s@.skip(i as int).drop_first() =~= s@.skip(i + 1));
            i = i + 1;
        }
        assert(s@.skip(self.list.len() as int) =~= Seq::<(int, Seq<u8>)>::empty());
        false
    }

    /// The record whose id matches, or nothing. Reads only.
    pub fn find_by_id(&self, id: u64) -> (r: Option<Person>)
        ensures
            r is Some <==> spec_find(self@, id as int) is Some,
            r matches Some(p) ==> Some(p@) == spec_find(self@, id as int),
    {
        let s = Ghost(self@);
        proof {
            assert(s@.skip(0) =~= s@);
        }
        let mut i: usize = 0;
        while i < self.list.len()
            invariant
                i <= self.list.len(),
                s@ == self@,
                spec_find(s@, id as int) == spec_find(s@.skip(i as int), id as int),
            decreases self.list.len() - i,
        {
            if self.list[i].id == id {
                assert(s@.skip(i as int)[0] == s@[i as int]);
                let p = &self.list[i];
                return Some(Person { id: p.id, name: copy_bytes(&p.name) });
            }
            assert(s@.skip(i as int).drop_first() =~= s@.skip(i + 1));
            i = i + 1;
        }
        assert(s@.skip(self.list.len() as int) =~= Seq::<(int, Seq<u8>)>::empty());
        None
    }

    /// Allocates the next id, appends a record with this name, and returns a
    /// copy of the new record. Always succeeds.
    pub fn add(&mut self, name: Vec<u8>) -> (p: Person)
        requires
            can_alloc(old(self)@),
        ensures
            final(self)@ == spec_add(old(self)@, name@),
            p@ == (alloc_id(old(self)@), name@),
            old(self).wf() ==> final(self).wf(),
    {
        let id: u64 = if self.list.len() == 0 {
            0
        } else {
            assert(self@[self.list@.len() - 1] == self.list@.last()@);
            self.list[self.list.len() - 1].id + 1
        };
        let ret = Person { id, name: copy_bytes(&name) };
        self.list.push(Person { id, name });
        proof {
            assert(self@ =~= spec_add(old(self)@, name@));
            if old(self).wf() {
                lemma_add_keeps_increasing(old(self)@, name@);
            }
        }
        ret
    }

    /// Removes the record with this id, if present; the other records keep
    /// their relative order. Returns whether a record was removed.
    pub fn delete_by_id(&mut self, id: u64) -> (removed: bool)
        ensures
            removed == (spec_find(old(self)@, id as int) is Some),
            removed ==> final(self)@ == spec_delete(old(self)@, id as int),
            !removed ==> final(self)@ == old(self)@,
            old(self).wf() ==> final(self).wf(),
    {
        if !self.contains_id(id) {
            return false;
        }
        let mut kept: Vec<Person> = Vec::new();
        let mut i: usize = 0;
        while i < self.list.len()
            invariant
                i <= self.list.len(),
                self@ == old(self)@,
                kept@.map_values(|p: Person| p@) == spec_delete(self@.take(i as int), id as int),
            decreases self.list.len() - i,
        {
            let ghost pre = self@.take(i as int);
            let p = &self.list[i];
            if p.id != id {
                kept.push(Person { id: p.id, name: copy_bytes(&p.name) });
            }
            proof {
                assert(self@.take(i + 1).drop_last() =~= pre);
                assert(self@.take(i + 1).last() == self@[i as int]);
                assert(kept@.map_values(|p: Person| p@) =~~= spec_delete(
                    self@.take(i + 1),
                    id as int,
                ));
            }
            i = i + 1;
        }
        assert(self@.take(self.list.len() as int) =~= self@);
        self.list = kept;
        proof {
            if old(self).wf() {
                lemma_delete_keeps_increasing(old(self)@, id as int);
            }
        }
        true
    }

    /// Replaces the name of the record with this id, if present, and returns
    /// a copy of the updated record; the id is kept.
    pub fn update_by_id(&mut self, id: u64, new_name: Vec<u8>) -> (r: Option<Person>)
        ensures
            r is Some <==> spec_find(old(self)@, id as int) is Some,
            r is Some ==> final(self)@ == spec_update(old(self)@, id as int, new_name@),
            r matches Some(p) ==> p@ == (id as int, new_name@),
            r is None ==> final(self)@ == old(self)@,
            old(self).wf() ==> final(self).wf(),
    {
        if !self.contains_id(id) {
            return None;
        }
        let mut updated: Vec<Person> = Vec::new();
        let mut i: usize = 0;
        while i < self.list.len()
            invariant
                i <= self.list.len(),
                self@ == old(self)@,
                updated@.map_values(|p: Person| p@) == spec_update(
                    self@.take(i as int),
                    id as int,
                    new_name@,
                ),
            decreases self.list.len() - i,
        {
            let ghost u0 = updated@;
            let p = &self.list[i];
            if p.id == id {
                updated.push(Person { id: p.id, name: copy_bytes(&new_name) });
            } else {
                updated.push(Person { id: p.id, name: copy_bytes(&p.name) });
            }
            proof {
                let g = |q: Person| q@;
                assert(u0.map_values(g).len() == u0.len());
                assert(u0.map_values(g) == spec_update(self@.take(i as int), id as int, new_name@));
                assert(u0.len() == i as int);
                assert(updated@ == u0.push(updated@[i as int]));
                assert forall|k: int| 0 <= k < i + 1 implies updated@.map_values(g)[k]
                    == spec_update(self@.take(i + 1), id as int, new_name@)[k] by {
                    assert(self@.take(i + 1)[k] == self@[k]);
                    if k < i as int {
                        assert(updated@[k] == u0[k]);
                        assert(u0.map_values(g)[k] == g(u0[k]));
                        assert(self@.take(i as int)[k] == self@[k]);
                    }
                }
                assert(updated@.map_values(g) =~~= spec_update(
                    self@.take(i + 1),
                    id as int,
                    new_name@,
                ));
            }
            i = i + 1;
        }
        assert(self@.take(self.list.len() as int) =~= self@);
        self.list = updated;
        proof {
            if old(self).wf() {
                lemma_update_keeps_increasing(old(self)@, id as int, new_name@);
            }
        }
        Some(Person { id, name: new_name })
    }
}

} // verus!
