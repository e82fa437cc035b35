//! The color guide: a map from color id to color name and its reverse, built
//! together from one sequence of rows so that each inverts the other.

use std::collections::HashMap;
use vstd::prelude::*;
use vstd::set_lib::lemma_map_size;

verus! {

broadcast use vstd::std_specs::hash::group_hash_axioms;

/// Each direction maps every key to a value that the other maps back to it.
pub open spec fn inverse(ids: Map<i32, Seq<char>>, names: Map<Seq<char>, i32>) -> bool {
    &&& forall|i: i32| #[trigger]
        ids.contains_key(i) ==> names.contains_key(ids[i]) && names[ids[i]] == i
    &&& forall|n: Seq<char>| #[trigger]
        names.contains_key(n) ==> ids.contains_key(names[n]) && ids[names[n]] == n
}

/// Both directions after recording that color `id` is named `name`: the
/// earlier id of `name` and the earlier name of `id` are dropped.
pub open spec fn insert_pair(
    ids: Map<i32, Seq<char>>,
    names: Map<Seq<char>, i32>,
    name: Seq<char>,
    id: i32,
) -> (Map<i32, Seq<char>>, Map<Seq<char>, i32>) {
    let ids1 = if names.contains_key(name) {
        ids.remove(names[name])
    } else {
        ids
    };
    let names1 = if ids.contains_key(id) {
        names.remove(ids[id])
    } else {
        names
    };
    (ids1.insert(id, name), names1.insert(name, id))
}

/// Both directions that rows give, read in order, each row overriding what
/// earlier rows said of its id and of its name.
pub open spec fn guide_of_rows(rows: Seq<(Seq<char>, i32)>) -> (
    Map<i32, Seq<char>>,
    Map<Seq<char>, i32>,
)
    decreases rows.len(),
{
    if rows.len() == 0 {
        (Map::empty(), Map::empty())
    } else {
        let before = guide_of_rows(rows.drop_last());
        insert_pair(before.0, before.1, rows.last().0, rows.last().1)
    }
}

/// The id-to-name direction that rows give.
pub open spec fn ids_of_rows(rows: Seq<(Seq<char>, i32)>) -> Map<i32, Seq<char>> {
    guide_of_rows(rows).0
}

/// The name-to-id direction that rows give.
pub open spec fn names_of_rows(rows: Seq<(Seq<char>, i32)>) -> Map<Seq<char>, i32> {
    guide_of_rows(rows).1
}

/// Rows of (name, id) as plain values.
pub open spec fn row_views(rows: Seq<(String, i32)>) -> Seq<(Seq<char>, i32)> {
    rows.map_values(|r: (String, i32)| (r.0@, r.1))
}

/// No two rows share an id, and no two share a name.
pub open spec fn rows_unique(rows: Seq<(Seq<char>, i32)>) -> bool {
    &&& forall|a: int, b: int| 0 <= a < b < rows.len() ==> #[trigger] rows[a].1 != #[trigger] rows[b].1
    &&& forall|a: int, b: int| 0 <= a < b < rows.len() ==> #[trigger] rows[a].0 != #[trigger] rows[b].0
}

/// The bidirectional id/name mapping of the catalog's colors.
#[derive(Debug)]
pub struct ColorGuide {
    id_to_name: HashMap<i32, String>,
    /// One entry per name. A `Vec` rather than a `HashMap`: Verus's model of
    /// `HashMap` holds only for keys such as integers, whose hashing and
    /// equality it knows, so a map keyed by `String` would prove nothing.
    name_to_id: Vec<(String, i32)>,
}

impl ColorGuide {
    /// The id-to-name direction.
    pub closed spec fn id_map(&self) -> Map<i32, Seq<char>> {
        Map::new(
            |k: i32| self.id_to_name@.contains_key(k),
            |k: i32| self.id_to_name@[k]@,
        )
    }

    /// The name-to-id direction.
    pub closed spec fn name_map(&self) -> Map<Seq<char>, i32> {
        Map::new(
            |n: Seq<char>| exists|i: int| 0 <= i < self.name_to_id@.len() && #[trigger] self.name_to_id@[i].0@ == n,
            |n: Seq<char>| self.name_to_id@[self.name_index(n)].1,
        )
    }

    spec fn name_index(&self, n: Seq<char>) -> int {
        choose|i: int| 0 <= i < self.name_to_id@.len() && #[trigger] self.name_to_id@[i].0@ == n
    }

    spec fn names_unique(&self) -> bool {
        forall|i: int, j: int|
            0 <= i < j < self.name_to_id@.len() ==> #[trigger] self.name_to_id@[i].0@
                != #[trigger] self.name_to_id@[j].0@
    }

    /// The name entries are unique and make a finite map of one key each.
    spec fn names_ok(&self) -> bool {
        &&& self.names_unique()
        &&& self.name_map().dom().finite()
        &&& self.name_map().len() == self.name_to_id@.len()
    }

    /// Both directions are finite and each inverts the other.
    pub closed spec fn wf(&self) -> bool {
        &&& self.names_ok()
        &&& self.id_map().dom().finite()
        &&& inverse(self.id_map(), self.name_map())
    }

    /// An empty guide.
    pub fn new() -> (r: ColorGuide)
        ensures
            r.wf(),
            r.id_map() == Map::<i32, Seq<char>>::empty(),
            r.name_map() == Map::<Seq<char>, i32>::empty(),
    {
        let r = ColorGuide { id_to_name: HashMap::new(), name_to_id: Vec::new() };
        assert(r.id_map() =~= Map::<i32, Seq<char>>::empty());
        assert(r.name_map() =~= Map::<Seq<char>, i32>::empty());
        r
    }

    /// Where in the name entries `name` stands, if it does.
    fn find_name(&self, name: &String) -> (r: Option<usize>)
        requires
            self.names_unique(),
        ensures
            match r {
                Some(i) => i < self.name_to_id@.len() && self.name_to_id@[i as int].0@ == name@,
                None => !self.name_map().contains_key(name@),
            },
    {
        let mut i: usize = 0;
        while i < self.name_to_id.len()
            invariant
                i <= self.name_to_id@.len(),
                forall|k: int| 0 <= k < i ==> #[trigger] self.name_to_id@[k].0@ != name@,
            decreases self.name_to_id@.len() - i,
        {
            if self.name_to_id[i].0 == *name {
                return Some(i);
            }
            i = i + 1;
        }
        None
    }

    proof fn lemma_name_at(&self, i: int)
        requires
            self.names_unique(),
            0 <= i < self.name_to_id@.len(),
        ensures
            self.name_map().contains_key(self.name_to_id@[i].0@),
            self.name_map()[self.name_to_id@[i].0@] == self.name_to_id@[i].1,
    {
        let n = self.name_to_id@[i].0@;
        assert(self.name_map().contains_key(n));
        let j = self.name_index(n);
        assert(self.name_to_id@[j].0@ == n);
        if j != i {
            if j < i {
                assert(self.name_to_id@[j].0@ != self.name_to_id@[i].0@);
            } else {
                assert(self.name_to_id@[i].0@ != self.name_to_id@[j].0@);
            }
        }
    }

    /// Drops the name entry of `name`, if there is one.
    fn remove_name(&mut self, name: &String)
        requires
            old(self).names_ok(),
        ensures
            final(self).names_ok(),
            final(self).id_to_name == old(self).id_to_name,
            final(self).name_map() == old(self).name_map().remove(name@),
    {
        let ghost old_self = *self;
        match self.find_name(name) {
            None => {
                assert(self.name_map() =~= old_self.name_map().remove(name@));
            },
            Some(idx) => {
                self.name_to_id.remove(idx);
                let ghost o = old_self.name_to_id@;
                let ghost v = self.name_to_id@;
                assert forall|k: int| 0 <= k < v.len() implies #[trigger] v[k] == o[if k < idx {
                    k
                } else {
                    k + 1
                }] by {}
                assert forall|a: int, b: int|
                    0 <= a < b < v.len() implies #[trigger] v[a].0@ != #[trigger] v[b].0@ by {
                    let a1 = if a < idx { a } else { a + 1 };
                    let b1 = if b < idx { b } else { b + 1 };
                    assert(v[a] == o[a1] && v[b] == o[b1]);
                    assert(o[a1].0@ != o[b1].0@);
                }
                assert forall|n: Seq<char>|
                    #[trigger] self.name_map().contains_key(n) == old_self.name_map().remove(
                        name@,
                    ).contains_key(n) by {
                    if self.name_map().contains_key(n) {
                        let j = self.name_index(n);
                        let j1 = if j < idx { j } else { j + 1 };
                        assert(v[j] == o[j1]);
                        assert(o[j1].0@ == n);
                        if n == name@ {
                            if j1 < idx {
                                assert(o[j1].0@ != o[idx as int].0@);
                            } else {
                                assert(o[idx as int].0@ != o[j1].0@);
                            }
                        }
                    }
                    if old_self.name_map().contains_key(n) && n != name@ {
                        let j1 = old_self.name_index(n);
                        assert(j1 != idx);
                        let j = if j1 < idx { j1 } else { j1 - 1 };
                        assert(v[j] == o[j1]);
                        assert(v[j].0@ == n);
                    }
                }
                assert forall|n: Seq<char>| #[trigger]
                    self.name_map().contains_key(n) implies self.name_map()[n]
                    == old_self.name_map()[n] by {
                    let j = self.name_index(n);
                    let j1 = if j < idx { j } else { j + 1 };
                    assert(v[j] == o[j1]);
                    self.lemma_name_at(j);
                    old_self.lemma_name_at(j1);
                }
                assert(self.name_map() =~= old_self.name_map().remove(name@));
                assert(old_self.name_map().contains_key(name@)) by {
                    assert(o[idx as int].0@ == name@);
                }
            },
        }
    }

    /// Adds a name entry for a name that has none.
    fn push_name(&mut self, name: String, id: i32)
        requires
            old(self).names_ok(),
            !old(self).name_map().contains_key(name@),
        ensures
            final(self).names_ok(),
            final(self).id_to_name == old(self).id_to_name,
            final(self).name_map() == old(self).name_map().insert(name@, id),
    {
        let ghost old_self = *self;
        self.name_to_id.push((name, id));
        let ghost last = self.name_to_id@.len() - 1;
        assert forall|a: int, b: int|
            0 <= a < b < self.name_to_id@.len() implies #[trigger] self.name_to_id@[a].0@
            != #[trigger] self.name_to_id@[b].0@ by {
            if b == last {
                assert(old_self.name_to_id@[a].0@ == self.name_to_id@[a].0@);
            } else {
                assert(old_self.name_to_id@[a].0@ != old_self.name_to_id@[b].0@);
            }
        }
        assert forall|n: Seq<char>|
            #[trigger] self.name_map().contains_key(n) == old_self.name_map().insert(
                name@,
                id,
            ).contains_key(n) by {
            if old_self.name_map().contains_key(n) {
                let j = old_self.name_index(n);
                assert(self.name_to_id@[j].0@ == n);
            }
            if n == name@ {
                assert(self.name_to_id@[last].0@ == n);
            }
            if self.name_map().contains_key(n) {
                let j = self.name_index(n);
                if j != last {
                    assert(old_self.name_to_id@[j].0@ == n);
                }
            }
        }
        assert forall|n: Seq<char>| #[trigger]
            self.name_map().contains_key(n) implies self.name_map()[n]
            == old_self.name_map().insert(name@, id)[n] by {
            let j = self.name_index(n);
            self.lemma_name_at(j);
            if n != name@ {
                old_self.lemma_name_at(j);
            }
        }
        assert(self.name_map() =~= old_self.name_map().insert(name@, id));
        assert(self.name_map().dom() =~= old_self.name_map().dom().insert(name@));
    }

    /// Records that color `id` is named `name`. The id that `name` had before
    /// and the name that `id` had before are dropped, so the two directions
    /// still invert each other.
    pub fn insert(&mut self, name: String, id: i32)
        requires
            old(self).wf(),
        ensures
            final(self).wf(),
            (final(self).id_map(), final(self).name_map()) == insert_pair(
                old(self).id_map(),
                old(self).name_map(),
                name@,
                id,
            ),
    {
        let ghost m0 = self.id_map();
        let ghost n0 = self.name_map();
        let ghost expected = insert_pair(m0, n0, name@, id);
        let old_id = self.id_of(&name);
        let old_name = self.id_to_name.remove(&id);
        if let Some(j) = old_id {
            self.id_to_name.remove(&j);
        }
        self.id_to_name.insert(id, name.clone());
        assert(self.id_map() =~= expected.0);
        if let Some(m) = old_name {
            self.remove_name(&m);
        }
        self.remove_name(&name);
        self.push_name(name, id);
        assert(self.name_map() =~= expected.1);
        proof {
            lemma_insert_pair_inverse(m0, n0, name@, id);
            assert(self.id_map().dom() =~= self.id_to_name@.dom());
        }
    }

    /// The guide that rows give, read in order, each row overriding what
    /// earlier rows said of its id and of its name.
    pub fn from_rows(rows: &Vec<(String, i32)>) -> (r: ColorGuide)
        ensures
            r.wf(),
            r.id_map() == ids_of_rows(row_views(rows@)),
            r.name_map() == names_of_rows(row_views(rows@)),
    {
        let mut g = ColorGuide::new();
        let mut i: usize = 0;
        while i < rows.len()
            invariant
                i <= rows@.len(),
                g.wf(),
                g.id_map() == ids_of_rows(row_views(rows@.subrange(0, i as int))),
                g.name_map() == names_of_rows(row_views(rows@.subrange(0, i as int))),
            decreases rows@.len() - i,
        {
            let name = rows[i].0.clone();
            let id = rows[i].1;
            proof {
                let next = row_views(rows@.subrange(0, i + 1));
                assert(next.drop_last() =~= row_views(rows@.subrange(0, i as int)));
                assert(next.last() == (name@, id));
            }
            g.insert(name, id);
            i = i + 1;
        }
        proof {
            assert(rows@.subrange(0, rows@.len() as int) =~= rows@);
        }
        g
    }

    /// The id that the guide gives the color named `name`, if any.
    pub fn id_of(&self, name: &String) -> (r: Option<i32>)
        requires
            self.wf(),
        ensures
            r == (if self.name_map().contains_key(name@) {
                Some(self.name_map()[name@])
            } else {
                None
            }),
    {
        match self.find_name(name) {
            Some(i) => {
                proof {
                    self.lemma_name_at(i as int);
                }
                Some(self.name_to_id[i].1)
            },
            None => None,
        }
    }

    /// The name that the guide gives the color with id `id`, if any.
    pub fn name_of(&self, id: i32) -> (r: Option<String>)
        ensures
            match r {
                Some(n) => self.id_map().contains_key(id) && n@ == self.id_map()[id],
                None => !self.id_map().contains_key(id),
            },
    {
        match self.id_to_name.get(&id) {
            Some(n) => Some(n.clone()),
            None => None,
        }
    }

    /// How many ids the guide knows.
    pub fn id_count(&self) -> (r: usize)
        ensures
            r == self.id_map().len(),
    {
        assert(self.id_map().dom() =~= self.id_to_name@.dom());
        self.id_to_name.len()
    }

    /// How many names the guide knows.
    pub fn name_count(&self) -> (r: usize)
        requires
            self.wf(),
        ensures
            r == self.name_map().len(),
    {
        self.name_to_id.len()
    }
}

proof fn lemma_insert_pair_inverse(
    ids: Map<i32, Seq<char>>,
    names: Map<Seq<char>, i32>,
    name: Seq<char>,
    id: i32,
)
    requires
        inverse(ids, names),
    ensures
        inverse(insert_pair(ids, names, name, id).0, insert_pair(ids, names, name, id).1),
{
    let (ids2, names2) = insert_pair(ids, names, name, id);
    assert forall|i: i32| #[trigger] ids2.contains_key(i) implies names2.contains_key(ids2[i])
        && names2[ids2[i]] == i by {
        if i != id {
            let p = ids[i];
            assert(names[p] == i);
        }
    }
    assert forall|n: Seq<char>| #[trigger] names2.contains_key(n) implies ids2.contains_key(names2[n])
        && ids2[names2[n]] == n by {
        if n != name {
            let k = names[n];
            assert(ids[k] == n);
        }
    }
}

proof fn lemma_inverse_len(ids: Map<i32, Seq<char>>, names: Map<Seq<char>, i32>)
    requires
        inverse(ids, names),
        ids.dom().finite(),
    ensures
        names.dom().finite(),
        ids.len() == names.len(),
{
    let f = |i: i32| ids[i];
    assert(ids.dom().map(f) =~= names.dom()) by {
        assert forall|n: Seq<char>| #[trigger] names.dom().contains(n) implies ids.dom().map(
            f,
        ).contains(n) by {
            assert(ids.dom().contains(names[n]) && f(names[n]) == n);
        }
    }
    assert(vstd::relations::injective_on(f, ids.dom())) by {
        assert forall|a: i32, b: i32|
            ids.dom().contains(a) && ids.dom().contains(b) && #[trigger] f(a) == #[trigger] f(b) implies a
            == b by {
            assert(names[ids[a]] == a && names[ids[b]] == b);
        }
    }
    lemma_map_size(ids.dom(), names.dom(), f);
}

proof fn lemma_rows_inverse(rows: Seq<(Seq<char>, i32)>)
    ensures
        ids_of_rows(rows).dom().finite(),
        inverse(ids_of_rows(rows), names_of_rows(rows)),
    decreases rows.len(),
{
    if rows.len() > 0 {
        lemma_rows_inverse(rows.drop_last());
        let before = guide_of_rows(rows.drop_last());
        lemma_insert_pair_inverse(before.0, before.1, rows.last().0, rows.last().1);
    }
}

proof fn lemma_rows_maps(rows: Seq<(Seq<char>, i32)>)
    requires
        rows_unique(rows),
    ensures
        ids_of_rows(rows).dom().finite(),
        ids_of_rows(rows).len() == rows.len(),
        forall|i: i32|
            #[trigger] ids_of_rows(rows).contains_key(i) <==> exists|k: int|
                0 <= k < rows.len() && #[trigger] rows[k].1 == i,
        forall|n: Seq<char>|
            #[trigger] names_of_rows(rows).contains_key(n) <==> exists|k: int|
                0 <= k < rows.len() && #[trigger] rows[k].0 == n,
        forall|k: int|
            0 <= k < rows.len() ==> ids_of_rows(rows)[#[trigger] rows[k].1] == rows[k].0
                && names_of_rows(rows)[rows[k].0] == rows[k].1,
    decreases rows.len(),
{
    if rows.len() > 0 {
        let p = rows.drop_last();
        let l = rows.len() - 1;
        assert(rows_unique(p)) by {
            assert forall|a: int, b: int| 0 <= a < b < p.len() implies #[trigger] p[a].1 != #[trigger] p[b].1 by {
                assert(rows[a].1 != rows[b].1);
            }
            assert forall|a: int, b: int| 0 <= a < b < p.len() implies #[trigger] p[a].0 != #[trigger] p[b].0 by {
                assert(rows[a].0 != rows[b].0);
            }
        }
        lemma_rows_maps(p);
        assert(!ids_of_rows(p).contains_key(rows[l].1)) by {
            if ids_of_rows(p).contains_key(rows[l].1) {
                let k = choose|k: int| 0 <= k < p.len() && #[trigger] p[k].1 == rows[l].1;
                assert(rows[k].1 != rows[l].1);
            }
        }
        assert(!names_of_rows(p).contains_key(rows[l].0)) by {
            if names_of_rows(p).contains_key(rows[l].0) {
                let k = choose|k: int| 0 <= k < p.len() && #[trigger] p[k].0 == rows[l].0;
                assert(rows[k].0 != rows[l].0);
            }
        }
        assert(ids_of_rows(rows) == ids_of_rows(p).insert(rows[l].1, rows[l].0));
        assert(names_of_rows(rows) == names_of_rows(p).insert(rows[l].0, rows[l].1));
        assert forall|i: i32|
            #[trigger] ids_of_rows(rows).contains_key(i) <==> exists|k: int|
                0 <= k < rows.len() && #[trigger] rows[k].1 == i by {
            if i != rows[l].1 && ids_of_rows(rows).contains_key(i) {
                let k = choose|k: int| 0 <= k < p.len() && #[trigger] p[k].1 == i;
                assert(rows[k].1 == i);
            }
            if exists|k: int| 0 <= k < rows.len() && #[trigger] rows[k].1 == i {
                let k = choose|k: int| 0 <= k < rows.len() && #[trigger] rows[k].1 == i;
                if k < l {
                    assert(p[k].1 == i);
                }
            }
        }
        assert forall|n: Seq<char>|
            #[trigger] names_of_rows(rows).contains_key(n) <==> exists|k: int|
                0 <= k < rows.len() && #[trigger] rows[k].0 == n by {
            if n != rows[l].0 && names_of_rows(rows).contains_key(n) {
                let k = choose|k: int| 0 <= k < p.len() && #[trigger] p[k].0 == n;
                assert(rows[k].0 == n);
            }
            if exists|k: int| 0 <= k < rows.len() && #[trigger] rows[k].0 == n {
                let k = choose|k: int| 0 <= k < rows.len() && #[trigger] rows[k].0 == n;
                if k < l {
                    assert(p[k].0 == n);
                }
            }
        }
        assert forall|k: int|
            0 <= k < rows.len() implies ids_of_rows(rows)[#[trigger] rows[k].1] == rows[k].0
                && names_of_rows(rows)[rows[k].0] == rows[k].1 by {
            if k < l {
                assert(p[k] == rows[k]);
                assert(rows[k].1 != rows[l].1 && rows[k].0 != rows[l].0);
            }
        }
    }
}

/// Whatever rows a guide was read from, each of its directions inverts the
/// other and the two are of one size.
pub proof fn lemma_guide_consistent(g: &ColorGuide)
    requires
        g.wf(),
    ensures
        inverse(g.id_map(), g.name_map()),
        g.id_map().len() == g.name_map().len(),
{
    lemma_inverse_len(g.id_map(), g.name_map());
}

/// A guide read back from N rows with distinct ids and distinct names holds
/// exactly those N entries in each direction, every row found in both.
pub proof fn lemma_guide_round_trip(g: &ColorGuide, rows: Seq<(Seq<char>, i32)>)
    requires
        rows_unique(rows),
        g.id_map() == ids_of_rows(rows),
        g.name_map() == names_of_rows(rows),
    ensures
        g.id_map().len() == rows.len(),
        g.name_map().len() == rows.len(),
        forall|k: int|
            0 <= k < rows.len() ==> {
                &&& g.id_map().contains_key(#[trigger] rows[k].1)
                &&& g.id_map()[rows[k].1] == rows[k].0
                &&& g.name_map().contains_key(rows[k].0)
                &&& g.name_map()[rows[k].0] == rows[k].1
            },
        inverse(g.id_map(), g.name_map()),
{
    lemma_rows_maps(rows);
    lemma_rows_inverse(rows);
    lemma_inverse_len(g.id_map(), g.name_map());
    assert forall|k: int| 0 <= k < rows.len() implies g.id_map().contains_key(#[trigger] rows[k].1)
        && g.name_map().contains_key(rows[k].0) by {}
}

} // verus!
