//! `Table`, the key/value pairs of one infobox: a map from text to text that
//! keeps its keys in the order they were first inserted.

use vstd::prelude::*;

use crate::text::same_text;

verus! {

/// Pairs of key and value text.
pub type Entries = Seq<(Seq<char>, Seq<char>)>;

/// No key occurs twice in `e`.
pub open spec fn distinct_keys(e: Entries) -> bool {
    forall|i: int, j: int| 0 <= i < j < e.len() ==> #[trigger] e[i].0 != #[trigger] e[j].0
}

/// The map that inserting the pairs of `e` in order builds: a later pair
/// replaces an earlier one with the same key.
pub open spec fn map_of(e: Entries) -> Map<Seq<char>, Seq<char>>
    decreases e.len(),
{
    if e.len() == 0 {
        Map::empty()
    } else {
        map_of(e.drop_last()).insert(e.last().0, e.last().1)
    }
}

pub proof fn lemma_map_of_dom(e: Entries)
    ensures
        map_of(e).dom().finite(),
        forall|k: Seq<char>| #[trigger]
            map_of(e).contains_key(k) <==> exists|i: int| 0 <= i < e.len() && e[i].0 == k,
    decreases e.len(),
{
    if e.len() > 0 {
        let p = e.drop_last();
        lemma_map_of_dom(p);
        assert forall|k: Seq<char>| #[trigger] map_of(e).contains_key(k) implies exists|i: int|
            0 <= i < e.len() && e[i].0 == k by {
            if k != e.last().0 {
                let i = choose|i: int| 0 <= i < p.len() && p[i].0 == k;
                assert(e[i] == p[i]);
            }
        }
        assert forall|k: Seq<char>|
            (exists|i: int| 0 <= i < e.len() && e[i].0 == k) implies #[trigger] map_of(
            e,
        ).contains_key(k) by {
            let i = choose|i: int| 0 <= i < e.len() && e[i].0 == k;
            if i < e.len() - 1 {
                assert(p[i] == e[i]);
            }
        }
    }
}

pub proof fn lemma_map_of_value(e: Entries, i: int)
    requires
        distinct_keys(e),
        0 <= i < e.len(),
    ensures
        map_of(e).contains_key(e[i].0),
        map_of(e)[e[i].0] == e[i].1,
    decreases e.len(),
{
    let p = e.drop_last();
    if i < e.len() - 1 {
        assert(p[i] == e[i]);
        assert(distinct_keys(p)) by {
            assert forall|a: int, b: int| 0 <= a < b < p.len() implies #[trigger] p[a].0
                != #[trigger] p[b].0 by {
                assert(p[a] == e[a] && p[b] == e[b]);
            }
        }
        lemma_map_of_value(p, i);
        assert(e[i].0 != e[e.len() - 1].0);
    }
}

pub proof fn lemma_map_of_len(e: Entries)
    requires
        distinct_keys(e),
    ensures
        map_of(e).len() == e.len(),
    decreases e.len(),
{
    if e.len() > 0 {
        let p = e.drop_last();
        assert(distinct_keys(p)) by {
            assert forall|a: int, b: int| 0 <= a < b < p.len() implies #[trigger] p[a].0
                != #[trigger] p[b].0 by {
                assert(p[a] == e[a] && p[b] == e[b]);
            }
        }
        lemma_map_of_len(p);
        lemma_map_of_dom(p);
        assert(!map_of(p).contains_key(e.last().0)) by {
            if map_of(p).contains_key(e.last().0) {
                let i = choose|i: int| 0 <= i < p.len() && p[i].0 == e.last().0;
                assert(e[i] == p[i]);
            }
        }
    }
}

/// Replacing the value of an existing key in `e` has the effect of
/// inserting the new pair into its map.
pub proof fn lemma_map_of_update(e: Entries, i: int, v: Seq<char>)
    requires
        distinct_keys(e),
        0 <= i < e.len(),
    ensures
        map_of(e.update(i, (e[i].0, v))) == map_of(e).insert(e[i].0, v),
    decreases e.len(),
{
    let u = e.update(i, (e[i].0, v));
    let p = e.drop_last();
    if i == e.len() - 1 {
        assert(u.drop_last() =~= p);
        assert(map_of(u) =~= map_of(e).insert(e[i].0, v));
    } else {
        assert(distinct_keys(p)) by {
            assert forall|a: int, b: int| 0 <= a < b < p.len() implies #[trigger] p[a].0
                != #[trigger] p[b].0 by {
                assert(p[a] == e[a] && p[b] == e[b]);
            }
        }
        lemma_map_of_update(p, i, v);
        assert(p[i] == e[i]);
        assert(u.drop_last() =~= p.update(i, (e[i].0, v)));
        assert(e[i].0 != e.last().0);
        assert(map_of(u) =~= map_of(e).insert(e[i].0, v));
    }
}

/// The pairs of an infobox, keyed by text.
pub struct Table {
    entries: Vec<(String, String)>,
}

impl Table {
    /// The pairs in the order their keys were first inserted.
    pub closed spec fn entries_view(&self) -> Entries {
        self.entries@.map_values(|e: (String, String)| (e.0@, e.1@))
    }

    /// No key occurs twice.
    pub closed spec fn wf(&self) -> bool {
        distinct_keys(self.entries_view())
    }

    /// An empty table.
    pub fn new() -> (r: Table)
        ensures
            r.wf(),
            r.entries_view() == Seq::<(Seq<char>, Seq<char>)>::empty(),
            r@ == Map::<Seq<char>, Seq<char>>::empty(),
    {
        let r = Table { entries: Vec::new() };
        assert(r.entries_view() =~= Seq::<(Seq<char>, Seq<char>)>::empty());
        r
    }

    /// Position of key `k` among the pairs.
    fn position(&self, k: &str) -> (r: Option<usize>)
        ensures
            r matches Some(i) ==> i < self.entries_view().len() && self.entries_view()[i as int].0
                == k@,
            r is None ==> forall|i: int|
                0 <= i < self.entries_view().len() ==> #[trigger] self.entries_view()[i].0 != k@,
    {
        let mut i: usize = 0;
        while i < self.entries.len()
            invariant
                i <= self.entries@.len(),
                forall|j: int| 0 <= j < i ==> #[trigger] self.entries_view()[j].0 != k@,
            decreases self.entries@.len() - i,
        {
            if same_text(self.entries[i].0.as_str(), k) {
                return Some(i);
            }
            i = i + 1;
        }
        None
    }

    /// Sets the value of `k` to `v`, replacing any value it had.
    pub fn insert(&mut self, k: String, v: String)
        requires
            old(self).wf(),
        ensures
            final(self).wf(),
            final(self)@ == old(self)@.insert(k@, v@),
    {
        let ghost e = self.entries_view();
        match self.position(k.as_str()) {
            Some(i) => {
                self.entries.set(i, (k, v));
                assert(self.entries_view() =~= e.update(i as int, (e[i as int].0, v@)));
                proof {
                    lemma_map_of_update(e, i as int, v@);
                }
                assert(self.wf()) by {
                    assert forall|a: int, b: int|
                        0 <= a < b < self.entries_view().len() implies #[trigger] self.entries_view()[a].0
                        != #[trigger] self.entries_view()[b].0 by {
                        assert(self.entries_view()[a].0 == e[a].0);
                        assert(self.entries_view()[b].0 == e[b].0);
                    }
                }
            },
            None => {
                self.entries.push((k, v));
                assert(self.entries_view() =~= e.push((k@, v@)));
                assert(self.entries_view().drop_last() =~= e);
            },
        }
    }

    /// The value stored under `k`.
    pub fn get(&self, k: &str) -> (r: Option<&String>)
        requires
            self.wf(),
        ensures
            r matches Some(v) ==> self@.contains_key(k@) && v@ == self@[k@],
            r is None ==> !self@.contains_key(k@),
    {
        proof {
            lemma_map_of_dom(self.entries_view());
        }
        match self.position(k) {
            Some(i) => {
                proof {
                    lemma_map_of_value(self.entries_view(), i as int);
                }
                Some(&self.entries[i].1)
            },
            None => None,
        }
    }

    /// Whether `k` has a value.
    pub fn contains_key(&self, k: &str) -> (r: bool)
        requires
            self.wf(),
        ensures
            r == self@.contains_key(k@),
    {
        self.get(k).is_some()
    }

    /// Number of keys.
    pub fn len(&self) -> (r: usize)
        requires
            self.wf(),
        ensures
            r == self@.len(),
    {
        proof {
            lemma_map_of_len(self.entries_view());
        }
        self.entries.len()
    }

    /// Whether the table has no keys.
    pub fn is_empty(&self) -> (r: bool)
        requires
            self.wf(),
        ensures
            r == (self@.len() == 0),
    {
        self.len() == 0
    }

    /// The key and value of the `i`th pair.
    pub fn entry(&self, i: usize) -> (r: (&String, &String))
        requires
            i < self.entries_view().len(),
        ensures
            r.0@ == self.entries_view()[i as int].0,
            r.1@ == self.entries_view()[i as int].1,
    {
        (&self.entries[i].0, &self.entries[i].1)
    }

    /// Number of pairs.
    pub fn pair_count(&self) -> (r: usize)
        ensures
            r == self.entries_view().len(),
    {
        self.entries.len()
    }
}

impl View for Table {
    type V = Map<Seq<char>, Seq<char>>;

    open spec fn view(&self) -> Map<Seq<char>, Seq<char>> {
        map_of(self.entries_view())
    }
}

} // verus!
