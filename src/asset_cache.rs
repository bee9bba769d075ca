//! The CPU-side asset cache: decoded models by asset name, written once per
//! name and never evicted.
use crate::components::GLTFModel;
use vstd::prelude::*;

verus! {

/// The map that a list of named entries stands for; a later entry wins.
pub open spec fn map_of<V>(s: Seq<(String, V)>) -> Map<Seq<char>, V>
    decreases s.len(),
{
    if s.len() == 0 {
        Map::empty()
    } else {
        map_of(s.drop_last()).insert(s.last().0@, s.last().1)
    }
}

/// No two entries share a name.
pub open spec fn names_distinct<V>(s: Seq<(String, V)>) -> bool {
    forall|i: int, j: int| 0 <= i < j < s.len() ==> #[trigger] s[i].0@ != #[trigger] s[j].0@
}

/// With distinct names, the map holds exactly the listed names, each with its
/// own entry's value.
pub proof fn lemma_map_of_entries<V>(s: Seq<(String, V)>)
    requires
        names_distinct(s),
    ensures
        forall|k: Seq<char>|
            #[trigger] map_of(s).contains_key(k) <==> exists|i: int| 0 <= i < s.len() && s[i].0@ == k,
        forall|i: int| 0 <= i < s.len() ==> #[trigger] map_of(s)[s[i].0@] == s[i].1,
        map_of(s).dom().finite(),
        map_of(s).len() == s.len(),
    decreases s.len(),
{
    if s.len() > 0 {
        let t = s.drop_last();
        assert(names_distinct(t)) by {
            assert forall|i: int, j: int| 0 <= i < j < t.len() implies t[i].0@ != t[j].0@ by {
                assert(t[i] == s[i] && t[j] == s[j]);
            }
        }
        lemma_map_of_entries(t);
        let last = s.last();
        assert(!map_of(t).contains_key(last.0@)) by {
            if map_of(t).contains_key(last.0@) {
                let i = choose|i: int| 0 <= i < t.len() && t[i].0@ == last.0@;
                assert(s[i] == t[i]);
                assert(s[i].0@ != s[s.len() - 1].0@);
            }
        }
        assert forall|k: Seq<char>| #[trigger] map_of(s).contains_key(k) <==> exists|i: int|
            0 <= i < s.len() && s[i].0@ == k by {
            if map_of(s).contains_key(k) && k != last.0@ {
                let i = choose|i: int| 0 <= i < t.len() && t[i].0@ == k;
                assert(s[i] == t[i]);
            }
            if exists|i: int| 0 <= i < s.len() && s[i].0@ == k {
                let i = choose|i: int| 0 <= i < s.len() && s[i].0@ == k;
                if i < t.len() {
                    assert(s[i] == t[i]);
                }
            }
        }
        assert forall|i: int| 0 <= i < s.len() implies #[trigger] map_of(s)[s[i].0@] == s[i].1 by {
            if i < t.len() {
                assert(s[i] == t[i]);
                assert(s[i].0@ != last.0@);
            }
        }
    }
}

/// Decoded models by asset name.
#[derive(Debug)]
pub struct AssetCache {
    entries: Vec<(String, GLTFModel)>,
}

impl View for AssetCache {
    type V = Map<Seq<char>, GLTFModel>;

    closed spec fn view(&self) -> Map<Seq<char>, GLTFModel> {
        map_of(self.entries@)
    }
}

impl AssetCache {
    /// Each name has one entry at most.
    pub closed spec fn wf(&self) -> bool {
        names_distinct(self.entries@)
    }

    pub fn new() -> (r: Self)
        ensures
            r.wf(),
            r@ == Map::<Seq<char>, GLTFModel>::empty(),
    {
        AssetCache { entries: Vec::new() }
    }

    /// Number of cached assets.
    pub fn len(&self) -> (r: usize)
        requires
            self.wf(),
        ensures
            r == self@.len(),
    {
        proof {
            lemma_map_of_entries(self.entries@);
        }
        self.entries.len()
    }

    fn position(&self, name: &String) -> (r: Option<usize>)
        requires
            self.wf(),
        ensures
            match r {
                Some(i) => i < self.entries@.len() && self.entries@[i as int].0@ == name@,
                None => !self@.contains_key(name@),
            },
    {
        proof {
            lemma_map_of_entries(self.entries@);
        }
        let mut i: usize = 0;
        while i < self.entries.len()
            invariant
                i <= self.entries@.len(),
                forall|j: int| 0 <= j < i ==> self.entries@[j].0@ != name@,
            decreases self.entries@.len() - i,
        {
            if self.entries[i].0 == *name {
                return Some(i);
            }
            i = i + 1;
        }
        None
    }

    /// Whether a model is cached under `name`.
    pub fn contains(&self, name: &String) -> (r: bool)
        requires
            self.wf(),
        ensures
            r == self@.contains_key(name@),
    {
        proof {
            lemma_map_of_entries(self.entries@);
        }
        self.position(name).is_some()
    }

    /// The model cached under `name`, shared rather than copied.
    pub fn get(&self, name: &String) -> (r: Option<GLTFModel>)
        requires
            self.wf(),
        ensures
            r == (if self@.contains_key(name@) {
                Some(self@[name@])
            } else {
                None
            }),
    {
        proof {
            lemma_map_of_entries(self.entries@);
        }
        match self.position(name) {
            Some(i) => Some(self.entries[i].1.share()),
            None => None,
        }
    }

    /// Caches `model` under `name` unless that name already has an entry: an
    /// entry, once written, is never replaced. Returns whether it was stored.
    pub fn insert(&mut self, name: String, model: GLTFModel) -> (r: bool)
        requires
            old(self).wf(),
        ensures
            final(self).wf(),
            r == !old(self)@.contains_key(name@),
            final(self)@ == (if r {
                old(self)@.insert(name@, model)
            } else {
                old(self)@
            }),
    {
        proof {
            lemma_map_of_entries(self.entries@);
        }
        match self.position(&name) {
            Some(_) => false,
            None => {
                proof {
                    lemma_map_of_entries(self.entries@);
                }
                let ghost before = self.entries@;
                self.entries.push((name, model));
                proof {
                    assert(self.entries@.drop_last() == before);
                    assert forall|i: int, j: int| 0 <= i < j < self.entries@.len() implies
                        #[trigger] self.entries@[i].0@ != #[trigger] self.entries@[j].0@ by {
                        if j == before.len() {
                            assert(self.entries@[i] == before[i]);
                            assert(map_of(before)[before[i].0@] == before[i].1);
                        } else {
                            assert(self.entries@[i] == before[i] && self.entries@[j] == before[j]);
                        }
                    }
                }
                true
            },
        }
    }
}

} // verus!
