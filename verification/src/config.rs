//! String-keyed configuration, kept as an association list with distinct
//! keys in first-insertion order.

use vstd::prelude::*;

verus! {

/// The first position of a key among configuration entries, or -1.
pub open spec fn spec_cfg_find(entries: Seq<(Seq<char>, Seq<char>)>, k: Seq<char>) -> int
    decreases entries.len(),
{
    if entries.len() == 0 {
        -1
    } else if entries[0].0 == k {
        0
    } else {
        let r = spec_cfg_find(entries.drop_first(), k);
        if r == -1 {
            -1
        } else {
            r + 1
        }
    }
}

/// The value stored under a key, if any.
pub open spec fn spec_cfg_get(entries: Seq<(Seq<char>, Seq<char>)>, k: Seq<char>) -> Option<
    Seq<char>,
> {
    let i = spec_cfg_find(entries, k);
    if i == -1 {
        None
    } else {
        Some(entries[i].1)
    }
}

/// Storing a value: overwrite in place, or append a fresh entry.
pub open spec fn spec_cfg_put(
    entries: Seq<(Seq<char>, Seq<char>)>,
    k: Seq<char>,
    v: Seq<char>,
) -> Seq<(Seq<char>, Seq<char>)> {
    let i = spec_cfg_find(entries, k);
    if i == -1 {
        entries.push((k, v))
    } else {
        entries.update(i, (k, v))
    }
}

pub proof fn lemma_cfg_find_at(entries: Seq<(Seq<char>, Seq<char>)>, k: Seq<char>, i: int)
    requires
        0 <= i < entries.len(),
        forall|j: int| 0 <= j < i ==> #[trigger] entries[j].0 != k,
        entries[i].0 == k,
    ensures
        spec_cfg_find(entries, k) == i,
    decreases i,
{
    if i > 0 {
        lemma_cfg_find_at(entries.drop_first(), k, i - 1);
    }
}

pub proof fn lemma_cfg_find_none(entries: Seq<(Seq<char>, Seq<char>)>, k: Seq<char>)
    requires
        forall|j: int| 0 <= j < entries.len() ==> #[trigger] entries[j].0 != k,
    ensures
        spec_cfg_find(entries, k) == -1,
    decreases entries.len(),
{
    if entries.len() > 0 {
        lemma_cfg_find_none(entries.drop_first(), k);
    }
}

/// A key-value configuration.
#[derive(Debug, Clone)]
pub struct Configuration {
    pub entries: Vec<(String, String)>,
}

/// The mathematical shape of a configuration.
pub open spec fn view_cfg(entries: Seq<(String, String)>) -> Seq<(Seq<char>, Seq<char>)> {
    entries.map_values(|e: (String, String)| (e.0@, e.1@))
}

impl Configuration {
    /// An empty configuration.
    pub fn new() -> (r: Self)
        ensures
            view_cfg(r.entries@) == Seq::<(Seq<char>, Seq<char>)>::empty(),
            r.entries@.len() == 0,
    {
        let r = Configuration { entries: Vec::new() };
        proof {
            assert(view_cfg(r.entries@) =~= Seq::<(Seq<char>, Seq<char>)>::empty());
        }
        r
    }

    /// Store a value under a key, overwriting an existing entry.
    pub fn put(&mut self, key: String, value: String)
        ensures
            view_cfg(final(self).entries@) == spec_cfg_put(
                view_cfg(old(self).entries@),
                key@,
                value@,
            ),
    {
        let n = self.entries.len();
        let mut i: usize = 0;
        while i < n
            invariant
                i <= n,
                n == self.entries@.len(),
                self.entries@ == old(self).entries@,
                forall|j: int| 0 <= j < i ==> #[trigger] view_cfg(self.entries@)[j].0 != key@,
            decreases n - i,
        {
            if self.entries[i].0 == key {
                proof {
                    lemma_cfg_find_at(view_cfg(self.entries@), key@, i as int);
                }
                let ghost pre = view_cfg(self.entries@);
                let entry = vstd::std_specs::vec::vec_index_mut(&mut self.entries, i);
                entry.1 = value;
                proof {
                    assert(view_cfg(self.entries@) =~~= pre.update(
                        i as int,
                        (key@, view_cfg(self.entries@)[i as int].1),
                    ));
                }
                return ;
            }
            i += 1;
        }
        proof {
            lemma_cfg_find_none(view_cfg(self.entries@), key@);
        }
        let ghost pre = view_cfg(self.entries@);
        self.entries.push((key, value));
        proof {
            assert(view_cfg(self.entries@) =~~= pre.push(
                (view_cfg(self.entries@).last().0, view_cfg(self.entries@).last().1),
            ));
        }
    }

    /// The value stored under a key, if any.
    pub fn get(&self, key: &String) -> (r: Option<&String>)
        ensures
            match r {
                Some(v) => spec_cfg_get(view_cfg(self.entries@), key@) == Some(v@),
                None => spec_cfg_get(view_cfg(self.entries@), key@) is None,
            },
    {
        let n = self.entries.len();
        let mut i: usize = 0;
        while i < n
            invariant
                i <= n,
                n == self.entries@.len(),
                forall|j: int| 0 <= j < i ==> #[trigger] view_cfg(self.entries@)[j].0 != key@,
            decreases n - i,
        {
            if self.entries[i].0 == *key {
                proof {
                    lemma_cfg_find_at(view_cfg(self.entries@), key@, i as int);
                }
                return Some(&self.entries[i].1);
            }
            i += 1;
        }
        proof {
            lemma_cfg_find_none(view_cfg(self.entries@), key@);
        }
        None
    }

    /// The value stored under a key, or the given default.
    pub fn get_string(&self, key: &String, default_value: &String) -> (r: String)
        ensures
            r@ == match spec_cfg_get(view_cfg(self.entries@), key@) {
                Some(v) => v,
                None => default_value@,
            },
    {
        match self.get(key) {
            Some(v) => v.clone(),
            None => default_value.clone(),
        }
    }
}

} // verus!
