//! A process-independent environment: a map from variable names to values,
//! built and merged as a value instead of by mutating the process environment.
use vstd::prelude::*;

verus! {

/// The map that a sequence of `(key, value)` entries denotes, later entries
/// taking precedence.
pub open spec fn entries_map(s: Seq<(String, String)>) -> Map<Seq<char>, Seq<char>>
    decreases s.len(),
{
    if s.len() == 0 {
        Map::empty()
    } else {
        entries_map(s.drop_last()).insert(s.last().0@, s.last().1@)
    }
}

/// No two entries share a key.
pub open spec fn distinct_keys(s: Seq<(String, String)>) -> bool {
    forall|i: int, j: int| 0 <= i < j < s.len() ==> #[trigger] s[i].0@ != #[trigger] s[j].0@
}

/// An environment map.
pub struct EnvMap {
    entries: Vec<(String, String)>,
}

impl View for EnvMap {
    type V = Map<Seq<char>, Seq<char>>;

    closed spec fn view(&self) -> Map<Seq<char>, Seq<char>> {
        entries_map(self.entries@)
    }
}

proof fn lemma_entries_map(s: Seq<(String, String)>, k: Seq<char>)
    requires
        distinct_keys(s),
    ensures
        entries_map(s).contains_key(k) <==> exists|i: int| 0 <= i < s.len() && #[trigger] s[i].0@ == k,
        forall|i: int| 0 <= i < s.len() && #[trigger] s[i].0@ == k ==> entries_map(s)[k] == s[i].1@,
    decreases s.len(),
{
    if s.len() > 0 {
        let t = s.drop_last();
        assert(distinct_keys(t));
        lemma_entries_map(t, k);
        if entries_map(s).contains_key(k) && s.last().0@ != k {
            let i = choose|i: int| 0 <= i < t.len() && #[trigger] t[i].0@ == k;
            assert(s[i].0@ == k);
        }
        if exists|i: int| 0 <= i < s.len() && #[trigger] s[i].0@ == k {
            let i = choose|i: int| 0 <= i < s.len() && #[trigger] s[i].0@ == k;
            if i < s.len() - 1 {
                assert(t[i].0@ == k);
            }
        }
    }
}

proof fn lemma_entries_map_update(s: Seq<(String, String)>, idx: int, e: (String, String))
    requires
        distinct_keys(s),
        0 <= idx < s.len(),
        s[idx].0@ == e.0@,
    ensures
        distinct_keys(s.update(idx, e)),
        entries_map(s.update(idx, e)) == entries_map(s).insert(e.0@, e.1@),
{
    let u = s.update(idx, e);
    assert forall|i: int, j: int| 0 <= i < j < u.len() implies #[trigger] u[i].0@ != #[trigger] u[j].0@ by {
        assert(s[i].0@ != s[j].0@);
    }
    let m = entries_map(s).insert(e.0@, e.1@);
    assert forall|k: Seq<char>| #[trigger] entries_map(u).dom().contains(k) == m.dom().contains(k)
        && (entries_map(u).dom().contains(k) ==> entries_map(u)[k] == m[k]) by {
        lemma_entries_map(s, k);
        lemma_entries_map(u, k);
        if k == e.0@ {
            assert(u[idx].0@ == k);
        } else {
            if exists|i: int| 0 <= i < s.len() && #[trigger] s[i].0@ == k {
                let i = choose|i: int| 0 <= i < s.len() && #[trigger] s[i].0@ == k;
                assert(u[i].0@ == k);
            }
            if exists|i: int| 0 <= i < u.len() && #[trigger] u[i].0@ == k {
                let i = choose|i: int| 0 <= i < u.len() && #[trigger] u[i].0@ == k;
                assert(s[i].0@ == k);
            }
        }
    }
    assert(entries_map(u) =~= entries_map(s).insert(e.0@, e.1@));
}

impl EnvMap {
    #[verifier::type_invariant]
    spec fn wf(self) -> bool {
        distinct_keys(self.entries@)
    }

    /// An empty environment.
    pub fn new() -> (m: Self)
        ensures
            m@ == Map::<Seq<char>, Seq<char>>::empty(),
    {
        EnvMap { entries: Vec::new() }
    }

    fn position(&self, key: &str) -> (r: Option<usize>)
        ensures
            match r {
                Some(i) => i < self.entries@.len() && self.entries@[i as int].0@ == key@,
                None => forall|i: int| 0 <= i < self.entries@.len() ==> #[trigger] self.entries@[i].0@ != key@,
            },
    {
        let wanted = String::from_str(key);
        let mut i: usize = 0;
        while i < self.entries.len()
            invariant
                wanted@ == key@,
                i <= self.entries@.len(),
                forall|j: int| 0 <= j < i ==> #[trigger] self.entries@[j].0@ != key@,
            decreases self.entries@.len() - i,
        {
            if self.entries[i].0 == wanted {
                return Some(i);
            }
            i = i + 1;
        }
        None
    }

    /// The value bound to `key`, if any.
    pub fn get(&self, key: &str) -> (r: Option<&String>)
        ensures
            match r {
                Some(v) => self@.contains_key(key@) && v@ == self@[key@],
                None => !self@.contains_key(key@),
            },
    {
        proof {
            use_type_invariant(self);
            lemma_entries_map(self.entries@, key@);
        }
        match self.position(key) {
            Some(i) => Some(&self.entries[i].1),
            None => None,
        }
    }

    /// Binds `key` to `value`, returning the value it replaced.
    pub fn insert(&mut self, key: String, value: String) -> (r: Option<String>)
        ensures
            final(self)@ == old(self)@.insert(key@, value@),
            match r {
                Some(v) => old(self)@.contains_key(key@) && v@ == old(self)@[key@],
                None => !old(self)@.contains_key(key@),
            },
    {
        proof {
            use_type_invariant(&*self);
            lemma_entries_map(self.entries@, key@);
        }
        match self.position(key.as_str()) {
            Some(i) => {
                let ghost old_entries = self.entries@;
                let mut entries: Vec<(String, String)> = Vec::new();
                std::mem::swap(&mut entries, &mut self.entries);
                let previous = entries[i].1.clone();
                let ghost pair = (key, value);
                entries.set(i, (key, value));
                proof {
                    lemma_entries_map_update(old_entries, i as int, pair);
                }
                self.entries = entries;
                Some(previous)
            },
            None => {
                let ghost old_entries = self.entries@;
                let mut entries: Vec<(String, String)> = Vec::new();
                std::mem::swap(&mut entries, &mut self.entries);
                entries.push((key, value));
                assert(entries@.drop_last() =~= old_entries);
                self.entries = entries;
                None
            },
        }
    }
}

/// The value of `key` in `env`, as a string slice.
pub fn value<'a>(env: &'a EnvMap, key: &str) -> (r: Option<&'a str>)
    ensures
        match r {
            Some(v) => env@.contains_key(key@) && v@ == env@[key@],
            None => !env@.contains_key(key@),
        },
{
    match env.get(key) {
        Some(v) => Some(v.as_str()),
        None => None,
    }
}


/// `initial` with every binding of `overrides` laid over it: the command line
/// takes precedence over the inherited environment.
pub fn merge_env(initial: EnvMap, overrides: EnvMap) -> (merged: EnvMap)
    ensures
        merged@ == initial@.union_prefer_right(overrides@),
{
    proof {
        use_type_invariant(&overrides);
    }
    let mut merged = initial;
    let n = overrides.entries.len();
    let mut i: usize = 0;
    while i < n
        invariant
            i <= n == overrides.entries@.len(),
            merged@ == initial@.union_prefer_right(entries_map(overrides.entries@.take(i as int))),
        decreases n - i,
    {
        let key = overrides.entries[i].0.clone();
        let value = overrides.entries[i].1.clone();
        let ghost before = merged@;
        merged.insert(key, value);
        let ghost t = overrides.entries@.take(i as int);
        assert(overrides.entries@.take(i + 1).drop_last() =~= t);
        assert(merged@ =~= initial@.union_prefer_right(entries_map(overrides.entries@.take(i + 1))));
        i = i + 1;
    }
    assert(overrides.entries@.take(n as int) =~= overrides.entries@);
    merged
}

} // verus!
