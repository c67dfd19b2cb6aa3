//! A map from rule IDs to per-rule settings, kept as a vector of entries
//! with distinct keys.
use vstd::prelude::*;
use crate::models::Severity;
use crate::text::str_eq;

verus! {

/// Per-rule configuration: `None` means "not set here".
#[derive(Debug, Clone, Copy, PartialEq, Eq, Structural)]
pub struct RuleConfig {
    pub enabled: Option<bool>,
    pub severity: Option<Severity>,
}

/// An `Option` that keeps `base` where `over` is unset.
pub open spec fn or_else<T>(over: Option<T>, base: Option<T>) -> Option<T> {
    match over {
        Some(x) => Some(x),
        None => base,
    }
}

/// `over` laid on top of `base`: each field set in `over` wins.
pub open spec fn layered(base: RuleConfig, over: RuleConfig) -> RuleConfig {
    RuleConfig { enabled: or_else(over.enabled, base.enabled), severity: or_else(over.severity, base.severity) }
}

/// The map that a list of entries denotes (a later entry wins).
pub open spec fn map_of(entries: Seq<(String, RuleConfig)>) -> Map<Seq<char>, RuleConfig>
    decreases entries.len(),
{
    if entries.len() == 0 {
        Map::empty()
    } else {
        map_of(entries.drop_last()).insert(entries.last().0@, entries.last().1)
    }
}

pub open spec fn distinct_keys(entries: Seq<(String, RuleConfig)>) -> bool {
    forall|i: int, j: int|
        0 <= i < entries.len() && 0 <= j < entries.len() && i != j ==> entries[i].0@
            != entries[j].0@
}

/// `b` laid over `a`, key by key.
pub open spec fn layered_maps(
    a: Map<Seq<char>, RuleConfig>,
    b: Map<Seq<char>, RuleConfig>,
) -> Map<Seq<char>, RuleConfig> {
    Map::new(
        |k: Seq<char>| a.dom().contains(k) || b.dom().contains(k),
        |k: Seq<char>|
            if b.dom().contains(k) {
                if a.dom().contains(k) {
                    layered(a[k], b[k])
                } else {
                    b[k]
                }
            } else {
                a[k]
            },
    )
}

/// The keys among the first `i` of `ks`.
pub open spec fn first_keys(ks: Seq<Seq<char>>, i: int) -> Set<Seq<char>> {
    Set::new(|k: Seq<char>| exists|j: int| 0 <= j < i && ks[j] == k)
}

/// Rule settings by rule ID.
#[derive(Debug)]
pub struct RuleMap {
    entries: Vec<(String, RuleConfig)>,
}

impl View for RuleMap {
    type V = Map<Seq<char>, RuleConfig>;

    closed spec fn view(&self) -> Map<Seq<char>, RuleConfig> {
        map_of(self.entries@)
    }
}

proof fn lemma_map_of_dom(entries: Seq<(String, RuleConfig)>)
    ensures
        forall|k: Seq<char>|
            #![trigger map_of(entries).dom().contains(k)]
            map_of(entries).dom().contains(k) <==> exists|i: int|
                0 <= i < entries.len() && entries[i].0@ == k,
        map_of(entries).dom().finite(),
    decreases entries.len(),
{
    if entries.len() > 0 {
        lemma_map_of_dom(entries.drop_last());
        assert forall|k: Seq<char>| map_of(entries).dom().contains(k) <==> exists|i: int|
            0 <= i < entries.len() && entries[i].0@ == k by {
            if map_of(entries).dom().contains(k) {
                if k == entries.last().0@ {
                    assert(entries[entries.len() - 1].0@ == k);
                } else {
                    let i = choose|i: int|
                        0 <= i < entries.drop_last().len() && entries.drop_last()[i].0@ == k;
                    assert(entries[i].0@ == k);
                }
            }
            if exists|i: int| 0 <= i < entries.len() && entries[i].0@ == k {
                let i = choose|i: int| 0 <= i < entries.len() && entries[i].0@ == k;
                if i < entries.len() - 1 {
                    assert(entries.drop_last()[i].0@ == k);
                }
            }
        }
    }
}

proof fn lemma_map_of_value(entries: Seq<(String, RuleConfig)>, i: int)
    requires
        distinct_keys(entries),
        0 <= i < entries.len(),
    ensures
        map_of(entries).dom().contains(entries[i].0@),
        map_of(entries)[entries[i].0@] == entries[i].1,
    decreases entries.len(),
{
    lemma_map_of_dom(entries);
    if i < entries.len() - 1 {
        assert(distinct_keys(entries.drop_last()));
        lemma_map_of_value(entries.drop_last(), i);
        assert(entries.drop_last()[i] == entries[i]);
        assert(entries[i].0@ != entries[entries.len() - 1].0@);
    }
}

proof fn lemma_map_of_len(entries: Seq<(String, RuleConfig)>)
    requires
        distinct_keys(entries),
    ensures
        map_of(entries).dom().len() == entries.len(),
    decreases entries.len(),
{
    if entries.len() > 0 {
        let init = entries.drop_last();
        assert(distinct_keys(init));
        lemma_map_of_len(init);
        lemma_map_of_dom(init);
        assert(!map_of(init).dom().contains(entries.last().0@)) by {
            if map_of(init).dom().contains(entries.last().0@) {
                let i = choose|i: int| 0 <= i < init.len() && init[i].0@ == entries.last().0@;
                assert(entries[i].0@ == entries[entries.len() - 1].0@);
            }
        }
    }
}

proof fn lemma_map_of_update(entries: Seq<(String, RuleConfig)>, i: int, v: RuleConfig)
    requires
        distinct_keys(entries),
        0 <= i < entries.len(),
    ensures
        distinct_keys(entries.update(i, (entries[i].0, v))),
        map_of(entries.update(i, (entries[i].0, v))) == map_of(entries).insert(entries[i].0@, v),
    decreases entries.len(),
{
    let upd = entries.update(i, (entries[i].0, v));
    assert(distinct_keys(upd)) by {
        assert forall|a: int, b: int|
            0 <= a < upd.len() && 0 <= b < upd.len() && a != b implies upd[a].0@ != upd[b].0@ by {
            assert(upd[a].0@ == entries[a].0@);
            assert(upd[b].0@ == entries[b].0@);
        }
    }
    if i == entries.len() - 1 {
        assert(upd.drop_last() =~= entries.drop_last());
        assert(map_of(upd) =~= map_of(entries).insert(entries[i].0@, v));
    } else {
        let init = entries.drop_last();
        assert(distinct_keys(init));
        lemma_map_of_update(init, i, v);
        assert(upd.drop_last() =~= init.update(i, (init[i].0, v)));
        assert(entries[i].0@ != entries.last().0@);
        assert(map_of(upd) =~= map_of(entries).insert(entries[i].0@, v));
    }
}

impl RuleMap {
    #[verifier::type_invariant]
    spec fn wf(self) -> bool {
        distinct_keys(self.entries@)
    }

    /// An empty map.
    pub fn new() -> (r: RuleMap)
        ensures
            r@ == Map::<Seq<char>, RuleConfig>::empty(),
    {
        RuleMap { entries: Vec::new() }
    }

    /// The number of rule IDs in the map.
    pub fn len(&self) -> (r: usize)
        ensures
            r == self@.dom().len(),
    {
        proof {
            use_type_invariant(self);
            lemma_map_of_len(self.entries@);
        }
        self.entries.len()
    }

    /// Whether the map is empty.
    pub fn is_empty(&self) -> (r: bool)
        ensures
            r == (self@.dom().len() == 0),
    {
        self.len() == 0
    }

    /// The position of `key` among the entries.
    fn position(&self, key: &str) -> (r: Option<usize>)
        ensures
            r matches Some(i) ==> i < self.entries@.len() && self.entries@[i as int].0@ == key@,
            r is None ==> !self@.dom().contains(key@),
    {
        proof {
            lemma_map_of_dom(self.entries@);
        }
        let mut i: usize = 0;
        while i < self.entries.len()
            invariant
                i <= self.entries@.len(),
                forall|j: int| 0 <= j < i ==> self.entries@[j].0@ != key@,
            decreases self.entries.len() - i,
        {
            if str_eq(self.entries[i].0.as_str(), key) {
                return Some(i);
            }
            i = i + 1;
        }
        None
    }

    /// The settings of `key`, if the map holds it.
    pub fn get(&self, key: &str) -> (r: Option<&RuleConfig>)
        ensures
            r matches Some(c) ==> self@.dom().contains(key@) && self@[key@] == *c,
            r is None ==> !self@.dom().contains(key@),
    {
        proof {
            use_type_invariant(self);
        }
        match self.position(key) {
            Some(i) => {
                proof {
                    lemma_map_of_value(self.entries@, i as int);
                }
                Some(&self.entries[i].1)
            },
            None => None,
        }
    }

    /// Whether the map holds `key`.
    pub fn contains_key(&self, key: &str) -> (r: bool)
        ensures
            r == self@.dom().contains(key@),
    {
        self.get(key).is_some()
    }

    /// Sets the settings of `key`, replacing any it had.
    pub fn insert(&mut self, key: String, value: RuleConfig)
        ensures
            final(self)@ == old(self)@.insert(key@, value),
    {
        proof {
            use_type_invariant(&*self);
        }
        match self.position(key.as_str()) {
            Some(i) => {
                proof {
                    lemma_map_of_update(self.entries@, i as int, value);
                }
                let k = self.entries[i].0.clone();
                let mut e: Vec<(String, RuleConfig)> = Vec::new();
                std::mem::swap(&mut e, &mut self.entries);
                e.set(i, (k, value));
                self.entries = e;
            },
            None => {
                proof {
                    lemma_map_of_dom(self.entries@);
                    let e = self.entries@;
                    assert(distinct_keys(e.push((key, value)))) by {
                        assert forall|a: int, b: int|
                            0 <= a < e.len() + 1 && 0 <= b < e.len() + 1 && a != b implies e.push(
                            (key, value),
                        )[a].0@ != e.push((key, value))[b].0@ by {
                            if a == e.len() {
                                assert(e[b].0@ != key@);
                            } else if b == e.len() {
                                assert(e[a].0@ != key@);
                            }
                        }
                    }
                    assert(e.push((key, value)).drop_last() =~= e);
                }
                let mut e: Vec<(String, RuleConfig)> = Vec::new();
                std::mem::swap(&mut e, &mut self.entries);
                e.push((key, value));
                self.entries = e;
            },
        }
    }

    /// The number of entries, which is the number of keys.
    pub fn entry_count(&self) -> (r: usize)
        ensures
            r == self.entry_keys().len(),
            forall|k: Seq<char>| self@.dom().contains(k) <==> self.entry_keys().contains(k),
            self.entry_keys().no_duplicates(),
            self@.dom().finite(),
    {
        proof {
            use_type_invariant(self);
            lemma_map_of_dom(self.entries@);
            let ks = self.entry_keys();
            assert forall|k: Seq<char>| self@.dom().contains(k) <==> ks.contains(k) by {
                if self@.dom().contains(k) {
                    let i = choose|i: int| 0 <= i < self.entries@.len() && self.entries@[i].0@ == k;
                    assert(ks[i] == k);
                }
                if ks.contains(k) {
                    let i = choose|i: int| 0 <= i < ks.len() && ks[i] == k;
                    assert(self.entries@[i].0@ == k);
                }
            }
        }
        self.entries.len()
    }

    /// The keys, in the map's own order.
    pub closed spec fn entry_keys(&self) -> Seq<Seq<char>> {
        self.entries@.map_values(|e: (String, RuleConfig)| e.0@)
    }

    /// The `i`-th entry in the map's own order.
    pub fn entry(&self, i: usize) -> (r: (&String, &RuleConfig))
        requires
            i < self.entry_keys().len(),
        ensures
            r.0@ == self.entry_keys()[i as int],
            self@.dom().contains(r.0@),
            self@[r.0@] == *r.1,
    {
        proof {
            use_type_invariant(self);
            lemma_map_of_value(self.entries@, i as int);
        }
        (&self.entries[i].0, &self.entries[i].1)
    }

    /// A copy of this map.
    pub fn copy(&self) -> (r: RuleMap)
        ensures
            r@ == self@,
            r.entry_keys() == self.entry_keys(),
    {
        proof {
            use_type_invariant(self);
        }
        let mut entries: Vec<(String, RuleConfig)> = Vec::new();
        let mut i: usize = 0;
        while i < self.entries.len()
            invariant
                i <= self.entries@.len(),
                entries@ == self.entries@.take(i as int),
            decreases self.entries.len() - i,
        {
            let k = self.entries[i].0.clone();
            entries.push((k, self.entries[i].1));
            assert(self.entries@.take(i + 1) =~= self.entries@.take(i as int).push(self.entries@[i as int]));
            i = i + 1;
        }
        assert(self.entries@.take(self.entries@.len() as int) =~= self.entries@);
        RuleMap { entries }
    }


    /// Lays `other` on top of this map: for a key in both, each setting that
    /// `other` sets wins; a key only in `other` is added.
    pub fn layer(&mut self, other: &RuleMap)
        ensures
            final(self)@ == layered_maps(old(self)@, other@),
    {
        let ghost start = self@;
        let n = other.entry_count();
        let mut i: usize = 0;
        while i < n
            invariant
                i <= n,
                n == other.entry_keys().len(),
                other.entry_keys().no_duplicates(),
                forall|k: Seq<char>| other@.dom().contains(k) <==> other.entry_keys().contains(k),
                self@ == layered_maps(start, other@.restrict(first_keys(other.entry_keys(), i as int))),
            decreases n - i,
        {
            let (k, rc) = other.entry(i);
            let ghost before = self@;
            match self.get(k.as_str()) {
                Some(existing) => {
                    let merged = RuleConfig {
                        enabled: match rc.enabled {
                            Some(e) => Some(e),
                            None => existing.enabled,
                        },
                        severity: match rc.severity {
                            Some(s) => Some(s),
                            None => existing.severity,
                        },
                    };
                    self.insert(k.clone(), merged);
                },
                None => {
                    self.insert(k.clone(), *rc);
                },
            }
            proof {
                let ks = other.entry_keys();
                let s_old = first_keys(ks, i as int);
                let s_new = first_keys(ks, i + 1);
                assert(s_new =~= s_old.insert(ks[i as int])) by {
                    assert forall|k: Seq<char>| s_new.contains(k) <==> s_old.insert(ks[i as int]).contains(k) by {
                        if s_new.contains(k) {
                            let j = choose|j: int| 0 <= j < i + 1 && ks[j] == k;
                            if j < i {
                                assert(s_old.contains(k));
                            }
                        }
                        if s_old.contains(k) {
                            let j = choose|j: int| 0 <= j < i && ks[j] == k;
                            assert(0 <= j < i + 1 && ks[j] == k);
                        }
                    }
                }
                assert(!s_old.contains(ks[i as int])) by {
                    if s_old.contains(ks[i as int]) {
                        let j = choose|j: int| 0 <= j < i && ks[j] == ks[i as int];
                        assert(ks[j] == ks[i as int]);
                    }
                }
                assert(self@ =~= layered_maps(start, other@.restrict(s_new)));
            }
            i = i + 1;
        }
        proof {
            let ks = other.entry_keys();
            assert(other@.restrict(first_keys(ks, n as int)) =~= other@) by {
                assert forall|k: Seq<char>| other@.dom().contains(k) implies first_keys(ks, n as int).contains(k) by {
                    assert(ks.contains(k));
                    let j = choose|j: int| 0 <= j < ks.len() && ks[j] == k;
                    assert(0 <= j < n && ks[j] == k);
                }
            }
        }
    }
}

impl Clone for RuleMap {
    fn clone(&self) -> (r: RuleMap)
        ensures
            r@ == self@,
    {
        self.copy()
    }
}

} // verus!
