use vstd::prelude::*;
use crate::order::{lemma_str_lt_irreflexive, lemma_str_lt_total, lemma_str_lt_transitive, str_less, str_lt};
use crate::strs::{copy_string, eq_str};

verus! {

/// Strings in strictly increasing order.
pub open spec fn strictly_sorted(s: Seq<Seq<char>>) -> bool {
    forall|i: int, j: int| 0 <= i < j < s.len() ==> str_lt(s[i], s[j])
}

pub open spec fn keys_of(s: Seq<(String, bool)>) -> Seq<Seq<char>> {
    s.map_values(|e: (String, bool)| e.0@)
}

pub open spec fn item_views(s: Seq<String>) -> Seq<Seq<char>> {
    s.map_values(|e: String| e@)
}

pub proof fn lemma_sorted_distinct(s: Seq<Seq<char>>, i: int, j: int)
    requires
        strictly_sorted(s),
        0 <= i < s.len(),
        0 <= j < s.len(),
        i != j,
    ensures
        s[i] != s[j],
{
    if i < j {
        lemma_str_lt_irreflexive(s[i]);
    } else {
        lemma_str_lt_irreflexive(s[j]);
    }
}

/// Where `k` belongs in the strictly sorted `s`: the first position holding a
/// string not below `k`.
proof fn lemma_insert_sorted(s: Seq<Seq<char>>, p: int, k: Seq<char>)
    requires
        strictly_sorted(s),
        0 <= p <= s.len(),
        forall|j: int| 0 <= j < p ==> str_lt(s[j], k),
        p < s.len() ==> !str_lt(s[p], k) && s[p] != k,
    ensures
        strictly_sorted(s.insert(p, k)),
{
    let t = s.insert(p, k);
    if p < s.len() {
        lemma_str_lt_total(s[p], k);
    }
    assert forall|i: int, j: int| 0 <= i < j < t.len() implies str_lt(t[i], t[j]) by {
        if i < p && j == p {
        } else if i == p && j > p {
            if j > p + 1 {
                lemma_str_lt_transitive(k, s[p], s[j - 1]);
            }
        } else if i < p && j > p {
        } else {
        }
    }
}

/// A finite set of strings (window ids on the watch list, live session names),
/// kept in increasing order.
pub struct StrSet {
    items: Vec<String>,
}

impl View for StrSet {
    type V = Set<Seq<char>>;

    closed spec fn view(&self) -> Set<Seq<char>> {
        Set::new(|k: Seq<char>| exists|i: int| 0 <= i < self.items@.len() && self.items@[i]@ == k)
    }
}

impl StrSet {
    #[verifier::type_invariant]
    closed spec fn inv(self) -> bool {
        strictly_sorted(item_views(self.items@))
    }

    pub fn new() -> (r: StrSet)
        ensures
            r@ == Set::<Seq<char>>::empty(),
    {
        let r = StrSet { items: Vec::new() };
        assert(r@ =~= Set::<Seq<char>>::empty());
        r
    }

    pub fn contains(&self, k: &str) -> (r: bool)
        ensures
            r == self@.contains(k@),
    {
        let mut i: usize = 0;
        while i < self.items.len()
            invariant
                i <= self.items@.len(),
                forall|j: int| 0 <= j < i ==> self.items@[j]@ != k@,
            decreases self.items.len() - i,
        {
            if eq_str(self.items[i].as_str(), k) {
                assert(self@.contains(k@));
                return true;
            }
            i += 1;
        }
        false
    }

    pub fn insert(&mut self, k: String)
        ensures
            final(self)@ == old(self)@.insert(k@),
    {
        proof {
            use_type_invariant(&*self);
        }
        let ghost kv = k@;
        let ghost old_views = item_views(self.items@);
        let mut p: usize = 0;
        while p < self.items.len() && str_less(self.items[p].as_str(), k.as_str())
            invariant
                p <= self.items@.len(),
                kv == k@,
                forall|j: int| 0 <= j < p ==> str_lt(self.items@[j]@, kv),
            decreases self.items.len() - p,
        {
            p += 1;
        }
        if p < self.items.len() && eq_str(self.items[p].as_str(), k.as_str()) {
            assert(self@ =~= old(self)@.insert(kv));
            return ;
        }
        proof {
            lemma_insert_sorted(old_views, p as int, kv);
        }
        let mut items: Vec<String> = Vec::new();
        std::mem::swap(&mut items, &mut self.items);
        items.insert(p, k);
        assert(item_views(items@) =~= old_views.insert(p as int, kv));
        self.items = items;
        proof {
            assert forall|x: Seq<char>| #[trigger]
                self@.contains(x) == old(self)@.insert(kv).contains(x) by {
                if old(self)@.contains(x) {
                    let j = choose|j: int|
                        0 <= j < old(self).items@.len() && old(self).items@[j]@ == x;
                    if j < p {
                        assert(self.items@[j]@ == x);
                    } else {
                        assert(self.items@[j + 1]@ == x);
                    }
                }
                if x == kv {
                    assert(self.items@[p as int]@ == x);
                }
                if self@.contains(x) && x != kv {
                    let j = choose|j: int| 0 <= j < self.items@.len() && self.items@[j]@ == x;
                    if j < p {
                        assert(old(self).items@[j]@ == x);
                    } else if j > p {
                        assert(old(self).items@[j - 1]@ == x);
                    }
                }
            }
            assert(self@ =~= old(self)@.insert(kv));
        }
    }

    /// The members in increasing order.
    pub fn members(&self) -> (r: Vec<String>)
        ensures
            strictly_sorted(item_views(r@)),
            forall|k: Seq<char>|
                self@.contains(k) <==> exists|i: int| 0 <= i < r@.len() && r@[i]@ == k,
    {
        proof {
            use_type_invariant(self);
        }
        let mut out: Vec<String> = Vec::new();
        let mut i: usize = 0;
        while i < self.items.len()
            invariant
                i <= self.items@.len(),
                out@.len() == i,
                forall|j: int| 0 <= j < i ==> out@[j]@ == self.items@[j]@,
            decreases self.items.len() - i,
        {
            out.push(copy_string(&self.items[i]));
            i += 1;
        }
        proof {
            assert(item_views(out@) =~= item_views(self.items@));
            assert forall|k: Seq<char>| self@.contains(k) implies exists|i: int|
                0 <= i < out@.len() && out@[i]@ == k by {
                let j = choose|j: int| 0 <= j < self.items@.len() && self.items@[j]@ == k;
                assert(out@[j]@ == k);
            }
        }
        out
    }
}

/// The value of the first entry named `k`.
pub closed spec fn value_of(entries: Seq<(String, bool)>, k: Seq<char>) -> bool
    decreases entries.len(),
{
    if entries.len() == 0 {
        false
    } else if entries[0].0@ == k {
        entries[0].1
    } else {
        value_of(entries.drop_first(), k)
    }
}

proof fn lemma_value_of(entries: Seq<(String, bool)>, n: int)
    requires
        strictly_sorted(keys_of(entries)),
        0 <= n < entries.len(),
    ensures
        value_of(entries, entries[n].0@) == entries[n].1,
    decreases n,
{
    if n > 0 {
        let k = entries[n].0@;
        assert(keys_of(entries)[n] == k);
        assert(keys_of(entries)[0] == entries[0].0@);
        lemma_sorted_distinct(keys_of(entries), 0, n);
        let rest = entries.drop_first();
        assert(keys_of(rest) =~= keys_of(entries).drop_first());
        assert(rest[n - 1] == entries[n]);
        lemma_value_of(rest, n - 1);
    }
}

/// Which sessions are folded open (`true`) or shut (`false`), by name; kept in
/// increasing order of name.
pub struct ExpandedState {
    entries: Vec<(String, bool)>,
}

impl View for ExpandedState {
    type V = Map<Seq<char>, bool>;

    closed spec fn view(&self) -> Map<Seq<char>, bool> {
        Map::new(
            |k: Seq<char>| exists|i: int| 0 <= i < self.entries@.len() && self.entries@[i].0@ == k,
            |k: Seq<char>| value_of(self.entries@, k),
        )
    }
}

impl ExpandedState {
    #[verifier::type_invariant]
    closed spec fn inv(self) -> bool {
        strictly_sorted(keys_of(self.entries@))
    }

    proof fn lemma_value_at(&self, i: int)
        requires
            self.inv(),
            0 <= i < self.entries@.len(),
        ensures
            self@.contains_key(self.entries@[i].0@),
            self@[self.entries@[i].0@] == self.entries@[i].1,
    {
        let k = self.entries@[i].0@;
        assert(self@.contains_key(k));
        assert(self@[k] == value_of(self.entries@, k));
        lemma_value_of(self.entries@, i);
    }

    pub fn new() -> (r: ExpandedState)
        ensures
            r@ == Map::<Seq<char>, bool>::empty(),
    {
        let r = ExpandedState { entries: Vec::new() };
        assert(r@ =~= Map::<Seq<char>, bool>::empty());
        r
    }

    fn find(&self, k: &str) -> (r: Option<usize>)
        ensures
            match r {
                Some(i) => i < self.entries@.len() && self.entries@[i as int].0@ == k@,
                None => !self@.contains_key(k@),
            },
    {
        let mut i: usize = 0;
        while i < self.entries.len()
            invariant
                i <= self.entries@.len(),
                forall|j: int| 0 <= j < i ==> self.entries@[j].0@ != k@,
            decreases self.entries.len() - i,
        {
            if eq_str(self.entries[i].0.as_str(), k) {
                return Some(i);
            }
            i += 1;
        }
        None
    }

    /// The recorded fold state of `name`, if any.
    pub fn get(&self, name: &str) -> (r: Option<bool>)
        ensures
            r == (if self@.contains_key(name@) {
                Some(self@[name@])
            } else {
                None
            }),
    {
        proof {
            use_type_invariant(self);
        }
        match self.find(name) {
            Some(i) => {
                proof {
                    self.lemma_value_at(i as int);
                }
                Some(self.entries[i].1)
            },
            None => None,
        }
    }

    /// Whether `name` is shown open: sessions are open unless recorded shut.
    pub fn is_expanded(&self, name: &str) -> (r: bool)
        ensures
            r == (if self@.contains_key(name@) {
                self@[name@]
            } else {
                true
            }),
    {
        match self.get(name) {
            Some(b) => b,
            None => true,
        }
    }

    pub fn insert(&mut self, name: String, value: bool)
        ensures
            final(self)@ == old(self)@.insert(name@, value),
    {
        proof {
            use_type_invariant(&*self);
        }
        let ghost k = name@;
        let ghost old_entries = self.entries@;
        let ghost old_keys = keys_of(old_entries);
        let mut p: usize = 0;
        while p < self.entries.len() && str_less(self.entries[p].0.as_str(), name.as_str())
            invariant
                p <= self.entries@.len(),
                k == name@,
                forall|j: int| 0 <= j < p ==> str_lt(self.entries@[j].0@, k),
            decreases self.entries.len() - p,
        {
            p += 1;
        }
        let same = p < self.entries.len() && eq_str(self.entries[p].0.as_str(), name.as_str());
        let mut entries: Vec<(String, bool)> = Vec::new();
        std::mem::swap(&mut entries, &mut self.entries);
        if same {
            entries.set(p, (name, value));
            assert(keys_of(entries@) =~= old_keys);
        } else {
            proof {
                lemma_insert_sorted(old_keys, p as int, k);
            }
            entries.insert(p, (name, value));
            assert(keys_of(entries@) =~= old_keys.insert(p as int, k));
        }
        self.entries = entries;
        proof {
            // where each old entry went
            let shift = if same {
                0int
            } else {
                1int
            };
            assert(self.entries@[p as int].0@ == k && self.entries@[p as int].1 == value);
            assert forall|x: Seq<char>| #[trigger]
                self@.contains_key(x) == old(self)@.insert(k, value).contains_key(x) by {
                if x != k && old(self)@.contains_key(x) {
                    let j = choose|j: int| 0 <= j < old_entries.len() && old_entries[j].0@ == x;
                    let nj = if j < p {
                        j
                    } else {
                        j + shift
                    };
                    assert(self.entries@[nj].0@ == x);
                }
                if x != k && self@.contains_key(x) {
                    let j = choose|j: int|
                        0 <= j < self.entries@.len() && self.entries@[j].0@ == x;
                    if j < p {
                        assert(old_entries[j].0@ == x);
                    } else if j > p {
                        assert(old_entries[j - shift].0@ == x);
                    }
                }
            }
            assert forall|x: Seq<char>| #[trigger]
                self@.contains_key(x) implies self@[x] == old(self)@.insert(k, value)[x] by {
                let j = choose|j: int| 0 <= j < self.entries@.len() && self.entries@[j].0@ == x;
                self.lemma_value_at(j);
                if x != k {
                    if j < p {
                        old(self).lemma_value_at(j);
                    } else {
                        old(self).lemma_value_at(j - shift);
                    }
                } else {
                    self.lemma_value_at(p as int);
                }
            }
            assert(self@ =~= old(self)@.insert(k, value));
        }
    }

    /// The recorded entries in increasing order of name.
    pub fn entries(&self) -> (r: Vec<(String, bool)>)
        ensures
            strictly_sorted(keys_of(r@)),
            forall|i: int|
                0 <= i < r@.len() ==> self@.contains_key(#[trigger] r@[i].0@) && self@[r@[i].0@]
                    == r@[i].1,
            forall|k: Seq<char>|
                self@.contains_key(k) ==> exists|i: int| 0 <= i < r@.len() && r@[i].0@ == k,
    {
        proof {
            use_type_invariant(self);
        }
        let mut out: Vec<(String, bool)> = Vec::new();
        let mut i: usize = 0;
        while i < self.entries.len()
            invariant
                i <= self.entries@.len(),
                out@.len() == i,
                forall|j: int|
                    0 <= j < i ==> out@[j].0@ == self.entries@[j].0@ && out@[j].1
                        == self.entries@[j].1,
            decreases self.entries.len() - i,
        {
            out.push((copy_string(&self.entries[i].0), self.entries[i].1));
            i += 1;
        }
        proof {
            assert(keys_of(out@) =~= keys_of(self.entries@));
            assert forall|j: int| 0 <= j < out@.len() implies self@.contains_key(
                #[trigger] out@[j].0@,
            ) && self@[out@[j].0@] == out@[j].1 by {
                self.lemma_value_at(j);
            }
            assert forall|k: Seq<char>| self@.contains_key(k) implies exists|j: int|
                0 <= j < out@.len() && out@[j].0@ == k by {
                let j = choose|j: int| 0 <= j < self.entries@.len() && self.entries@[j].0@ == k;
                assert(out@[j].0@ == k);
            }
        }
        out
    }
}


/// Pane labels by window id.
pub struct LabelMap {
    entries: Vec<(String, Vec<String>)>,
}

/// The labels of the first entry for `k`, if any.
pub open spec fn labels_lookup(entries: Seq<(Seq<char>, Seq<Seq<char>>)>, k: Seq<char>) -> Option<
    Seq<Seq<char>>,
>
    decreases entries.len(),
{
    if entries.len() == 0 {
        None
    } else if entries[0].0 == k {
        Some(entries[0].1)
    } else {
        labels_lookup(entries.drop_first(), k)
    }
}

pub open spec fn label_entry_views(s: Seq<(String, Vec<String>)>) -> Seq<(Seq<char>, Seq<Seq<char>>)> {
    s.map_values(|e: (String, Vec<String>)| (e.0@, crate::strs::views(e.1@)))
}

impl View for LabelMap {
    type V = Map<Seq<char>, Seq<Seq<char>>>;

    closed spec fn view(&self) -> Map<Seq<char>, Seq<Seq<char>>> {
        Map::new(
            |k: Seq<char>| labels_lookup(label_entry_views(self.entries@), k) is Some,
            |k: Seq<char>| labels_lookup(label_entry_views(self.entries@), k).unwrap(),
        )
    }
}

proof fn lemma_labels_lookup_push(
    es: Seq<(Seq<char>, Seq<Seq<char>>)>,
    e: (Seq<char>, Seq<Seq<char>>),
    k: Seq<char>,
)
    ensures
        labels_lookup(es.push(e), k) == (match labels_lookup(es, k) {
            Some(v) => Some(v),
            None => if e.0 == k {
                Some(e.1)
            } else {
                None
            },
        }),
    decreases es.len(),
{
    if es.len() == 0 {
        assert(es.push(e).drop_first() =~= Seq::<(Seq<char>, Seq<Seq<char>>)>::empty());
    } else {
        assert(es.push(e)[0] == es[0]);
        assert(es.push(e).drop_first() =~= es.drop_first().push(e));
        lemma_labels_lookup_push(es.drop_first(), e, k);
    }
}

impl LabelMap {
    pub fn new() -> (r: LabelMap)
        ensures
            r@ == Map::<Seq<char>, Seq<Seq<char>>>::empty(),
    {
        let r = LabelMap { entries: Vec::new() };
        assert(r@ =~= Map::<Seq<char>, Seq<Seq<char>>>::empty());
        r
    }

    /// Adds labels for a window that has none yet.
    pub fn add(&mut self, id: String, labels: Vec<String>)
        requires
            !old(self)@.contains_key(id@),
        ensures
            final(self)@ == old(self)@.insert(id@, crate::strs::views(labels@)),
    {
        let ghost old_v = label_entry_views(self.entries@);
        let ghost e = (id@, crate::strs::views(labels@));
        self.entries.push((id, labels));
        assert(label_entry_views(self.entries@) =~= old_v.push(e));
        assert forall|k: Seq<char>| #[trigger] labels_lookup(label_entry_views(self.entries@), k)
            == labels_lookup(old_v.push(e), k) by {}
        assert forall|k: Seq<char>| true implies labels_lookup(old_v.push(e), k) == (match labels_lookup(old_v, k) {
            Some(v) => Some(v),
            None => if e.0 == k {
                Some(e.1)
            } else {
                None
            },
        }) by {
            lemma_labels_lookup_push(old_v, e, k);
        }
        assert(self@ =~= old(self)@.insert(id@, crate::strs::views(labels@)));
    }

    /// The labels of window `id`; none when it has no entry.
    pub fn labels_for(&self, id: &str) -> (r: Vec<String>)
        ensures
            crate::strs::views(r@) == (if self@.contains_key(id@) {
                self@[id@]
            } else {
                Seq::empty()
            }),
    {
        let ghost ev = label_entry_views(self.entries@);
        assert(ev.skip(0) =~= ev);
        let mut i: usize = 0;
        while i < self.entries.len()
            invariant
                i <= self.entries@.len(),
                ev == label_entry_views(self.entries@),
                labels_lookup(ev, id@) == labels_lookup(ev.skip(i as int), id@),
            decreases self.entries.len() - i,
        {
            assert(ev.skip(i as int).drop_first() =~= ev.skip(i + 1));
            if eq_str(self.entries[i].0.as_str(), id) {
                return crate::strs::copy_strings(&self.entries[i].1);
            }
            i += 1;
        }
        proof {
            assert(ev.skip(i as int).len() == 0);
        }
        Vec::new()
    }
}

} // verus!
