//! Ordered sets of names and ordered name-to-value maps, kept in increasing
//! character order without duplicates (the order in which std's
//! `BTreeSet<String>` and `BTreeMap<String, String>` enumerate).
use vstd::prelude::*;

use crate::text::chars_of;

verus! {

/// Lexicographic order on character sequences, comparing code points.
pub open spec fn seq_lt(a: Seq<char>, b: Seq<char>) -> bool
    decreases a.len(),
{
    if a.len() == 0 {
        b.len() > 0
    } else if b.len() == 0 {
        false
    } else if (a[0] as u32) < (b[0] as u32) {
        true
    } else if (a[0] as u32) > (b[0] as u32) {
        false
    } else {
        seq_lt(a.skip(1), b.skip(1))
    }
}

/// Two distinct sequences are ordered one way or the other.
pub proof fn lemma_seq_lt_total(a: Seq<char>, b: Seq<char>)
    requires
        a != b,
    ensures
        seq_lt(a, b) || seq_lt(b, a),
    decreases a.len(),
{
    if a.len() == 0 {
        if b.len() == 0 {
            assert(a =~= b);
        }
    } else if b.len() == 0 {
    } else if a[0] == b[0] {
        if a.skip(1) == b.skip(1) {
            assert(a =~= seq![a[0]] + a.skip(1));
            assert(b =~= seq![b[0]] + b.skip(1));
        }
        lemma_seq_lt_total(a.skip(1), b.skip(1));
    } else {
        lemma_char_code_injective(a[0], b[0]);
    }
}

/// Distinct characters have distinct codes.
proof fn lemma_char_code_injective(x: char, y: char)
    requires
        x != y,
    ensures
        (x as u32) != (y as u32),
{
}

/// Whether `a` sorts before `b`.
pub fn str_lt(a: &str, b: &str) -> (r: bool)
    ensures
        r == seq_lt(a@, b@),
{
    let va = chars_of(a);
    let vb = chars_of(b);
    let mut i: usize = 0;
    assert(va@.skip(0) =~= va@);
    assert(vb@.skip(0) =~= vb@);
    while i < va.len() && i < vb.len()
        invariant
            i <= va@.len(),
            i <= vb@.len(),
            va@ == a@,
            vb@ == b@,
            seq_lt(a@, b@) == seq_lt(va@.skip(i as int), vb@.skip(i as int)),
        decreases va.len() - i,
    {
        let ca = va[i] as u32;
        let cb = vb[i] as u32;
        assert(va@.skip(i as int)[0] == va@[i as int]);
        assert(vb@.skip(i as int)[0] == vb@[i as int]);
        if ca < cb {
            return true;
        }
        if ca > cb {
            return false;
        }
        assert(va@.skip(i as int).skip(1) =~= va@.skip(i + 1));
        assert(vb@.skip(i as int).skip(1) =~= vb@.skip(i + 1));
        i = i + 1;
    }
    i == va.len() && i < vb.len()
}

/// Whether a list of names is strictly increasing, item by item.
pub open spec fn increasing(s: Seq<Seq<char>>) -> bool {
    forall|i: int| 0 <= i < s.len() - 1 ==> #[trigger] seq_lt(s[i], s[i + 1])
}

/// Whether no name occurs twice in a list.
pub open spec fn no_duplicates(s: Seq<Seq<char>>) -> bool {
    forall|i: int, j: int| 0 <= i < s.len() && 0 <= j < s.len() && i != j ==> s[i] != s[j]
}

/// A set of names, enumerated in increasing order.
#[derive(Debug)]
pub struct StrSet {
    items: Vec<String>,
}

/// The views of a list of strings.
pub open spec fn views_of(v: Seq<String>) -> Seq<Seq<char>> {
    v.map_values(|s: String| s@)
}

impl View for StrSet {
    type V = Seq<Seq<char>>;

    closed spec fn view(&self) -> Seq<Seq<char>> {
        views_of(self.items@)
    }
}

impl StrSet {
    /// The names are in increasing order, each once.
    #[verifier::type_invariant]
    spec fn well_formed(self) -> bool {
        &&& increasing(views_of(self.items@))
        &&& no_duplicates(views_of(self.items@))
    }

    /// The empty set.
    pub fn new() -> (r: StrSet)
        ensures
            r@ == Seq::<Seq<char>>::empty(),
    {
        let r = StrSet { items: Vec::new() };
        assert(views_of(r.items@) =~= Seq::<Seq<char>>::empty());
        r
    }

    /// The number of names.
    pub fn len(&self) -> (r: usize)
        ensures
            r == self@.len(),
    {
        self.items.len()
    }

    /// A copy of this set.
    pub fn duplicate(&self) -> (r: StrSet)
        ensures
            r@ == self@,
    {
        proof {
            use_type_invariant(self);
        }
        let mut items: Vec<String> = Vec::new();
        let mut i: usize = 0;
        while i < self.items.len()
            invariant
                i <= self.items@.len(),
                items@ == self.items@.take(i as int),
            decreases self.items.len() - i,
        {
            items.push(self.items[i].clone());
            assert(items@ =~= self.items@.take(i + 1));
            i = i + 1;
        }
        assert(self.items@.take(self.items@.len() as int) =~= self.items@);
        StrSet { items }
    }

    /// Whether the set holds no name.
    pub fn is_empty(&self) -> (r: bool)
        ensures
            r == (self@.len() == 0),
    {
        self.items.len() == 0
    }

    /// The `i`-th name in increasing order.
    pub fn get(&self, i: usize) -> (r: &String)
        requires
            i < self@.len(),
        ensures
            r@ == self@[i as int],
    {
        &self.items[i]
    }

    /// The position of `name`, if it is in the set.
    fn position(&self, name: &str) -> (r: Option<usize>)
        ensures
            match r {
                Some(i) => i < self@.len() && self@[i as int] == name@,
                None => !self@.contains(name@),
            },
    {
        let mut i: usize = 0;
        while i < self.items.len()
            invariant
                i <= self.items@.len(),
                forall|j: int| 0 <= j < i ==> self.items@[j]@ != name@,
            decreases self.items.len() - i,
        {
            if crate::text::str_eq(self.items[i].as_str(), name) {
                return Some(i);
            }
            i = i + 1;
        }
        proof {
            if self@.contains(name@) {
                let j = choose|j: int| 0 <= j < self@.len() && self@[j] == name@;
                assert(self.items@[j]@ == name@);
            }
        }
        None
    }

    /// Whether `name` is in the set.
    pub fn contains(&self, name: &str) -> (r: bool)
        ensures
            r == self@.contains(name@),
    {
        self.position(name).is_some()
    }

    /// Adds `name`; returns whether it was new.
    pub fn insert(&mut self, name: String) -> (r: bool)
        ensures
            r == !old(self)@.contains(name@),
            forall|x: Seq<char>| #[trigger] final(self)@.contains(x) == (old(self)@.contains(x) || x == name@),
            increasing(final(self)@),
            no_duplicates(final(self)@),
    {
        proof {
            use_type_invariant(&*self);
        }
        if self.position(name.as_str()).is_some() {
            return false;
        }
        let mut p: usize = 0;
        while p < self.items.len() && str_lt(self.items[p].as_str(), name.as_str())
            invariant
                p <= self.items@.len(),
                forall|j: int| 0 <= j < p ==> seq_lt(#[trigger] self.items@[j]@, name@),
            decreases self.items.len() - p,
        {
            p = p + 1;
        }
        let ghost old_views = views_of(self.items@);
        proof {
            assert(forall|j: int| 0 <= j < p ==> seq_lt(#[trigger] old_views[j], name@));
            if p < self.items@.len() {
                assert(old_views[p as int] != name@);
                lemma_seq_lt_total(old_views[p as int], name@);
            }
        }
        let mut items = Vec::new();
        std::mem::swap(&mut items, &mut self.items);
        items.insert(p, name);
        let ghost new_views = views_of(items@);
        proof {
            assert(new_views =~= old_views.insert(p as int, name@));
            assert forall|i: int| 0 <= i < new_views.len() - 1 implies #[trigger] seq_lt(
                new_views[i],
                new_views[i + 1],
            ) by {
                if i + 1 < p {
                    assert(seq_lt(old_views[i], old_views[i + 1]));
                } else if i + 1 == p {
                    assert(seq_lt(old_views[i], name@));
                } else if i == p {
                } else {
                    let j = i - 1;
                    assert(seq_lt(old_views[j], old_views[j + 1]));
                }
            }
            assert forall|a: int, b: int| 0 <= a < new_views.len() && 0 <= b < new_views.len() && a != b implies new_views[a] != new_views[b] by {
                if a == p {
                    if b < p {
                        assert(old_views.contains(old_views[b]));
                    } else {
                        assert(old_views.contains(old_views[b - 1]));
                    }
                } else if b == p {
                    if a < p {
                        assert(old_views.contains(old_views[a]));
                    } else {
                        assert(old_views.contains(old_views[a - 1]));
                    }
                } else {
                    let a2 = if a < p { a } else { a - 1 };
                    let b2 = if b < p { b } else { b - 1 };
                    assert(old_views[a2] != old_views[b2]);
                }
            }
            assert forall|x: Seq<char>| #[trigger] new_views.contains(x) == (old_views.contains(x) || x == name@) by {
                if old_views.contains(x) {
                    let j = choose|j: int| 0 <= j < old_views.len() && old_views[j] == x;
                    if j < p {
                        assert(new_views[j] == x);
                    } else {
                        assert(new_views[j + 1] == x);
                    }
                }
                if x == name@ {
                    assert(new_views[p as int] == x);
                }
                if new_views.contains(x) {
                    let j = choose|j: int| 0 <= j < new_views.len() && new_views[j] == x;
                    if j < p {
                        assert(old_views[j] == x);
                    } else if j > p {
                        assert(old_views[j - 1] == x);
                    }
                }
            }
        }
        self.items = items;
        proof {
            use_type_invariant(&*self);
        }
        true
    }
}

/// A map from names to values, enumerated in increasing name order.
#[derive(Debug)]
pub struct StrMap {
    entries: Vec<(String, String)>,
}

/// The names of a list of entries.
pub open spec fn keys_of(v: Seq<(String, String)>) -> Seq<Seq<char>> {
    v.map_values(|e: (String, String)| e.0@)
}

/// The entries of a list, as pairs of character sequences.
pub open spec fn entries_of(v: Seq<(String, String)>) -> Seq<(Seq<char>, Seq<char>)> {
    v.map_values(|e: (String, String)| (e.0@, e.1@))
}

/// Whether some entry has name `k`.
pub open spec fn has_key(e: Seq<(Seq<char>, Seq<char>)>, k: Seq<char>) -> bool {
    exists|i: int| 0 <= i < e.len() && #[trigger] e[i].0 == k
}

/// The value of the first entry named `k`, or nothing when there is none.
pub open spec fn value_for(e: Seq<(Seq<char>, Seq<char>)>, k: Seq<char>) -> Seq<char>
    decreases e.len(),
{
    if e.len() == 0 {
        Seq::empty()
    } else if e[0].0 == k {
        e[0].1
    } else {
        value_for(e.skip(1), k)
    }
}

/// The value for a name held by exactly one entry is that entry's value.
pub proof fn lemma_value_at(e: Seq<(Seq<char>, Seq<char>)>, i: int, k: Seq<char>)
    requires
        0 <= i < e.len(),
        e[i].0 == k,
        forall|j: int| 0 <= j < e.len() && j != i ==> #[trigger] e[j].0 != k,
    ensures
        value_for(e, k) == e[i].1,
    decreases i,
{
    if i > 0 {
        assert(e[0].0 != k);
        assert forall|j: int| 0 <= j < e.skip(1).len() && j != i - 1 implies #[trigger] e.skip(1)[j].0 != k by {
            assert(e.skip(1)[j] == e[j + 1]);
        }
        lemma_value_at(e.skip(1), i - 1, k);
    }
}

/// A name held by no entry has no value.
pub proof fn lemma_value_absent(e: Seq<(Seq<char>, Seq<char>)>, k: Seq<char>)
    requires
        !has_key(e, k),
    ensures
        value_for(e, k) == Seq::<char>::empty(),
    decreases e.len(),
{
    if e.len() > 0 {
        assert(e[0].0 != k);
        if has_key(e.skip(1), k) {
            let j = choose|j: int| 0 <= j < e.skip(1).len() && #[trigger] e.skip(1)[j].0 == k;
            assert(e[j + 1].0 == k);
        }
        lemma_value_absent(e.skip(1), k);
    }
}

impl View for StrMap {
    type V = Seq<(Seq<char>, Seq<char>)>;

    closed spec fn view(&self) -> Seq<(Seq<char>, Seq<char>)> {
        entries_of(self.entries@)
    }
}

impl StrMap {
    /// The names are in increasing order, each once.
    #[verifier::type_invariant]
    spec fn well_formed(self) -> bool {
        &&& increasing(keys_of(self.entries@))
        &&& no_duplicates(keys_of(self.entries@))
    }

    /// The names of the entries, in order.
    pub open spec fn keys(&self) -> Seq<Seq<char>> {
        self@.map_values(|e: (Seq<char>, Seq<char>)| e.0)
    }

    /// Whether some entry is named `k`.
    pub open spec fn has(&self, k: Seq<char>) -> bool {
        has_key(self@, k)
    }

    /// The value stored for `k`, or nothing.
    pub open spec fn value(&self, k: Seq<char>) -> Seq<char> {
        value_for(self@, k)
    }

    /// Where a name occurs, the map gives the value stored beside it.
    proof fn lemma_entry(&self, i: int)
        requires
            self.well_formed(),
            0 <= i < self@.len(),
        ensures
            self.has(self@[i].0),
            self.value(self@[i].0) == self@[i].1,
    {
        assert(self.keys() =~= keys_of(self.entries@));
        let k = self@[i].0;
        assert(self.keys()[i] == k);
        let e = self@;
        assert(e[i].0 == k);
        assert(has_key(e, k));
        assert forall|j: int| 0 <= j < e.len() && j != i implies #[trigger] e[j].0 != k by {
            assert(keys_of(self.entries@)[i] == k);
            assert(keys_of(self.entries@)[j] == e[j].0);
        }
        lemma_value_at(e, i, k);
    }

    /// The empty map.
    pub fn new() -> (r: StrMap)
        ensures
            r@ == Seq::<(Seq<char>, Seq<char>)>::empty(),
    {
        let r = StrMap { entries: Vec::new() };
        assert(entries_of(r.entries@) =~= Seq::<(Seq<char>, Seq<char>)>::empty());
        assert(keys_of(r.entries@) =~= Seq::<Seq<char>>::empty());
        r
    }

    /// The number of entries.
    pub fn len(&self) -> (r: usize)
        ensures
            r == self@.len(),
    {
        self.entries.len()
    }

    /// A copy of this map.
    pub fn duplicate(&self) -> (r: StrMap)
        ensures
            r@ == self@,
    {
        proof {
            use_type_invariant(self);
        }
        let mut entries: Vec<(String, String)> = Vec::new();
        let mut i: usize = 0;
        while i < self.entries.len()
            invariant
                i <= self.entries@.len(),
                entries@ == self.entries@.take(i as int),
            decreases self.entries.len() - i,
        {
            let e = (self.entries[i].0.clone(), self.entries[i].1.clone());
            entries.push(e);
            assert(entries@ =~= self.entries@.take(i + 1));
            i = i + 1;
        }
        assert(self.entries@.take(self.entries@.len() as int) =~= self.entries@);
        StrMap { entries }
    }

    /// Whether the map holds no entry.
    pub fn is_empty(&self) -> (r: bool)
        ensures
            r == (self@.len() == 0),
    {
        self.entries.len() == 0
    }

    /// The name of the `i`-th entry.
    pub fn key_at(&self, i: usize) -> (r: &String)
        requires
            i < self@.len(),
        ensures
            r@ == self@[i as int].0,
    {
        &self.entries[i].0
    }

    /// The value of the `i`-th entry.
    pub fn value_at(&self, i: usize) -> (r: &String)
        requires
            i < self@.len(),
        ensures
            r@ == self@[i as int].1,
    {
        &self.entries[i].1
    }

    /// The position of `name`, if it has an entry.
    fn position(&self, name: &str) -> (r: Option<usize>)
        ensures
            match r {
                Some(i) => i < self@.len() && self@[i as int].0 == name@,
                None => !self.has(name@),
            },
    {
        let mut i: usize = 0;
        while i < self.entries.len()
            invariant
                i <= self.entries@.len(),
                forall|j: int| 0 <= j < i ==> self.entries@[j].0@ != name@,
            decreases self.entries.len() - i,
        {
            if crate::text::str_eq(self.entries[i].0.as_str(), name) {
                return Some(i);
            }
            i = i + 1;
        }
        proof {
            if self.has(name@) {
                let j = choose|j: int| 0 <= j < self@.len() && #[trigger] self@[j].0 == name@;
                assert(self.entries@[j].0@ == name@);
            }
        }
        None
    }

    /// Whether `name` has an entry.
    pub fn contains_key(&self, name: &str) -> (r: bool)
        ensures
            r == self.has(name@),
    {
        let p = self.position(name);
        proof {
            use_type_invariant(self);
            if let Some(i) = p {
                self.lemma_entry(i as int);
            }
        }
        p.is_some()
    }

    /// The value stored for `name`.
    pub fn get(&self, name: &str) -> (r: Option<&String>)
        ensures
            match r {
                Some(v) => self.has(name@) && self.value(name@) == v@,
                None => !self.has(name@),
            },
    {
        match self.position(name) {
            Some(i) => {
                proof {
                    use_type_invariant(self);
                    self.lemma_entry(i as int);
                }
                Some(&self.entries[i].1)
            },
            None => None,
        }
    }

    /// Sets the value of `name`, returning the value it replaced.
    pub fn insert(&mut self, name: String, value: String) -> (r: Option<String>)
        ensures
            forall|k: Seq<char>| #[trigger] final(self).has(k) == (old(self).has(k) || k == name@),
            forall|k: Seq<char>| #[trigger] final(self).value(k) == (if k == name@ {
                value@
            } else {
                old(self).value(k)
            }),
            match r {
                Some(v) => old(self).has(name@) && old(self).value(name@) == v@,
                None => !old(self).has(name@),
            },
            increasing(final(self).keys()),
            no_duplicates(final(self).keys()),
    {
        proof {
            use_type_invariant(&*self);
        }
        let ghost old_entries = entries_of(self.entries@);
        let ghost old_keys = keys_of(self.entries@);
        match self.position(name.as_str()) {
            Some(i) => {
                proof {
                    self.lemma_entry(i as int);
                }
                let mut entries = Vec::new();
                std::mem::swap(&mut entries, &mut self.entries);
                let (_, prev) = entries.remove(i);
                entries.insert(i, (name, value));
                proof {
                    let ne = entries_of(entries@);
                    let nk = keys_of(entries@);
                    assert(nk =~= old_keys);
                    assert(ne =~= old_entries.update(i as int, (name@, value@)));
                    lemma_same_keys(old_entries, ne, old_keys, i as int, name@, value@);
                }
                self.entries = entries;
                proof {
                    use_type_invariant(&*self);
                    assert(self.keys() =~= keys_of(self.entries@));
                }
                Some(prev)
            },
            None => {
                let mut p: usize = 0;
                while p < self.entries.len() && str_lt(self.entries[p].0.as_str(), name.as_str())
                    invariant
                        p <= self.entries@.len(),
                        forall|j: int| 0 <= j < p ==> seq_lt(#[trigger] self.entries@[j].0@, name@),
                    decreases self.entries.len() - p,
                {
                    p = p + 1;
                }
                proof {
                    assert(forall|j: int| 0 <= j < p ==> seq_lt(#[trigger] old_keys[j], name@));
                    if p < self.entries@.len() {
                        assert(old_keys[p as int] == old_entries[p as int].0);
                        if old_keys[p as int] == name@ {
                            assert(has_key(old_entries, name@));
                        }
                        lemma_seq_lt_total(old_keys[p as int], name@);
                    }
                }
                let mut entries = Vec::new();
                std::mem::swap(&mut entries, &mut self.entries);
                entries.insert(p, (name, value));
                proof {
                    let ne = entries_of(entries@);
                    let nk = keys_of(entries@);
                    assert(nk =~= old_keys.insert(p as int, name@));
                    assert(ne =~= old_entries.insert(p as int, (name@, value@)));
                    assert forall|i: int| 0 <= i < nk.len() - 1 implies #[trigger] seq_lt(nk[i], nk[i + 1]) by {
                        if i + 1 < p {
                            assert(seq_lt(old_keys[i], old_keys[i + 1]));
                        } else if i + 1 == p {
                            assert(seq_lt(old_keys[i], name@));
                        } else if i == p {
                        } else {
                            let j = i - 1;
                            assert(seq_lt(old_keys[j], old_keys[j + 1]));
                        }
                    }
                    assert forall|a: int, b: int| 0 <= a < nk.len() && 0 <= b < nk.len() && a != b implies nk[a] != nk[b] by {
                        if a == p {
                            if b < p {
                                assert(old_entries[b].0 == old_keys[b]);
                            } else {
                                assert(old_entries[b - 1].0 == old_keys[b - 1]);
                            }
                        } else if b == p {
                            if a < p {
                                assert(old_entries[a].0 == old_keys[a]);
                            } else {
                                assert(old_entries[a - 1].0 == old_keys[a - 1]);
                            }
                        } else {
                            let a2 = if a < p { a } else { a - 1 };
                            let b2 = if b < p { b } else { b - 1 };
                            assert(old_keys[a2] != old_keys[b2]);
                        }
                    }
                    lemma_inserted_keys(old_entries, ne, old_keys, nk, p as int, name@, value@);
                }
                self.entries = entries;
                proof {
                    use_type_invariant(&*self);
                    assert(self.keys() =~= keys_of(self.entries@));
                }
                None
            },
        }
    }
}

/// Replacing the value at position `i` changes only the value for that name.
proof fn lemma_same_keys(
    old_entries: Seq<(Seq<char>, Seq<char>)>,
    ne: Seq<(Seq<char>, Seq<char>)>,
    keys: Seq<Seq<char>>,
    i: int,
    name: Seq<char>,
    value: Seq<char>,
)
    requires
        0 <= i < old_entries.len(),
        old_entries[i].0 == name,
        ne == old_entries.update(i, (name, value)),
        keys.len() == old_entries.len(),
        forall|j: int| 0 <= j < keys.len() ==> keys[j] == #[trigger] old_entries[j].0,
        no_duplicates(keys),
    ensures
        forall|k: Seq<char>| #[trigger] has_key(ne, k) == (has_key(old_entries, k) || k == name),
        forall|k: Seq<char>| #[trigger] value_for(ne, k) == (if k == name {
            value
        } else {
            value_for(old_entries, k)
        }),
{
    assert forall|k: Seq<char>| #[trigger] has_key(ne, k) == (has_key(old_entries, k) || k == name) by {
        if k == name {
            assert(ne[i].0 == k);
        }
        if has_key(old_entries, k) {
            let j = choose|j: int| 0 <= j < old_entries.len() && #[trigger] old_entries[j].0 == k;
            assert(ne[j].0 == k);
        }
        if has_key(ne, k) {
            let j = choose|j: int| 0 <= j < ne.len() && #[trigger] ne[j].0 == k;
            if j != i {
                assert(old_entries[j].0 == k);
            }
        }
    }
    assert forall|k: Seq<char>| #[trigger] value_for(ne, k) == (if k == name {
        value
    } else {
        value_for(old_entries, k)
    }) by {
        if has_key(old_entries, k) {
            let j = choose|j: int| 0 <= j < old_entries.len() && #[trigger] old_entries[j].0 == k;
            assert forall|m: int| 0 <= m < old_entries.len() && m != j implies #[trigger] old_entries[m].0 != k by {
                assert(keys[m] != keys[j]);
            }
            assert forall|m: int| 0 <= m < ne.len() && m != j implies #[trigger] ne[m].0 != k by {
                assert(keys[m] != keys[j]);
            }
            lemma_value_at(old_entries, j, k);
            lemma_value_at(ne, j, k);
        } else {
            assert(k != name);
            lemma_value_absent(old_entries, k);
            lemma_value_absent(ne, k);
        }
    }
}

/// Inserting a new name at position `p` adds exactly that name and value.
proof fn lemma_inserted_keys(
    old_entries: Seq<(Seq<char>, Seq<char>)>,
    ne: Seq<(Seq<char>, Seq<char>)>,
    old_keys: Seq<Seq<char>>,
    nk: Seq<Seq<char>>,
    p: int,
    name: Seq<char>,
    value: Seq<char>,
)
    requires
        0 <= p <= old_entries.len(),
        !has_key(old_entries, name),
        ne == old_entries.insert(p, (name, value)),
        old_keys.len() == old_entries.len(),
        forall|j: int| 0 <= j < old_keys.len() ==> old_keys[j] == #[trigger] old_entries[j].0,
        nk.len() == ne.len(),
        forall|j: int| 0 <= j < nk.len() ==> nk[j] == #[trigger] ne[j].0,
        no_duplicates(old_keys),
        no_duplicates(nk),
    ensures
        forall|k: Seq<char>| #[trigger] has_key(ne, k) == (has_key(old_entries, k) || k == name),
        forall|k: Seq<char>| #[trigger] value_for(ne, k) == (if k == name {
            value
        } else {
            value_for(old_entries, k)
        }),
{
    assert forall|k: Seq<char>| #[trigger] has_key(ne, k) == (has_key(old_entries, k) || k == name) by {
        if has_key(old_entries, k) {
            let j = choose|j: int| 0 <= j < old_entries.len() && #[trigger] old_entries[j].0 == k;
            if j < p {
                assert(ne[j].0 == k);
            } else {
                assert(ne[j + 1].0 == k);
            }
        }
        if k == name {
            assert(ne[p].0 == k);
        }
        if has_key(ne, k) {
            let j = choose|j: int| 0 <= j < ne.len() && #[trigger] ne[j].0 == k;
            if j < p {
                assert(old_entries[j].0 == k);
            } else if j > p {
                assert(old_entries[j - 1].0 == k);
            }
        }
    }
    assert forall|k: Seq<char>| #[trigger] value_for(ne, k) == (if k == name {
        value
    } else {
        value_for(old_entries, k)
    }) by {
        if k == name {
            assert(ne[p].0 == k);
            assert forall|m: int| 0 <= m < ne.len() && m != p implies #[trigger] ne[m].0 != k by {
                assert(nk[m] != nk[p]);
            }
            lemma_value_at(ne, p, k);
        } else if has_key(old_entries, k) {
            let j = choose|j: int| 0 <= j < old_entries.len() && #[trigger] old_entries[j].0 == k;
            let j2 = if j < p { j } else { j + 1 };
            assert(ne[j2] == old_entries[j]);
            assert forall|m: int| 0 <= m < old_entries.len() && m != j implies #[trigger] old_entries[m].0 != k by {
                assert(old_keys[m] != old_keys[j]);
            }
            assert forall|m: int| 0 <= m < ne.len() && m != j2 implies #[trigger] ne[m].0 != k by {
                assert(nk[m] != nk[j2]);
            }
            lemma_value_at(old_entries, j, k);
            lemma_value_at(ne, j2, k);
        } else {
            lemma_value_absent(old_entries, k);
            assert(!has_key(ne, k));
            lemma_value_absent(ne, k);
        }
    }
}

} // verus!
