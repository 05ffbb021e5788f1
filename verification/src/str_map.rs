//! `StrMap<V>`: a map from strings to values that keeps its keys unique and
//! in ascending code-point order, as a `BTreeMap<String, V>` iterates them.
use crate::text::chars_of;
use vstd::prelude::*;

verus! {

/// Strict lexicographic order on character sequences, by code point (the
/// order of `str`'s `Ord`).
pub open spec fn lex_lt(a: Seq<char>, b: Seq<char>) -> bool
    decreases a.len(),
{
    if a.len() == 0 {
        b.len() > 0
    } else if b.len() == 0 {
        false
    } else if a[0] < b[0] {
        true
    } else if a[0] > b[0] {
        false
    } else {
        lex_lt(a.drop_first(), b.drop_first())
    }
}

/// `lex_lt` is irreflexive.
pub proof fn lemma_lex_irreflexive(a: Seq<char>)
    ensures
        !lex_lt(a, a),
    decreases a.len(),
{
    if a.len() > 0 {
        lemma_lex_irreflexive(a.drop_first());
    }
}

/// `lex_lt` is total on distinct sequences.
pub proof fn lemma_lex_total(a: Seq<char>, b: Seq<char>)
    ensures
        a != b ==> lex_lt(a, b) || lex_lt(b, a),
        !(lex_lt(a, b) && lex_lt(b, a)),
    decreases a.len(),
{
    if a.len() > 0 && b.len() > 0 {
        lemma_lex_total(a.drop_first(), b.drop_first());
        if a[0] == b[0] && a.drop_first() == b.drop_first() {
            assert(a =~= seq![a[0]] + a.drop_first());
            assert(b =~= seq![b[0]] + b.drop_first());
        }
    } else if a.len() == 0 && b.len() == 0 {
        assert(a =~= b);
    }
}

/// `lex_lt` is transitive.
pub proof fn lemma_lex_transitive(a: Seq<char>, b: Seq<char>, c: Seq<char>)
    requires
        lex_lt(a, b),
        lex_lt(b, c),
    ensures
        lex_lt(a, c),
    decreases a.len(),
{
    if a.len() > 0 && b.len() > 0 && c.len() > 0 {
        if a[0] == b[0] && b[0] == c[0] {
            lemma_lex_transitive(a.drop_first(), b.drop_first(), c.drop_first());
        }
    }
}

/// Compares two strings: `-1`, `0` or `1` as `a` is below, equal to or above `b`.
pub fn compare_strs(a: &str, b: &str) -> (r: i8)
    ensures
        r == 0 <==> a@ == b@,
        r < 0 <==> lex_lt(a@, b@),
        r > 0 <==> lex_lt(b@, a@),
{
    let va = chars_of(a);
    let vb = chars_of(b);
    let mut i: usize = 0;
    proof {
        lemma_lex_total(a@, b@);
        lemma_lex_irreflexive(a@);
        assert(va@.skip(0) =~= va@);
        assert(vb@.skip(0) =~= vb@);
    }
    while i < va.len() && i < vb.len()
        invariant
            0 <= i <= va@.len(),
            i <= vb@.len(),
            va@ == a@,
            vb@ == b@,
            va@.take(i as int) == vb@.take(i as int),
            lex_lt(a@, b@) == lex_lt(va@.skip(i as int), vb@.skip(i as int)),
            lex_lt(b@, a@) == lex_lt(vb@.skip(i as int), va@.skip(i as int)),
        decreases va@.len() - i,
    {
        let x = va[i];
        let y = vb[i];
        assert(va@.skip(i as int)[0] == x && vb@.skip(i as int)[0] == y);
        if x < y {
            return -1;
        }
        if x > y {
            return 1;
        }
        assert(x == y);
        assert(va@.skip(i as int).drop_first() =~= va@.skip(i + 1));
        assert(vb@.skip(i as int).drop_first() =~= vb@.skip(i + 1));
        assert(va@.take(i + 1) =~= va@.take(i as int).push(x));
        assert(vb@.take(i + 1) =~= vb@.take(i as int).push(y));
        i += 1;
    }
    if va.len() == vb.len() {
        assert(va@ =~= va@.take(i as int));
        assert(vb@ =~= vb@.take(i as int));
        0
    } else if va.len() < vb.len() {
        assert(va@ =~= va@.take(i as int));
        assert(a@ != b@) by {
            assert(a@.len() != b@.len());
        }
        -1
    } else {
        assert(vb@ =~= vb@.take(i as int));
        assert(a@ != b@) by {
            assert(a@.len() != b@.len());
        }
        1
    }
}

/// A map from strings to values with unique keys kept in ascending order.
#[derive(Debug, PartialEq)]
pub struct StrMap<V> {
    entries: Vec<(String, V)>,
}

impl<V> StrMap<V> {
    /// The keys are strictly ascending (hence unique).
    #[verifier::type_invariant]
    pub closed spec fn inv(self) -> bool {
        forall|i: int, j: int|
            0 <= i < j < self.entries@.len() ==> lex_lt(
                #[trigger] self.entries@[i].0@,
                #[trigger] self.entries@[j].0@,
            )
    }

    /// The entries, as `(key, value)` pairs in key order.
    pub closed spec fn pairs(self) -> Seq<(Seq<char>, V)> {
        self.entries@.map_values(|e: (String, V)| (e.0@, e.1))
    }

    /// The keys in ascending order.
    pub open spec fn keys_view(self) -> Seq<Seq<char>> {
        self.pairs().map_values(|e: (Seq<char>, V)| e.0)
    }

    /// Whether `k` is a key.
    pub open spec fn has(self, k: Seq<char>) -> bool {
        exists|i: int| 0 <= i < self.pairs().len() && #[trigger] self.pairs()[i].0 == k
    }

    /// The value stored under `k`, if any.
    pub open spec fn lookup(self, k: Seq<char>) -> Option<V> {
        if self.has(k) {
            Some(
                self.pairs()[choose|i: int|
                    0 <= i < self.pairs().len() && #[trigger] self.pairs()[i].0 == k].1,
            )
        } else {
            None
        }
    }

    /// The map's contents as a mathematical map.
    pub open spec fn as_map(self) -> Map<Seq<char>, V> {
        Map::new(|k: Seq<char>| self.has(k), |k: Seq<char>| self.lookup(k).unwrap())
    }

    /// Keys of the pairs are strictly ascending.
    pub open spec fn sorted(p: Seq<(Seq<char>, V)>) -> bool {
        forall|i: int, j: int| 0 <= i < j < p.len() ==> lex_lt(#[trigger] p[i].0, #[trigger] p[j].0)
    }

    /// The pairs of a map that keeps its invariant are sorted.
    pub proof fn lemma_sorted(self)
        requires
            self.inv(),
        ensures
            Self::sorted(self.pairs()),
    {
        assert forall|i: int, j: int| 0 <= i < j < self.pairs().len() implies lex_lt(
            #[trigger] self.pairs()[i].0,
            #[trigger] self.pairs()[j].0,
        ) by {
            assert(self.pairs()[i].0 == self.entries@[i].0@);
            assert(self.pairs()[j].0 == self.entries@[j].0@);
        }
    }

    /// In a sorted pair list, the entry with key `k` is the one `lookup` finds.
    pub proof fn lemma_lookup_at(self, i: int)
        requires
            Self::sorted(self.pairs()),
            0 <= i < self.pairs().len(),
        ensures
            self.has(self.pairs()[i].0),
            self.lookup(self.pairs()[i].0) == Some(self.pairs()[i].1),
    {
        let k = self.pairs()[i].0;
        assert(self.pairs()[i].0 == k);
        assert(self.has(k));
        let j = choose|j: int| 0 <= j < self.pairs().len() && #[trigger] self.pairs()[j].0 == k;
        lemma_lex_irreflexive(k);
        if j < i {
            assert(lex_lt(self.pairs()[j].0, self.pairs()[i].0));
        }
        if i < j {
            assert(lex_lt(self.pairs()[i].0, self.pairs()[j].0));
        }
    }

    /// An empty map.
    pub fn new() -> (m: Self)
        ensures
            m.pairs().len() == 0,
            forall|k: Seq<char>| #[trigger] m.lookup(k) is None,
    {
        StrMap { entries: Vec::new() }
    }

    /// Number of entries.
    pub fn len(&self) -> (n: usize)
        ensures
            n == self.pairs().len(),
    {
        self.entries.len()
    }

    /// Whether there are no entries.
    pub fn is_empty(&self) -> (b: bool)
        ensures
            b == (self.pairs().len() == 0),
    {
        self.entries.len() == 0
    }

    /// Position of `key`, if present.
    fn position(&self, key: &str) -> (r: Option<usize>)
        ensures
            match r {
                Some(i) => i < self.pairs().len() && self.pairs()[i as int].0 == key@,
                None => !self.has(key@),
            },
            r is Some <==> self.has(key@),
    {
        let mut i: usize = 0;
        while i < self.entries.len()
            invariant
                0 <= i <= self.entries@.len(),
                forall|j: int| 0 <= j < i ==> #[trigger] self.pairs()[j].0 != key@,
            decreases self.entries@.len() - i,
        {
            if compare_strs(self.entries[i].0.as_str(), key) == 0 {
                assert(self.pairs()[i as int].0 == self.entries@[i as int].0@);
                return Some(i);
            }
            assert(self.pairs()[i as int].0 == self.entries@[i as int].0@);
            i += 1;
        }
        None
    }

    /// Borrow the value stored under `key`.
    pub fn get(&self, key: &str) -> (r: Option<&V>)
        ensures
            match r {
                Some(v) => self.lookup(key@) == Some(*v),
                None => self.lookup(key@) is None,
            },
    {
        proof {
            use_type_invariant(self);
            self.lemma_sorted();
        }
        match self.position(key) {
            Some(i) => {
                proof {
                    self.lemma_lookup_at(i as int);
                }
                Some(&self.entries[i].1)
            },
            None => None,
        }
    }

    /// Whether `key` is present.
    pub fn contains_key(&self, key: &str) -> (b: bool)
        ensures
            b == self.has(key@),
    {
        self.position(key).is_some()
    }

    /// The keys in ascending order.
    pub fn keys(&self) -> (r: Vec<&str>)
        ensures
            r@.map_values(|s: &str| s@) == self.keys_view(),
    {
        let mut r: Vec<&str> = Vec::new();
        let mut i: usize = 0;
        while i < self.entries.len()
            invariant
                0 <= i <= self.entries@.len(),
                r@.map_values(|s: &str| s@) == self.keys_view().take(i as int),
            decreases self.entries@.len() - i,
        {
            let ghost before = r@.map_values(|s: &str| s@);
            let k = self.entries[i].0.as_str();
            r.push(k);
            assert(self.keys_view()[i as int] == self.entries@[i as int].0@);
            assert(r@.map_values(|s: &str| s@) =~= before.push(k@));
            assert(self.keys_view().take(i + 1) =~= self.keys_view().take(i as int).push(
                self.keys_view()[i as int],
            ));
            i += 1;
        }
        assert(self.keys_view().take(i as int) =~= self.keys_view());
        r
    }

    /// The entries as `(key, value)` pairs in ascending key order.
    pub fn entries(&self) -> (r: &Vec<(String, V)>)
        ensures
            r@.map_values(|e: (String, V)| (e.0@, e.1)) == self.pairs(),
    {
        &self.entries
    }

    /// Store `value` under `key`, replacing any previous value.
    pub fn insert(&mut self, key: String, value: V)
        ensures
            final(self).lookup(key@) == Some(value),
            forall|k: Seq<char>| k != key@ ==> #[trigger] final(self).lookup(k) == old(self).lookup(k),
            final(self).has(key@),
            forall|k: Seq<char>| k != key@ ==> (#[trigger] final(self).has(k) == old(self).has(k)),
    {
        proof {
            use_type_invariant(&*self);
            self.lemma_sorted();
        }
        let ghost old_pairs = self.pairs();
        let mut i: usize = 0;
        let mut rel: i8 = 1;
        while i < self.entries.len()
            invariant
                0 <= i <= self.entries@.len(),
                self.pairs() == old_pairs,
                Self::sorted(old_pairs),
                forall|j: int| 0 <= j < i ==> lex_lt(#[trigger] old_pairs[j].0, key@),
            ensures
                0 <= i <= old_pairs.len(),
                self.pairs() == old_pairs,
                forall|j: int| 0 <= j < i ==> lex_lt(#[trigger] old_pairs[j].0, key@),
                i < old_pairs.len() ==> (rel == 0) == (old_pairs[i as int].0 == key@) && (rel > 0)
                    == lex_lt(key@, old_pairs[i as int].0) && rel >= 0,
            decreases self.entries@.len() - i,
        {
            assert(old_pairs[i as int].0 == self.entries@[i as int].0@);
            rel = compare_strs(self.entries[i].0.as_str(), key.as_str());
            if rel >= 0 {
                break;
            }
            i += 1;
        }
        let ghost pos = i as int;
        assert(forall|j: int| pos <= j < old_pairs.len() ==> !lex_lt(#[trigger] old_pairs[j].0, key@)) by {
            assert forall|j: int| pos <= j < old_pairs.len() implies !lex_lt(
                #[trigger] old_pairs[j].0,
                key@,
            ) by {
                if pos < j {
                    lemma_lex_total(old_pairs[pos].0, key@);
                    if lex_lt(old_pairs[j].0, key@) {
                        lemma_lex_total(old_pairs[j].0, key@);
                        if old_pairs[pos].0 == key@ {
                        } else {
                            lemma_lex_transitive(key@, old_pairs[pos].0, old_pairs[j].0);
                            lemma_lex_total(key@, old_pairs[j].0);
                        }
                    }
                } else {
                    lemma_lex_total(old_pairs[pos].0, key@);
                }
            }
        }
        let mut entries: Vec<(String, V)> = Vec::new();
        std::mem::swap(&mut entries, &mut self.entries);
        if i < entries.len() && rel == 0 {
            let ghost k0 = key@;
            entries.set(i, (key, value));
            let ghost new_pairs = entries@.map_values(|e: (String, V)| (e.0@, e.1));
            proof {
                assert(new_pairs =~= old_pairs.update(pos, (k0, value)));
                assert(Self::sorted(new_pairs));
                assert forall|a: int, b: int|
                    0 <= a < b < entries@.len() implies lex_lt(
                    #[trigger] entries@[a].0@,
                    #[trigger] entries@[b].0@,
                ) by {
                    assert(new_pairs[a].0 == entries@[a].0@);
                    assert(new_pairs[b].0 == entries@[b].0@);
                }
            }
            self.entries = entries;
            proof {
                assert(self.pairs() =~= new_pairs);
                self.lemma_lookup_at(pos);
                assert forall|k: Seq<char>| k != k0 implies #[trigger] self.lookup(k) == old(
                    self,
                ).lookup(k) && self.has(k) == old(self).has(k) by {
                    if old(self).has(k) {
                        let j = choose|j: int|
                            0 <= j < old_pairs.len() && #[trigger] old_pairs[j].0 == k;
                        old(self).lemma_lookup_at(j);
                        self.lemma_lookup_at(j);
                    } else {
                        if self.has(k) {
                            let j = choose|j: int|
                                0 <= j < self.pairs().len() && #[trigger] self.pairs()[j].0 == k;
                            assert(old_pairs[j].0 == k);
                        }
                    }
                }
                assert forall|k: Seq<char>| k != k0 implies #[trigger] self.has(k) == old(self).has(k) by {
                    assert(self.lookup(k) == old(self).lookup(k));
                }
            }
        } else {
            let ghost k0 = key@;
            entries.insert(i, (key, value));
            let ghost new_pairs = entries@.map_values(|e: (String, V)| (e.0@, e.1));
            proof {
                assert(new_pairs =~= old_pairs.insert(pos, (k0, value)));
                assert(Self::sorted(new_pairs)) by {
                    assert forall|a: int, b: int|
                        0 <= a < b < new_pairs.len() implies lex_lt(
                        #[trigger] new_pairs[a].0,
                        #[trigger] new_pairs[b].0,
                    ) by {
                        if a < pos && b < pos {
                            assert(new_pairs[a] == old_pairs[a]);
                            assert(new_pairs[b] == old_pairs[b]);
                        } else if a < pos && b == pos {
                            assert(new_pairs[a] == old_pairs[a]);
                        } else if a < pos && b > pos {
                            assert(new_pairs[a] == old_pairs[a]);
                            assert(new_pairs[b] == old_pairs[b - 1]);
                        } else if a == pos {
                            assert(new_pairs[b] == old_pairs[b - 1]);
                            lemma_lex_total(old_pairs[b - 1].0, k0);
                            if b - 1 == pos {
                                assert(old_pairs[pos].0 != k0);
                            } else {
                                lemma_lex_total(old_pairs[pos].0, k0);
                                if old_pairs[pos].0 == k0 {
                                } else {
                                    lemma_lex_transitive(k0, old_pairs[pos].0, old_pairs[b - 1].0);
                                }
                            }
                        } else {
                            assert(new_pairs[a] == old_pairs[a - 1]);
                            assert(new_pairs[b] == old_pairs[b - 1]);
                        }
                    }
                }
                assert forall|a: int, b: int|
                    0 <= a < b < entries@.len() implies lex_lt(
                    #[trigger] entries@[a].0@,
                    #[trigger] entries@[b].0@,
                ) by {
                    assert(new_pairs[a].0 == entries@[a].0@);
                    assert(new_pairs[b].0 == entries@[b].0@);
                }
            }
            self.entries = entries;
            proof {
                assert(self.pairs() =~= new_pairs);
                self.lemma_lookup_at(pos);
                assert forall|k: Seq<char>| k != k0 implies #[trigger] self.lookup(k) == old(
                    self,
                ).lookup(k) && self.has(k) == old(self).has(k) by {
                    if old(self).has(k) {
                        let j = choose|j: int|
                            0 <= j < old_pairs.len() && #[trigger] old_pairs[j].0 == k;
                        old(self).lemma_lookup_at(j);
                        if j < pos {
                            assert(self.pairs()[j] == old_pairs[j]);
                            self.lemma_lookup_at(j);
                        } else {
                            assert(self.pairs()[j + 1] == old_pairs[j]);
                            self.lemma_lookup_at(j + 1);
                        }
                    } else {
                        if self.has(k) {
                            let j = choose|j: int|
                                0 <= j < self.pairs().len() && #[trigger] self.pairs()[j].0 == k;
                            if j < pos {
                                assert(old_pairs[j].0 == k);
                            } else if j > pos {
                                assert(old_pairs[j - 1].0 == k);
                            }
                        }
                    }
                }
                assert forall|k: Seq<char>| k != k0 implies #[trigger] self.has(k) == old(self).has(k) by {
                    assert(self.lookup(k) == old(self).lookup(k));
                }
            }
        }
    }
}

impl<V> StrMap<V> {
    /// Take out the value stored under `key`, if any.
    pub fn remove(&mut self, key: &str) -> (r: Option<V>)
        ensures
            r == old(self).lookup(key@),
            !final(self).has(key@),
            forall|k: Seq<char>| k != key@ ==> #[trigger] final(self).lookup(k) == old(self).lookup(k),
            forall|k: Seq<char>| k != key@ ==> (#[trigger] final(self).has(k) == old(self).has(k)),
    {
        proof {
            use_type_invariant(&*self);
            self.lemma_sorted();
        }
        let ghost old_pairs = self.pairs();
        match self.position(key) {
            None => None,
            Some(i) => {
                proof {
                    self.lemma_lookup_at(i as int);
                }
                let mut entries: Vec<(String, V)> = Vec::new();
                std::mem::swap(&mut entries, &mut self.entries);
                let ghost old_entries = entries@;
                let (_, v) = entries.remove(i);
                let ghost new_pairs = entries@.map_values(|e: (String, V)| (e.0@, e.1));
                proof {
                    assert(new_pairs =~= old_pairs.remove(i as int));
                    assert forall|a: int, b: int|
                        0 <= a < b < entries@.len() implies lex_lt(
                        #[trigger] entries@[a].0@,
                        #[trigger] entries@[b].0@,
                    ) by {
                        let a0 = if a < i { a } else { a + 1 };
                        let b0 = if b < i { b } else { b + 1 };
                        assert(entries@[a] == old_entries[a0]);
                        assert(entries@[b] == old_entries[b0]);
                        assert(old_pairs[a0].0 == old_entries[a0].0@);
                        assert(old_pairs[b0].0 == old_entries[b0].0@);
                    }
                }
                self.entries = entries;
                proof {
                    assert(self.pairs() =~= new_pairs);
                    assert(Self::sorted(self.pairs())) by {
                        assert forall|a: int, b: int|
                            0 <= a < b < new_pairs.len() implies lex_lt(
                            #[trigger] new_pairs[a].0,
                            #[trigger] new_pairs[b].0,
                        ) by {
                            let a0 = if a < i { a } else { a + 1 };
                            let b0 = if b < i { b } else { b + 1 };
                            assert(new_pairs[a] == old_pairs[a0]);
                            assert(new_pairs[b] == old_pairs[b0]);
                        }
                    }
                    if self.has(key@) {
                        let j = choose|j: int|
                            0 <= j < self.pairs().len() && #[trigger] self.pairs()[j].0 == key@;
                        let j0 = if j < i { j } else { j + 1 };
                        assert(new_pairs[j] == old_pairs[j0]);
                        lemma_lex_irreflexive(key@);
                        if j0 < i {
                            assert(lex_lt(old_pairs[j0].0, old_pairs[i as int].0));
                        } else {
                            assert(lex_lt(old_pairs[i as int].0, old_pairs[j0].0));
                        }
                    }
                    assert forall|k: Seq<char>| k != key@ implies #[trigger] self.lookup(k) == old(
                        self,
                    ).lookup(k) && self.has(k) == old(self).has(k) by {
                        if old(self).has(k) {
                            let j = choose|j: int|
                                0 <= j < old_pairs.len() && #[trigger] old_pairs[j].0 == k;
                            old(self).lemma_lookup_at(j);
                            if j < i {
                                assert(new_pairs[j] == old_pairs[j]);
                                self.lemma_lookup_at(j);
                            } else {
                                assert(j != i);
                                assert(new_pairs[j - 1] == old_pairs[j]);
                                self.lemma_lookup_at(j - 1);
                            }
                        } else if self.has(k) {
                            let j = choose|j: int|
                                0 <= j < self.pairs().len() && #[trigger] self.pairs()[j].0 == k;
                            let j0 = if j < i { j } else { j + 1 };
                            assert(new_pairs[j] == old_pairs[j0]);
                        }
                    }
                    assert forall|k: Seq<char>| k != key@ implies #[trigger] self.has(k) == old(self).has(k) by {
                        assert(self.lookup(k) == old(self).lookup(k));
                    }
                }
                Some(v)
            },
        }
    }
}

impl<V> Default for StrMap<V> {
    /// An empty map.
    fn default() -> (m: Self)
        ensures
            m.pairs().len() == 0,
            forall|k: Seq<char>| #[trigger] m.lookup(k) is None,
    {
        StrMap::new()
    }
}

impl<V: Clone> Clone for StrMap<V> {
    /// A copy with the same keys; each value is `V::clone`d.
    fn clone(&self) -> (r: Self)
        ensures
            r.keys_view() == self.keys_view(),
    {
        proof {
            use_type_invariant(self);
        }
        let mut entries: Vec<(String, V)> = Vec::new();
        let mut i: usize = 0;
        while i < self.entries.len()
            invariant
                0 <= i <= self.entries@.len(),
                entries@.len() == i,
                forall|j: int| 0 <= j < i ==> #[trigger] entries@[j].0@ == self.entries@[j].0@,
                forall|a: int, b: int|
                    0 <= a < b < self.entries@.len() ==> lex_lt(
                        #[trigger] self.entries@[a].0@,
                        #[trigger] self.entries@[b].0@,
                    ),
            decreases self.entries@.len() - i,
        {
            let k = self.entries[i].0.clone();
            let v = self.entries[i].1.clone();
            entries.push((k, v));
            i += 1;
        }
        proof {
            assert forall|a: int, b: int|
                0 <= a < b < entries@.len() implies lex_lt(
                #[trigger] entries@[a].0@,
                #[trigger] entries@[b].0@,
            ) by {
                assert(entries@[a].0@ == self.entries@[a].0@);
                assert(entries@[b].0@ == self.entries@[b].0@);
            }
        }
        let r = StrMap { entries };
        proof {
            assert(r.keys_view() =~= self.keys_view());
        }
        r
    }
}

} // verus!
