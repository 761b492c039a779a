//! [`AttributeMap`]: an element's attributes, kept sorted by name so that
//! iteration order and equality do not depend on the order of insertion.
use vstd::prelude::*;

use crate::text::chars_of;

verus! {

/// The value stored under `key` in an association list: the first pair
/// whose key matches.
pub open spec fn lookup<V>(pairs: Seq<(Seq<char>, V)>, key: Seq<char>) -> Option<V>
    decreases pairs.len(),
{
    if pairs.len() == 0 {
        None
    } else if pairs[0].0 == key {
        Some(pairs[0].1)
    } else {
        lookup(pairs.drop_first(), key)
    }
}

/// An association list read as a map (first binding wins).
pub open spec fn pairs_to_map<V>(pairs: Seq<(Seq<char>, V)>) -> Map<Seq<char>, V> {
    Map::new(|k: Seq<char>| lookup(pairs, k) is Some, |k: Seq<char>| lookup(pairs, k)->0)
}

/// Strict lexicographic order on character sequences; it agrees with the
/// byte order of their UTF-8 encodings, which `String`'s `Ord` uses.
pub open spec fn seq_lt(a: Seq<char>, b: Seq<char>) -> bool
    decreases a.len(),
{
    if a.len() == 0 {
        b.len() > 0
    } else if b.len() == 0 {
        false
    } else if a[0] != b[0] {
        (a[0] as int) < (b[0] as int)
    } else {
        seq_lt(a.drop_first(), b.drop_first())
    }
}

pub proof fn lemma_seq_lt_irreflexive(a: Seq<char>)
    ensures
        !seq_lt(a, a),
    decreases a.len(),
{
    if a.len() > 0 {
        lemma_seq_lt_irreflexive(a.drop_first());
    }
}

pub proof fn lemma_seq_lt_total(a: Seq<char>, b: Seq<char>)
    ensures
        a == b || seq_lt(a, b) || seq_lt(b, a),
        !(seq_lt(a, b) && seq_lt(b, a)),
    decreases a.len(),
{
    if a.len() == 0 || b.len() == 0 {
        if a.len() == 0 && b.len() == 0 {
            assert(a =~= b);
        }
    } else if a[0] != b[0] {
        assert((a[0] as int) != (b[0] as int));
    } else {
        lemma_seq_lt_total(a.drop_first(), b.drop_first());
        if a.drop_first() == b.drop_first() {
            assert forall|i: int| 0 <= i < a.len() implies a[i] == b[i] by {
                if i > 0 {
                    assert(a[i] == a.drop_first()[i - 1]);
                    assert(b[i] == b.drop_first()[i - 1]);
                }
            }
            assert(a =~= b);
        }
    }
}

pub proof fn lemma_seq_lt_transitive(a: Seq<char>, b: Seq<char>, c: Seq<char>)
    requires
        seq_lt(a, b),
        seq_lt(b, c),
    ensures
        seq_lt(a, c),
    decreases a.len(),
{
    if a.len() > 0 && b.len() > 0 && c.len() > 0 {
        if a[0] == b[0] && b[0] == c[0] {
            lemma_seq_lt_transitive(a.drop_first(), b.drop_first(), c.drop_first());
        }
    }
}

/// Keys of `pairs` strictly increase.
pub open spec fn keys_sorted<V>(pairs: Seq<(Seq<char>, V)>) -> bool {
    forall|i: int, j: int| 0 <= i < j < pairs.len() ==> seq_lt(#[trigger] pairs[i].0, #[trigger] pairs[j].0)
}

proof fn lemma_lookup_sorted<V>(pairs: Seq<(Seq<char>, V)>, key: Seq<char>, i: int)
    requires
        keys_sorted(pairs),
        0 <= i < pairs.len(),
        pairs[i].0 == key,
    ensures
        lookup(pairs, key) == Some(pairs[i].1),
    decreases i,
{
    if i > 0 {
        lemma_seq_lt_irreflexive(key);
        assert(pairs[0].0 != key) by {
            assert(seq_lt(pairs[0].0, pairs[i].0));
        }
        let rest = pairs.drop_first();
        assert forall|a: int, b: int| 0 <= a < b < rest.len() implies seq_lt(
            #[trigger] rest[a].0,
            #[trigger] rest[b].0,
        ) by {
            assert(rest[a] == pairs[a + 1] && rest[b] == pairs[b + 1]);
        }
        lemma_lookup_sorted(rest, key, i - 1);
    }
}

proof fn lemma_lookup_absent<V>(pairs: Seq<(Seq<char>, V)>, key: Seq<char>)
    requires
        forall|i: int| 0 <= i < pairs.len() ==> #[trigger] pairs[i].0 != key,
    ensures
        lookup(pairs, key) is None,
    decreases pairs.len(),
{
    if pairs.len() > 0 {
        let rest = pairs.drop_first();
        assert forall|i: int| 0 <= i < rest.len() implies #[trigger] rest[i].0 != key by {
            assert(rest[i] == pairs[i + 1]);
        }
        lemma_lookup_absent(rest, key);
    }
}

/// For an association list with distinct keys, the first binding is the
/// only one, so the map view is determined by membership.
pub proof fn lemma_lookup_first<V>(pairs: Seq<(Seq<char>, V)>, key: Seq<char>)
    ensures
        lookup(pairs, key) matches Some(v) ==> exists|i: int|
            0 <= i < pairs.len() && pairs[i].0 == key && pairs[i].1 == v && forall|j: int|
                0 <= j < i ==> #[trigger] pairs[j].0 != key,
        lookup(pairs, key) is None ==> forall|i: int| 0 <= i < pairs.len() ==> #[trigger] pairs[i].0 != key,
    decreases pairs.len(),
{
    if pairs.len() > 0 {
        let rest = pairs.drop_first();
        lemma_lookup_first(rest, key);
        if pairs[0].0 != key {
            if let Some(v) = lookup(rest, key) {
                let i = choose|i: int|
                    0 <= i < rest.len() && rest[i].0 == key && rest[i].1 == v && forall|j: int|
                        0 <= j < i ==> #[trigger] rest[j].0 != key;
                assert(pairs[i + 1] == rest[i]);
                assert forall|j: int| 0 <= j < i + 1 implies #[trigger] pairs[j].0 != key by {
                    if j > 0 {
                        assert(pairs[j] == rest[j - 1]);
                    }
                }
            } else {
                assert forall|i: int| 0 <= i < pairs.len() implies #[trigger] pairs[i].0 != key by {
                    if i > 0 {
                        assert(pairs[i] == rest[i - 1]);
                    }
                }
            }
        } else {
            assert(0 <= 0 < pairs.len() && pairs[0].0 == key && pairs[0].1 == lookup(pairs, key)->0);
        }
    }
}

/// For sorted pairs, `k` is bound exactly when some pair has name `k`.
proof fn lemma_sorted_lookup_cases<V>(pairs: Seq<(Seq<char>, V)>, k: Seq<char>)
    requires
        keys_sorted(pairs),
    ensures
        (exists|i: int| 0 <= i < pairs.len() && pairs[i].0 == k) ==> exists|i: int|
            0 <= i < pairs.len() && pairs[i].0 == k && lookup(pairs, k) == Some(pairs[i].1),
        !(exists|i: int| 0 <= i < pairs.len() && pairs[i].0 == k) ==> lookup(pairs, k) is None,
{
    if exists|i: int| 0 <= i < pairs.len() && pairs[i].0 == k {
        let i = choose|i: int| 0 <= i < pairs.len() && pairs[i].0 == k;
        lemma_lookup_sorted(pairs, k, i);
    } else {
        lemma_lookup_absent(pairs, k);
    }
}

proof fn lemma_sorted_map_update<V>(old_pairs: Seq<(Seq<char>, V)>, pos: int, key: Seq<char>, value: V)
    requires
        keys_sorted(old_pairs),
        0 <= pos < old_pairs.len(),
        old_pairs[pos].0 == key,
    ensures
        pairs_to_map(old_pairs.update(pos, (key, value))) == pairs_to_map(old_pairs).insert(key, value),
{
    let p = old_pairs.update(pos, (key, value));
    assert forall|i: int, j: int| 0 <= i < j < p.len() implies seq_lt(#[trigger] p[i].0, #[trigger] p[j].0) by {
        assert(p[i].0 == old_pairs[i].0 && p[j].0 == old_pairs[j].0);
    }
    let m = pairs_to_map(p);
    let n = pairs_to_map(old_pairs).insert(key, value);
    assert forall|k: Seq<char>| #[trigger] m.contains_key(k) == n.contains_key(k) && (m.contains_key(k) ==> m[k] == n[k]) by {
        lemma_sorted_lookup_cases(p, k);
        lemma_sorted_lookup_cases(old_pairs, k);
        if k == key {
            lemma_lookup_sorted(p, k, pos);
        } else if exists|i: int| 0 <= i < old_pairs.len() && old_pairs[i].0 == k {
            let i = choose|i: int| 0 <= i < old_pairs.len() && old_pairs[i].0 == k;
            assert(p[i] == old_pairs[i]);
            lemma_lookup_sorted(p, k, i);
            lemma_lookup_sorted(old_pairs, k, i);
        } else if exists|i: int| 0 <= i < p.len() && p[i].0 == k {
            let i = choose|i: int| 0 <= i < p.len() && p[i].0 == k;
            assert(p[i] == old_pairs[i]);
        }
    }
    assert(m =~= n);
}

proof fn lemma_sorted_map_insert<V>(old_pairs: Seq<(Seq<char>, V)>, pos: int, key: Seq<char>, value: V)
    requires
        keys_sorted(old_pairs),
        keys_sorted(old_pairs.insert(pos, (key, value))),
        0 <= pos <= old_pairs.len(),
    ensures
        pairs_to_map(old_pairs.insert(pos, (key, value))) == pairs_to_map(old_pairs).insert(key, value),
{
    let p = old_pairs.insert(pos, (key, value));
    let m = pairs_to_map(p);
    let n = pairs_to_map(old_pairs).insert(key, value);
    assert forall|k: Seq<char>| #[trigger] m.contains_key(k) == n.contains_key(k) && (m.contains_key(k) ==> m[k] == n[k]) by {
        lemma_sorted_lookup_cases(p, k);
        lemma_sorted_lookup_cases(old_pairs, k);
        if k == key {
            lemma_lookup_sorted(p, k, pos);
        } else if exists|i: int| 0 <= i < old_pairs.len() && old_pairs[i].0 == k {
            let i = choose|i: int| 0 <= i < old_pairs.len() && old_pairs[i].0 == k;
            let j = if i < pos { i } else { i + 1 };
            assert(p[j] == old_pairs[i]);
            lemma_lookup_sorted(p, k, j);
            lemma_lookup_sorted(old_pairs, k, i);
        } else if exists|j: int| 0 <= j < p.len() && p[j].0 == k {
            let j = choose|j: int| 0 <= j < p.len() && p[j].0 == k;
            if j < pos {
                assert(p[j] == old_pairs[j]);
            } else if j > pos {
                assert(p[j] == old_pairs[j - 1]);
            }
        }
    }
    assert(m =~= n);
}

proof fn lemma_sorted_rest_map(p: Seq<(Seq<char>, Seq<char>)>)
    requires
        keys_sorted(p),
        p.len() > 0,
    ensures
        keys_sorted(p.drop_first()),
        pairs_to_map(p.drop_first()) == pairs_to_map(p).remove(p[0].0),
{
    let rest = p.drop_first();
    assert forall|a: int, b: int| 0 <= a < b < rest.len() implies seq_lt(
        #[trigger] rest[a].0,
        #[trigger] rest[b].0,
    ) by {
        assert(rest[a] == p[a + 1] && rest[b] == p[b + 1]);
    }
    assert forall|i: int| 0 <= i < rest.len() implies #[trigger] rest[i].0 != p[0].0 by {
        lemma_seq_lt_irreflexive(p[0].0);
        assert(rest[i] == p[i + 1]);
        assert(seq_lt(p[0].0, p[i + 1].0));
    }
    lemma_lookup_absent(rest, p[0].0);
    assert(pairs_to_map(rest) =~= pairs_to_map(p).remove(p[0].0));
}

proof fn lemma_first_key_least(p: Seq<(Seq<char>, Seq<char>)>, k: Seq<char>)
    requires
        keys_sorted(p),
        p.len() > 0,
        pairs_to_map(p).contains_key(k),
    ensures
        k == p[0].0 || seq_lt(p[0].0, k),
{
    lemma_sorted_lookup_cases(p, k);
    let i = choose|i: int| 0 <= i < p.len() && p[i].0 == k && lookup(p, k) == Some(p[i].1);
    if i > 0 {
        assert(seq_lt(p[0].0, p[i].0));
    }
}

/// Attribute pairs kept in increasing name order are determined by the
/// bindings they describe: equal bindings mean equal stored pairs, so
/// neither the order of insertion nor the history of a map shows in its
/// pairs.
pub proof fn lemma_bindings_determine_pairs(p1: Seq<(Seq<char>, Seq<char>)>, p2: Seq<(Seq<char>, Seq<char>)>)
    requires
        keys_sorted(p1),
        keys_sorted(p2),
        pairs_to_map(p1) == pairs_to_map(p2),
    ensures
        p1 == p2,
    decreases p1.len(),
{
    if p1.len() == 0 {
        if p2.len() > 0 {
            lemma_lookup_sorted(p2, p2[0].0, 0);
            assert(pairs_to_map(p2).contains_key(p2[0].0));
        }
        assert(p1 =~= p2);
    } else {
        lemma_lookup_sorted(p1, p1[0].0, 0);
        assert(pairs_to_map(p1).contains_key(p1[0].0));
        if p2.len() == 0 {
            assert(!pairs_to_map(p2).contains_key(p1[0].0));
        }
        lemma_lookup_sorted(p2, p2[0].0, 0);
        lemma_first_key_least(p1, p2[0].0);
        lemma_first_key_least(p2, p1[0].0);
        lemma_seq_lt_total(p1[0].0, p2[0].0);
        assert(p1[0].0 == p2[0].0);
        assert(pairs_to_map(p1)[p1[0].0] == p1[0].1);
        assert(pairs_to_map(p2)[p2[0].0] == p2[0].1);
        assert(p1[0] == p2[0]);
        lemma_sorted_rest_map(p1);
        lemma_sorted_rest_map(p2);
        lemma_bindings_determine_pairs(p1.drop_first(), p2.drop_first());
        assert(p1 =~= seq![p1[0]] + p1.drop_first());
        assert(p2 =~= seq![p2[0]] + p2.drop_first());
    }
}

/// Stored string pairs as character sequences.
pub open spec fn pairs_of(entries: Seq<(String, String)>) -> Seq<(Seq<char>, Seq<char>)> {
    entries.map_values(|e: (String, String)| (e.0@, e.1@))
}

/// Result of comparing two keys.
pub enum KeyOrder {
    Less,
    Equal,
    Greater,
}

/// Compare two character sequences in the order of [`seq_lt`].
pub fn compare_keys(a: &Vec<char>, b: &Vec<char>) -> (r: KeyOrder)
    ensures
        r is Less <==> seq_lt(a@, b@),
        r is Equal <==> a@ == b@,
        r is Greater <==> seq_lt(b@, a@),
{
    proof {
        lemma_seq_lt_total(a@, b@);
        lemma_seq_lt_irreflexive(a@);
    }
    let mut i: usize = 0;
    assert(a@.skip(0) =~= a@ && b@.skip(0) =~= b@);
    assert(a@.take(0) =~= b@.take(0));
    while i < a.len() && i < b.len()
        invariant
            i <= a@.len(),
            i <= b@.len(),
            a@.take(i as int) == b@.take(i as int),
            seq_lt(a@, b@) == seq_lt(a@.skip(i as int), b@.skip(i as int)),
            seq_lt(b@, a@) == seq_lt(b@.skip(i as int), a@.skip(i as int)),
        decreases a@.len() - i,
    {
        let ghost sa = a@.skip(i as int);
        let ghost sb = b@.skip(i as int);
        assert(sa.len() > 0 && sb.len() > 0);
        if a[i] != b[i] {
            assert(sa[0] == a@[i as int] && sb[0] == b@[i as int]);
            if a[i] < b[i] {
                return KeyOrder::Less;
            } else {
                return KeyOrder::Greater;
            }
        }
        assert(sa.drop_first() =~= a@.skip(i + 1));
        assert(sb.drop_first() =~= b@.skip(i + 1));
        assert(a@.take(i + 1) =~= a@.take(i as int).push(a@[i as int]));
        assert(b@.take(i + 1) =~= b@.take(i as int).push(b@[i as int]));
        i = i + 1;
    }
    if a.len() == b.len() {
        assert(a@ =~= a@.take(i as int));
        assert(b@ =~= b@.take(i as int));
        KeyOrder::Equal
    } else if a.len() < b.len() {
        assert(a@.skip(i as int).len() == 0);
        KeyOrder::Less
    } else {
        assert(b@.skip(i as int).len() == 0);
        KeyOrder::Greater
    }
}

/// The raw attributes of an element, keyed by name. Each name occurs at
/// most once; pairs are kept in increasing name order.
#[derive(Debug, PartialEq, Eq)]
pub struct AttributeMap {
    entries: Vec<(String, String)>,
}

impl AttributeMap {
    /// The stored pairs as character sequences, in name order.
    pub closed spec fn pairs(&self) -> Seq<(Seq<char>, Seq<char>)> {
        pairs_of(self.entries@)
    }

    #[verifier::type_invariant]
    closed spec fn inv(&self) -> bool {
        keys_sorted(self.pairs())
    }

    /// An empty map.
    pub fn new() -> (r: Self)
        ensures
            r@ == Map::<Seq<char>, Seq<char>>::empty(),
            r.pairs().len() == 0,
    {
        let r = AttributeMap { entries: Vec::new() };
        assert(r@ =~= Map::<Seq<char>, Seq<char>>::empty());
        r
    }

    /// Number of attributes.
    pub fn len(&self) -> (r: usize)
        ensures
            r == self.pairs().len(),
            r == self@.len(),
    {
        proof {
            use_type_invariant(self);
            self.lemma_view_len();
        }
        self.entries.len()
    }

    /// Whether there is no attribute at all.
    pub fn is_empty(&self) -> (r: bool)
        ensures
            r == (self@ == Map::<Seq<char>, Seq<char>>::empty()),
            r == (self.pairs().len() == 0),
    {
        proof {
            use_type_invariant(self);
            self.lemma_view_len();
            if self.pairs().len() > 0 {
                assert(self@.contains_key(self.pairs()[0].0)) by {
                    lemma_lookup_sorted(self.pairs(), self.pairs()[0].0, 0);
                }
            } else {
                assert(self@ =~= Map::<Seq<char>, Seq<char>>::empty());
            }
        }
        self.entries.len() == 0
    }

    proof fn lemma_view_len(&self)
        requires
            keys_sorted(self.pairs()),
        ensures
            self@.len() == self.pairs().len(),
            self@.dom().finite(),
        decreases self.pairs().len(),
    {
        let p = self.pairs();
        let keys = p.map_values(|e: (Seq<char>, Seq<char>)| e.0);
        assert forall|k: Seq<char>| self@.dom().contains(k) <==> keys.contains(k) by {
            lemma_lookup_first(p, k);
            if keys.contains(k) {
                let i = choose|i: int| 0 <= i < keys.len() && keys[i] == k;
                lemma_lookup_sorted(p, k, i);
            }
            if let Some(v) = lookup(p, k) {
                let i = choose|i: int|
                    0 <= i < p.len() && p[i].0 == k && p[i].1 == v && forall|j: int|
                        0 <= j < i ==> #[trigger] p[j].0 != k;
                assert(keys[i] == k);
            }
        }
        assert(self@.dom() =~= keys.to_set());
        assert forall|i: int, j: int| 0 <= i < j < keys.len() implies keys[i] != keys[j] by {
            lemma_seq_lt_irreflexive(keys[i]);
            assert(seq_lt(p[i].0, p[j].0));
        }
        keys.unique_seq_to_set();
    }

    /// The value of attribute `key`, if present (`BTreeMap::get`).
    pub fn get(&self, key: &str) -> (r: Option<&String>)
        ensures
            r matches Some(v) ==> self@.contains_key(key@) && v@ == self@[key@],
            r is None ==> !self@.contains_key(key@),
    {
        proof {
            use_type_invariant(self);
        }
        let k = chars_of(key);
        let mut i: usize = 0;
        while i < self.entries.len()
            invariant
                i <= self.entries@.len(),
                k@ == key@,
                keys_sorted(self.pairs()),
                forall|j: int| 0 <= j < i ==> #[trigger] self.pairs()[j].0 != key@,
            decreases self.entries@.len() - i,
        {
            let ek = chars_of(self.entries[i].0.as_str());
            if let KeyOrder::Equal = compare_keys(&ek, &k) {
                proof {
                    lemma_lookup_sorted(self.pairs(), key@, i as int);
                }
                return Some(&self.entries[i].1);
            }
            i = i + 1;
        }
        proof {
            lemma_lookup_absent(self.pairs(), key@);
        }
        None
    }

    /// Whether attribute `key` is present.
    pub fn contains_key(&self, key: &str) -> (r: bool)
        ensures
            r == self@.contains_key(key@),
    {
        self.get(key).is_some()
    }

    /// Position at which `key` is stored or would be inserted, and whether
    /// it is already stored there.
    fn locate(&self, key: &Vec<char>) -> (r: (usize, bool))
        ensures
            r.0 <= self.pairs().len(),
            forall|j: int| 0 <= j < r.0 ==> seq_lt(#[trigger] self.pairs()[j].0, key@),
            r.1 ==> r.0 < self.pairs().len() && self.pairs()[r.0 as int].0 == key@,
            !r.1 ==> r.0 < self.pairs().len() ==> seq_lt(key@, self.pairs()[r.0 as int].0),
    {
        proof {
            use_type_invariant(self);
        }
        let mut i: usize = 0;
        while i < self.entries.len()
            invariant
                i <= self.entries@.len(),
                forall|j: int| 0 <= j < i ==> seq_lt(#[trigger] self.pairs()[j].0, key@),
            decreases self.entries@.len() - i,
        {
            let ek = chars_of(self.entries[i].0.as_str());
            match compare_keys(&ek, key) {
                KeyOrder::Less => {},
                KeyOrder::Equal => {
                    return (i, true);
                },
                KeyOrder::Greater => {
                    return (i, false);
                },
            }
            i = i + 1;
        }
        (i, false)
    }

    proof fn lemma_absent_by_order(&self, key: Seq<char>, pos: int)
        requires
            keys_sorted(self.pairs()),
            0 <= pos <= self.pairs().len(),
            forall|j: int| 0 <= j < pos ==> seq_lt(#[trigger] self.pairs()[j].0, key),
            pos < self.pairs().len() ==> seq_lt(key, self.pairs()[pos].0),
        ensures
            !self@.contains_key(key),
    {
        let p = self.pairs();
        assert forall|i: int| 0 <= i < p.len() implies #[trigger] p[i].0 != key by {
            lemma_seq_lt_irreflexive(key);
            if i > pos {
                assert(seq_lt(p[pos].0, p[i].0));
                lemma_seq_lt_transitive(key, p[pos].0, p[i].0);
            }
        }
        lemma_lookup_absent(p, key);
    }

    /// Set attribute `key` to `value`, returning the value it replaced
    /// (`BTreeMap::insert`).
    pub fn insert(&mut self, key: String, value: String) -> (r: Option<String>)
        ensures
            final(self)@ == old(self)@.insert(key@, value@),
            r matches Some(v) ==> old(self)@.contains_key(key@) && v@ == old(self)@[key@],
            r is None ==> !old(self)@.contains_key(key@),
    {
        proof {
            use_type_invariant(&*self);
        }
        let k = chars_of(key.as_str());
        let (pos, found) = self.locate(&k);
        let ghost old_pairs = self.pairs();
        let ghost old_view = self@;
        if found {
            proof {
                lemma_lookup_sorted(old_pairs, key@, pos as int);
            }
            let mut entries: Vec<(String, String)> = Vec::new();
            std::mem::swap(&mut entries, &mut self.entries);
            let (_, previous) = entries.remove(pos);
            entries.insert(pos, (key, value));
            proof {
                assert(pairs_of(entries@) =~= old_pairs.update(pos as int, (key@, value@)));
                let p = pairs_of(entries@);
                assert forall|i: int, j: int| 0 <= i < j < p.len() implies seq_lt(
                    #[trigger] p[i].0,
                    #[trigger] p[j].0,
                ) by {
                    assert(p[i].0 == old_pairs[i].0 && p[j].0 == old_pairs[j].0);
                }
                lemma_sorted_map_update(old_pairs, pos as int, key@, value@);
            }
            self.entries = entries;
            Some(previous)
        } else {
            proof {
                self.lemma_absent_by_order(key@, pos as int);
            }
            let mut entries: Vec<(String, String)> = Vec::new();
            std::mem::swap(&mut entries, &mut self.entries);
            entries.insert(pos, (key, value));
            proof {
                let p = pairs_of(entries@);
                assert(p =~= old_pairs.insert(pos as int, (key@, value@)));
                assert(p[pos as int] == (key@, value@));
                assert forall|i: int, j: int| 0 <= i < j < p.len() implies seq_lt(
                    #[trigger] p[i].0,
                    #[trigger] p[j].0,
                ) by {
                    if j == pos {
                        assert(seq_lt(old_pairs[i].0, key@));
                    } else if i == pos {
                        assert(p[j] == old_pairs[j - 1]);
                        if j - 1 > pos {
                            assert(seq_lt(old_pairs[pos as int].0, old_pairs[j - 1].0));
                            lemma_seq_lt_transitive(key@, old_pairs[pos as int].0, old_pairs[j - 1].0);
                        }
                    } else if i < pos && j > pos {
                        assert(p[j] == old_pairs[j - 1]);
                    } else if i > pos {
                        assert(p[j] == old_pairs[j - 1] && p[i] == old_pairs[i - 1]);
                    }
                }
                lemma_sorted_map_insert(old_pairs, pos as int, key@, value@);
            }
            self.entries = entries;
            None
        }
    }

    /// Remove attribute `key`, returning its value (`BTreeMap::remove`).
    pub fn remove(&mut self, key: &str) -> (r: Option<String>)
        ensures
            final(self)@ == old(self)@.remove(key@),
            r matches Some(v) ==> old(self)@.contains_key(key@) && v@ == old(self)@[key@],
            r is None ==> !old(self)@.contains_key(key@),
    {
        proof {
            use_type_invariant(&*self);
        }
        let k = chars_of(key);
        let (pos, found) = self.locate(&k);
        if found {
            let ghost old_pairs = self.pairs();
            let ghost old_view = self@;
            proof {
                lemma_lookup_sorted(old_pairs, key@, pos as int);
            }
            let mut entries: Vec<(String, String)> = Vec::new();
            std::mem::swap(&mut entries, &mut self.entries);
            let (_, previous) = entries.remove(pos);
            proof {
                let p = pairs_of(entries@);
                assert(p =~= old_pairs.remove(pos as int));
                assert forall|i: int, j: int| 0 <= i < j < p.len() implies seq_lt(
                    #[trigger] p[i].0,
                    #[trigger] p[j].0,
                ) by {
                    if i >= pos {
                        assert(p[i] == old_pairs[i + 1] && p[j] == old_pairs[j + 1]);
                    } else if j >= pos {
                        assert(p[j] == old_pairs[j + 1]);
                    }
                }
                assert forall|kk: Seq<char>| #[trigger]
                    pairs_to_map(pairs_of(entries@)).contains_key(kk) == old_view.remove(key@).contains_key(kk) && (
                    pairs_to_map(pairs_of(entries@)).contains_key(kk) ==> pairs_to_map(pairs_of(entries@))[kk] == old_view[kk]) by {
                    lemma_lookup_first(p, kk);
                    lemma_lookup_first(old_pairs, kk);
                    if kk == key@ {
                        assert forall|i: int| 0 <= i < p.len() implies #[trigger] p[i].0 != kk by {
                            lemma_seq_lt_irreflexive(kk);
                            if i < pos {
                                assert(seq_lt(old_pairs[i].0, old_pairs[pos as int].0));
                            } else {
                                assert(p[i] == old_pairs[i + 1]);
                                assert(seq_lt(old_pairs[pos as int].0, old_pairs[i + 1].0));
                            }
                        }
                        lemma_lookup_absent(p, kk);
                    } else {
                        if let Some(v) = lookup(old_pairs, kk) {
                            let i = choose|i: int|
                                0 <= i < old_pairs.len() && old_pairs[i].0 == kk && old_pairs[i].1
                                    == v && forall|j: int| 0 <= j < i ==> #[trigger] old_pairs[j].0 != kk;
                            let j = if i < pos { i } else { i - 1 };
                            assert(p[j] == old_pairs[i]);
                            lemma_lookup_sorted(p, kk, j);
                        } else if let Some(v) = lookup(p, kk) {
                            let j = choose|j: int|
                                0 <= j < p.len() && p[j].0 == kk && p[j].1 == v && forall|jj: int|
                                    0 <= jj < j ==> #[trigger] p[jj].0 != kk;
                            if j < pos {
                                assert(p[j] == old_pairs[j]);
                            } else {
                                assert(p[j] == old_pairs[j + 1]);
                            }
                        }
                    }
                }
                assert(pairs_to_map(pairs_of(entries@)) =~= old_view.remove(key@));
            }
            self.entries = entries;
            Some(previous)
        } else {
            proof {
                self.lemma_absent_by_order(key@, pos as int);
                assert(self@ =~= self@.remove(key@));
            }
            None
        }
    }

    /// Insert every attribute of `other`, its values replacing those of
    /// `self` (`Extend` with a cloned `BTreeMap`).
    pub fn extend_from(&mut self, other: &AttributeMap)
        ensures
            final(self)@ == old(self)@.union_prefer_right(other@),
    {
        proof {
            use_type_invariant(other);
        }
        let ghost start = self@;
        let mut i: usize = 0;
        while i < other.entries.len()
            invariant
                i <= other.entries@.len(),
                keys_sorted(other.pairs()),
                self@ == start.union_prefer_right(pairs_to_map(other.pairs().take(i as int))),
            decreases other.entries@.len() - i,
        {
            let key = other.entries[i].0.clone();
            let value = other.entries[i].1.clone();
            let _ = self.insert(key, value);
            proof {
                let p = other.pairs();
                let before = pairs_to_map(p.take(i as int));
                let after = pairs_to_map(p.take(i + 1));
                assert(p[i as int] == (other.entries@[i as int].0@, other.entries@[i as int].1@));
                assert forall|k: Seq<char>| #[trigger] after.contains_key(k) == before.insert(
                    p[i as int].0,
                    p[i as int].1,
                ).contains_key(k) && (after.contains_key(k) ==> after[k] == before.insert(
                    p[i as int].0,
                    p[i as int].1,
                )[k]) by {
                    let t0 = p.take(i as int);
                    let t1 = p.take(i + 1);
                    lemma_lookup_first(t0, k);
                    lemma_lookup_first(t1, k);
                    assert forall|j: int| 0 <= j < i implies t1[j] == #[trigger] t0[j] by {}
                    if k == p[i as int].0 {
                        assert forall|j: int| 0 <= j < t0.len() implies #[trigger] t0[j].0 != k by {
                            lemma_seq_lt_irreflexive(k);
                            assert(seq_lt(p[j].0, p[i as int].0));
                        }
                        lemma_lookup_absent(t0, k);
                        assert(t1[i as int] == p[i as int]);
                    } else {
                        if let Some(v) = lookup(t1, k) {
                            let j = choose|j: int|
                                0 <= j < t1.len() && t1[j].0 == k && t1[j].1 == v && forall|jj: int|
                                    0 <= jj < j ==> #[trigger] t1[jj].0 != k;
                            assert(j < i);
                        }
                    }
                }
                assert(after =~= before.insert(p[i as int].0, p[i as int].1));
                assert(self@ =~= start.union_prefer_right(after));
            }
            i = i + 1;
        }
        proof {
            assert(other.pairs().take(other.pairs().len() as int) =~= other.pairs());
        }
    }

    /// The stored pairs, in increasing name order.
    pub fn as_slice(&self) -> (r: &[(String, String)])
        ensures
            r@.map_values(|e: (String, String)| (e.0@, e.1@)) == self.pairs(),
            keys_sorted(self.pairs()),
    {
        proof {
            use_type_invariant(self);
        }
        self.entries.as_slice()
    }

    /// With its names in increasing order, the stored pairs describe the
    /// map exactly: each pair is a binding, and each binding is a pair.
    pub proof fn lemma_pairs_describe_map(&self)
        requires
            keys_sorted(self.pairs()),
        ensures
            forall|i: int|
                0 <= i < self.pairs().len() ==> self@.contains_key(#[trigger] self.pairs()[i].0)
                    && self@[self.pairs()[i].0] == self.pairs()[i].1,
            forall|k: Seq<char>| #[trigger]
                self@.contains_key(k) ==> exists|i: int|
                    0 <= i < self.pairs().len() && self.pairs()[i].0 == k,
    {
        let p = self.pairs();
        assert forall|i: int| 0 <= i < p.len() implies self@.contains_key(#[trigger] p[i].0)
            && self@[p[i].0] == p[i].1 by {
            lemma_lookup_sorted(p, p[i].0, i);
        }
        assert forall|k: Seq<char>| #[trigger] self@.contains_key(k) implies exists|i: int|
            0 <= i < p.len() && p[i].0 == k by {
            lemma_sorted_lookup_cases(p, k);
        }
    }
}

impl Clone for AttributeMap {
    fn clone(&self) -> (r: Self)
        ensures
            r@ == self@,
            r.pairs() == self.pairs(),
    {
        proof {
            use_type_invariant(self);
        }
        let mut entries: Vec<(String, String)> = Vec::new();
        let mut i: usize = 0;
        while i < self.entries.len()
            invariant
                i <= self.entries@.len(),
                entries@.len() == i,
                forall|j: int| 0 <= j < i ==> #[trigger] entries@[j] == self.entries@[j],
            decreases self.entries@.len() - i,
        {
            entries.push((self.entries[i].0.clone(), self.entries[i].1.clone()));
            i = i + 1;
        }
        assert(entries@ =~= self.entries@);
        AttributeMap { entries }
    }
}

impl View for AttributeMap {
    type V = Map<Seq<char>, Seq<char>>;

    closed spec fn view(&self) -> Map<Seq<char>, Seq<char>> {
        pairs_to_map(self.pairs())
    }
}

} // verus!
