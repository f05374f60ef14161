//! A map keyed by strings that keeps its keys in ascending order.
use vstd::prelude::*;
use crate::text::{to_chars, chars_eq};

verus! {

/// Ascending order of strings: character by character, by code point,
/// a proper prefix first. This is the order `String`'s `Ord` gives.
pub open spec fn str_lt(a: Seq<char>, b: Seq<char>) -> bool
    decreases a.len(),
{
    if a.len() == 0 {
        b.len() > 0
    } else if b.len() == 0 {
        false
    } else if a[0] != b[0] {
        a[0] < b[0]
    } else {
        str_lt(a.drop_first(), b.drop_first())
    }
}

pub proof fn lemma_str_lt_irreflexive(a: Seq<char>)
    ensures
        !str_lt(a, a),
    decreases a.len(),
{
    if a.len() > 0 {
        lemma_str_lt_irreflexive(a.drop_first());
    }
}

pub proof fn lemma_str_lt_total(a: Seq<char>, b: Seq<char>)
    ensures
        a == b || str_lt(a, b) || str_lt(b, a),
        !(str_lt(a, b) && str_lt(b, a)),
    decreases a.len(),
{
    if a.len() > 0 && b.len() > 0 {
        lemma_str_lt_total(a.drop_first(), b.drop_first());
        if a[0] == b[0] && a.drop_first() == b.drop_first() {
            assert(a =~= seq![a[0]] + a.drop_first());
            assert(b =~= seq![b[0]] + b.drop_first());
        }

    } else if a.len() == 0 && b.len() == 0 {
        assert(a =~= b);
    }
}

pub proof fn lemma_str_lt_transitive(a: Seq<char>, b: Seq<char>, c: Seq<char>)
    requires
        str_lt(a, b),
        str_lt(b, c),
    ensures
        str_lt(a, c),
    decreases a.len(),
{
    if a.len() > 0 && b.len() > 0 && c.len() > 0 {
        if a[0] == b[0] && b[0] == c[0] {
            lemma_str_lt_transitive(a.drop_first(), b.drop_first(), c.drop_first());
        }
    }
}

/// Keys strictly ascending, hence pairwise distinct.
pub open spec fn keys_sorted<V>(p: Seq<(Seq<char>, V)>) -> bool {
    forall|i: int, j: int| 0 <= i < j < p.len() ==> str_lt(#[trigger] p[i].0, #[trigger] p[j].0)
}

/// The map that a sequence of pairs denotes; a later pair wins.
pub open spec fn pairs_map<V>(p: Seq<(Seq<char>, V)>) -> Map<Seq<char>, V>
    decreases p.len(),
{
    if p.len() == 0 {
        Map::empty()
    } else {
        pairs_map(p.drop_last()).insert(p.last().0, p.last().1)
    }
}

pub open spec fn pairs_of<V: View>(s: Seq<(String, V)>) -> Seq<(Seq<char>, V::V)> {
    s.map_values(|e: (String, V)| (e.0@, e.1@))
}

pub proof fn lemma_pairs_map<V>(p: Seq<(Seq<char>, V)>)
    requires
        keys_sorted(p),
    ensures
        forall|i: int|
            0 <= i < p.len() ==> #[trigger] pairs_map(p).contains_key(p[i].0) && pairs_map(p)[p[i].0]
                == p[i].1,
        forall|k: Seq<char>|
            #[trigger] pairs_map(p).contains_key(k) ==> exists|i: int| 0 <= i < p.len() && p[i].0 == k,
        pairs_map(p).dom().finite(),
        pairs_map(p).dom().len() == p.len(),
    decreases p.len(),
{
    if p.len() > 0 {
        let q = p.drop_last();
        assert forall|i: int, j: int| 0 <= i < j < q.len() implies str_lt(#[trigger] q[i].0, #[trigger] q[j].0) by {
            assert(q[i] == p[i] && q[j] == p[j]);
        }
        lemma_pairs_map(q);
        assert forall|i: int| 0 <= i < q.len() implies q[i].0 != p.last().0 by {
            assert(str_lt(p[i].0, p[p.len() - 1].0));
            lemma_str_lt_irreflexive(p[i].0);
        }
        assert forall|i: int| 0 <= i < p.len() implies #[trigger] pairs_map(p).contains_key(p[i].0) && pairs_map(p)[p[i].0]
            == p[i].1 by {
            if i < p.len() - 1 {
                assert(q[i] == p[i]);
            }
        }
        assert forall|k: Seq<char>| #[trigger] pairs_map(p).contains_key(k) implies exists|i: int| 0 <= i < p.len() && p[i].0 == k by {
            if k != p.last().0 {
                assert(pairs_map(q).contains_key(k));
                let i = choose|i: int| 0 <= i < q.len() && q[i].0 == k;
                assert(p[i] == q[i]);
            } else {
                assert(p[p.len() - 1].0 == k);
            }
        }
        assert(!pairs_map(q).contains_key(p.last().0)) by {
            if pairs_map(q).contains_key(p.last().0) {
                let i = choose|i: int| 0 <= i < q.len() && q[i].0 == p.last().0;
            }
        }
    }
}

/// A sorted pair sequence denotes exactly the map that agrees with it pair by pair.
pub proof fn lemma_pairs_map_ext<V>(q: Seq<(Seq<char>, V)>, m: Map<Seq<char>, V>)
    requires
        keys_sorted(q),
        forall|j: int| 0 <= j < q.len() ==> #[trigger] m.contains_key(q[j].0) && m[q[j].0] == q[j].1,
        forall|x: Seq<char>| #[trigger] m.contains_key(x) ==> exists|j: int| 0 <= j < q.len() && q[j].0 == x,
    ensures
        pairs_map(q) == m,
{
    lemma_pairs_map(q);
    assert forall|x: Seq<char>| #[trigger] pairs_map(q).contains_key(x) <==> m.contains_key(x) by {
        if pairs_map(q).contains_key(x) {
            let j = choose|j: int| 0 <= j < q.len() && q[j].0 == x;
            assert(m.contains_key(q[j].0));
        }
        if m.contains_key(x) {
            let j = choose|j: int| 0 <= j < q.len() && q[j].0 == x;
            assert(pairs_map(q).contains_key(q[j].0));
        }
    }
    assert forall|x: Seq<char>| #[trigger] pairs_map(q).contains_key(x) implies pairs_map(q)[x] == m[x] by {
        let j = choose|j: int| 0 <= j < q.len() && q[j].0 == x;
        assert(m.contains_key(q[j].0));
    }
    assert(pairs_map(q) =~= m);
}

proof fn lemma_sorted_prefix<V>(p: Seq<(Seq<char>, V)>)
    requires
        keys_sorted(p),
        p.len() > 0,
    ensures
        keys_sorted(p.drop_last()),
        !pairs_map(p.drop_last()).contains_key(p.last().0),
        pairs_map(p.drop_last()) =~= pairs_map(p).remove(p.last().0),
{
    let q = p.drop_last();
    assert forall|i: int, j: int| 0 <= i < j < q.len() implies str_lt(#[trigger] q[i].0, #[trigger] q[j].0) by {
        assert(q[i] == p[i] && q[j] == p[j]);
    }
    lemma_pairs_map(q);
    if pairs_map(q).contains_key(p.last().0) {
        let i = choose|i: int| 0 <= i < q.len() && q[i].0 == p.last().0;
        assert(str_lt(p[i].0, p[p.len() - 1].0));
        lemma_str_lt_irreflexive(p[i].0);
    }
}

/// A map has one sorted pair sequence: two sorted sequences that denote the
/// same map are equal.
pub proof fn lemma_sorted_pairs_unique<V>(q1: Seq<(Seq<char>, V)>, q2: Seq<(Seq<char>, V)>)
    requires
        keys_sorted(q1),
        keys_sorted(q2),
        pairs_map(q1) == pairs_map(q2),
    ensures
        q1 == q2,
    decreases q1.len(),
{
    lemma_pairs_map(q1);
    lemma_pairs_map(q2);
    if q1.len() == 0 {
        assert(q2.len() == 0);
        assert(q1 =~= q2);
    } else {
        let n = q1.len() - 1;
        assert(q2.len() == q1.len());
        let k1 = q1.last().0;
        let k2 = q2.last().0;
        if k1 != k2 {
            assert(pairs_map(q2).contains_key(q2[n].0));
            let i = choose|i: int| 0 <= i < q1.len() && q1[i].0 == k2;
            assert(pairs_map(q1).contains_key(q1[n].0));
            let j = choose|j: int| 0 <= j < q2.len() && q2[j].0 == k1;
            assert(i != n);
            assert(j != n);
            assert(str_lt(q1[i].0, q1[n].0));
            assert(str_lt(q2[j].0, q2[n].0));
            lemma_str_lt_total(k1, k2);
        }
        assert(pairs_map(q1)[q1[n].0] == q1[n].1);
        assert(pairs_map(q2)[q2[n].0] == q2[n].1);
        lemma_sorted_prefix(q1);
        lemma_sorted_prefix(q2);
        lemma_sorted_pairs_unique(q1.drop_last(), q2.drop_last());
        assert(q1 =~= q1.drop_last().push(q1.last()));
        assert(q2 =~= q2.drop_last().push(q2.last()));
    }
}

/// Exec form of [`str_lt`].
pub fn chars_lt(a: &[char], b: &[char]) -> (r: bool)
    ensures
        r == str_lt(a@, b@),
{
    let mut i: usize = 0;
    assert(a@.skip(0) =~= a@);
    assert(b@.skip(0) =~= b@);
    while i < a.len() && i < b.len() && a[i] == b[i]
        invariant
            i <= a@.len(),
            i <= b@.len(),
            str_lt(a@, b@) == str_lt(a@.skip(i as int), b@.skip(i as int)),
        decreases a@.len() - i,
    {
        assert(a@.skip(i as int).drop_first() =~= a@.skip(i + 1));
        assert(b@.skip(i as int).drop_first() =~= b@.skip(i + 1));
        i += 1;
    }
    if i == a.len() {
        i < b.len()
    } else if i == b.len() {
        false
    } else {
        a[i] < b[i]
    }
}

/// A string-keyed map whose entries stay in ascending key order.
#[derive(Debug, PartialEq, Eq)]
pub struct StrMap<V: View> {
    entries: Vec<(String, V)>,
}

impl<V: View> View for StrMap<V> {
    type V = Map<Seq<char>, V::V>;

    closed spec fn view(&self) -> Map<Seq<char>, V::V> {
        pairs_map(self.pairs())
    }
}

impl<V: View> StrMap<V> {
    /// The entries, in ascending key order.
    pub closed spec fn pairs(self) -> Seq<(Seq<char>, V::V)> {
        pairs_of(self.entries@)
    }

    #[verifier::type_invariant]
    closed spec fn sorted_keys(self) -> bool {
        keys_sorted(self.pairs())
    }

    /// An empty map.
    pub fn new() -> (m: Self)
        ensures
            m.pairs() == Seq::<(Seq<char>, V::V)>::empty(),
            m@ == Map::<Seq<char>, V::V>::empty(),
    {
        let m = StrMap { entries: Vec::new() };
        assert(m.pairs() =~= Seq::<(Seq<char>, V::V)>::empty());
        m
    }

    /// The entries in ascending key order.
    pub fn entries(&self) -> (r: &Vec<(String, V)>)
        ensures
            pairs_of(r@) == self.pairs(),
            keys_sorted(self.pairs()),
            self@ == pairs_map(self.pairs()),
    {
        proof {
            use_type_invariant(self);
        }
        &self.entries
    }

    pub fn len(&self) -> (n: usize)
        ensures
            n == self.pairs().len(),
            n == self@.len(),
    {
        proof {
            use_type_invariant(self);
            lemma_pairs_map(self.pairs());
        }
        self.entries.len()
    }

    pub fn is_empty(&self) -> (b: bool)
        ensures
            b == (self.pairs().len() == 0),
            b == (self@ == Map::<Seq<char>, V::V>::empty()),
    {
        proof {
            use_type_invariant(self);
            lemma_pairs_map(self.pairs());
            if self.pairs().len() > 0 {
                assert(self@.contains_key(self.pairs()[0].0));
            } else {
                assert(self@ =~= Map::<Seq<char>, V::V>::empty());
            }
        }
        self.entries.len() == 0
    }

    /// Position of `key` among the entries, if present.
    fn position(&self, key: &[char]) -> (r: Option<usize>)
        ensures
            match r {
                Some(i) => i < self.pairs().len() && self.pairs()[i as int].0 == key@,
                None => forall|i: int| 0 <= i < self.pairs().len() ==> self.pairs()[i].0 != key@,
            },
    {
        let mut i: usize = 0;
        while i < self.entries.len()
            invariant
                i <= self.entries@.len(),
                forall|k: int| 0 <= k < i ==> self.pairs()[k].0 != key@,
            decreases self.entries@.len() - i,
        {
            let kc = to_chars(self.entries[i].0.as_str());
            if chars_eq(kc.as_slice(), key) {
                return Some(i);
            }
            i += 1;
        }
        None
    }

    /// The value stored under `key`.
    pub fn get(&self, key: &str) -> (r: Option<&V>)
        ensures
            match r {
                Some(v) => self@.contains_key(key@) && v@ == self@[key@],
                None => !self@.contains_key(key@),
            },
    {
        proof {
            use_type_invariant(self);
            lemma_pairs_map(self.pairs());
        }
        let kc = to_chars(key);
        match self.position(kc.as_slice()) {
            Some(i) => {
                assert(self.pairs()[i as int] == (self.entries@[i as int].0@, self.entries@[i as int].1@));
                assert(pairs_map(self.pairs()).contains_key(self.pairs()[i as int].0));
                assert(self.pairs()[i as int].0 == key@);
                Some(&self.entries[i].1)
            },
            None => None,
        }
    }

    /// Stores `value` under `key`, replacing any earlier value.
    pub fn insert(&mut self, key: String, value: V)
        ensures
            final(self)@ == old(self)@.insert(key@, value@),
    {
        proof {
            use_type_invariant(&*self);
            lemma_pairs_map(self.pairs());
        }
        let ghost p = self.pairs();
        let ghost m = self@;
        let kc = to_chars(key.as_str());
        let mut e: Vec<(String, V)> = Vec::new();
        std::mem::swap(&mut e, &mut self.entries);
        assert(pairs_of(e@) == p);
        let mut i: usize = 0;
        while i < e.len() && chars_lt(to_chars(e[i].0.as_str()).as_slice(), kc.as_slice())
            invariant
                pairs_of(e@) == p,
                i <= e@.len(),
                kc@ == key@,
                forall|j: int| 0 <= j < i ==> str_lt(#[trigger] p[j].0, key@),
            decreases e@.len() - i,
        {
            assert(p[i as int].0 == e@[i as int].0@);
            i += 1;
        }
        let ghost k = key@;
        let ghost v = value@;
        let found = i < e.len() && chars_eq(to_chars(e[i].0.as_str()).as_slice(), kc.as_slice());
        if found {
            let _ = e.remove(i);
            e.insert(i, (key, value));
            proof {
                let q = pairs_of(e@);
                assert(q =~= p.update(i as int, (k, v)));
                assert(keys_sorted(q)) by {
                    assert forall|a: int, b: int| 0 <= a < b < q.len() implies str_lt(#[trigger] q[a].0, #[trigger] q[b].0) by {
                        assert(q[a].0 == p[a].0 && q[b].0 == p[b].0);
                    }
                }
                assert forall|x: Seq<char>| #[trigger] m.insert(k, v).contains_key(x) implies exists|j: int| 0 <= j < q.len() && q[j].0 == x by {
                    if x == k {
                        assert(q[i as int].0 == x);
                    } else {
                        let j = choose|j: int| 0 <= j < p.len() && p[j].0 == x;
                        assert(q[j].0 == x);
                    }
                }
                assert forall|j: int| 0 <= j < q.len() implies #[trigger] m.insert(k, v).contains_key(q[j].0) && m.insert(k, v)[q[j].0] == q[j].1 by {
                    if j != i {
                        assert(q[j] == p[j]);
                        if p[j].0 == k {
                            assert(str_lt(p[j].0, p[i as int].0) || str_lt(p[i as int].0, p[j].0));
                            lemma_str_lt_irreflexive(k);
                        }
                    }
                }
                lemma_pairs_map_ext(q, m.insert(k, v));
            }
        } else {
            proof {
                if i < e@.len() {
                    assert(p[i as int].0 == e@[i as int].0@);
                    lemma_str_lt_total(p[i as int].0, k);
                }
            }
            e.insert(i, (key, value));
            proof {
                let q = pairs_of(e@);
                assert(q =~= p.insert(i as int, (k, v)));
                assert forall|j: int| i <= j < p.len() implies str_lt(k, #[trigger] p[j].0) by {
                    if j > i {
                        lemma_str_lt_transitive(k, p[i as int].0, p[j].0);
                    }
                }
                assert(keys_sorted(q)) by {
                    assert forall|a: int, b: int| 0 <= a < b < q.len() implies str_lt(#[trigger] q[a].0, #[trigger] q[b].0) by {
                        if b < i {
                            assert(q[a] == p[a] && q[b] == p[b]);
                        } else if b == i {
                            assert(q[a] == p[a]);
                        } else if a < i {
                            assert(q[a] == p[a] && q[b] == p[b - 1]);
                            lemma_str_lt_transitive(p[a].0, k, p[b - 1].0);
                        } else if a == i {
                            assert(q[b] == p[b - 1]);
                        } else {
                            assert(q[a] == p[a - 1] && q[b] == p[b - 1]);
                        }
                    }
                }
                assert forall|x: Seq<char>| #[trigger] m.insert(k, v).contains_key(x) implies exists|j: int| 0 <= j < q.len() && q[j].0 == x by {
                    if x == k {
                        assert(q[i as int].0 == x);
                    } else {
                        let j = choose|j: int| 0 <= j < p.len() && p[j].0 == x;
                        if j < i {
                            assert(q[j].0 == x);
                        } else {
                            assert(q[j + 1].0 == x);
                        }
                    }
                }
                assert forall|j: int| 0 <= j < q.len() implies #[trigger] m.insert(k, v).contains_key(q[j].0) && m.insert(k, v)[q[j].0] == q[j].1 by {
                    lemma_str_lt_irreflexive(k);
                    if j < i {
                        assert(q[j] == p[j]);
                        assert(str_lt(p[j].0, k));
                        assert(p[j].0 != k);
                        assert(pairs_map(p).contains_key(p[j].0));
                    } else if j > i {
                        assert(q[j] == p[j - 1]);
                        assert(str_lt(k, p[j - 1].0));
                        assert(p[j - 1].0 != k);
                        assert(pairs_map(p).contains_key(p[j - 1].0));
                    }
                }
                lemma_pairs_map_ext(q, m.insert(k, v));
            }
        }
        self.entries = e;
    }

    pub fn contains_key(&self, key: &str) -> (b: bool)
        ensures
            b == self@.contains_key(key@),
    {
        self.get(key).is_some()
    }
}

} // verus!
