//! An in-memory key-value namespace with exact lookup and ordered prefix scans.
use vstd::prelude::*;

verus! {

/// Strict lexicographic order on keys, character by character.
pub open spec fn key_lt(a: Seq<char>, b: Seq<char>) -> bool
    decreases a.len(),
{
    if b.len() == 0 {
        false
    } else if a.len() == 0 {
        true
    } else if a[0] < b[0] {
        true
    } else if a[0] == b[0] {
        key_lt(a.drop_first(), b.drop_first())
    } else {
        false
    }
}

/// Entries whose keys are in strictly ascending order (so keys are unique).
pub open spec fn strictly_sorted<V>(es: Seq<(Seq<char>, V)>) -> bool {
    forall|i: int, j: int| 0 <= i < j < es.len() ==> #[trigger] key_lt(es[i].0, es[j].0)
}

/// Whether some entry has key `k`.
pub open spec fn has_key<V>(es: Seq<(Seq<char>, V)>, k: Seq<char>) -> bool {
    exists|i: int| 0 <= i < es.len() && #[trigger] es[i].0 == k
}

/// A position of an entry with key `k`, where there is one.
pub open spec fn key_index<V>(es: Seq<(Seq<char>, V)>, k: Seq<char>) -> int {
    choose|i: int| 0 <= i < es.len() && #[trigger] es[i].0 == k
}

/// The value stored under `k`, if any.
pub open spec fn lookup<V>(es: Seq<(Seq<char>, V)>, k: Seq<char>) -> Option<V> {
    if has_key(es, k) {
        Some(es[key_index(es, k)].1)
    } else {
        None
    }
}

/// The keys that start with `p`, in the order of the entries.
pub open spec fn prefixed_keys<V>(es: Seq<(Seq<char>, V)>, p: Seq<char>) -> Seq<Seq<char>>
    decreases es.len(),
{
    if es.len() == 0 {
        Seq::empty()
    } else {
        let rest = prefixed_keys(es.drop_last(), p);
        if p.is_prefix_of(es.last().0) {
            rest.push(es.last().0)
        } else {
            rest
        }
    }
}

/// The first `limit` elements of `s`.
pub open spec fn capped<T>(s: Seq<T>, limit: nat) -> Seq<T> {
    if s.len() <= limit {
        s
    } else {
        s.subrange(0, limit as int)
    }
}

/// No key sorts before itself.
pub proof fn lemma_key_lt_irreflexive(a: Seq<char>)
    ensures
        !key_lt(a, a),
    decreases a.len(),
{
    if a.len() > 0 {
        lemma_key_lt_irreflexive(a.drop_first());
    }
}

/// The key order is transitive.
pub proof fn lemma_key_lt_transitive(a: Seq<char>, b: Seq<char>, c: Seq<char>)
    requires
        key_lt(a, b),
        key_lt(b, c),
    ensures
        key_lt(a, c),
    decreases a.len(),
{
    if a.len() > 0 && a[0] == b[0] && b[0] == c[0] {
        lemma_key_lt_transitive(a.drop_first(), b.drop_first(), c.drop_first());
    }
}

/// Of two distinct keys, one sorts before the other.
pub proof fn lemma_key_lt_total(a: Seq<char>, b: Seq<char>)
    ensures
        a == b || key_lt(a, b) || key_lt(b, a),
    decreases a.len(),
{
    if a.len() > 0 && b.len() > 0 && a[0] == b[0] {
        lemma_key_lt_total(a.drop_first(), b.drop_first());
        if a.drop_first() == b.drop_first() {
            assert(a =~= seq![a[0]] + a.drop_first());
            assert(b =~= seq![b[0]] + b.drop_first());
        }
    } else if a.len() == 0 && b.len() == 0 {
        assert(a =~= b);
    }
}

/// Keys that agree on their first `i` characters compare as their rests do.
proof fn lemma_key_lt_after_common(a: Seq<char>, b: Seq<char>, i: int)
    requires
        0 <= i <= a.len(),
        i <= b.len(),
        a.subrange(0, i) == b.subrange(0, i),
    ensures
        key_lt(a, b) == key_lt(a.subrange(i, a.len() as int), b.subrange(i, b.len() as int)),
    decreases i,
{
    if i > 0 {
        assert(a[0] == a.subrange(0, i)[0]);
        assert(b[0] == b.subrange(0, i)[0]);
        let a1 = a.drop_first();
        let b1 = b.drop_first();
        assert(a1.subrange(0, i - 1) =~= a.subrange(0, i).drop_first());
        assert(b1.subrange(0, i - 1) =~= b.subrange(0, i).drop_first());
        lemma_key_lt_after_common(a1, b1, i - 1);
        assert(a1.subrange(i - 1, a1.len() as int) =~= a.subrange(i, a.len() as int));
        assert(b1.subrange(i - 1, b1.len() as int) =~= b.subrange(i, b.len() as int));
    } else {
        assert(a.subrange(0, a.len() as int) =~= a);
        assert(b.subrange(0, b.len() as int) =~= b);
    }
}

/// The characters of `s`, in order.
pub fn chars_of(s: &str) -> (r: Vec<char>)
    ensures
        r@ == s@,
{
    let mut r: Vec<char> = Vec::new();
    for c in it: s.chars()
        invariant
            it.seq() == s@,
            r@ == s@.take(it.index() as int),
    {
        assert(s@.take(it.index() + 1) =~= s@.take(it.index() as int).push(c));
        r.push(c);
    }
    assert(r@ =~= s@);
    r
}

/// Compares two keys: negative, zero or positive as `a` sorts before, equal
/// to or after `b`.
pub fn compare_keys(a: &str, b: &str) -> (r: i8)
    ensures
        r < 0 <==> key_lt(a@, b@),
        r == 0 <==> a@ == b@,
        r > 0 <==> key_lt(b@, a@),
{
    proof {
        lemma_key_lt_total(a@, b@);
        lemma_key_lt_irreflexive(a@);
        if key_lt(a@, b@) && key_lt(b@, a@) {
            lemma_key_lt_transitive(a@, b@, a@);
        }
    }
    let av = chars_of(a);
    let bv = chars_of(b);
    let n = av.len();
    let m = bv.len();
    let mut i: usize = 0;
    while i < n && i < m
        invariant
            i <= n,
            i <= m,
            n == a@.len(),
            m == b@.len(),
            av@ == a@,
            bv@ == b@,
            a@.subrange(0, i as int) == b@.subrange(0, i as int),
        decreases n - i,
    {
        let x = av[i];
        let y = bv[i];
        if x != y {
            proof {
                lemma_key_lt_after_common(a@, b@, i as int);
                lemma_key_lt_after_common(b@, a@, i as int);
                assert(a@.subrange(i as int, n as int)[0] == x);
                assert(b@.subrange(i as int, m as int)[0] == y);
            }
            if x < y {
                return -1;
            } else {
                return 1;
            }
        }
        assert(a@.subrange(0, i + 1) =~= a@.subrange(0, i as int).push(x));
        assert(b@.subrange(0, i + 1) =~= b@.subrange(0, i as int).push(y));
        i += 1;
    }
    proof {
        lemma_key_lt_after_common(a@, b@, i as int);
        lemma_key_lt_after_common(b@, a@, i as int);
        if n == m {
            assert(a@ =~= a@.subrange(0, i as int));
            assert(b@ =~= b@.subrange(0, i as int));
        }
    }
    if n < m {
        -1
    } else if m < n {
        1
    } else {
        0
    }
}

/// Whether `p` is a prefix of `s`.
pub fn starts_with(s: &str, p: &str) -> (r: bool)
    ensures
        r == p@.is_prefix_of(s@),
{
    let pv = chars_of(p);
    let sv = chars_of(s);
    let n = pv.len();
    let m = sv.len();
    if n > m {
        return false;
    }
    let mut i: usize = 0;
    while i < n
        invariant
            i <= n,
            n <= m,
            n == p@.len(),
            m == s@.len(),
            pv@ == p@,
            sv@ == s@,
            forall|j: int| 0 <= j < i ==> p@[j] == s@[j],
        decreases n - i,
    {
        if pv[i] != sv[i] {
            return false;
        }
        i += 1;
    }
    assert(p@ =~= s@.subrange(0, n as int));
    true
}


/// In sorted entries, the value under the key of entry `i` is that entry's.
pub proof fn lemma_lookup_at<V>(es: Seq<(Seq<char>, V)>, i: int)
    requires
        strictly_sorted(es),
        0 <= i < es.len(),
    ensures
        lookup(es, es[i].0) == Some(es[i].1),
{
    let k = es[i].0;
    assert(has_key(es, k)) by {
        assert(es[i].0 == k);
    }
    let j = key_index(es, k);
    if j != i {
        lemma_key_lt_irreflexive(k);
        if j < i {
            assert(key_lt(es[j].0, es[i].0));
        } else {
            assert(key_lt(es[i].0, es[j].0));
        }
    }
}

/// Every key that a prefix scan yields is the key of some entry.
pub proof fn lemma_prefixed_key_stored<V>(es: Seq<(Seq<char>, V)>, p: Seq<char>, j: int)
    requires
        0 <= j < prefixed_keys(es, p).len(),
    ensures
        exists|i: int| 0 <= i < es.len() && #[trigger] es[i].0 == prefixed_keys(es, p)[j],
    decreases es.len(),
{
    let rest = prefixed_keys(es.drop_last(), p);
    if j < rest.len() {
        lemma_prefixed_key_stored(es.drop_last(), p, j);
        let i = choose|i: int| 0 <= i < es.drop_last().len() && #[trigger] es.drop_last()[i].0
            == rest[j];
        assert(es[i].0 == prefixed_keys(es, p)[j]);
    } else {
        assert(es[es.len() - 1].0 == prefixed_keys(es, p)[j]);
    }
}

/// A prefix scan yields keys of entries that start with the prefix.
pub proof fn lemma_prefixed_keys_sound<V>(es: Seq<(Seq<char>, V)>, p: Seq<char>, j: int)
    requires
        0 <= j < prefixed_keys(es, p).len(),
    ensures
        p.is_prefix_of(prefixed_keys(es, p)[j]),
        has_key(es, prefixed_keys(es, p)[j]),
    decreases es.len(),
{
    lemma_prefixed_key_stored(es, p, j);
    if j < prefixed_keys(es.drop_last(), p).len() {
        lemma_prefixed_keys_sound(es.drop_last(), p, j);
    }
}

/// A prefix scan yields every key that starts with the prefix.
pub proof fn lemma_prefixed_keys_complete<V>(es: Seq<(Seq<char>, V)>, p: Seq<char>, i: int)
    requires
        0 <= i < es.len(),
        p.is_prefix_of(es[i].0),
    ensures
        prefixed_keys(es, p).contains(es[i].0),
    decreases es.len(),
{
    let rest = prefixed_keys(es.drop_last(), p);
    if i < es.len() - 1 {
        lemma_prefixed_keys_complete(es.drop_last(), p, i);
        let j = choose|j: int| 0 <= j < rest.len() && rest[j] == es[i].0;
        assert(prefixed_keys(es, p)[j] == es[i].0);
    } else {
        assert(prefixed_keys(es, p)[rest.len() as int] == es[i].0);
    }
}

/// Over sorted entries, a prefix scan yields keys in ascending order.
pub proof fn lemma_prefixed_keys_sorted<V>(es: Seq<(Seq<char>, V)>, p: Seq<char>, a: int, b: int)
    requires
        strictly_sorted(es),
        0 <= a < b < prefixed_keys(es, p).len(),
    ensures
        key_lt(prefixed_keys(es, p)[a], prefixed_keys(es, p)[b]),
    decreases es.len(),
{
    let init = es.drop_last();
    let rest = prefixed_keys(init, p);
    assert(strictly_sorted(init)) by {
        assert forall|i: int, j: int| 0 <= i < j < init.len() implies #[trigger] key_lt(
            init[i].0,
            init[j].0,
        ) by {
            assert(key_lt(es[i].0, es[j].0));
        }
    }
    if b < rest.len() {
        lemma_prefixed_keys_sorted(init, p, a, b);
    } else {
        lemma_prefixed_key_stored(init, p, a);
        let m = choose|m: int| 0 <= m < init.len() && #[trigger] init[m].0 == rest[a];
        assert(key_lt(es[m].0, es[es.len() - 1].0));
    }
}

/// A namespace of entries keyed by strings, kept in ascending key order, as
/// a key-value store that offers exact lookup and lexicographic prefix scans.
pub struct KvNamespace<V> {
    entries: Vec<(String, V)>,
}

impl<V> View for KvNamespace<V> {
    type V = Seq<(Seq<char>, V)>;

    closed spec fn view(&self) -> Seq<(Seq<char>, V)> {
        Seq::new(self.entries@.len(), |i: int| (self.entries@[i].0@, self.entries@[i].1))
    }
}

impl<V> KvNamespace<V> {
    /// Well-formed: keys in strictly ascending order.
    pub open spec fn wf(&self) -> bool {
        strictly_sorted(self@)
    }

    /// The value stored under `k`, if any.
    pub open spec fn spec_get(&self, k: Seq<char>) -> Option<V> {
        lookup(self@, k)
    }

    /// An empty namespace.
    pub fn new() -> (r: Self)
        ensures
            r.wf(),
            r@ == Seq::<(Seq<char>, V)>::empty(),
            forall|k: Seq<char>| #[trigger] r.spec_get(k) is None,
    {
        let r = KvNamespace { entries: Vec::new() };
        assert(r@ =~= Seq::<(Seq<char>, V)>::empty());
        r
    }

    /// The position of the first entry whose key is not below `key`, and
    /// whether that entry's key is `key`.
    fn position(&self, key: &str) -> (r: (usize, bool))
        requires
            self.wf(),
        ensures
            r.0 <= self@.len(),
            forall|j: int| 0 <= j < r.0 ==> key_lt(#[trigger] self@[j].0, key@),
            r.0 < self@.len() ==> (r.1 <==> self@[r.0 as int].0 == key@),
            r.0 < self@.len() && !r.1 ==> key_lt(key@, self@[r.0 as int].0),
            r.0 == self@.len() ==> !r.1,
    {
        let mut i: usize = 0;
        while i < self.entries.len()
            invariant
                i <= self@.len(),
                self@.len() == self.entries@.len(),
                forall|j: int| 0 <= j < i ==> key_lt(#[trigger] self@[j].0, key@),
            decreases self.entries.len() - i,
        {
            let c = compare_keys(self.entries[i].0.as_str(), key);
            assert(self@[i as int].0 == self.entries@[i as int].0@);
            if c >= 0 {
                return (i, c == 0);
            }
            i += 1;
        }
        (i, false)
    }

    /// The value stored under `key`, if any.
    pub fn get(&self, key: &str) -> (r: Option<&V>)
        requires
            self.wf(),
        ensures
            match r {
                Some(v) => self.spec_get(key@) == Some(*v),
                None => self.spec_get(key@) is None,
            },
    {
        proof {
            lemma_key_lt_irreflexive(key@);
        }
        let (i, found) = self.position(key);
        if found {
            proof {
                lemma_lookup_at(self@, i as int);
            }
            Some(&self.entries[i].1)
        } else {
            proof {
                assert forall|j: int| 0 <= j < self@.len() implies #[trigger] self@[j].0 != key@ by {
                    if j >= i {
                        if j > i {
                            assert(key_lt(self@[i as int].0, self@[j].0));
                            lemma_key_lt_transitive(key@, self@[i as int].0, self@[j].0);
                        }
                    }
                }
            }
            None
        }
    }

    /// Stores `value` under `key`, replacing what was there.
    pub fn put(&mut self, key: String, value: V)
        requires
            old(self).wf(),
        ensures
            final(self).wf(),
            final(self).spec_get(key@) == Some(value),
            forall|k: Seq<char>|
                k != key@ ==> #[trigger] final(self).spec_get(k) == old(self).spec_get(k),
    {
        proof {
            lemma_key_lt_irreflexive(key@);
        }
        let ghost es = self@;
        let ghost kv = key@;
        let (i, found) = self.position(key.as_str());
        if found {
            self.entries.remove(i);
            self.entries.insert(i, (key, value));
        } else {
            self.entries.insert(i, (key, value));
        }
        let ghost ns = self@;
        proof {
            if found {
                assert(ns =~= es.update(i as int, (kv, value)));
            } else {
                assert(ns =~= es.insert(i as int, (kv, value)));
            }
            assert forall|a: int, b: int| 0 <= a < b < ns.len() implies #[trigger] key_lt(
                ns[a].0,
                ns[b].0,
            ) by {
                if found {
                    if a == i {
                        assert(key_lt(es[a].0, es[b].0));
                    } else if b == i {
                        assert(key_lt(es[a].0, es[b].0));
                    }
                } else {
                    if b == i {
                    } else if a == i {
                        if b - 1 > i {
                            assert(key_lt(es[i as int].0, es[b - 1].0));
                            lemma_key_lt_transitive(kv, es[i as int].0, es[b - 1].0);
                        }
                    } else if a < i && b > i {
                        assert(key_lt(es[a].0, es[b - 1].0));
                    } else if a > i {
                        assert(key_lt(es[a - 1].0, es[b - 1].0));
                    }
                }
            }
            assert(strictly_sorted(ns));
            lemma_lookup_at(ns, i as int);
            assert forall|k: Seq<char>| k != kv implies #[trigger] lookup(ns, k) == lookup(es, k) by {
                if has_key(es, k) {
                    let j = key_index(es, k);
                    lemma_lookup_at(es, j);
                    let nj = if found || j < i { j } else { j + 1 };
                    assert(ns[nj] == es[j]);
                    lemma_lookup_at(ns, nj);
                } else {
                    assert forall|j: int| 0 <= j < ns.len() implies #[trigger] ns[j].0 != k by {
                        if j != i {
                            let oj = if found || j < i { j } else { j - 1 };
                            assert(ns[j] == es[oj]);
                        }
                    }
                }
            }
        }
    }

    /// Removes the entry under `key`, if there is one.
    pub fn delete(&mut self, key: &str)
        requires
            old(self).wf(),
        ensures
            final(self).wf(),
            final(self).spec_get(key@) is None,
            forall|k: Seq<char>|
                k != key@ ==> #[trigger] final(self).spec_get(k) == old(self).spec_get(k),
    {
        proof {
            lemma_key_lt_irreflexive(key@);
        }
        let ghost es = self@;
        let ghost kv = key@;
        let (i, found) = self.position(key);
        if found {
            self.entries.remove(i);
        }
        let ghost ns = self@;
        proof {
            if found {
                assert(ns =~= es.remove(i as int));
            } else {
                assert(ns =~= es);
            }
            assert forall|a: int, b: int| 0 <= a < b < ns.len() implies #[trigger] key_lt(
                ns[a].0,
                ns[b].0,
            ) by {
                if found && a >= i {
                    assert(key_lt(es[a + 1].0, es[b + 1].0));
                } else if found && b >= i {
                    assert(key_lt(es[a].0, es[b + 1].0));
                } else {
                    assert(key_lt(es[a].0, es[b].0));
                }
            }
            assert(strictly_sorted(ns));
            assert forall|j: int| 0 <= j < ns.len() implies #[trigger] ns[j].0 != kv by {
                let oj = if found && j >= i { j + 1 } else { j };
                assert(ns[j] == es[oj]);
                if oj < i {
                } else if oj > i {
                    if i < es.len() {
                        assert(key_lt(es[i as int].0, es[oj].0));
                        if !found {
                            lemma_key_lt_transitive(kv, es[i as int].0, es[oj].0);
                        }
                    }
                } else {
                    assert(!found);
                }
            }
            assert forall|k: Seq<char>| k != kv implies #[trigger] lookup(ns, k) == lookup(es, k) by {
                if has_key(es, k) {
                    let j = key_index(es, k);
                    lemma_lookup_at(es, j);
                    let nj = if found && j > i { j - 1 } else { j };
                    assert(ns[nj] == es[j]);
                    lemma_lookup_at(ns, nj);
                } else {
                    assert forall|j: int| 0 <= j < ns.len() implies #[trigger] ns[j].0 != k by {
                        let oj = if found && j >= i { j + 1 } else { j };
                        assert(ns[j] == es[oj]);
                    }
                }
            }
        }
    }

    /// The first `limit` keys that start with `prefix`, in ascending order.
    pub fn list_prefix(&self, prefix: &str, limit: usize) -> (r: Vec<String>)
        requires
            self.wf(),
        ensures
            r@.map_values(|s: String| s@) == capped(prefixed_keys(self@, prefix@), limit as nat),
            r.len() <= limit,
            forall|j: int|
                0 <= j < r.len() ==> prefix@.is_prefix_of(#[trigger] r[j]@) && self.spec_get(
                    r[j]@,
                ) is Some,
            forall|a: int, b: int| 0 <= a < b < r.len() ==> key_lt(#[trigger] r[a]@, #[trigger] r[b]@),
            r.len() < limit ==> forall|k: Seq<char>|
                #[trigger] self.spec_get(k) is Some && prefix@.is_prefix_of(k) ==> exists|j: int|
                    0 <= j < r.len() && r[j]@ == k,
    {
        let mut r: Vec<String> = Vec::new();
        let mut i: usize = 0;
        while i < self.entries.len()
            invariant
                i <= self@.len(),
                self@.len() == self.entries@.len(),
                r@.map_values(|s: String| s@) == prefixed_keys(self@.subrange(0, i as int), prefix@),
            decreases self.entries.len() - i,
        {
            let ghost before = r@;
            assert(self@.subrange(0, i + 1).drop_last() =~= self@.subrange(0, i as int));
            if starts_with(self.entries[i].0.as_str(), prefix) {
                r.push(self.entries[i].0.clone());
                assert(r@.map_values(|s: String| s@) =~= before.map_values(|s: String| s@).push(
                    self@[i as int].0,
                ));
            }
            i += 1;
        }
        assert(self@.subrange(0, i as int) =~= self@);
        let ghost all = r@;
        r.truncate(limit);
        assert(r@.map_values(|s: String| s@) =~= capped(all.map_values(|s: String| s@), limit as nat));
        proof {
            let es = self@;
            let pk = prefixed_keys(es, prefix@);
            let rv = r@.map_values(|s: String| s@);
            assert forall|j: int| 0 <= j < r.len() implies prefix@.is_prefix_of(#[trigger] r[j]@)
                && self.spec_get(r[j]@) is Some by {
                assert(rv[j] == r[j]@);
                lemma_prefixed_keys_sound(es, prefix@, j);
            }
            assert forall|a: int, b: int| 0 <= a < b < r.len() implies key_lt(
                #[trigger] r[a]@,
                #[trigger] r[b]@,
            ) by {
                assert(rv[a] == r[a]@ && rv[b] == r[b]@);
                lemma_prefixed_keys_sorted(es, prefix@, a, b);
            }
            if r.len() < limit {
                assert(rv == pk);
                assert forall|k: Seq<char>| #[trigger]
                    self.spec_get(k) is Some && prefix@.is_prefix_of(k) implies exists|j: int|
                    0 <= j < r.len() && r[j]@ == k by {
                    let i = key_index(es, k);
                    lemma_prefixed_keys_complete(es, prefix@, i);
                    let j = choose|j: int| 0 <= j < pk.len() && pk[j] == k;
                    assert(rv[j] == r[j]@);
                }
            }
        }
        r
    }
}

} // verus!
