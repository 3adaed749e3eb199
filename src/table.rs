use vstd::prelude::*;
use vstd::utf8::{decode_utf8, encode_utf8, encode_utf8_decode_utf8};

verus! {

/// Strict lexicographic order on byte strings.
pub open spec fn bytes_lt(a: Seq<u8>, b: Seq<u8>) -> bool
    decreases a.len(),
{
    if a.len() == 0 {
        b.len() > 0
    } else if b.len() == 0 {
        false
    } else if a[0] != b[0] {
        a[0] < b[0]
    } else {
        bytes_lt(a.drop_first(), b.drop_first())
    }
}

/// The order in which the store walks string keys: by their UTF-8 bytes.
pub open spec fn key_lt(a: Seq<char>, b: Seq<char>) -> bool {
    bytes_lt(encode_utf8(a), encode_utf8(b))
}

pub proof fn lemma_bytes_lt_irreflexive(a: Seq<u8>)
    ensures
        !bytes_lt(a, a),
    decreases a.len(),
{
    if a.len() > 0 {
        lemma_bytes_lt_irreflexive(a.drop_first());
    }
}

pub proof fn lemma_bytes_lt_transitive(a: Seq<u8>, b: Seq<u8>, c: Seq<u8>)
    requires
        bytes_lt(a, b),
        bytes_lt(b, c),
    ensures
        bytes_lt(a, c),
    decreases a.len(),
{
    if a.len() > 0 && b.len() > 0 && c.len() > 0 && a[0] == b[0] && b[0] == c[0] {
        lemma_bytes_lt_transitive(a.drop_first(), b.drop_first(), c.drop_first());
    }
}

pub proof fn lemma_bytes_lt_total(a: Seq<u8>, b: Seq<u8>)
    requires
        a != b,
    ensures
        bytes_lt(a, b) || bytes_lt(b, a),
    decreases a.len(),
{
    if a.len() > 0 && b.len() > 0 && a[0] == b[0] {
        if a.drop_first() == b.drop_first() {
            assert(a =~= seq![a[0]] + a.drop_first());
            assert(b =~= seq![b[0]] + b.drop_first());
        }
        lemma_bytes_lt_total(a.drop_first(), b.drop_first());
    } else if a.len() == 0 && b.len() == 0 {
        assert(a =~= b);
    }
}

/// Past a common prefix of length `i`, the order is decided by the suffixes.
proof fn lemma_bytes_lt_common_prefix(a: Seq<u8>, b: Seq<u8>, i: int)
    requires
        0 <= i <= a.len(),
        i <= b.len(),
        a.subrange(0, i) == b.subrange(0, i),
    ensures
        bytes_lt(a, b) == bytes_lt(a.skip(i), b.skip(i)),
    decreases i,
{
    if i > 0 {
        assert(a[0] == a.subrange(0, i)[0]);
        assert(b[0] == b.subrange(0, i)[0]);
        assert(a.drop_first().subrange(0, i - 1) =~= a.subrange(0, i).drop_first());
        assert(b.drop_first().subrange(0, i - 1) =~= b.subrange(0, i).drop_first());
        lemma_bytes_lt_common_prefix(a.drop_first(), b.drop_first(), i - 1);
        assert(a.drop_first().skip(i - 1) =~= a.skip(i));
        assert(b.drop_first().skip(i - 1) =~= b.skip(i));
    } else {
        assert(a.skip(0) =~= a);
        assert(b.skip(0) =~= b);
    }
}

pub proof fn lemma_key_lt_irreflexive(a: Seq<char>)
    ensures
        !key_lt(a, a),
{
    lemma_bytes_lt_irreflexive(encode_utf8(a));
}

pub proof fn lemma_key_lt_transitive(a: Seq<char>, b: Seq<char>, c: Seq<char>)
    requires
        key_lt(a, b),
        key_lt(b, c),
    ensures
        key_lt(a, c),
{
    lemma_bytes_lt_transitive(encode_utf8(a), encode_utf8(b), encode_utf8(c));
}

pub proof fn lemma_key_lt_total(a: Seq<char>, b: Seq<char>)
    requires
        a != b,
    ensures
        key_lt(a, b) || key_lt(b, a),
{
    encode_utf8_decode_utf8(a);
    encode_utf8_decode_utf8(b);
    if encode_utf8(a) == encode_utf8(b) {
        assert(decode_utf8(encode_utf8(a)) == decode_utf8(encode_utf8(b)));
    }
    lemma_bytes_lt_total(encode_utf8(a), encode_utf8(b));
}

/// Compares two keys in the store's order.
pub fn key_less(a: &str, b: &str) -> (r: bool)
    ensures
        r == key_lt(a@, b@),
{
    let x = a.as_bytes();
    let y = b.as_bytes();
    let mut i: usize = 0;
    while i < x.len() && i < y.len() && x[i] == y[i]
        invariant
            x@ == encode_utf8(a@),
            y@ == encode_utf8(b@),
            i <= x@.len(),
            i <= y@.len(),
            x@.subrange(0, i as int) == y@.subrange(0, i as int),
        decreases x@.len() - i,
    {
        assert(x@.subrange(0, i + 1) =~= x@.subrange(0, i as int).push(x@[i as int]));
        assert(y@.subrange(0, i + 1) =~= y@.subrange(0, i as int).push(y@[i as int]));
        i = i + 1;
    }
    proof {
        lemma_bytes_lt_common_prefix(x@, y@, i as int);
    }
    if i == x.len() {
        i < y.len()
    } else if i == y.len() {
        false
    } else {
        assert(x@.skip(i as int)[0] == x@[i as int]);
        assert(y@.skip(i as int)[0] == y@[i as int]);
        x[i] < y[i]
    }
}

/// Tells whether two keys are the same string.
pub fn key_eq(a: &str, b: &str) -> (r: bool)
    ensures
        r == (a@ == b@),
{
    let lt = key_less(a, b);
    let gt = key_less(b, a);
    proof {
        if a@ == b@ {
            lemma_key_lt_irreflexive(a@);
        } else {
            lemma_key_lt_total(a@, b@);
        }
    }
    !lt && !gt
}

/// Keys strictly ascending in the store's order.
pub open spec fn sorted_keys<V>(s: Seq<(Seq<char>, V)>) -> bool {
    forall|i: int, j: int| 0 <= i < j < s.len() ==> key_lt(#[trigger] s[i].0, #[trigger] s[j].0)
}

pub open spec fn distinct_keys<V>(s: Seq<(Seq<char>, V)>) -> bool {
    forall|i: int, j: int| 0 <= i < s.len() && 0 <= j < s.len() && i != j ==> s[i].0 != s[j].0
}

/// The map that a sequence of entries with distinct keys stands for.
pub open spec fn entries_map<V>(s: Seq<(Seq<char>, V)>) -> Map<Seq<char>, V> {
    Map::new(
        |k: Seq<char>| exists|i: int| 0 <= i < s.len() && s[i].0 == k,
        |k: Seq<char>| s[choose|i: int| 0 <= i < s.len() && s[i].0 == k].1,
    )
}

pub proof fn lemma_sorted_distinct<V>(s: Seq<(Seq<char>, V)>)
    requires
        sorted_keys(s),
    ensures
        distinct_keys(s),
{
    assert forall|i: int, j: int|
        0 <= i < s.len() && 0 <= j < s.len() && i != j implies s[i].0 != s[j].0 by {
        lemma_key_lt_irreflexive(s[i].0);
    }
}

pub proof fn lemma_entries_map_at<V>(s: Seq<(Seq<char>, V)>, j: int)
    requires
        distinct_keys(s),
        0 <= j < s.len(),
    ensures
        entries_map(s).contains_key(s[j].0),
        entries_map(s)[s[j].0] == s[j].1,
{
    let k = s[j].0;
    assert(exists|i: int| 0 <= i < s.len() && s[i].0 == k);
    let c = choose|i: int| 0 <= i < s.len() && s[i].0 == k;
    assert(c == j);
}

/// An ordered map from string keys to values, walked in the store's key order.
pub struct Table<V> {
    entries: Vec<(String, V)>,
}

impl<V> View for Table<V> {
    type V = Seq<(Seq<char>, V)>;

    closed spec fn view(&self) -> Seq<(Seq<char>, V)> {
        self.entries@.map_values(|e: (String, V)| (e.0@, e.1))
    }
}

impl<V> Table<V> {
    pub open spec fn wf(&self) -> bool {
        sorted_keys(self@)
    }

    pub open spec fn map(&self) -> Map<Seq<char>, V> {
        entries_map(self@)
    }

    pub fn new() -> (r: Self)
        ensures
            r.wf(),
            r@ == Seq::<(Seq<char>, V)>::empty(),
            r.map() == Map::<Seq<char>, V>::empty(),
    {
        let r = Table { entries: Vec::new() };
        assert(r@ =~= Seq::<(Seq<char>, V)>::empty());
        assert(r.map() =~= Map::<Seq<char>, V>::empty());
        r
    }

    pub fn len(&self) -> (r: usize)
        ensures
            r == self@.len(),
    {
        self.entries.len()
    }

    pub fn key_at(&self, i: usize) -> (r: &String)
        requires
            i < self@.len(),
        ensures
            r@ == self@[i as int].0,
    {
        &self.entries[i].0
    }

    pub fn value_at(&self, i: usize) -> (r: &V)
        requires
            i < self@.len(),
        ensures
            *r == self@[i as int].1,
    {
        &self.entries[i].1
    }

    /// Tells whether the keys are strictly ascending, as every table built by `insert` is.
    pub fn is_ordered(&self) -> (r: bool)
        ensures
            r == self.wf(),
    {
        let mut i: usize = 1;
        if self.entries.len() == 0 {
            return true;
        }
        while i < self.entries.len()
            invariant
                1 <= i <= self@.len(),
                forall|a: int, b: int| 0 <= a < b < i ==> key_lt(#[trigger] self@[a].0, #[trigger] self@[b].0),
            decreases self@.len() - i,
        {
            let prev = self.entries[i - 1].0.as_str();
            let next = self.entries[i].0.as_str();
            assert(prev@ == self@[i - 1].0 && next@ == self@[i as int].0);
            if !key_less(prev, next) {
                return false;
            }
            proof {
                assert forall|a: int, b: int| 0 <= a < b < i + 1 implies key_lt(
                    #[trigger] self@[a].0,
                    #[trigger] self@[b].0,
                ) by {
                    if b == i && a < i - 1 {
                        lemma_key_lt_transitive(self@[a].0, self@[i - 1].0, self@[b].0);
                    }
                }
            }
            i = i + 1;
        }
        true
    }

    /// Where `k` stands (`Ok`) or would stand (`Err`) in key order.
    fn position(&self, k: &str) -> (r: Result<usize, usize>)
        requires
            self.wf(),
        ensures
            r matches Ok(i) ==> i < self@.len() && self@[i as int].0 == k@,
            r matches Err(i) ==> i <= self@.len() && (forall|j: int|
                0 <= j < i ==> key_lt(#[trigger] self@[j].0, k@)) && (forall|j: int|
                i <= j < self@.len() ==> key_lt(k@, #[trigger] self@[j].0)),
    {
        let mut i: usize = 0;
        while i < self.entries.len()
            invariant
                self.wf(),
                i <= self@.len(),
                forall|j: int| 0 <= j < i ==> key_lt(#[trigger] self@[j].0, k@),
            decreases self@.len() - i,
        {
            let key = self.entries[i].0.as_str();
            assert(key@ == self@[i as int].0);
            if key_less(key, k) {
                i = i + 1;
            } else if key_less(k, key) {
                proof {
                    assert forall|j: int| i <= j < self@.len() implies key_lt(
                        k@,
                        #[trigger] self@[j].0,
                    ) by {
                        if j > i {
                            lemma_key_lt_transitive(k@, self@[i as int].0, self@[j].0);
                        }
                    }
                }
                return Err(i);
            } else {
                proof {
                    if key@ != k@ {
                        lemma_key_lt_total(key@, k@);
                    }
                }
                return Ok(i);
            }
        }
        Err(i)
    }

    /// The value stored under `k`, if any.
    pub fn get(&self, k: &str) -> (r: Option<&V>)
        requires
            self.wf(),
        ensures
            r.is_some() == self.map().contains_key(k@),
            r matches Some(v) ==> *v == self.map()[k@],
    {
        proof {
            lemma_sorted_distinct(self@);
        }
        match self.position(k) {
            Ok(i) => {
                proof {
                    lemma_entries_map_at(self@, i as int);
                }
                Some(&self.entries[i].1)
            },
            Err(i) => {
                proof {
                    assert forall|j: int| 0 <= j < self@.len() implies self@[j].0 != k@ by {
                        lemma_key_lt_irreflexive(k@);
                    }
                }
                None
            },
        }
    }

    /// Stores `v` under `k`, replacing what was there.
    pub fn insert(&mut self, k: String, v: V)
        requires
            old(self).wf(),
        ensures
            final(self).wf(),
            final(self).map() == old(self).map().insert(k@, v),
    {
        let ghost s = self@;
        let ghost kv = k@;
        proof {
            lemma_sorted_distinct(s);
        }
        match self.position(k.as_str()) {
            Ok(i) => {
                self.entries.set(i, (k, v));
                proof {
                    assert(self@ =~= s.update(i as int, (kv, v)));
                    lemma_update_map(s, i as int, kv, v);
                }
            },
            Err(i) => {
                self.entries.insert(i, (k, v));
                proof {
                    assert(self@ =~= s.insert(i as int, (kv, v)));
                    assert forall|a: int, b: int| 0 <= a < b < self@.len() implies key_lt(
                        #[trigger] self@[a].0,
                        #[trigger] self@[b].0,
                    ) by {
                        if a < i && b > i {
                            lemma_key_lt_transitive(self@[a].0, kv, self@[b].0);
                        }
                    }
                    lemma_sorted_distinct(self@);
                    lemma_insert_map(s, i as int, kv, v);
                }
            },
        }
    }

    /// Takes out the value stored under `k`, if any.
    pub fn remove(&mut self, k: &str) -> (r: Option<V>)
        requires
            old(self).wf(),
        ensures
            final(self).wf(),
            final(self).map() == old(self).map().remove(k@),
            r.is_some() == old(self).map().contains_key(k@),
            r matches Some(v) ==> v == old(self).map()[k@],
    {
        let ghost s = self@;
        proof {
            lemma_sorted_distinct(s);
        }
        match self.position(k) {
            Ok(i) => {
                let (_, v) = self.entries.remove(i);
                proof {
                    assert(self@ =~= s.remove(i as int));
                    lemma_entries_map_at(s, i as int);
                    lemma_remove_map(s, i as int);
                }
                Some(v)
            },
            Err(i) => {
                proof {
                    assert forall|j: int| 0 <= j < s.len() implies s[j].0 != k@ by {
                        lemma_key_lt_irreflexive(k@);
                    }
                    assert(entries_map(s).remove(k@) =~= entries_map(s));
                }
                None
            },
        }
    }
}

/// A sequence of entries with distinct keys stands for `m` when each entry is in `m`
/// and each key of `m` has an entry.
pub proof fn lemma_entries_map_eq<V>(t: Seq<(Seq<char>, V)>, m: Map<Seq<char>, V>)
    requires
        distinct_keys(t),
        forall|j: int|
            0 <= j < t.len() ==> m.contains_key(#[trigger] t[j].0) && m[t[j].0] == t[j].1,
        forall|key: Seq<char>|
            #[trigger] m.contains_key(key) ==> exists|j: int| 0 <= j < t.len() && t[j].0 == key,
    ensures
        entries_map(t) == m,
{
    assert forall|key: Seq<char>| #[trigger] entries_map(t).contains_key(key) implies m.contains_key(
        key,
    ) && entries_map(t)[key] == m[key] by {
        let j = choose|j: int| 0 <= j < t.len() && t[j].0 == key;
        lemma_entries_map_at(t, j);
    }
    assert(entries_map(t) =~= m);
}

proof fn lemma_update_map<V>(s: Seq<(Seq<char>, V)>, i: int, k: Seq<char>, v: V)
    requires
        distinct_keys(s),
        0 <= i < s.len(),
        s[i].0 == k,
    ensures
        entries_map(s.update(i, (k, v))) == entries_map(s).insert(k, v),
{
    let t = s.update(i, (k, v));
    let m = entries_map(s).insert(k, v);
    assert forall|j: int| 0 <= j < t.len() implies m.contains_key(#[trigger] t[j].0) && m[t[j].0]
        == t[j].1 by {
        if j != i {
            lemma_entries_map_at(s, j);
        }
    }
    assert forall|key: Seq<char>| #[trigger] m.contains_key(key) implies exists|j: int|
        0 <= j < t.len() && t[j].0 == key by {
        if key != k {
            let j = choose|j: int| 0 <= j < s.len() && s[j].0 == key;
            assert(t[j].0 == key);
        } else {
            assert(t[i].0 == key);
        }
    }
    lemma_entries_map_eq(t, m);
}

proof fn lemma_insert_map<V>(s: Seq<(Seq<char>, V)>, i: int, k: Seq<char>, v: V)
    requires
        distinct_keys(s),
        distinct_keys(s.insert(i, (k, v))),
        0 <= i <= s.len(),
    ensures
        entries_map(s.insert(i, (k, v))) == entries_map(s).insert(k, v),
{
    let t = s.insert(i, (k, v));
    let m = entries_map(s).insert(k, v);
    assert forall|j: int| 0 <= j < t.len() implies m.contains_key(#[trigger] t[j].0) && m[t[j].0]
        == t[j].1 by {
        if j < i {
            lemma_entries_map_at(s, j);
            assert(t[j] == s[j]);
            assert(t[i].0 == k);
        } else if j > i {
            lemma_entries_map_at(s, j - 1);
            assert(t[j] == s[j - 1]);
            assert(t[i].0 == k);
        }
    }
    assert forall|key: Seq<char>| #[trigger] m.contains_key(key) implies exists|j: int|
        0 <= j < t.len() && t[j].0 == key by {
        if key != k {
            let j = choose|j: int| 0 <= j < s.len() && s[j].0 == key;
            if j < i {
                assert(t[j].0 == key);
            } else {
                assert(t[j + 1].0 == key);
            }
        } else {
            assert(t[i].0 == key);
        }
    }
    lemma_entries_map_eq(t, m);
}

proof fn lemma_remove_map<V>(s: Seq<(Seq<char>, V)>, i: int)
    requires
        distinct_keys(s),
        0 <= i < s.len(),
    ensures
        entries_map(s.remove(i)) == entries_map(s).remove(s[i].0),
{
    let t = s.remove(i);
    let m = entries_map(s).remove(s[i].0);
    assert forall|j: int| 0 <= j < t.len() implies m.contains_key(#[trigger] t[j].0) && m[t[j].0]
        == t[j].1 by {
        if j < i {
            lemma_entries_map_at(s, j);
            assert(t[j] == s[j]);
        } else {
            lemma_entries_map_at(s, j + 1);
            assert(t[j] == s[j + 1]);
        }
    }
    assert forall|key: Seq<char>| #[trigger] m.contains_key(key) implies exists|j: int|
        0 <= j < t.len() && t[j].0 == key by {
        let j = choose|j: int| 0 <= j < s.len() && s[j].0 == key;
        if j < i {
            assert(t[j].0 == key);
        } else {
            assert(t[j - 1].0 == key);
        }
    }
    assert(distinct_keys(t));
    lemma_entries_map_eq(t, m);
}

} // verus!
