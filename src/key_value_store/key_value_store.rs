use crate::key_value_store::key_value_pair::KeyValuePair;
use crate::proto::{
    KeyValuePair as PairMsg, KeyValueStoreMsg, PairView, decode_store_msg, encode_store_msg,
    lemma_store_msg_round_trip, pairs_view, read_store_msg, store_msg_bytes,
};
use vstd::prelude::*;
use vstd::string::*;

verus! {

/// The mapping that a list of pairs stands for: each pair in turn sets its
/// key, so of two pairs with one key the later one wins.
pub open spec fn entries_map(s: Seq<PairView>) -> Map<Seq<char>, Seq<char>>
    decreases s.len(),
{
    if s.len() == 0 {
        Map::empty()
    } else {
        entries_map(s.drop_last()).insert(s.last().0, s.last().1)
    }
}

/// No key occurs twice in `s`.
pub open spec fn keys_unique(s: Seq<PairView>) -> bool {
    forall|i: int, j: int| 0 <= i < s.len() && 0 <= j < s.len() && i != j ==> s[i].0 != s[j].0
}

proof fn lemma_entries_dom(s: Seq<PairView>, k: Seq<char>)
    ensures
        entries_map(s).contains_key(k) <==> exists|i: int| 0 <= i < s.len() && s[i].0 == k,
    decreases s.len(),
{
    if s.len() > 0 {
        let t = s.drop_last();
        let n = s.len() - 1;
        assert(entries_map(s) == entries_map(t).insert(s[n].0, s[n].1));
        lemma_entries_dom(t, k);
        if entries_map(s).contains_key(k) {
            if k == s[n].0 {
                assert(0 <= n < s.len() && s[n].0 == k);
            } else {
                let i = choose|i: int| 0 <= i < t.len() && t[i].0 == k;
                assert(s[i] == t[i]);
            }
        }
        if exists|i: int| 0 <= i < s.len() && s[i].0 == k {
            let i = choose|i: int| 0 <= i < s.len() && s[i].0 == k;
            if i < n {
                assert(t[i] == s[i]);
            }
        }
    }
}

proof fn lemma_entries_value(s: Seq<PairView>, i: int)
    requires
        keys_unique(s),
        0 <= i < s.len(),
    ensures
        entries_map(s).contains_key(s[i].0),
        entries_map(s)[s[i].0] == s[i].1,
    decreases s.len(),
{
    let t = s.drop_last();
    let n = s.len() - 1;
    assert(entries_map(s) == entries_map(t).insert(s[n].0, s[n].1));
    if i < n {
        assert(keys_unique(t)) by {
            assert forall|a: int, b: int|
                0 <= a < t.len() && 0 <= b < t.len() && a != b implies t[a].0 != t[b].0 by {
                assert(t[a] == s[a] && t[b] == s[b]);
            }
        }
        assert(t[i] == s[i]);
        lemma_entries_value(t, i);
    }
}

/// With each key once, the pairs stand for exactly the mapping `m` that
/// holds each of them and no other key.
proof fn lemma_entries_equal(s: Seq<PairView>, m: Map<Seq<char>, Seq<char>>)
    requires
        keys_unique(s),
        forall|i: int| 0 <= i < s.len() ==> #[trigger] m.contains_key(s[i].0) && m[s[i].0] == s[i].1,
        forall|k: Seq<char>| #[trigger] m.contains_key(k) ==> exists|i: int| 0 <= i < s.len() && s[i].0 == k,
    ensures
        entries_map(s) == m,
{
    assert forall|k: Seq<char>| #[trigger] entries_map(s).contains_key(k) <==> m.contains_key(k) by {
        lemma_entries_dom(s, k);
        if entries_map(s).contains_key(k) {
            let i = choose|i: int| 0 <= i < s.len() && s[i].0 == k;
            assert(m.contains_key(s[i].0));
        }
    }
    assert forall|k: Seq<char>| #[trigger] m.contains_key(k) implies entries_map(s)[k] == m[k] by {
        let i = choose|i: int| 0 <= i < s.len() && s[i].0 == k;
        lemma_entries_value(s, i);
        assert(m.contains_key(s[i].0));
    }
    assert(entries_map(s) =~= m);
}

/// What `add` does: it inserts the pair only when its key is absent, and
/// says whether it did.
pub open spec fn add_spec(
    before: Map<Seq<char>, Seq<char>>,
    p: PairView,
    r: bool,
    after: Map<Seq<char>, Seq<char>>,
) -> bool {
    &&& r == !before.contains_key(p.0)
    &&& after == if r {
        before.insert(p.0, p.1)
    } else {
        before
    }
}

/// What `update` does: it sets the key to the value, present or not.
pub open spec fn update_spec(
    before: Map<Seq<char>, Seq<char>>,
    p: PairView,
    after: Map<Seq<char>, Seq<char>>,
) -> bool {
    after == before.insert(p.0, p.1)
}

/// What `delete` does: it removes the key and says whether it was there.
pub open spec fn delete_spec(
    before: Map<Seq<char>, Seq<char>>,
    k: Seq<char>,
    r: bool,
    after: Map<Seq<char>, Seq<char>>,
) -> bool {
    &&& r == before.contains_key(k)
    &&& after == before.remove(k)
}

/// The pairs of a listing, as the wire carries them.
pub open spec fn listed_view(s: Seq<(String, String)>) -> Seq<PairView> {
    s.map_values(|e: (String, String)| (e.0@, e.1@))
}

/// A store: a name and a mapping from keys to values, each key once.
#[derive(Debug, Clone)]
pub struct KeyValueStore {
    name_: String,
    pairs_: Vec<KeyValuePair>,
}

impl View for KeyValueStore {
    type V = Map<Seq<char>, Seq<char>>;

    closed spec fn view(&self) -> Map<Seq<char>, Seq<char>> {
        entries_map(self.entries())
    }
}

impl KeyValueStore {
    /// The pairs as the store keeps them.
    pub closed spec fn entries(&self) -> Seq<PairView> {
        self.pairs_@.map_values(|p: KeyValuePair| p@)
    }

    pub closed spec fn spec_name(&self) -> Seq<char> {
        self.name_@
    }

    /// Each key occurs once among the pairs.
    pub closed spec fn wf(&self) -> bool {
        keys_unique(self.entries())
    }

    pub fn new(name: &str) -> (r: KeyValueStore)
        ensures
            r.wf(),
            r@ == Map::<Seq<char>, Seq<char>>::empty(),
            r.spec_name() == name@,
    {
        let r = KeyValueStore { name_: String::from_str(name), pairs_: Vec::new() };
        assert(r.entries() =~= Seq::<PairView>::empty());
        r
    }

    /// Where `key` sits among the pairs.
    fn find(&self, key: &str) -> (r: Option<usize>)
        ensures
            match r {
                Some(i) => i < self.entries().len() && self.entries()[i as int].0 == key@,
                None => forall|i: int|
                    0 <= i < self.entries().len() ==> self.entries()[i].0 != key@,
            },
    {
        let wanted = String::from_str(key);
        let mut i: usize = 0;
        while i < self.pairs_.len()
            invariant
                i <= self.pairs_@.len(),
                wanted@ == key@,
                forall|j: int| 0 <= j < i ==> self.entries()[j].0 != key@,
            decreases self.pairs_@.len() - i,
        {
            assert(self.entries()[i as int] == self.pairs_@[i as int]@);
            if self.pairs_[i].has_key(&wanted) {
                return Some(i);
            }
            i = i + 1;
        }
        None
    }

    pub fn get(&self, key: &str) -> (r: Option<KeyValuePair>)
        requires
            self.wf(),
        ensures
            r is Some <==> self@.contains_key(key@),
            r matches Some(p) ==> p@ == (key@, self@[key@]),
    {
        proof {
            lemma_entries_dom(self.entries(), key@);
        }
        match self.find(key) {
            Some(i) => {
                let p = &self.pairs_[i];
                assert(self.entries()[i as int] == p@);
                proof {
                    lemma_entries_value(self.entries(), i as int);
                }
                Some(KeyValuePair::new(key, p.value()))
            },
            None => None,
        }
    }

    pub fn add(&mut self, pair: KeyValuePair) -> (r: bool)
        requires
            old(self).wf(),
        ensures
            final(self).wf(),
            add_spec(old(self)@, pair@, r, final(self)@),
            final(self).spec_name() == old(self).spec_name(),
    {
        proof {
            lemma_entries_dom(self.entries(), pair@.0);
        }
        match self.find(pair.key()) {
            Some(_) => false,
            None => {
                let ghost before = self.entries();
                self.pairs_.push(pair);
                proof {
                    assert(self.entries() =~= before.push(pair@));
                    assert(self.entries().drop_last() =~= before);
                    let after = self.entries();
                    assert forall|a: int, b: int|
                        0 <= a < after.len() && 0 <= b < after.len() && a != b implies after[a].0
                        != after[b].0 by {
                        if a < before.len() {
                            assert(after[a] == before[a]);
                        }
                        if b < before.len() {
                            assert(after[b] == before[b]);
                        }
                    }
                }
                true
            },
        }
    }

    pub fn update(&mut self, pair: KeyValuePair)
        requires
            old(self).wf(),
        ensures
            final(self).wf(),
            update_spec(old(self)@, pair@, final(self)@),
            final(self).spec_name() == old(self).spec_name(),
    {
        let ghost before = self.entries();
        let ghost k = pair@.0;
        proof {
            lemma_entries_dom(before, k);
        }
        match self.find(pair.key()) {
            Some(i) => {
                self.pairs_.set(i, pair);
                proof {
                    let after = self.entries();
                    assert(after =~= before.update(i as int, pair@));
                    assert forall|a: int, b: int|
                        0 <= a < after.len() && 0 <= b < after.len() && a != b implies after[a].0
                        != after[b].0 by {
                        if a != i {
                            assert(after[a] == before[a]);
                        }
                        if b != i {
                            assert(after[b] == before[b]);
                        }
                    }
                    let m = old(self)@.insert(k, pair@.1);
                    assert forall|j: int| 0 <= j < after.len() implies #[trigger] m.contains_key(
                        after[j].0,
                    ) && m[after[j].0] == after[j].1 by {
                        if j != i {
                            assert(after[j] == before[j]);
                            lemma_entries_value(before, j);
                        }
                    }
                    assert forall|key: Seq<char>| #[trigger] m.contains_key(key) implies exists|
                        j: int,
                    | 0 <= j < after.len() && after[j].0 == key by {
                        if key == k {
                            assert(after[i as int].0 == key);
                        } else {
                            lemma_entries_dom(before, key);
                            let j = choose|j: int| 0 <= j < before.len() && before[j].0 == key;
                            assert(after[j] == before[j]);
                        }
                    }
                    lemma_entries_equal(after, m);
                }
            },
            None => {
                self.pairs_.push(pair);
                proof {
                    let after = self.entries();
                    assert(after =~= before.push(pair@));
                    assert(after.drop_last() =~= before);
                    assert forall|a: int, b: int|
                        0 <= a < after.len() && 0 <= b < after.len() && a != b implies after[a].0
                        != after[b].0 by {
                        if a < before.len() {
                            assert(after[a] == before[a]);
                        }
                        if b < before.len() {
                            assert(after[b] == before[b]);
                        }
                    }
                }
            },
        }
    }

    pub fn delete(&mut self, key: &str) -> (r: bool)
        requires
            old(self).wf(),
        ensures
            final(self).wf(),
            delete_spec(old(self)@, key@, r, final(self)@),
            final(self).spec_name() == old(self).spec_name(),
    {
        let ghost before = self.entries();
        proof {
            lemma_entries_dom(before, key@);
        }
        match self.find(key) {
            Some(i) => {
                self.pairs_.remove(i);
                proof {
                    let after = self.entries();
                    assert(after =~= before.remove(i as int));
                    assert forall|a: int, b: int|
                        0 <= a < after.len() && 0 <= b < after.len() && a != b implies after[a].0
                        != after[b].0 by {
                        let a2 = if a < i { a } else { a + 1 };
                        let b2 = if b < i { b } else { b + 1 };
                        assert(after[a] == before[a2] && after[b] == before[b2]);
                    }
                    let m = old(self)@.remove(key@);
                    assert forall|j: int| 0 <= j < after.len() implies #[trigger] m.contains_key(
                        after[j].0,
                    ) && m[after[j].0] == after[j].1 by {
                        let j2 = if j < i { j } else { j + 1 };
                        assert(after[j] == before[j2]);
                        lemma_entries_value(before, j2);
                    }
                    assert forall|k: Seq<char>| #[trigger] m.contains_key(k) implies exists|j: int|
                        0 <= j < after.len() && after[j].0 == k by {
                        lemma_entries_dom(before, k);
                        let j = choose|j: int| 0 <= j < before.len() && before[j].0 == k;
                        assert(j != i);
                        let j2 = if j < i { j } else { j - 1 };
                        assert(after[j2] == before[j]);
                    }
                    lemma_entries_equal(after, m);
                }
                true
            },
            None => {
                assert(old(self)@.remove(key@) =~= old(self)@);
                false
            },
        }
    }

    /// The bytes that `serialize` writes: the name, then each pair.
    pub closed spec fn serialized(&self) -> Seq<u8> {
        store_msg_bytes(self.name_@, self.entries())
    }

    /// The store as a message: its name and its pairs.
    pub fn data(&self) -> (r: KeyValueStoreMsg)
        ensures
            r.name@ == self.spec_name(),
            pairs_view(r.pairs@) == self.entries(),
    {
        let mut pairs: Vec<PairMsg> = Vec::new();
        let mut i: usize = 0;
        while i < self.pairs_.len()
            invariant
                i <= self.pairs_@.len(),
                pairs_view(pairs@) == self.entries().take(i as int),
            decreases self.pairs_@.len() - i,
        {
            let p = &self.pairs_[i];
            let m = PairMsg { key: String::from_str(p.key()), value: String::from_str(p.value()) };
            let ghost before = pairs@;
            pairs.push(m);
            proof {
                assert(self.entries()[i as int] == p@);
                assert(pairs_view(pairs@) =~= pairs_view(before).push(m@));
                assert(self.entries().take(i + 1) =~= self.entries().take(i as int).push(p@));
            }
            i = i + 1;
        }
        assert(self.entries().take(i as int) =~= self.entries());
        KeyValueStoreMsg { name: String::from_str(self.name_.as_str()), pairs }
    }

    /// A store named as the message, holding its pairs; of two pairs with one
    /// key the later one wins.
    pub fn from_msg(msg: KeyValueStoreMsg) -> (r: KeyValueStore)
        ensures
            r.wf(),
            r.spec_name() == msg.name@,
            r@ == entries_map(pairs_view(msg.pairs@)),
    {
        let mut store = KeyValueStore::new(msg.name.as_str());
        let ghost ps = pairs_view(msg.pairs@);
        let mut i: usize = 0;
        while i < msg.pairs.len()
            invariant
                i <= msg.pairs@.len(),
                ps == pairs_view(msg.pairs@),
                store.wf(),
                store.spec_name() == msg.name@,
                store@ == entries_map(ps.take(i as int)),
            decreases msg.pairs@.len() - i,
        {
            let m = &msg.pairs[i];
            store.update(KeyValuePair::new(m.key.as_str(), m.value.as_str()));
            proof {
                assert(ps[i as int] == m@);
                assert(ps.take(i + 1).drop_last() =~= ps.take(i as int));
            }
            i = i + 1;
        }
        assert(ps.take(i as int) =~= ps);
        store
    }

    /// The store's bytes: its name, then each pair.
    pub fn serialize(&self) -> (r: Vec<u8>)
        ensures
            r@ == self.serialized(),
    {
        let msg = self.data();
        encode_store_msg(msg.name.as_str(), &msg.pairs)
    }

    /// Reads a store back from bytes that `serialize` wrote; fails exactly
    /// on bytes that are no store message.
    pub fn deserialize(b: &[u8]) -> (r: Result<KeyValueStore, String>)
        ensures
            match r {
                Ok(s) => decode_store_msg(b@) matches Some((n, ps)) && s.wf() && s.spec_name() == n
                    && s@ == entries_map(ps),
                Err(_) => decode_store_msg(b@) is None,
            },
    {
        match read_store_msg(b) {
            Ok((name, pairs)) => Ok(KeyValueStore::from_msg(KeyValueStoreMsg { name, pairs })),
            Err(e) => Err(e),
        }
    }

    pub fn name(&self) -> (r: &str)
        ensures
            r@ == self.spec_name(),
    {
        self.name_.as_str()
    }

    /// Every pair of the store, each key once, in no particular order.
    pub fn all(&self) -> (r: Vec<(String, String)>)
        requires
            self.wf(),
        ensures
            keys_unique(listed_view(r@)),
            entries_map(listed_view(r@)) == self@,
    {
        let mut out: Vec<(String, String)> = Vec::new();
        let mut i: usize = 0;
        while i < self.pairs_.len()
            invariant
                i <= self.pairs_@.len(),
                listed_view(out@) == self.entries().take(
                    i as int,
                ),
            decreases self.pairs_@.len() - i,
        {
            let p = &self.pairs_[i];
            let k = String::from_str(p.key());
            let v = String::from_str(p.value());
            let ghost before = out@;
            out.push((k, v));
            proof {
                assert(self.entries()[i as int] == p@);
                assert(listed_view(out@) =~= listed_view(before).push((k@, v@)));
                assert(self.entries().take(i + 1) =~= self.entries().take(i as int).push(p@));
            }
            i = i + 1;
        }
        assert(self.entries().take(i as int) =~= self.entries());
        out
    }
}

impl From<KeyValueStoreMsg> for KeyValueStore {
    fn from(msg: KeyValueStoreMsg) -> KeyValueStore {
        KeyValueStore::from_msg(msg)
    }
}

impl vstd::std_specs::convert::FromSpecImpl<KeyValueStoreMsg> for KeyValueStore {
    open spec fn obeys_from_spec() -> bool {
        false
    }

    open spec fn from_spec(v: KeyValueStoreMsg) -> KeyValueStore {
        arbitrary()
    }
}

/// Serializing then deserializing a store gives back its name and its
/// mapping, whatever order its pairs were added in.
pub proof fn lemma_serialize_round_trip(store: KeyValueStore)
    requires
        store.serialized().len() <= usize::MAX,
    ensures
        decode_store_msg(store.serialized()) matches Some((n, ps)) && n == store.spec_name()
            && entries_map(ps) == store@,
{
    lemma_store_msg_round_trip(store.spec_name(), store.entries());
}

/// The pair that `get` hands out, as a key and a value.
pub open spec fn found_view(r: Option<KeyValuePair>) -> Option<PairView> {
    match r {
        Some(p) => Some(p@),
        None => None,
    }
}

/// Reading a key twice with no change in between gives equal results.
pub proof fn lemma_get_idempotent(
    store: &KeyValueStore,
    key: &str,
    r1: Option<KeyValuePair>,
    r2: Option<KeyValuePair>,
)
    requires
        store.wf(),
        call_ensures(KeyValueStore::get, (store, key), r1),
        call_ensures(KeyValueStore::get, (store, key), r2),
    ensures
        found_view(r1) == found_view(r2),
{
}

/// Adding a key twice keeps the first value: after `add(k, v1)` on a store
/// without `k`, `add(k, v2)` returns false and `get(k)` still gives `v1`.
pub proof fn lemma_add_keeps_first(
    s0: KeyValueStore,
    s1: KeyValueStore,
    s2: KeyValueStore,
    p1: KeyValuePair,
    p2: KeyValuePair,
    r1: bool,
    r2: bool,
    key: &str,
    got: Option<KeyValuePair>,
)
    requires
        s2.wf(),
        !s0@.contains_key(p1@.0),
        key@ == p1@.0,
        p2@.0 == p1@.0,
        add_spec(s0@, p1@, r1, s1@),
        add_spec(s1@, p2@, r2, s2@),
        call_ensures(KeyValueStore::get, (&s2, key), got),
    ensures
        r1,
        !r2,
        s2@ == s1@,
        found_view(got) == Some((p1@.0, p1@.1)),
{
}

/// Update is an upsert: on an absent key it inserts the pair, on a present
/// one it overwrites the value; other keys keep theirs.
pub proof fn lemma_update_upsert(
    s0: KeyValueStore,
    s1: KeyValueStore,
    p: PairView,
    key: &str,
    got: Option<KeyValuePair>,
)
    requires
        s1.wf(),
        key@ == p.0,
        update_spec(s0@, p, s1@),
        call_ensures(KeyValueStore::get, (&s1, key), got),
    ensures
        found_view(got) == Some(p),
        forall|k: Seq<char>| k != p.0 ==> (#[trigger] s1@.contains_key(k) <==> s0@.contains_key(k)),
        forall|k: Seq<char>| k != p.0 && s0@.contains_key(k) ==> #[trigger] s1@[k] == s0@[k],
{
}

/// Delete reports whether the key was there; afterwards `get` finds
/// nothing, and deleting an absent key changes nothing.
pub proof fn lemma_delete_then_get(
    s0: KeyValueStore,
    s1: KeyValueStore,
    key: &str,
    r: bool,
    got: Option<KeyValuePair>,
)
    requires
        s1.wf(),
        delete_spec(s0@, key@, r, s1@),
        call_ensures(KeyValueStore::get, (&s1, key), got),
    ensures
        r == s0@.contains_key(key@),
        got is None,
        !r ==> s1@ == s0@,
{
    if !r {
        assert(s0@.remove(key@) =~= s0@);
    }
}

} // verus!
