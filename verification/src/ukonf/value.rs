//! The values a ukonf program computes: null, numbers, strings, booleans,
//! arrays and objects whose keys keep the order in which they were last
//! set.

use vstd::prelude::*;

use crate::text::str_eq;

verus! {

/// A number: an integer, or a float held as its IEEE-754 bit pattern.
#[derive(Debug, Copy, Clone, PartialEq, Eq)]
pub enum NumValue {
    Int(i64),
    Float(u64),
}

/// A ukonf value.
#[derive(Debug)]
pub enum UkonfValue {
    Null,
    Num(NumValue),
    Str(String),
    Bool(bool),
    Array(Vec<UkonfValue>),
    Object(UkonfObject),
}

/// An object: values by key, in the order their keys were last set.
#[derive(Debug)]
pub struct UkonfObject {
    /// The values, in the order they were set; a value whose key was set
    /// again later stays, but no key leads to it.
    map: Vec<UkonfValue>,
    /// Each key with the position of its current value.
    key_map: Vec<(String, usize)>,
}

/// The keys of `km` are distinct, each leads into `len` values, and no two
/// lead to the same one.
pub open spec fn key_map_wf(km: Seq<(String, usize)>, len: nat) -> bool {
    &&& forall|i: int| 0 <= i < km.len() ==> (#[trigger] km[i]).1 < len
    &&& forall|i: int, j: int| 0 <= i < j < km.len() ==> #[trigger] km[i].0@ != #[trigger] km[j].0@
    &&& forall|i: int, j: int| 0 <= i < j < km.len() ==> #[trigger] km[i].1 != #[trigger] km[j].1
}

/// The position in `km` of the key `k`, if any.
pub open spec fn key_pos(km: Seq<(String, usize)>, k: Seq<char>) -> Option<int> {
    if exists|i: int| 0 <= i < km.len() && (#[trigger] km[i]).0@ == k {
        Some(choose|i: int| 0 <= i < km.len() && (#[trigger] km[i]).0@ == k)
    } else {
        None
    }
}

/// The key that leads to the value at `idx`, if any.
pub open spec fn key_at(km: Seq<(String, usize)>, idx: int) -> Option<Seq<char>> {
    if exists|i: int| 0 <= i < km.len() && (#[trigger] km[i]).1 == idx {
        Some(km[choose|i: int| 0 <= i < km.len() && (#[trigger] km[i]).1 == idx].0@)
    } else {
        None
    }
}

/// The entries among the first `n` values, in order: each value that a key
/// leads to, with its key.
pub open spec fn entries_upto(map: Seq<UkonfValue>, km: Seq<(String, usize)>, n: nat) -> Seq<
    (Seq<char>, UkonfValue),
>
    decreases n,
{
    if n == 0 {
        Seq::empty()
    } else {
        entries_upto(map, km, (n - 1) as nat) + match key_at(km, n - 1) {
            Some(k) => seq![(k, map[n - 1])],
            None => Seq::empty(),
        }
    }
}

/// `s` without the entries of key `k`.
pub open spec fn without_key<V>(s: Seq<(Seq<char>, V)>, k: Seq<char>) -> Seq<(Seq<char>, V)>
    decreases s.len(),
{
    if s.len() == 0 {
        Seq::empty()
    } else {
        without_key(s.drop_last(), k) + if s.last().0 == k {
            Seq::empty()
        } else {
            seq![s.last()]
        }
    }
}

proof fn lemma_key_pos(km: Seq<(String, usize)>, len: nat, i: int)
    requires
        key_map_wf(km, len),
        0 <= i < km.len(),
    ensures
        key_pos(km, km[i].0@) == Some(i),
{
    let k = km[i].0@;
    assert(exists|j: int| 0 <= j < km.len() && (#[trigger] km[j]).0@ == k);
    let c = choose|j: int| 0 <= j < km.len() && (#[trigger] km[j]).0@ == k;
    if c < i {
        assert(km[c].0@ != km[i].0@);
    } else if i < c {
        assert(km[i].0@ != km[c].0@);
    }
}

proof fn lemma_key_at(km: Seq<(String, usize)>, len: nat, i: int)
    requires
        key_map_wf(km, len),
        0 <= i < km.len(),
    ensures
        key_at(km, km[i].1 as int) == Some(km[i].0@),
{
    let idx = km[i].1 as int;
    assert(exists|j: int| 0 <= j < km.len() && (#[trigger] km[j]).1 == idx);
    let c = choose|j: int| 0 <= j < km.len() && (#[trigger] km[j]).1 == idx;
    if c < i {
        assert(km[c].1 != km[i].1);
    } else if i < c {
        assert(km[i].1 != km[c].1);
    }
}

/// `km` with key `entry.0` set to `entry.1`: in place at `p` where the key
/// is there, appended where it is not (`p` is then the length).
pub open spec fn key_map_set(km: Seq<(String, usize)>, p: int, entry: (String, usize)) -> Seq<(String, usize)> {
    if p < km.len() {
        km.update(p, entry)
    } else {
        km.push(entry)
    }
}

/// Where `p` stands for key `k` in `km`: its position, or the length where
/// `km` lacks it.
pub open spec fn set_position(km: Seq<(String, usize)>, p: int, k: Seq<char>) -> bool {
    &&& 0 <= p <= km.len()
    &&& p < km.len() ==> km[p].0@ == k
    &&& p == km.len() ==> forall|j: int| 0 <= j < km.len() ==> (#[trigger] km[j]).0@ != k
}

/// Setting a key to a new last value keeps the key map well formed.
proof fn lemma_key_map_set_wf(km: Seq<(String, usize)>, len: nat, p: int, entry: (String, usize))
    requires
        key_map_wf(km, len),
        set_position(km, p, entry.0@),
        entry.1 == len,
    ensures
        key_map_wf(key_map_set(km, p, entry), len + 1),
{
    let km2 = key_map_set(km, p, entry);
    assert forall|i: int, j: int| 0 <= i < j < km2.len() implies #[trigger] km2[i].0@ != #[trigger] km2[j].0@ by {
        if i != p && j != p {
            assert(km2[i] == km[i] && km2[j] == km[j]);
        } else if i == p {
            assert(km2[j] == km[j]);
        } else {
            assert(km2[i] == km[i]);
        }
    }
    assert forall|i: int, j: int| 0 <= i < j < km2.len() implies #[trigger] km2[i].1 != #[trigger] km2[j].1 by {
        if i != p && j != p {
            assert(km2[i] == km[i] && km2[j] == km[j]);
        } else if i == p {
            assert(km2[j] == km[j]);
        } else {
            assert(km2[i] == km[i]);
        }
    }
    assert forall|i: int| 0 <= i < km2.len() implies (#[trigger] km2[i]).1 < len + 1 by {
        if i != p {
            assert(km2[i] == km[i]);
        }
    }
}

/// After setting key `k` to a new last value, the entries among the
/// values there were are those there were, without `k`'s.
proof fn lemma_entries_after_set(
    map: Seq<UkonfValue>,
    km: Seq<(String, usize)>,
    v: UkonfValue,
    p: int,
    entry: (String, usize),
    n: nat,
)
    requires
        key_map_wf(km, map.len()),
        set_position(km, p, entry.0@),
        entry.1 == map.len(),
        n <= map.len(),
    ensures
        entries_upto(map.push(v), key_map_set(km, p, entry), n) == without_key(entries_upto(map, km, n), entry.0@),
    decreases n,
{
    let map2 = map.push(v);
    let km2 = key_map_set(km, p, entry);
    let k = entry.0@;
    lemma_key_map_set_wf(km, map.len(), p, entry);
    if n > 0 {
        lemma_entries_after_set(map, km, v, p, entry, (n - 1) as nat);
        let idx = n - 1;
        let e = entries_upto(map, km, (n - 1) as nat);
        let full = entries_upto(map, km, n);
        assert(map2[idx] == map[idx]);
        if exists|i: int| 0 <= i < km.len() && (#[trigger] km[i]).1 == idx {
            let i = choose|i: int| 0 <= i < km.len() && (#[trigger] km[i]).1 == idx;
            lemma_key_at(km, map.len(), i);
            assert(full.drop_last() =~= e);
            if i == p {
                assert forall|j: int| 0 <= j < km2.len() implies (#[trigger] km2[j]).1 != idx by {
                    if j != p {
                        assert(km2[j] == km[j]);
                        if j < i {
                            assert(km[j].1 != km[i].1);
                        } else {
                            assert(km[i].1 != km[j].1);
                        }
                    }
                }
            } else {
                assert(km2[i] == km[i]);
                lemma_key_at(km2, map.len() + 1, i);
                if p < km.len() {
                    if i < p {
                        assert(km[i].0@ != km[p].0@);
                    } else {
                        assert(km[p].0@ != km[i].0@);
                    }
                }
            }
        } else {
            assert(full =~= e);
            assert forall|j: int| 0 <= j < km2.len() implies (#[trigger] km2[j]).1 != idx by {
                if j != p {
                    assert(km2[j] == km[j]);
                }
            }
        }
    }
}

/// The position in `km` of the key `key`, if any.
fn find_key_in(km: &Vec<(String, usize)>, len: Ghost<nat>, key: &str) -> (res: Option<usize>)
    requires
        key_map_wf(km@, len@),
    ensures
        match res {
            Some(i) => i < km@.len() && km@[i as int].0@ == key@ && key_pos(km@, key@) == Some(i as int),
            None => key_pos(km@, key@) is None,
        },
{
    let mut i: usize = 0;
    while i < km.len()
        invariant
            i <= km@.len(),
            key_map_wf(km@, len@),
            forall|j: int| 0 <= j < i ==> (#[trigger] km@[j]).0@ != key@,
        decreases km@.len() - i,
    {
        if str_eq(km[i].0.as_str(), key) {
            proof {
                lemma_key_pos(km@, len@, i as int);
            }
            return Some(i);
        }
        i = i + 1;
    }
    None
}

pub open spec fn entry_refs_view(v: Seq<(&String, &UkonfValue)>) -> Seq<(Seq<char>, UkonfValue)> {
    v.map_values(|p: (&String, &UkonfValue)| (p.0@, *p.1))
}

pub open spec fn entry_pairs_view(v: Seq<(String, UkonfValue)>) -> Seq<(Seq<char>, UkonfValue)> {
    v.map_values(|p: (String, UkonfValue)| (p.0@, p.1))
}

/// The position in `km` of the key that leads to the value at `idx`.
fn key_for_index(km: &Vec<(String, usize)>, len: Ghost<nat>, idx: usize) -> (res: Option<usize>)
    requires
        key_map_wf(km@, len@),
    ensures
        match res {
            Some(j) => j < km@.len() && km@[j as int].1 == idx,
            None => key_at(km@, idx as int) is None,
        },
{
    let mut j: usize = 0;
    while j < km.len()
        invariant
            j <= km@.len(),
            forall|i: int| 0 <= i < j ==> (#[trigger] km@[i]).1 != idx,
        decreases km@.len() - j,
    {
        if km[j].1 == idx {
            return Some(j);
        }
        j = j + 1;
    }
    None
}

impl UkonfObject {
    #[verifier::type_invariant]
    spec fn inv(self) -> bool {
        key_map_wf(self.key_map@, self.map@.len())
    }

    /// The entries of the object, in the order their keys were last set.
    pub closed spec fn entries(self) -> Seq<(Seq<char>, UkonfValue)> {
        entries_upto(self.map@, self.key_map@, self.map@.len())
    }

    /// The value of key `k`, if the object has one.
    pub closed spec fn get_spec(self, k: Seq<char>) -> Option<UkonfValue> {
        match key_pos(self.key_map@, k) {
            Some(i) => Some(self.map@[self.key_map@[i].1 as int]),
            None => None,
        }
    }

    /// An object without entries.
    pub fn new() -> (res: Self)
        ensures
            res.entries() == Seq::<(Seq<char>, UkonfValue)>::empty(),
            forall|k: Seq<char>| res.get_spec(k) is None,
    {
        UkonfObject { map: Vec::new(), key_map: Vec::new() }
    }

    /// The value of key `key`, if the object has one.
    pub fn get(&self, key: &str) -> (res: Option<&UkonfValue>)
        ensures
            match res {
                Some(v) => self.get_spec(key@) == Some(*v) && lookup_entry(self.entries(), key@) == Some(*v),
                None => self.get_spec(key@) is None && lookup_entry(self.entries(), key@) is None
                    && lacks_key(self.entries(), key@),
            },
    {
        proof {
            use_type_invariant(self);
            self.lemma_get_entries(key@);
        }
        match find_key_in(&self.key_map, Ghost(self.map@.len()), key) {
            Some(i) => Some(&self.map[self.key_map[i].1]),
            None => None,
        }
    }

    /// The object with key `key` set to `value`.
    pub fn with(self, key: String, value: UkonfValue) -> (res: Self)
        ensures
            res.get_spec(key@) == Some(value),
            forall|k: Seq<char>| k != key@ ==> #[trigger] res.get_spec(k) == self.get_spec(k),
            res.entries() == without_key(self.entries(), key@).push((key@, value)),
    {
        let mut o = self;
        o.insert(key, value);
        o
    }

    /// The object as a value.
    pub fn into_value(self) -> (res: UkonfValue)
        ensures
            res == UkonfValue::Object(self),
    {
        UkonfValue::Object(self)
    }

    /// The entries, in the order their keys were last set; each is the
    /// object's value of its key.
    pub fn iter(&self) -> (res: Vec<(&String, &UkonfValue)>)
        ensures
            entry_refs_view(res@) == self.entries(),
            forall|i: int| 0 <= i < res@.len() ==> self.get_spec((#[trigger] res@[i]).0@) == Some(*res@[i].1),
    {
        proof {
            use_type_invariant(self);
        }
        let mut out: Vec<(&String, &UkonfValue)> = Vec::new();
        let mut idx: usize = 0;
        while idx < self.map.len()
            invariant
                idx <= self.map@.len(),
                key_map_wf(self.key_map@, self.map@.len()),
                entry_refs_view(out@) == entries_upto(self.map@, self.key_map@, idx as nat),
                forall|i: int| 0 <= i < out@.len() ==> self.get_spec((#[trigger] out@[i]).0@) == Some(*out@[i].1),
            decreases self.map@.len() - idx,
        {
            let ghost before = entry_refs_view(out@);
            match key_for_index(&self.key_map, Ghost(self.map@.len()), idx) {
                Some(j) => {
                    out.push((&self.key_map[j].0, &self.map[idx]));
                    proof {
                        lemma_key_at(self.key_map@, self.map@.len(), j as int);
                        lemma_key_pos(self.key_map@, self.map@.len(), j as int);
                        assert(entry_refs_view(out@) =~= before.push((self.key_map@[j as int].0@, self.map@[idx as int])));
                    }
                },
                None => {},
            }
            idx = idx + 1;
        }
        out
    }

    /// The entries, in the order their keys were last set, taken out of
    /// the object.
    pub fn into_iter(self) -> (res: Vec<(String, UkonfValue)>)
        ensures
            entry_pairs_view(res@) == self.entries(),
    {
        proof {
            use_type_invariant(&self);
        }
        let ghost all = self.map@;
        let ghost km = self.key_map@;
        let ghost entries = self.entries();
        let UkonfObject { mut map, key_map } = self;
        let mut rev: Vec<UkonfValue> = Vec::new();
        while map.len() > 0
            invariant
                all == map@ + rev@.reverse(),
            decreases map@.len(),
        {
            let v = map.pop().unwrap();
            let ghost before = rev@;
            rev.push(v);
            proof {
                assert(rev@.reverse() =~= seq![rev@.last()] + before.reverse());
            }
        }
        proof {
            assert(all =~= rev@.reverse());
        }
        let mut out: Vec<(String, UkonfValue)> = Vec::new();
        let n = rev.len();
        let mut idx: usize = 0;
        while rev.len() > 0
            invariant
                n == all.len(),
                idx + rev@.len() == n,
                all.subrange(idx as int, n as int) == rev@.reverse(),
                key_map@ == km,
                key_map_wf(km, all.len()),
                entry_pairs_view(out@) == entries_upto(all, km, idx as nat),
            decreases rev@.len(),
        {
            let ghost rb = rev@;
            let v = rev.pop().unwrap();
            let ghost before = entry_pairs_view(out@);
            proof {
                assert(rb == rev@.push(v));
                assert(rb.reverse()[0] == v);
                assert(all.subrange(idx as int, n as int)[0] == all[idx as int]);
                assert(all[idx as int] == v);
                assert(all.subrange(idx + 1, n as int) =~= rev@.reverse()) by {
                    assert forall|t: int| 0 <= t < n - idx - 1 implies all.subrange(idx + 1, n as int)[t] == rev@.reverse()[t] by {
                        assert(all.subrange(idx as int, n as int)[t + 1] == rb.reverse()[t + 1]);
                    }
                }
            }
            match key_for_index(&key_map, Ghost(all.len()), idx) {
                Some(j) => {
                    let k = key_map[j].0.clone();
                    out.push((k, v));
                    proof {
                        lemma_key_at(km, all.len(), j as int);
                        assert(entry_pairs_view(out@) =~= before.push((km[j as int].0@, all[idx as int])));
                    }
                },
                None => {},
            }
            idx = idx + 1;
        }
        proof {
            assert(idx == all.len());
        }
        out
    }

    /// Sets key `key` to `value`; the key then comes last in the order.
    pub fn insert(&mut self, key: String, value: UkonfValue)
        ensures
            final(self).get_spec(key@) == Some(value),
            forall|k: Seq<char>| k != key@ ==> #[trigger] final(self).get_spec(k) == old(self).get_spec(k),
            final(self).entries() == without_key(old(self).entries(), key@).push((key@, value)),
    {
        proof {
            use_type_invariant(&*self);
        }
        let ghost map0 = self.map@;
        let ghost km0 = self.key_map@;
        let ghost kv = key@;
        let mut km: Vec<(String, usize)> = Vec::new();
        let mut map: Vec<UkonfValue> = Vec::new();
        std::mem::swap(&mut km, &mut self.key_map);
        std::mem::swap(&mut map, &mut self.map);
        let idx = map.len();
        let pos = find_key_in(&km, Ghost(map@.len()), key.as_str());
        map.push(value);
        match pos {
            Some(i) => {
                km.set(i, (key, idx));
            },
            None => {
                km.push((key, idx));
            },
        }
        proof {
            let p = match pos {
                Some(q) => q as int,
                None => km0.len() as int,
            };
            assert(set_position(km0, p, kv));
            assert(km@ =~= key_map_set(km0, p, km@[p]));
            lemma_key_map_set_wf(km0, map0.len(), p, km@[p]);
        }
        self.map = map;
        self.key_map = km;
        proof {
            let map2 = self.map@;
            let km2 = self.key_map@;
            let p = match pos {
                Some(q) => q as int,
                None => km0.len() as int,
            };
            let entry = km2[p];
            assert(km2 =~= key_map_set(km0, p, entry));
            assert(map2 =~= map0.push(value));
            lemma_entries_after_set(map0, km0, value, p, entry, map0.len());
            lemma_key_at(km2, map2.len(), p);
            assert(entries_upto(map2, km2, map2.len()) == entries_upto(map2, km2, map0.len()).push((kv, map2[map0.len() as int])));
            lemma_key_pos(km2, map2.len(), p);
            assert forall|k: Seq<char>| k != kv implies #[trigger] self.get_spec(k) == old(self).get_spec(k) by {
                if exists|j: int| 0 <= j < km0.len() && (#[trigger] km0[j]).0@ == k {
                    let q = choose|j: int| 0 <= j < km0.len() && (#[trigger] km0[j]).0@ == k;
                    lemma_key_pos(km0, map0.len(), q);
                    assert(km2[q] == km0[q]);
                    lemma_key_pos(km2, map2.len(), q);
                } else {
                    assert forall|j: int| 0 <= j < km2.len() implies (#[trigger] km2[j]).0@ != k by {
                        if j != p {
                            assert(km2[j] == km0[j]);
                        }
                    }
                }
            }
        }
    }
}

/// The content of a value: strings as their characters, arrays as the
/// contents of their items, objects as their entries in order.
pub enum ValueView {
    Null,
    Num(NumValue),
    Str(Seq<char>),
    Bool(bool),
    Array(Seq<ValueView>),
    Object(Seq<(Seq<char>, ValueView)>),
}

/// The content of a value.
pub closed spec fn value_view(v: UkonfValue) -> ValueView
    decreases v, 0nat,
{
    match v {
        UkonfValue::Null => ValueView::Null,
        UkonfValue::Num(n) => ValueView::Num(n),
        UkonfValue::Str(s) => ValueView::Str(s@),
        UkonfValue::Bool(b) => ValueView::Bool(b),
        UkonfValue::Array(a) => ValueView::Array(values_view_upto(a@, a@.len())),
        UkonfValue::Object(o) => ValueView::Object(
            object_view_upto(o.map@, o.key_map@, o.map@.len()),
        ),
    }
}

/// The contents of the first `n` values of `s`.
closed spec fn values_view_upto(s: Seq<UkonfValue>, n: nat) -> Seq<ValueView>
    decreases s, n,
{
    if n == 0 || n > s.len() {
        Seq::empty()
    } else {
        values_view_upto(s, (n - 1) as nat).push(value_view(s[n - 1]))
    }
}

/// The entries among the first `n` values, each with the content of its
/// value.
closed spec fn object_view_upto(map: Seq<UkonfValue>, km: Seq<(String, usize)>, n: nat) -> Seq<
    (Seq<char>, ValueView),
>
    decreases map, n,
{
    if n == 0 || n > map.len() {
        Seq::empty()
    } else {
        object_view_upto(map, km, (n - 1) as nat) + match key_at(km, n - 1) {
            Some(k) => seq![(k, value_view(map[n - 1]))],
            None => Seq::empty(),
        }
    }
}

/// The contents of the values of `s`.
pub open spec fn values_view(s: Seq<UkonfValue>) -> Seq<ValueView> {
    s.map_values(|v: UkonfValue| value_view(v))
}

/// The entries of `s`, each with the content of its value.
pub open spec fn entries_view(s: Seq<(Seq<char>, UkonfValue)>) -> Seq<(Seq<char>, ValueView)> {
    s.map_values(|p: (Seq<char>, UkonfValue)| (p.0, value_view(p.1)))
}

proof fn lemma_values_view_upto(s: Seq<UkonfValue>, n: nat)
    requires
        n <= s.len(),
    ensures
        values_view_upto(s, n) == values_view(s.take(n as int)),
    decreases n,
{
    if n > 0 {
        lemma_values_view_upto(s, (n - 1) as nat);
        assert(s.take(n as int).drop_last() =~= s.take(n - 1));
        assert(values_view(s.take(n as int)) =~= values_view(s.take(n - 1)).push(value_view(s[n - 1])));
    } else {
        assert(values_view(s.take(0)) =~= Seq::<ValueView>::empty());
    }
}

proof fn lemma_object_view_upto(map: Seq<UkonfValue>, km: Seq<(String, usize)>, n: nat)
    requires
        n <= map.len(),
    ensures
        object_view_upto(map, km, n) == entries_view(entries_upto(map, km, n)),
    decreases n,
{
    if n > 0 {
        lemma_object_view_upto(map, km, (n - 1) as nat);
        let e = entries_upto(map, km, (n - 1) as nat);
        let tail: Seq<(Seq<char>, UkonfValue)> = match key_at(km, n - 1) {
            Some(k) => seq![(k, map[n - 1])],
            None => Seq::empty(),
        };
        assert(entries_view(e + tail) =~= entries_view(e) + entries_view(tail));
        assert(entries_view(tail) =~= match key_at(km, n - 1) {
            Some(k) => seq![(k, value_view(map[n - 1]))],
            None => Seq::<(Seq<char>, ValueView)>::empty(),
        });
    } else {
        assert(entries_view(Seq::<(Seq<char>, UkonfValue)>::empty()) =~= Seq::<(Seq<char>, ValueView)>::empty());
    }
}

/// What the content of each kind of value is.
pub proof fn lemma_value_view(v: UkonfValue)
    ensures
        value_view(v) == match v {
            UkonfValue::Null => ValueView::Null,
            UkonfValue::Num(n) => ValueView::Num(n),
            UkonfValue::Str(s) => ValueView::Str(s@),
            UkonfValue::Bool(b) => ValueView::Bool(b),
            UkonfValue::Array(a) => ValueView::Array(values_view(a@)),
            UkonfValue::Object(o) => ValueView::Object(entries_view(o.entries())),
        },
{
    match v {
        UkonfValue::Array(a) => {
            lemma_values_view_upto(a@, a@.len());
            assert(a@.take(a@.len() as int) =~= a@);
        },
        UkonfValue::Object(o) => {
            lemma_object_view_upto(o.map@, o.key_map@, o.map@.len());
        },
        _ => {},
    }
}

/// A copy of `v`, with the same content.
pub fn clone_value(v: &UkonfValue) -> (res: UkonfValue)
    ensures
        value_view(res) == value_view(*v),
    decreases v,
{
    match v {
        UkonfValue::Null => UkonfValue::Null,
        UkonfValue::Num(n) => UkonfValue::Num(*n),
        UkonfValue::Str(s) => UkonfValue::Str(s.clone()),
        UkonfValue::Bool(b) => UkonfValue::Bool(*b),
        UkonfValue::Array(a) => {
            let mut out: Vec<UkonfValue> = Vec::new();
            let mut i: usize = 0;
            while i < a.len()
                invariant
                    i <= a@.len(),
                    *v == UkonfValue::Array(*a),
                    out@.len() == i,
                    forall|j: int| 0 <= j < i ==> value_view(#[trigger] out@[j]) == value_view(a@[j]),
                decreases a@.len() - i,
            {
                proof {
                    assert(decreases_to!(*v => (*v)->Array_0));
                    assert(decreases_to!(*a => a[i as int]));
                }
                let c = clone_value(&a[i]);
                out.push(c);
                i = i + 1;
            }
            proof {
                lemma_values_view_upto(a@, a@.len());
                lemma_values_view_upto(out@, out@.len());
                assert(a@.take(a@.len() as int) =~= a@);
                assert(out@.take(out@.len() as int) =~= out@);
                assert(values_view(out@) =~= values_view(a@));
            }
            UkonfValue::Array(out)
        },
        UkonfValue::Object(o) => {
            proof {
                use_type_invariant(o);
            }
            let mut map: Vec<UkonfValue> = Vec::new();
            let mut i: usize = 0;
            while i < o.map.len()
                invariant
                    i <= o.map@.len(),
                    *v == UkonfValue::Object(*o),
                    map@.len() == i,
                    forall|j: int| 0 <= j < i ==> value_view(#[trigger] map@[j]) == value_view(o.map@[j]),
                decreases o.map@.len() - i,
            {
                proof {
                    assert(decreases_to!(*v => (*v)->Object_0));
                    assert(decreases_to!(*o => o.map));
                    assert(decreases_to!(o.map => o.map[i as int]));
                }
                let c = clone_value(&o.map[i]);
                map.push(c);
                i = i + 1;
            }
            let mut key_map: Vec<(String, usize)> = Vec::new();
            let mut j: usize = 0;
            while j < o.key_map.len()
                invariant
                    j <= o.key_map@.len(),
                    key_map@ == o.key_map@.take(j as int),
                decreases o.key_map@.len() - j,
            {
                let k = o.key_map[j].0.clone();
                key_map.push((k, o.key_map[j].1));
                proof {
                    assert(key_map@ =~= o.key_map@.take(j + 1));
                }
                j = j + 1;
            }
            proof {
                assert(key_map@ =~= o.key_map@);
                lemma_object_view_same(map@, o.map@, key_map@, map@.len());
            }
            UkonfValue::Object(UkonfObject { map, key_map })
        },
    }
}

proof fn lemma_object_view_same(m1: Seq<UkonfValue>, m2: Seq<UkonfValue>, km: Seq<(String, usize)>, n: nat)
    requires
        m1.len() == m2.len(),
        n <= m1.len(),
        forall|j: int| 0 <= j < m1.len() ==> value_view(#[trigger] m1[j]) == value_view(m2[j]),
    ensures
        object_view_upto(m1, km, n) == object_view_upto(m2, km, n),
    decreases n,
{
    if n > 0 {
        lemma_object_view_same(m1, m2, km, (n - 1) as nat);
        assert(value_view(m1[n - 1]) == value_view(m2[n - 1]));
    }
}

/// The value of the last entry of `es` with key `k`, if any.
pub open spec fn lookup_entry<V>(es: Seq<(Seq<char>, V)>, k: Seq<char>) -> Option<V>
    decreases es.len(),
{
    if es.len() == 0 {
        None
    } else if es.last().0 == k {
        Some(es.last().1)
    } else {
        lookup_entry(es.drop_last(), k)
    }
}

/// `es` with the value of each entry of key `k` set to `v`.
pub open spec fn set_entry_value<V>(es: Seq<(Seq<char>, V)>, k: Seq<char>, v: V) -> Seq<(Seq<char>, V)> {
    es.map_values(|p: (Seq<char>, V)| if p.0 == k { (k, v) } else { p })
}

/// No entry of `es` has key `k`.
pub open spec fn lacks_key<V>(es: Seq<(Seq<char>, V)>, k: Seq<char>) -> bool {
    forall|i: int| 0 <= i < es.len() ==> (#[trigger] es[i]).0 != k
}

/// Taking the contents commutes with removing a key.
pub proof fn lemma_without_key_view(s: Seq<(Seq<char>, UkonfValue)>, k: Seq<char>)
    ensures
        entries_view(without_key(s, k)) == without_key(entries_view(s), k),
    decreases s.len(),
{
    if s.len() > 0 {
        lemma_without_key_view(s.drop_last(), k);
        assert(entries_view(s).drop_last() =~= entries_view(s.drop_last()));
        let tail: Seq<(Seq<char>, UkonfValue)> = if s.last().0 == k {
            Seq::empty()
        } else {
            seq![s.last()]
        };
        assert(entries_view(without_key(s.drop_last(), k) + tail) =~= entries_view(without_key(s.drop_last(), k))
            + entries_view(tail));
    } else {
        assert(entries_view(s) =~= Seq::<(Seq<char>, ValueView)>::empty());
    }
}

/// Taking the contents commutes with setting the value of a key.
pub proof fn lemma_set_entry_value_view(s: Seq<(Seq<char>, UkonfValue)>, k: Seq<char>, v: UkonfValue)
    ensures
        entries_view(set_entry_value(s, k, v)) == set_entry_value(entries_view(s), k, value_view(v)),
{
    assert(entries_view(set_entry_value(s, k, v)) =~= set_entry_value(entries_view(s), k, value_view(v)));
}

/// Looking a key up commutes with taking the contents.
pub proof fn lemma_lookup_entry_view(s: Seq<(Seq<char>, UkonfValue)>, k: Seq<char>)
    ensures
        lookup_entry(entries_view(s), k) == match lookup_entry(s, k) {
            Some(v) => Some(value_view(v)),
            None => None::<ValueView>,
        },
        lacks_key(s, k) == lacks_key(entries_view(s), k),
    decreases s.len(),
{
    if s.len() > 0 {
        lemma_lookup_entry_view(s.drop_last(), k);
        assert(entries_view(s).drop_last() =~= entries_view(s.drop_last()));
        if lacks_key(s, k) {
            assert forall|i: int| 0 <= i < entries_view(s).len() implies (#[trigger] entries_view(s)[i]).0 != k by {
                assert(s[i].0 != k);
            }
        }
        if lacks_key(entries_view(s), k) {
            assert forall|i: int| 0 <= i < s.len() implies (#[trigger] s[i]).0 != k by {
                assert(entries_view(s)[i].0 != k);
            }
        }
    }
}

/// Removing a key that no entry has changes nothing.
pub proof fn lemma_without_absent_key<V>(s: Seq<(Seq<char>, V)>, k: Seq<char>)
    requires
        lacks_key(s, k),
    ensures
        without_key(s, k) == s,
    decreases s.len(),
{
    if s.len() > 0 {
        assert(lacks_key(s.drop_last(), k)) by {
            assert forall|i: int| 0 <= i < s.drop_last().len() implies (#[trigger] s.drop_last()[i]).0 != k by {
                assert(s.drop_last()[i] == s[i]);
            }
        }
        lemma_without_absent_key(s.drop_last(), k);
        assert(s.last() == s[s.len() - 1]);
        assert(s.drop_last().push(s.last()) =~= s);
    }
}

/// The value at `idx` has a key exactly when some key leads to it, and then
/// it is a key of `km`.
proof fn lemma_key_at_other(km: Seq<(String, usize)>, len: nat, i: int, m: int)
    requires
        key_map_wf(km, len),
        0 <= i < km.len(),
        m != km[i].1,
    ensures
        key_at(km, m) != Some(km[i].0@),
{
    if exists|j: int| 0 <= j < km.len() && (#[trigger] km[j]).1 == m {
        let j = choose|j: int| 0 <= j < km.len() && (#[trigger] km[j]).1 == m;
        if j < i {
            assert(km[j].0@ != km[i].0@);
        } else if i < j {
            assert(km[i].0@ != km[j].0@);
        }
    }
}

proof fn lemma_entries_lookup(map: Seq<UkonfValue>, km: Seq<(String, usize)>, k: Seq<char>, n: nat)
    requires
        key_map_wf(km, map.len()),
        n <= map.len(),
    ensures
        match key_pos(km, k) {
            Some(i) => if (km[i].1 as int) < n {
                lookup_entry(entries_upto(map, km, n), k) == Some(map[km[i].1 as int])
            } else {
                lacks_key(entries_upto(map, km, n), k)
            },
            None => lacks_key(entries_upto(map, km, n), k),
        },
        lookup_entry(entries_upto(map, km, n), k) is None ==> lacks_key(entries_upto(map, km, n), k),
    decreases n,
{
    let full = entries_upto(map, km, n);
    if n > 0 {
        lemma_entries_lookup(map, km, k, (n - 1) as nat);
        let e = entries_upto(map, km, (n - 1) as nat);
        let idx = n - 1;
        if exists|j: int| 0 <= j < km.len() && (#[trigger] km[j]).1 == idx {
            let j = choose|j: int| 0 <= j < km.len() && (#[trigger] km[j]).1 == idx;
            lemma_key_at(km, map.len(), j);
            assert(full == e.push((km[j].0@, map[idx])));
            assert(full.drop_last() =~= e);
            if km[j].0@ == k {
                lemma_key_pos(km, map.len(), j);
            } else {
                match key_pos(km, k) {
                    Some(i) => {
                        if km[i].1 as int == idx {
                            assert(km[i].1 == km[j].1);
                            if i < j {
                                assert(km[i].1 != km[j].1);
                            } else if j < i {
                                assert(km[j].1 != km[i].1);
                            }
                        }
                    },
                    None => {},
                }
                assert forall|t: int| 0 <= t < full.len() && lacks_key(e, k) implies (#[trigger] full[t]).0 != k by {
                    if t < e.len() {
                        assert(full[t] == e[t]);
                    }
                }
            }
        } else {
            assert(full =~= e);
            match key_pos(km, k) {
                Some(i) => {
                    assert(km[i].1 as int != idx);
                },
                None => {},
            }
        }
    }
    if lookup_entry(full, k) is None {
        lemma_lookup_none_lacks(full, k);
    }
}

proof fn lemma_lookup_none_lacks<V>(s: Seq<(Seq<char>, V)>, k: Seq<char>)
    requires
        lookup_entry(s, k) is None,
    ensures
        lacks_key(s, k),
    decreases s.len(),
{
    if s.len() > 0 {
        lemma_lookup_none_lacks(s.drop_last(), k);
        assert forall|i: int| 0 <= i < s.len() implies (#[trigger] s[i]).0 != k by {
            if i < s.len() - 1 {
                assert(s[i] == s.drop_last()[i]);
            }
        }
    }
}

proof fn lemma_entries_set_value(
    map: Seq<UkonfValue>,
    km: Seq<(String, usize)>,
    i: int,
    nv: UkonfValue,
    n: nat,
)
    requires
        key_map_wf(km, map.len()),
        0 <= i < km.len(),
        n <= map.len(),
    ensures
        entries_upto(map.update(km[i].1 as int, nv), km, n) == set_entry_value(entries_upto(map, km, n), km[i].0@, nv),
    decreases n,
{
    let k = km[i].0@;
    let map2 = map.update(km[i].1 as int, nv);
    if n > 0 {
        lemma_entries_set_value(map, km, i, nv, (n - 1) as nat);
        let idx = n - 1;
        let e = entries_upto(map, km, (n - 1) as nat);
        let tail: Seq<(Seq<char>, UkonfValue)> = match key_at(km, idx) {
            Some(kk) => seq![(kk, map[idx])],
            None => Seq::empty(),
        };
        assert(set_entry_value(e + tail, k, nv) =~= set_entry_value(e, k, nv) + set_entry_value(tail, k, nv));
        if idx == km[i].1 as int {
            lemma_key_at(km, map.len(), i);
            assert(set_entry_value(tail, k, nv) =~= seq![(k, nv)]);
        } else {
            lemma_key_at_other(km, map.len(), i, idx);
            assert(map2[idx] == map[idx]);
            assert(set_entry_value(tail, k, nv) =~= tail);
        }
    } else {
        assert(set_entry_value(Seq::<(Seq<char>, UkonfValue)>::empty(), k, nv) =~= Seq::<(Seq<char>, UkonfValue)>::empty());
    }
}

impl UkonfObject {
    /// Looking a key up gives the value of its entry; a key that the object
    /// lacks is the key of no entry.
    proof fn lemma_get_entries(self, k: Seq<char>)
        requires
            key_map_wf(self.key_map@, self.map@.len()),
        ensures
            match self.get_spec(k) {
                Some(v) => lookup_entry(self.entries(), k) == Some(v),
                None => lookup_entry(self.entries(), k) is None && lacks_key(self.entries(), k),
            },
    {
        lemma_entries_lookup(self.map@, self.key_map@, k, self.map@.len());
        match key_pos(self.key_map@, k) {
            Some(i) => {
                let j = choose|j: int| 0 <= j < self.key_map@.len() && (#[trigger] self.key_map@[j]).0@ == k;
                assert(j == i);
                if lookup_entry(self.entries(), k) is None {
                    lemma_lookup_none_lacks(self.entries(), k);
                }
            },
            None => {
                if lookup_entry(self.entries(), k) is Some {
                    let es = self.entries();
                    lemma_lookup_some_has(es, k);
                }
            },
        }
    }

    /// Sets the value of key `key`, in its place, where the object has the
    /// key, and gives back the value it had; else changes nothing.
    pub fn replace_value(&mut self, key: &str, value: UkonfValue) -> (res: Option<UkonfValue>)
        ensures
            match old(self).get_spec(key@) {
                Some(v) => res == Some(v) && lookup_entry(old(self).entries(), key@) == Some(v)
                    && final(self).entries() == set_entry_value(old(self).entries(), key@, value),
                None => res is None && final(self).entries() == old(self).entries() && lacks_key(
                    old(self).entries(),
                    key@,
                ) && lookup_entry(old(self).entries(), key@) is None,
            },
            final(self).get_spec(key@) == match old(self).get_spec(key@) {
                Some(_) => Some(value),
                None => None::<UkonfValue>,
            },
            forall|k: Seq<char>| k != key@ ==> #[trigger] final(self).get_spec(k) == old(self).get_spec(k),
    {
        proof {
            use_type_invariant(&*self);
        }
        match find_key_in(&self.key_map, Ghost(self.map@.len()), key) {
            Some(i) => {
                let idx = self.key_map[i].1;
                let mut km: Vec<(String, usize)> = Vec::new();
                std::mem::swap(&mut km, &mut self.key_map);
                let mut map: Vec<UkonfValue> = Vec::new();
                std::mem::swap(&mut map, &mut self.map);
                let ghost map0 = map@;
                let mut old_value = value;
                std::mem::swap(&mut old_value, &mut map[idx]);
                proof {
                    assert(map@ =~= map0.update(idx as int, map@[idx as int]));
                    lemma_entries_set_value(map0, km@, i as int, map@[idx as int], map0.len());
                }
                self.map = map;
                self.key_map = km;
                proof {
                    old(self).lemma_get_entries(key@);
                    lemma_key_pos(self.key_map@, self.map@.len(), i as int);
                    assert forall|k: Seq<char>| k != key@ implies #[trigger] self.get_spec(k) == old(self).get_spec(k) by {
                        match key_pos(self.key_map@, k) {
                            Some(q) => {
                                lemma_key_at_other(self.key_map@, self.map@.len(), i as int, self.key_map@[q].1 as int);
                                if q != i as int {
                                    if q < i {
                                        assert(self.key_map@[q].1 != self.key_map@[i as int].1);
                                    } else {
                                        assert(self.key_map@[i as int].1 != self.key_map@[q].1);
                                    }
                                }
                            },
                            None => {},
                        }
                    }
                }
                Some(old_value)
            },
            None => {
                proof {
                    self.lemma_get_entries(key@);
                }
                None
            },
        }
    }
}

proof fn lemma_lookup_some_has<V>(s: Seq<(Seq<char>, V)>, k: Seq<char>)
    requires
        lookup_entry(s, k) is Some,
    ensures
        exists|i: int| 0 <= i < s.len() && (#[trigger] s[i]).0 == k,
    decreases s.len(),
{
    if s.len() > 0 {
        if s.last().0 == k {
            assert(s[s.len() - 1].0 == k);
        } else {
            lemma_lookup_some_has(s.drop_last(), k);
            let i = choose|i: int| 0 <= i < s.drop_last().len() && (#[trigger] s.drop_last()[i]).0 == k;
            assert(s[i] == s.drop_last()[i]);
        }
    }
}

/// What a value was expected to be.
#[derive(Debug, Clone, Copy, PartialEq, Eq)]
pub enum ExpectedKind {
    String,
    Object,
    Bool,
    Array,
}

/// A value of another kind than the one expected, with the value.
#[derive(Debug)]
pub struct ValueError {
    pub expected: ExpectedKind,
    pub got: UkonfValue,
}

impl ExpectedKind {
    /// The name of the kind, as error messages give it.
    pub fn name(&self) -> (res: &'static str)
        ensures
            res@ == match *self {
                ExpectedKind::String => "string"@,
                ExpectedKind::Object => "object"@,
                ExpectedKind::Bool => "bool"@,
                ExpectedKind::Array => "array"@,
            },
    {
        match self {
            ExpectedKind::String => "string",
            ExpectedKind::Object => "object",
            ExpectedKind::Bool => "bool",
            ExpectedKind::Array => "array",
        }
    }
}

impl UkonfValue {
    /// The string, where the value is one.
    pub fn as_string(&self) -> (res: Option<&String>)
        ensures
            match *self {
                UkonfValue::Str(s) => res == Some(&s),
                _ => res is None,
            },
    {
        match self {
            UkonfValue::Str(s) => Some(s),
            _ => None,
        }
    }

    /// The string, where the value is one; else the value back.
    pub fn into_string(self) -> (res: Result<String, Self>)
        ensures
            match self {
                UkonfValue::Str(s) => res == Ok::<String, UkonfValue>(s),
                _ => res == Err::<String, UkonfValue>(self),
            },
    {
        match self {
            UkonfValue::Str(s) => Ok(s),
            v => Err(v),
        }
    }

    /// The string, where the value is one.
    pub fn expect_string(self) -> (res: Result<String, ValueError>)
        ensures
            match self {
                UkonfValue::Str(s) => res matches Ok(r) && r == s,
                _ => res matches Err(e) && e.expected == ExpectedKind::String && e.got == self,
            },
    {
        match self {
            UkonfValue::Str(s) => Ok(s),
            v => Err(ValueError { expected: ExpectedKind::String, got: v }),
        }
    }

    /// The object, where the value is one.
    pub fn expect_object(self) -> (res: Result<UkonfObject, ValueError>)
        ensures
            match self {
                UkonfValue::Object(o) => res matches Ok(r) && r == o,
                _ => res matches Err(e) && e.expected == ExpectedKind::Object && e.got == self,
            },
    {
        match self {
            UkonfValue::Object(o) => Ok(o),
            v => Err(ValueError { expected: ExpectedKind::Object, got: v }),
        }
    }

    /// The boolean, where the value is one.
    pub fn expect_bool(self) -> (res: Result<bool, ValueError>)
        ensures
            match self {
                UkonfValue::Bool(b) => res matches Ok(r) && r == b,
                _ => res matches Err(e) && e.expected == ExpectedKind::Bool && e.got == self,
            },
    {
        match self {
            UkonfValue::Bool(b) => Ok(b),
            v => Err(ValueError { expected: ExpectedKind::Bool, got: v }),
        }
    }

    /// The items, where the value is an array.
    pub fn expect_array(self) -> (res: Result<Vec<UkonfValue>, ValueError>)
        ensures
            match self {
                UkonfValue::Array(a) => res matches Ok(r) && r == a,
                _ => res matches Err(e) && e.expected == ExpectedKind::Array && e.got == self,
            },
    {
        match self {
            UkonfValue::Array(a) => Ok(a),
            v => Err(ValueError { expected: ExpectedKind::Array, got: v }),
        }
    }

    /// A copy of the string, where the value is one.
    pub fn clone_to_string(&self) -> (res: Result<String, ValueError>)
        ensures
            match *self {
                UkonfValue::Str(s) => res matches Ok(r) && r@ == s@,
                _ => res matches Err(e) && e.expected == ExpectedKind::String && value_view(e.got)
                    == value_view(*self),
            },
    {
        match self {
            UkonfValue::Str(s) => Ok(s.clone()),
            v => Err(ValueError { expected: ExpectedKind::String, got: clone_value(v) }),
        }
    }

    /// The object, where the value is one.
    pub fn as_object(&self) -> (res: Option<&UkonfObject>)
        ensures
            match *self {
                UkonfValue::Object(o) => res == Some(&o),
                _ => res is None,
            },
    {
        match self {
            UkonfValue::Object(o) => Some(o),
            _ => None,
        }
    }
}

/// The content of a [`UkonfFnError`].
pub enum FnErrorView {
    Message(Seq<char>),
    Value(ExpectedKind, ValueView),
}

pub open spec fn fn_error_view(e: UkonfFnError) -> FnErrorView {
    match e {
        UkonfFnError::Message(m) => FnErrorView::Message(m@),
        UkonfFnError::Value(v) => FnErrorView::Value(v.expected, value_view(v.got)),
    }
}

/// The content of what a function of a ukonf program returned.
pub open spec fn fn_result_view(r: Result<UkonfValue, UkonfFnError>) -> Result<ValueView, FnErrorView> {
    match r {
        Ok(v) => Ok(value_view(v)),
        Err(e) => Err(fn_error_view(e)),
    }
}

/// Why a function called by a ukonf program failed.
#[derive(Debug)]
pub enum UkonfFnError {
    /// A failure, with its message.
    Message(String),
    /// A value of another kind than the one expected.
    Value(ValueError),
}

} // verus!
