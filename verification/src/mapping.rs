//! Mapping marshaling: parallel foreign arrays of key and value strings to
//! and from a native string-to-string mapping.
//!
//! Inbound, a null array yields "no mapping" — callers may legitimately send
//! zero headers that way — and an entry whose key or value fails text
//! decoding is dropped rather than failing the whole mapping. Outbound, a
//! mapping becomes two freshly allocated parallel arrays plus a count, with
//! ownership of the arrays and all contained strings transferring together.

use vstd::prelude::*;

verus! {

use crate::cdata::{
    CText,
    CArray,
    cstr_to_rust,
    rust_to_cstr,
    decoded_text,
    encoded_text,
    representable,
    lemma_encoded_text_decodes,
};

/// No two entries bind the same key.
pub open spec fn unique_keys(es: Seq<(Seq<char>, Seq<char>)>) -> bool {
    forall|i: int, j: int| 0 <= i < j < es.len() ==> es[i].0 != es[j].0
}

/// Some entry binds `k`.
pub open spec fn has_key(es: Seq<(Seq<char>, Seq<char>)>, k: Seq<char>) -> bool {
    exists|i: int| 0 <= i < es.len() && es[i].0 == k
}

/// The mapping an entry sequence denotes: entries taken in order, a later
/// binding of a key overwriting an earlier one.
pub open spec fn map_of_entries(es: Seq<(Seq<char>, Seq<char>)>) -> Map<Seq<char>, Seq<char>>
    decreases es.len(),
{
    if es.len() == 0 {
        Map::empty()
    } else {
        map_of_entries(es.drop_last()).insert(es.last().0, es.last().1)
    }
}

/// The mapping a pair of decoded parallel arrays denotes: entries taken in
/// order, an entry whose key or value fails text decoding dropped.
pub open spec fn mapping_of(ks: Seq<Option<Seq<u8>>>, vs: Seq<Option<Seq<u8>>>) -> Map<
    Seq<char>,
    Seq<char>,
>
    decreases ks.len(),
{
    if ks.len() == 0 || vs.len() == 0 {
        Map::empty()
    } else {
        let rest = mapping_of(ks.drop_last(), vs.drop_last());
        match (decoded_text(ks.last()), decoded_text(vs.last())) {
            (Some(k), Some(v)) => rest.insert(k, v),
            _ => rest,
        }
    }
}

/// The keys of `m` whose binding survives a trip across the boundary: key
/// and value both representable.
pub open spec fn representable_dom(m: Map<Seq<char>, Seq<char>>) -> Set<Seq<char>> {
    Set::new(|k: Seq<char>| m.dom().contains(k) && representable(k) && representable(m[k]))
}

/// The foreign key array a mapping encodes to, entry by entry.
pub open spec fn encoded_keys(es: Seq<(Seq<char>, Seq<char>)>) -> Seq<Option<Seq<u8>>> {
    es.map_values(|e: (Seq<char>, Seq<char>)| encoded_text(e.0))
}

/// The foreign value array a mapping encodes to, entry by entry.
pub open spec fn encoded_vals(es: Seq<(Seq<char>, Seq<char>)>) -> Seq<Option<Seq<u8>>> {
    es.map_values(|e: (Seq<char>, Seq<char>)| encoded_text(e.1))
}

proof fn lemma_unique_drop_last(es: Seq<(Seq<char>, Seq<char>)>)
    requires
        unique_keys(es),
        es.len() > 0,
    ensures
        unique_keys(es.drop_last()),
{
    assert forall|i: int, j: int|
        0 <= i < j < es.drop_last().len() implies es.drop_last()[i].0 != es.drop_last()[j].0 by {
        assert(es.drop_last()[i] == es[i]);
        assert(es.drop_last()[j] == es[j]);
    }
}

/// A key is in the denoted mapping exactly when some entry binds it.
proof fn lemma_map_of_entries_dom(es: Seq<(Seq<char>, Seq<char>)>)
    ensures
        forall|k: Seq<char>| #[trigger] map_of_entries(es).dom().contains(k) <==> has_key(es, k),
    decreases es.len(),
{
    if es.len() == 0 {
    } else {
        let esp = es.drop_last();
        lemma_map_of_entries_dom(esp);
        let m = map_of_entries(es);
        let mp = map_of_entries(esp);
        assert(m == mp.insert(es.last().0, es.last().1));
        assert forall|k: Seq<char>| #[trigger]
            map_of_entries(es).dom().contains(k) <==> has_key(es, k) by {
            if map_of_entries(es).dom().contains(k) {
                if k == es.last().0 {
                    assert(es[es.len() - 1].0 == k);
                } else {
                    assert(mp.dom().contains(k));
                    assert(has_key(esp, k));
                    let i = choose|i: int| 0 <= i < esp.len() && esp[i].0 == k;
                    assert(es[i].0 == k);
                }
            }
            if has_key(es, k) {
                let i = choose|i: int| 0 <= i < es.len() && es[i].0 == k;
                if i < es.len() - 1 {
                    assert(esp[i].0 == k);
                    assert(has_key(esp, k));
                    assert(mp.dom().contains(k));
                    assert(m.dom().contains(k));
                }
            }
        }
    }
}

/// With unique keys, the denoted mapping binds each entry's key to that
/// entry's value.
proof fn lemma_map_of_entries_vals(es: Seq<(Seq<char>, Seq<char>)>)
    requires
        unique_keys(es),
    ensures
        forall|i: int|
            0 <= i < es.len() ==> map_of_entries(es)[#[trigger] es[i].0] == es[i].1,
    decreases es.len(),
{
    if es.len() > 0 {
        let esp = es.drop_last();
        lemma_unique_drop_last(es);
        lemma_map_of_entries_vals(esp);
        assert forall|i: int|
            0 <= i < es.len() implies map_of_entries(es)[#[trigger] es[i].0] == es[i].1 by {
            if i < es.len() - 1 {
                assert(esp[i] == es[i]);
                assert(es[i].0 != es.last().0);
                assert(map_of_entries(es)[es[i].0] == map_of_entries(esp)[esp[i].0]);
            }
        }
    }
}

/// With unique keys, the denoted mapping has exactly one binding per entry.
proof fn lemma_map_of_entries_card(es: Seq<(Seq<char>, Seq<char>)>)
    requires
        unique_keys(es),
    ensures
        map_of_entries(es).dom().finite(),
        map_of_entries(es).dom().len() == es.len(),
    decreases es.len(),
{
    if es.len() > 0 {
        let esp = es.drop_last();
        lemma_unique_drop_last(es);
        lemma_map_of_entries_card(esp);
        lemma_map_of_entries_dom(esp);
        let last = es.last();
        assert(!map_of_entries(esp).dom().contains(last.0)) by {
            if has_key(esp, last.0) {
                let i = choose|i: int| 0 <= i < esp.len() && esp[i].0 == last.0;
                assert(es[i].0 == last.0);
                assert(es[i].0 != es[es.len() - 1].0);
            }
        }
        assert(map_of_entries(es).dom() =~= map_of_entries(esp).dom().insert(last.0));
    }
}

/// With unique keys, replacing the one entry that binds `k` rebinds `k` and
/// nothing else.
proof fn lemma_map_of_entries_update(es: Seq<(Seq<char>, Seq<char>)>, i: int, k: Seq<char>, v: Seq<char>)
    requires
        unique_keys(es),
        0 <= i < es.len(),
        es[i].0 == k,
    ensures
        map_of_entries(es.update(i, (k, v))) == map_of_entries(es).insert(k, v),
    decreases es.len(),
{
    let t = es.update(i, (k, v));
    let esp = es.drop_last();
    if i == es.len() - 1 {
        assert(t.drop_last() =~= esp);
        assert(t.last() == (k, v));
        assert(map_of_entries(es).insert(k, v) =~= map_of_entries(esp).insert(k, v));
    } else {
        lemma_unique_drop_last(es);
        lemma_map_of_entries_update(esp, i, k, v);
        assert(t.drop_last() =~= esp.update(i, (k, v)));
        assert(t.last() == es.last());
        assert(es[i].0 != es[es.len() - 1].0);
        assert(map_of_entries(t) == map_of_entries(esp).insert(k, v).insert(
            es.last().0,
            es.last().1,
        ));
        assert(map_of_entries(esp).insert(k, v).insert(es.last().0, es.last().1)
            =~= map_of_entries(esp).insert(es.last().0, es.last().1).insert(k, v));
    }
}

/// A native string-to-string mapping, as decoded from a pair of foreign
/// parallel arrays: unique keys, enumeration order insignificant.
pub struct StringMap {
    entries: Vec<(String, String)>,
}

impl View for StringMap {
    type V = Map<Seq<char>, Seq<char>>;

    closed spec fn view(&self) -> Map<Seq<char>, Seq<char>> {
        map_of_entries(self.entries.deep_view())
    }
}

impl StringMap {
    /// The entries in enumeration order.
    pub closed spec fn entries_view(&self) -> Seq<(Seq<char>, Seq<char>)> {
        self.entries.deep_view()
    }

    /// Well-formed: no key bound twice.
    pub open spec fn wf(&self) -> bool {
        unique_keys(self.entries_view())
    }

    /// An empty mapping.
    pub fn new() -> (m: StringMap)
        ensures
            m.wf(),
            m@ == Map::<Seq<char>, Seq<char>>::empty(),
            m.entries_view().len() == 0,
    {
        let m = StringMap { entries: Vec::new() };
        proof {
            assert(m.entries.deep_view() =~= Seq::<(Seq<char>, Seq<char>)>::empty());
        }
        m
    }

    /// How many keys are bound.
    pub fn len(&self) -> (n: usize)
        requires
            self.wf(),
        ensures
            n == self@.dom().len(),
            n == self.entries_view().len(),
    {
        proof {
            lemma_map_of_entries_card(self.entries_view());
        }
        self.entries.len()
    }

    /// Binds `key` to `value`, overwriting any earlier binding of the key.
    pub fn insert(&mut self, key: String, value: String)
        requires
            old(self).wf(),
        ensures
            final(self).wf(),
            final(self)@ == old(self)@.insert(key@, value@),
    {
        let n = self.entries.len();
        let mut i: usize = 0;
        while i < n
            invariant
                n == self.entries@.len(),
                i <= n,
                *self == *old(self),
                self.wf(),
                forall|j: int| 0 <= j < i ==> self.entries.deep_view()[j].0 != key@,
            decreases n - i,
        {
            if self.entries[i].0 == key {
                proof {
                    lemma_map_of_entries_update(
                        self.entries.deep_view(),
                        i as int,
                        key@,
                        value@,
                    );
                }
                let ghost before = self.entries.deep_view();
                self.entries[i] = (key, value);
                proof {
                    assert(self.entries.deep_view() =~= before.update(i as int, (key@, value@)));
                    assert forall|a: int, b: int|
                        0 <= a < b < self.entries.deep_view().len() implies self.entries.deep_view()[a].0
                        != self.entries.deep_view()[b].0 by {
                        assert(before[a].0 != before[b].0);
                    }
                }
                return ;
            }
            i += 1;
        }
        let ghost before = self.entries.deep_view();
        self.entries.push((key, value));
        proof {
            assert(self.entries.deep_view() =~= before.push((key@, value@)));
            assert(self.entries.deep_view().drop_last() =~= before);
            assert forall|a: int, b: int|
                0 <= a < b < self.entries.deep_view().len() implies self.entries.deep_view()[a].0
                != self.entries.deep_view()[b].0 by {
                if b < before.len() {
                    assert(before[a].0 != before[b].0);
                } else {
                    assert(before[a].0 != key@);
                }
            }
        }
    }

    /// Looks a key up.
    pub fn get(&self, key: &String) -> (r: Option<&String>)
        requires
            self.wf(),
        ensures
            match r {
                Some(v) => self@.contains_key(key@) && v@ == self@[key@],
                None => !self@.contains_key(key@),
            },
    {
        let n = self.entries.len();
        let mut i: usize = 0;
        while i < n
            invariant
                n == self.entries@.len(),
                i <= n,
                self.wf(),
                forall|j: int| 0 <= j < i ==> self.entries.deep_view()[j].0 != key@,
            decreases n - i,
        {
            if self.entries[i].0 == *key {
                proof {
                    lemma_map_of_entries_dom(self.entries.deep_view());
                    lemma_map_of_entries_vals(self.entries.deep_view());
                    assert(self.entries.deep_view()[i as int].0 == key@);
                    assert(has_key(self.entries.deep_view(), key@));
                    assert(self.entries.deep_view()[i as int].1 == self.entries@[i as int].1@);
                }
                return Some(&self.entries[i].1);
            }
            i += 1;
        }
        proof {
            lemma_map_of_entries_dom(self.entries.deep_view());
            assert(self.entries.deep_view().len() == n);
            assert(!has_key(self.entries.deep_view(), key@)) by {
                if has_key(self.entries.deep_view(), key@) {
                    let j = choose|j: int|
                        0 <= j < self.entries.deep_view().len() && self.entries.deep_view()[j].0
                            == key@;
                }
            }
        }
        None
    }
}

/// Law: encoding a mapping as parallel foreign arrays and then decoding
/// them yields the original mapping restricted to the entries whose key and
/// value are both representable; every other binding, and nothing else, is
/// absent from the round trip.
pub proof fn lemma_mapping_round_trip(es: Seq<(Seq<char>, Seq<char>)>)
    requires
        unique_keys(es),
    ensures
        mapping_of(encoded_keys(es), encoded_vals(es)) == map_of_entries(es).restrict(
            representable_dom(map_of_entries(es)),
        ),
    decreases es.len(),
{
    let m = map_of_entries(es);
    let lhs = mapping_of(encoded_keys(es), encoded_vals(es));
    if es.len() == 0 {
        assert(encoded_keys(es).len() == 0);
        assert(lhs =~= m.restrict(representable_dom(m)));
    } else {
        let esp = es.drop_last();
        let e = es.last();
        let mp = map_of_entries(esp);
        lemma_unique_drop_last(es);
        lemma_mapping_round_trip(esp);
        lemma_map_of_entries_dom(esp);
        lemma_encoded_text_decodes(e.0);
        lemma_encoded_text_decodes(e.1);
        assert(encoded_keys(es).drop_last() =~= encoded_keys(esp));
        assert(encoded_vals(es).drop_last() =~= encoded_vals(esp));
        assert(encoded_keys(es).last() == encoded_text(e.0));
        assert(encoded_vals(es).last() == encoded_text(e.1));
        assert(!mp.dom().contains(e.0)) by {
            if has_key(esp, e.0) {
                let i = choose|i: int| 0 <= i < esp.len() && esp[i].0 == e.0;
                assert(es[i].0 == e.0);
                assert(es[i].0 != es[es.len() - 1].0);
            }
        }
        let prev = mp.restrict(representable_dom(mp));
        if representable(e.0) && representable(e.1) {
            assert(decoded_text(encoded_text(e.0)) == Some(e.0));
            assert(decoded_text(encoded_text(e.1)) == Some(e.1));
            assert(lhs == prev.insert(e.0, e.1));
            assert forall|k: Seq<char>|
                #[trigger] m.restrict(representable_dom(m)).dom().contains(k)
                    == prev.insert(e.0, e.1).dom().contains(k) by {
                if k != e.0 {
                    assert(m.dom().contains(k) == mp.dom().contains(k));
                    if mp.dom().contains(k) {
                        assert(m[k] == mp[k]);
                    }
                }
            }
            assert(m.restrict(representable_dom(m)) =~= prev.insert(e.0, e.1)) by {
                assert forall|k: Seq<char>|
                    m.restrict(representable_dom(m)).dom().contains(k) implies m.restrict(
                    representable_dom(m),
                )[k] == prev.insert(e.0, e.1)[k] by {
                    if k != e.0 {
                        assert(m[k] == mp[k]);
                    }
                }
            }
        } else {
            assert(decoded_text(encoded_text(e.0)) is None || decoded_text(encoded_text(e.1)) is None);
            assert(lhs == prev);
            assert(m.restrict(representable_dom(m)) =~= prev) by {
                assert forall|k: Seq<char>|
                    #[trigger] m.restrict(representable_dom(m)).dom().contains(k)
                        == prev.dom().contains(k) by {
                    if k != e.0 {
                        assert(m.dom().contains(k) == mp.dom().contains(k));
                        if mp.dom().contains(k) {
                            assert(m[k] == mp[k]);
                        }
                    } else {
                        assert(!prev.dom().contains(k));
                        assert(!representable_dom(m).contains(k));
                    }
                }
                assert forall|k: Seq<char>|
                    m.restrict(representable_dom(m)).dom().contains(k) implies m.restrict(
                    representable_dom(m),
                )[k] == prev[k] by {
                    assert(k != e.0);
                    assert(m[k] == mp[k]);
                }
            }
        }
    }
}

/// Decodes two parallel foreign arrays of `len` strings each into a native
/// mapping. A null `keys` or `values` array yields no mapping — that is not
/// an error, it is how callers legitimately send zero entries — and an entry
/// whose key or value fails text decoding is dropped rather than failing the
/// whole mapping.
pub fn rust_map_from_c_arrays(keys: &CArray, values: &CArray, len: usize) -> (r: Option<
    StringMap,
>)
    requires
        keys@ matches Some(ks) ==> ks.len() == len,
        values@ matches Some(vs) ==> vs.len() == len,
    ensures
        match r {
            None => keys@ is None || values@ is None,
            Some(m) => {
                &&& keys@ is Some
                &&& values@ is Some
                &&& m.wf()
                &&& m@ == mapping_of(keys@->Some_0, values@->Some_0)
            },
        },
{
    let (kv, vv) = match (keys, values) {
        (CArray::Items(kv), CArray::Items(vv)) => (kv, vv),
        _ => { return None },
    };
    let mut m = StringMap::new();
    let mut i: usize = 0;
    while i < len
        invariant
            kv.deep_view().len() == len,
            vv.deep_view().len() == len,
            kv.deep_view() == keys@->Some_0,
            vv.deep_view() == values@->Some_0,
            i <= len,
            m.wf(),
            m@ == mapping_of(
                kv.deep_view().subrange(0, i as int),
                vv.deep_view().subrange(0, i as int),
            ),
        decreases len - i,
    {
        let k = cstr_to_rust(&kv[i]);
        let v = cstr_to_rust(&vv[i]);
        proof {
            let ks = kv.deep_view();
            let vs = vv.deep_view();
            assert(ks.subrange(0, i as int + 1).drop_last() =~= ks.subrange(0, i as int));
            assert(vs.subrange(0, i as int + 1).drop_last() =~= vs.subrange(0, i as int));
            assert(ks.subrange(0, i as int + 1).last() == ks[i as int]);
            assert(vs.subrange(0, i as int + 1).last() == vs[i as int]);
        }
        match (k, v) {
            (Some(dk), Some(dv)) => { m.insert(dk, dv) },
            _ => {},
        }
        i += 1;
    }
    proof {
        assert(kv.deep_view().subrange(0, len as int) =~= kv.deep_view());
        assert(vv.deep_view().subrange(0, len as int) =~= vv.deep_view());
    }
    Some(m)
}

/// Encodes a native mapping as two freshly allocated parallel foreign
/// arrays — one key and one value string per entry — plus the entry count.
/// Ownership of both arrays and of every string within transfers to the
/// caller in one operation. An entry that cannot be represented carries a
/// null string in its place; decoding the arrays again drops exactly those
/// entries. Enumeration order is unspecified.
pub fn rust_map_to_c_arrays(map: &StringMap) -> (r: (Vec<CText>, Vec<CText>, usize))
    requires
        map.wf(),
    ensures
        r.2 == map@.dom().len(),
        r.0@.len() == r.2,
        r.1@.len() == r.2,
        r.0.deep_view() == encoded_keys(map.entries_view()),
        r.1.deep_view() == encoded_vals(map.entries_view()),
        forall|j: int| 0 <= j < r.0@.len() ==> (#[trigger] r.0@[j]).wf(),
        forall|j: int| 0 <= j < r.1@.len() ==> (#[trigger] r.1@[j]).wf(),
        mapping_of(r.0.deep_view(), r.1.deep_view()) == map@.restrict(representable_dom(map@)),
{
    proof {
        lemma_map_of_entries_card(map.entries_view());
    }
    let n = map.entries.len();
    let mut ck: Vec<CText> = Vec::new();
    let mut cv: Vec<CText> = Vec::new();
    let mut i: usize = 0;
    while i < n
        invariant
            n == map.entries@.len(),
            i <= n,
            ck@.len() == i,
            cv@.len() == i,
            ck.deep_view() == encoded_keys(map.entries.deep_view().subrange(0, i as int)),
            cv.deep_view() == encoded_vals(map.entries.deep_view().subrange(0, i as int)),
            forall|j: int| 0 <= j < i ==> (#[trigger] ck@[j]).wf(),
            forall|j: int| 0 <= j < i ==> (#[trigger] cv@[j]).wf(),
        decreases n - i,
    {
        let ghost ck_before = ck.deep_view();
        let ghost cv_before = cv.deep_view();
        let e = &map.entries[i];
        let k = rust_to_cstr(e.0.clone());
        let v = rust_to_cstr(e.1.clone());
        ck.push(k);
        cv.push(v);
        proof {
            let es = map.entries.deep_view();
            assert(ck.deep_view() =~= ck_before.push(k@));
            assert(cv.deep_view() =~= cv_before.push(v@));
            assert(es[i as int] == (map.entries@[i as int].0@, map.entries@[i as int].1@));
            assert(encoded_keys(es.subrange(0, i as int + 1)) =~= encoded_keys(
                es.subrange(0, i as int),
            ).push(encoded_text(es[i as int].0)));
            assert(encoded_vals(es.subrange(0, i as int + 1)) =~= encoded_vals(
                es.subrange(0, i as int),
            ).push(encoded_text(es[i as int].1)));
        }
        i += 1;
    }
    proof {
        assert(map.entries.deep_view().subrange(0, n as int) =~= map.entries.deep_view());
        lemma_mapping_round_trip(map.entries_view());
    }
    (ck, cv, n)
}

} // verus!
