//! Form fields in arrival order. A name set twice keeps its first place and
//! takes the later value; lookups by name may ignore ASCII case.
use vstd::prelude::*;
use crate::bytes::eq_ignore_case;
use crate::headers::same_name;
use crate::text::{string_bytes, str_bytes, utf8_of};

verus! {

/// `i` is the first entry of `s` whose key is exactly `k`.
pub open spec fn is_first_key<V>(s: Seq<(Seq<char>, V)>, k: Seq<char>, i: int) -> bool {
    &&& 0 <= i < s.len()
    &&& s[i].0 == k
    &&& forall|j: int| 0 <= j < i ==> (#[trigger] s[j]).0 != k
}

/// The index of the entry keyed exactly `k`, or -1.
pub open spec fn key_index<V>(s: Seq<(Seq<char>, V)>, k: Seq<char>) -> int {
    if exists|i: int| is_first_key(s, k, i) {
        choose|i: int| is_first_key(s, k, i)
    } else {
        -1
    }
}

/// The entries after `k` is set to `v`.
pub open spec fn put<V>(s: Seq<(Seq<char>, V)>, k: Seq<char>, v: V) -> Seq<(Seq<char>, V)> {
    let i = key_index(s, k);
    if i >= 0 {
        s.update(i, (k, v))
    } else {
        s.push((k, v))
    }
}

/// `i` is the first entry of `s` whose key is `k` up to ASCII case.
pub open spec fn is_first_named<V>(s: Seq<(Seq<char>, V)>, k: Seq<char>, i: int) -> bool {
    &&& 0 <= i < s.len()
    &&& same_name(s[i].0, k)
    &&& forall|j: int| 0 <= j < i ==> !same_name(#[trigger] s[j].0, k)
}

/// The index of the first entry named `k` up to ASCII case, or -1.
pub open spec fn named_index<V>(s: Seq<(Seq<char>, V)>, k: Seq<char>) -> int {
    if exists|i: int| is_first_named(s, k, i) {
        choose|i: int| is_first_named(s, k, i)
    } else {
        -1
    }
}

/// Fields keyed by name.
pub struct FieldMap<V> {
    entries: Vec<(String, V)>,
}

impl<V: View> View for FieldMap<V> {
    type V = Seq<(Seq<char>, V::V)>;

    closed spec fn view(&self) -> Seq<(Seq<char>, V::V)> {
        self.entries@.map_values(|e: (String, V)| (e.0@, e.1@))
    }
}

impl<V: View> FieldMap<V> {
    /// No fields.
    pub fn new() -> (r: Self)
        ensures
            r@ == Seq::<(Seq<char>, V::V)>::empty(),
    {
        let r = FieldMap { entries: Vec::new() };
        assert(r@ =~= Seq::<(Seq<char>, V::V)>::empty());
        r
    }

    /// The number of fields.
    pub fn len(&self) -> (r: usize)
        ensures
            r == self@.len(),
    {
        self.entries.len()
    }

    /// The key and value of field `i`.
    pub fn entry(&self, i: usize) -> (r: (&str, &V))
        requires
            i < self@.len(),
        ensures
            r.0@ == self@[i as int].0,
            r.1@ == self@[i as int].1,
    {
        let e = &self.entries[i];
        (e.0.as_str(), &e.1)
    }

    /// Sets the field keyed exactly `k` to `v`.
    pub fn put(&mut self, k: String, v: V)
        ensures
            final(self)@ == put(old(self)@, k@, v@),
    {
        let mut i: usize = 0;
        while i < self.entries.len()
            invariant
                0 <= i <= self@.len(),
                self@.len() == self.entries@.len(),
                self@ == old(self)@,
                forall|j: int| 0 <= j < i ==> (#[trigger] self@[j]).0 != k@,
            decreases self@.len() - i,
        {
            if self.entries[i].0 == k {
                let ghost kv = k@;
                proof {
                    let c = choose|c: int| is_first_key(old(self)@, kv, c);
                    assert(is_first_key(old(self)@, kv, i as int));
                    if c < i {
                        assert(self@[c].0 != kv);
                    }
                    if i < c {
                        assert(old(self)@[i as int].0 == kv);
                    }
                }
                let ghost vv = v@;
                self.entries.set(i, (k, v));
                assert(self@ =~= old(self)@.update(i as int, (kv, vv)));
                return;
            }
            i = i + 1;
        }
        let ghost kv = k@;
        let ghost vv = v@;
        self.entries.push((k, v));
        assert(self@ =~= old(self)@.push((kv, vv)));
    }

    /// The position of the first field named `k` up to ASCII case.
    pub fn position_named(&self, k: &str) -> (r: Option<usize>)
        ensures
            match r {
                Some(i) => named_index(self@, k@) == i as int && 0 <= i < self@.len(),
                None => named_index(self@, k@) == -1,
            },
    {
        let kb = str_bytes(k);
        let mut i: usize = 0;
        while i < self.entries.len()
            invariant
                0 <= i <= self@.len(),
                self@.len() == self.entries@.len(),
                kb@ == utf8_of(k@),
                forall|j: int| 0 <= j < i ==> !same_name(#[trigger] self@[j].0, k@),
            decreases self@.len() - i,
        {
            if eq_ignore_case(string_bytes(&self.entries[i].0), kb) {
                proof {
                    let c = choose|c: int| is_first_named(self@, k@, c);
                    assert(is_first_named(self@, k@, i as int));
                    if c < i {
                        assert(!same_name(self@[c].0, k@));
                    }
                    if i < c {
                        assert(same_name(self@[i as int].0, k@));
                    }
                }
                return Some(i);
            }
            i = i + 1;
        }
        None
    }
}

impl FieldMap<String> {
    /// A copy of the fields.
    pub fn copy(&self) -> (r: Self)
        ensures
            r@ == self@,
    {
        let mut entries: Vec<(String, String)> = Vec::new();
        let mut i: usize = 0;
        while i < self.entries.len()
            invariant
                0 <= i <= self.entries@.len(),
                entries@.len() == i,
                forall|j: int|
                    0 <= j < i ==> (#[trigger] entries@[j]).0@ == self.entries@[j].0@
                        && entries@[j].1@ == self.entries@[j].1@,
            decreases self.entries@.len() - i,
        {
            let e = &self.entries[i];
            entries.push((e.0.clone(), e.1.clone()));
            i = i + 1;
        }
        let r = FieldMap { entries };
        assert(r@ =~= self@);
        r
    }
}

} // verus!
