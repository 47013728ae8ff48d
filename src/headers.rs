//! An ordered list of header fields whose names compare without regard to
//! ASCII case. Insertion order is kept, and so is the caller's spelling of
//! each name.
use vstd::prelude::*;
use crate::bytes::{eq_ci, eq_ignore_case};
use crate::bytes::lower;
use crate::text::{lemma_first_byte_ascii, string_bytes, str_bytes, utf8_of};

verus! {

/// Two header names are the same name.
pub open spec fn same_name(a: Seq<char>, b: Seq<char>) -> bool {
    eq_ci(utf8_of(a), utf8_of(b))
}

/// `i` is the first entry of `s` named `k`.
pub open spec fn is_first_named(s: Seq<(Seq<char>, Seq<char>)>, k: Seq<char>, i: int) -> bool {
    &&& 0 <= i < s.len()
    &&& same_name(s[i].0, k)
    &&& forall|j: int| 0 <= j < i ==> !same_name(#[trigger] s[j].0, k)
}

/// The index of the first entry named `k`, or -1.
pub open spec fn name_index(s: Seq<(Seq<char>, Seq<char>)>, k: Seq<char>) -> int {
    if exists|i: int| is_first_named(s, k, i) {
        choose|i: int| is_first_named(s, k, i)
    } else {
        -1
    }
}

/// The value of the field named `k`.
pub open spec fn lookup(s: Seq<(Seq<char>, Seq<char>)>, k: Seq<char>) -> Option<Seq<char>> {
    let i = name_index(s, k);
    if i >= 0 {
        Some(s[i].1)
    } else {
        None
    }
}

/// The fields after `k` is set to `v`: a field of that name takes the new
/// name and value in its place, else the pair goes to the end.
pub open spec fn inserted(s: Seq<(Seq<char>, Seq<char>)>, k: Seq<char>, v: Seq<char>) -> Seq<
    (Seq<char>, Seq<char>),
> {
    let i = name_index(s, k);
    if i >= 0 {
        s.update(i, (k, v))
    } else {
        s.push((k, v))
    }
}

/// Keeps the fields not named `k`.
pub open spec fn not_named(k: Seq<char>) -> spec_fn((Seq<char>, Seq<char>)) -> bool {
    |e: (Seq<char>, Seq<char>)| !same_name(e.0, k)
}

/// The fields after every one named `k` is removed.
pub open spec fn removed(s: Seq<(Seq<char>, Seq<char>)>, k: Seq<char>) -> Seq<
    (Seq<char>, Seq<char>),
> {
    s.filter(not_named(k))
}

pub proof fn lemma_name_index_is(s: Seq<(Seq<char>, Seq<char>)>, k: Seq<char>, i: int)
    requires
        is_first_named(s, k, i),
    ensures
        name_index(s, k) == i,
{
    let c = choose|c: int| is_first_named(s, k, c);
    if c < i {
        assert(!same_name(s[c].0, k));
    }
    if i < c {
        assert(!same_name(s[i].0, k));
    }
}

proof fn lemma_name_index_none(s: Seq<(Seq<char>, Seq<char>)>, k: Seq<char>)
    requires
        forall|j: int| 0 <= j < s.len() ==> !same_name(#[trigger] s[j].0, k),
    ensures
        name_index(s, k) == -1,
{
}

/// No entry before `j` is named `k` where no entry is the first named `k`.
proof fn lemma_none_before(s: Seq<(Seq<char>, Seq<char>)>, k: Seq<char>, j: int)
    requires
        name_index(s, k) == -1,
        0 <= j <= s.len(),
    ensures
        forall|m: int| 0 <= m < j ==> !same_name(#[trigger] s[m].0, k),
    decreases j,
{
    if j > 0 {
        lemma_none_before(s, k, j - 1);
        if same_name(s[j - 1].0, k) {
            assert(is_first_named(s, k, j - 1));
        }
    }
}

/// A field just set is found under its name.
pub proof fn lemma_lookup_inserted(s: Seq<(Seq<char>, Seq<char>)>, k: Seq<char>, v: Seq<char>)
    ensures
        lookup(inserted(s, k, v), k) == Some(v),
{
    let i = name_index(s, k);
    let t = inserted(s, k, v);
    if i >= 0 {
        let c = choose|c: int| is_first_named(s, k, c);
        assert(is_first_named(s, k, c));
        assert(is_first_named(t, k, i));
        lemma_name_index_is(t, k, i);
    } else {
        lemma_none_before(s, k, s.len() as int);
        assert(is_first_named(t, k, s.len() as int));
        lemma_name_index_is(t, k, s.len() as int);
    }
}

/// Setting a field of another name leaves a name absent.
pub proof fn lemma_inserted_keeps_absent(
    s: Seq<(Seq<char>, Seq<char>)>,
    k: Seq<char>,
    v: Seq<char>,
    c: Seq<char>,
)
    requires
        name_index(s, c) == -1,
        !same_name(k, c),
    ensures
        name_index(inserted(s, k, v), c) == -1,
{
    lemma_none_before(s, c, s.len() as int);
    let t = inserted(s, k, v);
    assert forall|j: int| 0 <= j < t.len() implies !same_name(#[trigger] t[j].0, c) by {
        if j < s.len() && t[j] != s[j] {
        }
    }
    lemma_name_index_none(t, c);
}

/// Names that start with different letters are different names.
pub proof fn lemma_names_differ(a: Seq<char>, b: Seq<char>)
    requires
        a.len() > 0,
        b.len() > 0,
        (a[0] as u32) < 128,
        (b[0] as u32) < 128,
        lower((a[0] as u32) as u8) != lower((b[0] as u32) as u8),
    ensures
        !same_name(a, b),
{
    lemma_first_byte_ascii(a);
    lemma_first_byte_ascii(b);
}

/// No two fields have the same name.
pub open spec fn distinct_names(s: Seq<(Seq<char>, Seq<char>)>) -> bool {
    forall|i: int, j: int| 0 <= i < j < s.len() ==> !same_name(#[trigger] s[i].0, #[trigger] s[j].0)
}

proof fn lemma_same_name_trans(a: Seq<char>, b: Seq<char>, c: Seq<char>)
    requires
        same_name(a, b),
        same_name(b, c),
    ensures
        same_name(a, c),
        same_name(c, a),
{
    let x = utf8_of(a);
    let y = utf8_of(b);
    let z = utf8_of(c);
    assert forall|i: int| 0 <= i < x.len() implies lower(#[trigger] x[i]) == lower(z[i]) by {
        assert(lower(x[i]) == lower(y[i]));
        assert(lower(y[i]) == lower(z[i]));
    }
    assert forall|i: int| 0 <= i < z.len() implies lower(#[trigger] z[i]) == lower(x[i]) by {
        assert(lower(x[i]) == lower(y[i]));
        assert(lower(y[i]) == lower(z[i]));
    }
}

/// Setting a field keeps the names distinct: after it, exactly one field
/// has that name.
pub proof fn lemma_inserted_distinct(s: Seq<(Seq<char>, Seq<char>)>, k: Seq<char>, v: Seq<char>)
    requires
        distinct_names(s),
    ensures
        distinct_names(inserted(s, k, v)),
        lookup(inserted(s, k, v), k) == Some(v),
        forall|i: int|
            0 <= i < inserted(s, k, v).len() && same_name(#[trigger] inserted(s, k, v)[i].0, k)
                ==> inserted(s, k, v)[i] == (k, v),
{
    lemma_lookup_inserted(s, k, v);
    let t = inserted(s, k, v);
    let i = name_index(s, k);
    if i >= 0 {
        let c = choose|c: int| is_first_named(s, k, c);
        assert(is_first_named(s, k, c));
        assert forall|a: int, b: int| 0 <= a < b < t.len() implies !same_name(
            #[trigger] t[a].0,
            #[trigger] t[b].0,
        ) by {
            if a == i {
                assert(!same_name(s[i].0, s[b].0));
                if same_name(k, s[b].0) {
                    lemma_same_name_trans(s[i].0, k, s[b].0);
                }
            } else if b == i {
                assert(!same_name(s[a].0, s[i].0));
                if same_name(s[a].0, k) {
                    lemma_same_name_trans(k, s[i].0, s[i].0);
                    lemma_same_name_trans(s[a].0, k, s[i].0);
                }
            } else {
                assert(t[a] == s[a] && t[b] == s[b]);
            }
        }
    } else {
        lemma_none_before(s, k, s.len() as int);
        assert forall|a: int, b: int| 0 <= a < b < t.len() implies !same_name(
            #[trigger] t[a].0,
            #[trigger] t[b].0,
        ) by {
            if b == s.len() {
                assert(!same_name(s[a].0, k));
            } else {
                assert(t[a] == s[a] && t[b] == s[b]);
            }
        }
    }
}

/// Header fields in the order they were set.
pub struct HeaderMap {
    entries: Vec<(String, String)>,
}

/// The names and values of stored fields.
pub open spec fn entries_view(e: Seq<(String, String)>) -> Seq<(Seq<char>, Seq<char>)> {
    e.map_values(|x: (String, String)| (x.0@, x.1@))
}

impl View for HeaderMap {
    type V = Seq<(Seq<char>, Seq<char>)>;

    closed spec fn view(&self) -> Seq<(Seq<char>, Seq<char>)> {
        entries_view(self.entries@)
    }
}

impl HeaderMap {
    /// Every header map holds at most one field of each name.
    #[verifier::type_invariant]
    spec fn names_are_distinct(self) -> bool {
        distinct_names(entries_view(self.entries@))
    }

    /// An empty list.
    pub fn new() -> (r: Self)
        ensures
            r@ == Seq::<(Seq<char>, Seq<char>)>::empty(),
            distinct_names(r@),
    {
        let r = HeaderMap { entries: Vec::new() };
        assert(r@ =~= Seq::<(Seq<char>, Seq<char>)>::empty());
        r
    }

    /// The number of fields.
    pub fn len(&self) -> (r: usize)
        ensures
            distinct_names(self@),
            r == self@.len(),
    {
        proof {
            use_type_invariant(self);
        }
        self.entries.len()
    }

    /// The name and value of field `i`.
    pub fn entry(&self, i: usize) -> (r: (&str, &str))
        requires
            i < self@.len(),
        ensures
            distinct_names(self@),
            r.0@ == self@[i as int].0,
            r.1@ == self@[i as int].1,
    {
        proof {
            use_type_invariant(self);
        }
        let e = &self.entries[i];
        (e.0.as_str(), e.1.as_str())
    }

    /// The position of the first field named `k`.
    pub fn position(&self, k: &str) -> (r: Option<usize>)
        ensures
            distinct_names(self@),
            match r {
                Some(i) => name_index(self@, k@) == i as int && 0 <= i < self@.len(),
                None => name_index(self@, k@) == -1,
            },
    {
        proof {
            use_type_invariant(self);
        }
        let kb = str_bytes(k);
        let mut i: usize = 0;
        while i < self.entries.len()
            invariant
                distinct_names(self@),
                0 <= i <= self@.len(),
                self@.len() == self.entries@.len(),
                kb@ == utf8_of(k@),
                forall|j: int| 0 <= j < i ==> !same_name(#[trigger] self@[j].0, k@),
            decreases self@.len() - i,
        {
            let name = &self.entries[i].0;
            if eq_ignore_case(string_bytes(name), kb) {
                proof {
                    lemma_name_index_is(self@, k@, i as int);
                }
                return Some(i);
            }
            i = i + 1;
        }
        proof {
            lemma_name_index_none(self@, k@);
        }
        None
    }

    /// The value of the field named `k`, compared without regard to case.
    pub fn get(&self, k: &str) -> (r: Option<&str>)
        ensures
            distinct_names(self@),
            match r {
                Some(v) => lookup(self@, k@) == Some(v@),
                None => lookup(self@, k@) is None,
            },
    {
        proof {
            use_type_invariant(self);
        }
        match self.position(k) {
            Some(i) => Some(self.entries[i].1.as_str()),
            None => None,
        }
    }

    /// Whether a field named `k` is present.
    pub fn contains(&self, k: &str) -> (r: bool)
        ensures
            distinct_names(self@),
            r == (name_index(self@, k@) >= 0),
    {
        proof {
            use_type_invariant(self);
        }
        self.position(k).is_some()
    }

    /// Sets the field named `k` to `v`: afterwards the map holds exactly one
    /// field of that name.
    pub fn insert(&mut self, k: String, v: String)
        ensures
            final(self)@ == inserted(old(self)@, k@, v@),
            distinct_names(final(self)@),
            lookup(final(self)@, k@) == Some(v@),
            forall|i: int|
                0 <= i < final(self)@.len() && same_name(#[trigger] final(self)@[i].0, k@)
                    ==> final(self)@[i] == (k@, v@),
    {
        proof {
            use_type_invariant(&*self);
            lemma_inserted_distinct(self@, k@, v@);
        }
        let pos = self.position(k.as_str());
        let mut entries: Vec<(String, String)> = Vec::new();
        std::mem::swap(&mut entries, &mut self.entries);
        let ghost kv = k@;
        let ghost vv = v@;
        match pos {
            Some(i) => {
                entries.set(i, (k, v));
                assert(entries_view(entries@) =~= old(self)@.update(i as int, (kv, vv)));
            },
            None => {
                entries.push((k, v));
                assert(entries_view(entries@) =~= old(self)@.push((kv, vv)));
            },
        }
        self.entries = entries;
    }

    /// Removes every field named `k`.
    pub fn remove(&mut self, k: &str)
        ensures
            final(self)@ == removed(old(self)@, k@),
            name_index(final(self)@, k@) == -1,
            distinct_names(final(self)@),
    {
        proof {
            use_type_invariant(&*self);
        }
        let kb = str_bytes(k);
        let mut kept: Vec<(String, String)> = Vec::new();
        let mut i: usize = 0;
        let ghost s0 = self@;
        assert(s0.subrange(0, 0).filter(not_named(k@)) =~= Seq::<(Seq<char>, Seq<char>)>::empty())
            by {
            reveal(Seq::filter);
        }
        while i < self.entries.len()
            invariant
                0 <= i <= s0.len(),
                self@ == s0,
                distinct_names(s0),
                self.entries@.len() == s0.len(),
                kb@ == utf8_of(k@),
                entries_view(kept@) == s0.subrange(0, i as int).filter(not_named(k@)),
                distinct_names(entries_view(kept@)),
                forall|a: int|
                    0 <= a < kept@.len() ==> exists|j: int|
                        0 <= j < i && #[trigger] entries_view(kept@)[a] == s0[j],
            decreases s0.len() - i,
        {
            let e = &self.entries[i];
            let ghost ev = s0[i as int];
            proof {
                s0.subrange(0, i as int).lemma_filter_push(ev, not_named(k@));
                assert(s0.subrange(0, i + 1) =~= s0.subrange(0, i as int).push(ev));
            }
            if !eq_ignore_case(string_bytes(&e.0), kb) {
                let ghost before = entries_view(kept@);
                kept.push((e.0.clone(), e.1.clone()));
                assert(entries_view(kept@) =~= before.push(ev));
                proof {
                    let kv = entries_view(kept@);
                    assert forall|a: int, b: int| 0 <= a < b < kv.len() implies !same_name(
                        #[trigger] kv[a].0,
                        #[trigger] kv[b].0,
                    ) by {
                        if b == kv.len() - 1 {
                            assert(kv[a] == before[a]);
                            let j = choose|j: int| 0 <= j < i && before[a] == s0[j];
                            assert(!same_name(s0[j].0, s0[i as int].0));
                        } else {
                            assert(kv[a] == before[a] && kv[b] == before[b]);
                        }
                    }
                    assert forall|a: int| 0 <= a < kv.len() implies exists|j: int|
                        0 <= j < i + 1 && #[trigger] kv[a] == s0[j] by {
                        if a == kv.len() - 1 {
                            assert(kv[a] == s0[i as int]);
                        } else {
                            assert(kv[a] == before[a]);
                            let j = choose|j: int| 0 <= j < i && before[a] == s0[j];
                            assert(kv[a] == s0[j]);
                        }
                    }
                }
            }
            i = i + 1;
        }
        assert(s0.subrange(0, s0.len() as int) =~= s0);
        self.entries = kept;
        proof {
            let f = s0.filter(not_named(k@));
            assert forall|j: int| 0 <= j < f.len() implies !same_name(#[trigger] f[j].0, k@) by {
                s0.lemma_filter_pred(not_named(k@), j);
            }
            lemma_name_index_none(self@, k@);
        }
    }
}

impl Clone for HeaderMap {
    fn clone(&self) -> (r: Self)
        ensures
            r@ == self@,
            distinct_names(r@),
    {
        proof {
            use_type_invariant(self);
        }
        let mut entries: Vec<(String, String)> = Vec::new();
        let mut i: usize = 0;
        while i < self.entries.len()
            invariant
                0 <= i <= self.entries@.len(),
                entries@.len() == i,
                forall|j: int|
                    0 <= j < i ==> (#[trigger] entries@[j]).0@ == self.entries@[j].0@
                        && entries@[j].1@ == self.entries@[j].1@,
            decreases self.entries@.len() - i,
        {
            let e = &self.entries[i];
            entries.push((e.0.clone(), e.1.clone()));
            i = i + 1;
        }
        assert(entries_view(entries@) =~= self@);
        HeaderMap { entries }
    }
}

} // verus!
