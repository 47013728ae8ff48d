//! The routing table: keys `METHOD` + path, looked up exactly, then by
//! wildcard, else the not-found entry.
use vstd::prelude::*;
use crate::bytes::{
    append_range, bytes_equal, find_from, find_spec, matches_at, trim_bounds, trim_spec,
};
use crate::text::{
    cut_ok, lemma_utf8_concat, lemma_utf8_of_valid, lemma_valid_piece, str_bytes, string_bytes, string_of_range,
    utf8_of,
};

verus! {

/// The path of a URL: what precedes its first `?`.
pub open spec fn path_of(u: Seq<u8>) -> Seq<u8> {
    match find_spec(u, seq![63u8], 0) {
        Some(q) => u.subrange(0, q),
        None => u,
    }
}

/// The routing key of a request: its method followed by its path.
pub open spec fn route_key_spec(method: Seq<char>, url: Seq<char>) -> Seq<u8> {
    utf8_of(method) + path_of(utf8_of(url))
}

/// The routing key of a request.
pub fn route_key(method: &str, url: &str) -> (r: String)
    ensures
        utf8_of(r@) == route_key_spec(method@, url@),
{
    let u = str_bytes(url);
    let qm: [u8; 1] = [63];
    assert(qm@ =~= seq![63u8]);
    let end = match find_from(u, qm.as_slice(), 0) {
        Some(q) => {
            assert(matches_at(u@, qm@, q as int));
            q
        },
        None => u.len(),
    };
    proof {
        lemma_utf8_of_valid(url@);
        if end < u@.len() {
            assert(u@.subrange(end as int, end + 1)[0] == 63);
        }
        assert(cut_ok(u@, end as int));
        lemma_valid_piece(u@, 0, end as int);
        assert(u@.subrange(0, u@.len() as int) =~= u@);
    }
    let path = match string_of_range(u, 0, end) {
        Some(p) => p,
        None => String::new(),
    };
    let mut key = String::from_str(method);
    key.append(path.as_str());
    proof {
        let a = utf8_of(method@);
        let b = utf8_of(path@);
        assert(key@ == method@ + path@);
        lemma_utf8_concat(method@, path@);
    }
    key
}

/// The key of a registered route ending in `*` matches a request key that
/// agrees with it on all but its last two characters, and is longer than
/// those.
pub open spec fn wildcard_matches(k: Seq<u8>, key: Seq<u8>) -> bool {
    &&& k.len() >= 2
    &&& k.last() == 42
    &&& key.len() > k.len() - 2
    &&& k.subrange(0, k.len() - 2) == key.subrange(0, k.len() - 2)
}

/// Which entry of the table answers a key.
pub enum RouteMatch {
    Exact(usize),
    Wildcard(usize),
    NotFound,
}

/// The keys of the registered routes.
pub struct RouteTable {
    pub keys: Vec<String>,
}

/// The bytes of each key.
pub open spec fn key_bytes(keys: Seq<String>) -> Seq<Seq<u8>> {
    keys.map_values(|k: String| utf8_of(k@))
}

/// Which entry answers `key`: the first equal key; else the first wildcard
/// key that matches; else none.
pub open spec fn route_match_spec(keys: Seq<Seq<u8>>, key: Seq<u8>, r: RouteMatch) -> bool {
    match r {
        RouteMatch::Exact(i) => i < keys.len() && keys[i as int] == key && forall|j: int|
            0 <= j < i ==> keys[j] != key,
        RouteMatch::Wildcard(i) => {
            &&& forall|j: int| 0 <= j < keys.len() ==> keys[j] != key
            &&& i < keys.len()
            &&& wildcard_matches(keys[i as int], key)
            &&& forall|j: int| 0 <= j < i ==> !wildcard_matches(#[trigger] keys[j], key)
        },
        RouteMatch::NotFound => {
            &&& forall|j: int| 0 <= j < keys.len() ==> keys[j] != key
            &&& forall|j: int| 0 <= j < keys.len() ==> !wildcard_matches(#[trigger] keys[j], key)
        },
    }
}

fn wildcard_match(k: &[u8], key: &[u8]) -> (r: bool)
    ensures
        r == wildcard_matches(k@, key@),
{
    if k.len() < 2 || k[k.len() - 1] != 42 {
        return false;
    }
    let n = k.len() - 2;
    if key.len() <= n {
        return false;
    }
    let mut a: Vec<u8> = Vec::new();
    append_range(&mut a, k, 0, n);
    let mut b: Vec<u8> = Vec::new();
    append_range(&mut b, key, 0, n);
    bytes_equal(a.as_slice(), b.as_slice())
}

impl RouteTable {
    pub fn new() -> (r: Self)
        ensures
            r.keys@.len() == 0,
    {
        RouteTable { keys: Vec::new() }
    }

    /// The entry that answers a request key.
    pub fn find(&self, key: &str) -> (r: RouteMatch)
        ensures
            route_match_spec(key_bytes(self.keys@), utf8_of(key@), r),
    {
        let kb = str_bytes(key);
        let ghost ks = key_bytes(self.keys@);
        let mut i: usize = 0;
        while i < self.keys.len()
            invariant
                0 <= i <= self.keys@.len(),
                ks == key_bytes(self.keys@),
                kb@ == utf8_of(key@),
                forall|j: int| 0 <= j < i ==> ks[j] != kb@,
            decreases self.keys@.len() - i,
        {
            if bytes_equal(string_bytes(&self.keys[i]), kb) {
                return RouteMatch::Exact(i);
            }
            i = i + 1;
        }
        let mut i: usize = 0;
        while i < self.keys.len()
            invariant
                0 <= i <= self.keys@.len(),
                ks == key_bytes(self.keys@),
                kb@ == utf8_of(key@),
                forall|j: int| 0 <= j < self.keys@.len() ==> ks[j] != kb@,
                forall|j: int| 0 <= j < i ==> !wildcard_matches(#[trigger] ks[j], kb@),
            decreases self.keys@.len() - i,
        {
            if wildcard_match(string_bytes(&self.keys[i]), kb) {
                return RouteMatch::Wildcard(i);
            }
            i = i + 1;
        }
        RouteMatch::NotFound
    }

    /// Registers a key, or finds it registered already; gives its index.
    pub fn insert(&mut self, key: String) -> (r: usize)
        ensures
            r < final(self).keys@.len(),
            final(self).keys@[r as int]@ == key@,
            (forall|j: int| 0 <= j < old(self).keys@.len() ==> old(self).keys@[j]@ != key@)
                ==> final(self).keys@ == old(self).keys@.push(key) && r == old(self).keys@.len(),
            (exists|j: int| 0 <= j < old(self).keys@.len() && old(self).keys@[j]@ == key@)
                ==> final(self).keys@ == old(self).keys@,
    {
        let mut i: usize = 0;
        while i < self.keys.len()
            invariant
                0 <= i <= self.keys@.len(),
                self.keys@ == old(self).keys@,
                forall|j: int| 0 <= j < i ==> self.keys@[j]@ != key@,
            decreases self.keys@.len() - i,
        {
            if self.keys[i] == key {
                return i;
            }
            i = i + 1;
        }
        let n = self.keys.len();
        self.keys.push(key);
        n
    }
}

/// A route's path may be anything but the bare root wildcard `/*`.
pub open spec fn path_allowed(path: Seq<char>) -> bool {
    trim_spec(utf8_of(path)) != seq![47u8, 42]
}

/// Whether a path may be registered.
pub fn check_route_path(path: &str) -> (r: bool)
    ensures
        r == path_allowed(path@),
{
    let b = str_bytes(path);
    let (x, y) = trim_bounds(b);
    let mut t: Vec<u8> = Vec::new();
    append_range(&mut t, b, x, y);
    let root: [u8; 2] = [47, 42];
    assert(root@ =~= seq![47u8, 42]);
    !bytes_equal(t.as_slice(), root.as_slice())
}

/// The routing keys of a path registered for a list of methods, by name.
pub fn route_keys(methods: &[&str], path: &str) -> (r: Vec<String>)
    ensures
        r@.len() == methods@.len(),
        forall|i: int| 0 <= i < r@.len() ==> (#[trigger] r@[i])@ == methods@[i]@ + path@,
{
    let mut r: Vec<String> = Vec::new();
    let mut i: usize = 0;
    while i < methods.len()
        invariant
            0 <= i <= methods@.len(),
            r@.len() == i,
            forall|k: int| 0 <= k < i ==> (#[trigger] r@[k])@ == methods@[k]@ + path@,
        decreases methods@.len() - i,
    {
        let mut key = String::from_str(methods[i]);
        key.append(path);
        r.push(key);
        i = i + 1;
    }
    r
}

/// What runs next in a route's chain.
pub enum ChainStep {
    /// The middleware at this position.
    Middleware(usize),
    /// The handler: every middleware let the request through.
    Handler,
    /// Nothing more: a middleware refused the request and answered it.
    Stop,
}

/// The next step of a chain of `count` middlewares, `passed` of which have
/// run, the last one answering `last_ok`.
pub fn chain_step(passed: usize, count: usize, last_ok: bool) -> (r: ChainStep)
    requires
        passed <= count,
    ensures
        !last_ok ==> r is Stop,
        last_ok && passed < count ==> r == ChainStep::Middleware(passed),
        last_ok && passed == count ==> r is Handler,
{
    if !last_ok {
        ChainStep::Stop
    } else if passed < count {
        ChainStep::Middleware(passed)
    } else {
        ChainStep::Handler
    }
}

} // verus!
