//! The record of what was last uploaded: for each file path, the hash of the
//! contents that went to the server.
use vstd::prelude::*;

verus! {

/// `s[i]` holds the key `k`.
pub open spec fn key_at(s: Seq<(String, String)>, k: Seq<char>, i: int) -> bool {
    0 <= i < s.len() && s[i].0@ == k
}

/// No key occurs twice in `s`.
pub open spec fn keys_unique(s: Seq<(String, String)>) -> bool {
    forall|i: int, j: int| 0 <= i < s.len() && 0 <= j < s.len() && i != j ==> s[i].0@ != s[j].0@
}

/// The map that a sequence of pairs with distinct keys stands for.
pub open spec fn entries_view(s: Seq<(String, String)>) -> Map<Seq<char>, Seq<char>> {
    Map::new(
        |k: Seq<char>| exists|i: int| key_at(s, k, i),
        |k: Seq<char>| s[choose|i: int| key_at(s, k, i)].1@,
    )
}

/// The map obtained by inserting the pairs one after the other, so that a
/// later pair for a key replaces an earlier one.
pub open spec fn pairs_view(s: Seq<(String, String)>) -> Map<Seq<char>, Seq<char>>
    decreases s.len(),
{
    if s.len() == 0 {
        Map::empty()
    } else {
        pairs_view(s.drop_last()).insert(s.last().0@, s.last().1@)
    }
}

proof fn lemma_entry_in_view(s: Seq<(String, String)>, i: int)
    requires
        keys_unique(s),
        0 <= i < s.len(),
    ensures
        entries_view(s).contains_key(s[i].0@),
        entries_view(s)[s[i].0@] == s[i].1@,
{
    let k = s[i].0@;
    assert(key_at(s, k, i));
    let j = choose|j: int| key_at(s, k, j);
    assert(j == i);
}

proof fn lemma_view_update(s: Seq<(String, String)>, i: int, k: String, v: String)
    requires
        keys_unique(s),
        0 <= i < s.len(),
        s[i].0@ == k@,
    ensures
        keys_unique(s.update(i, (k, v))),
        entries_view(s.update(i, (k, v))) == entries_view(s).insert(k@, v@),
{
    let t = s.update(i, (k, v));
    assert(keys_unique(t));
    lemma_entry_in_view(t, i);
    let m = entries_view(s).insert(k@, v@);
    assert forall|key: Seq<char>| #[trigger] entries_view(t).contains_key(key)
        == m.contains_key(key) by {
        if key != k@ {
            if entries_view(s).contains_key(key) {
                let j = choose|j: int| key_at(s, key, j);
                assert(key_at(t, key, j));
            }
            if entries_view(t).contains_key(key) {
                let j = choose|j: int| key_at(t, key, j);
                assert(key_at(s, key, j));
            }
        }
    }
    assert forall|key: Seq<char>| #[trigger] entries_view(t).contains_key(key)
        implies entries_view(t)[key] == m[key] by {
        if key != k@ {
            let j = choose|j: int| key_at(t, key, j);
            assert(key_at(s, key, j));
            lemma_entry_in_view(s, j);
            lemma_entry_in_view(t, j);
        }
    }
    assert(entries_view(t) =~= m);
}

proof fn lemma_view_push(s: Seq<(String, String)>, k: String, v: String)
    requires
        keys_unique(s),
        !entries_view(s).contains_key(k@),
    ensures
        keys_unique(s.push((k, v))),
        entries_view(s.push((k, v))) == entries_view(s).insert(k@, v@),
{
    let t = s.push((k, v));
    assert forall|i: int| 0 <= i < s.len() implies s[i].0@ != k@ by {
        if s[i].0@ == k@ {
            assert(key_at(s, k@, i));
        }
    }
    assert(keys_unique(t));
    lemma_entry_in_view(t, s.len() as int);
    let m = entries_view(s).insert(k@, v@);
    assert forall|key: Seq<char>| #[trigger] entries_view(t).contains_key(key)
        == m.contains_key(key) by {
        if key != k@ {
            if entries_view(s).contains_key(key) {
                let j = choose|j: int| key_at(s, key, j);
                assert(key_at(t, key, j));
            }
            if entries_view(t).contains_key(key) {
                let j = choose|j: int| key_at(t, key, j);
                assert(key_at(s, key, j));
            }
        }
    }
    assert forall|key: Seq<char>| #[trigger] entries_view(t).contains_key(key)
        implies entries_view(t)[key] == m[key] by {
        if key != k@ {
            let j = choose|j: int| key_at(t, key, j);
            assert(key_at(s, key, j));
            lemma_entry_in_view(s, j);
            lemma_entry_in_view(t, j);
        }
    }
    assert(entries_view(t) =~= m);
}

/// With distinct keys, inserting the pairs in order gives the map they stand for.
proof fn lemma_pairs_view_unique(s: Seq<(String, String)>)
    requires
        keys_unique(s),
    ensures
        pairs_view(s) == entries_view(s),
    decreases s.len(),
{
    if s.len() == 0 {
        assert(entries_view(s) =~= Map::empty());
    } else {
        let p = s.drop_last();
        assert(keys_unique(p));
        lemma_pairs_view_unique(p);
        assert(s =~= p.push(s.last()));
        assert(!entries_view(p).contains_key(s.last().0@)) by {
            if entries_view(p).contains_key(s.last().0@) {
                let j = choose|j: int| key_at(p, s.last().0@, j);
                assert(s[j].0@ == s[s.len() - 1].0@);
            }
        }
        lemma_view_push(p, s.last().0, s.last().1);
    }
}

/// A file whose contents hash to `hash` has to be uploaded unless `hash` is
/// what the record `m` holds for its path.
pub open spec fn needs_upload(m: Map<Seq<char>, Seq<char>>, path: Seq<char>, hash: Seq<char>) -> bool {
    !(m.contains_key(path) && m[path] == hash)
}

/// The record after the check of `path` against `hash`: the hash is recorded
/// when the file has to be uploaded.
pub open spec fn after_check(m: Map<Seq<char>, Seq<char>>, path: Seq<char>, hash: Seq<char>) -> Map<
    Seq<char>,
    Seq<char>,
> {
    if needs_upload(m, path, hash) {
        m.insert(path, hash)
    } else {
        m
    }
}

proof fn lemma_pairs_view_finite(s: Seq<(String, String)>)
    ensures
        pairs_view(s).dom().finite(),
    decreases s.len(),
{
    if s.len() > 0 {
        lemma_pairs_view_finite(s.drop_last());
    }
}

/// A sequence of pairs with distinct keys stands for a finite map.
proof fn lemma_entries_view_finite(s: Seq<(String, String)>)
    requires
        keys_unique(s),
    ensures
        entries_view(s).dom().finite(),
{
    lemma_pairs_view_unique(s);
    lemma_pairs_view_finite(s);
}

/// After a check the record holds the checked hash for the path, whether the
/// file had to be uploaded or not.
pub proof fn lemma_check_records(m: Map<Seq<char>, Seq<char>>, path: Seq<char>, hash: Seq<char>)
    ensures
        after_check(m, path, hash).contains_key(path),
        after_check(m, path, hash)[path] == hash,
{
}

/// Checking a file twice with the same contents asks for one upload at most:
/// the second check finds nothing to upload.
pub proof fn lemma_second_check_skips(
    m: Map<Seq<char>, Seq<char>>,
    path: Seq<char>,
    hash: Seq<char>,
)
    ensures
        !needs_upload(after_check(m, path, hash), path, hash),
        after_check(after_check(m, path, hash), path, hash) == after_check(m, path, hash),
{
}

/// A check touches the record of the checked path only.
pub proof fn lemma_check_other_paths(
    m: Map<Seq<char>, Seq<char>>,
    path: Seq<char>,
    hash: Seq<char>,
    other: Seq<char>,
)
    requires
        other != path,
    ensures
        after_check(m, path, hash).contains_key(other) == m.contains_key(other),
        m.contains_key(other) ==> after_check(m, path, hash)[other] == m[other],
{
}

/// The order in which distinct paths are listed does not matter: any two
/// listings of the same pairs give the same record, so a record saved in any
/// order loads back the same.
pub proof fn lemma_pairs_order_irrelevant(a: Seq<(String, String)>, b: Seq<(String, String)>)
    requires
        keys_unique(a),
        keys_unique(b),
        a.to_multiset() == b.to_multiset(),
    ensures
        pairs_view(a) == pairs_view(b),
{
    broadcast use vstd::seq_lib::to_multiset_contains;

    lemma_pairs_view_unique(a);
    lemma_pairs_view_unique(b);
    assert forall|i: int| 0 <= i < a.len() implies b.contains(#[trigger] a[i]) by {
        assert(a.contains(a[i]));
        assert(a.to_multiset().count(a[i]) > 0);
        assert(b.to_multiset().count(a[i]) > 0);
    }
    assert forall|i: int| 0 <= i < b.len() implies a.contains(#[trigger] b[i]) by {
        assert(b.contains(b[i]));
        assert(b.to_multiset().count(b[i]) > 0);
        assert(a.to_multiset().count(b[i]) > 0);
    }
    assert forall|k: Seq<char>| #[trigger] entries_view(a).contains_key(k)
        == entries_view(b).contains_key(k) by {
        if entries_view(a).contains_key(k) {
            let i = choose|i: int| key_at(a, k, i);
            let j = choose|j: int| 0 <= j < b.len() && b[j] == a[i];
            assert(key_at(b, k, j));
        }
        if entries_view(b).contains_key(k) {
            let j = choose|j: int| key_at(b, k, j);
            let i = choose|i: int| 0 <= i < a.len() && a[i] == b[j];
            assert(key_at(a, k, i));
        }
    }
    assert forall|k: Seq<char>| #[trigger] entries_view(a).contains_key(k) implies entries_view(
        a,
    )[k] == entries_view(b)[k] by {
        let i = choose|i: int| key_at(a, k, i);
        let j = choose|j: int| 0 <= j < b.len() && b[j] == a[i];
        lemma_entry_in_view(a, i);
        lemma_entry_in_view(b, j);
    }
    assert(entries_view(a) =~= entries_view(b));
}

/// Saving then loading gives the record back: `pairs` lists the record with
/// distinct paths, the saved map may list the same pairs in any other order,
/// and `from_pairs` of that listing is the record again.
pub proof fn lemma_reload_round_trip(
    record: Map<Seq<char>, Seq<char>>,
    saved: Seq<(String, String)>,
    loaded: Seq<(String, String)>,
)
    requires
        keys_unique(saved),
        pairs_view(saved) == record,
        keys_unique(loaded),
        loaded.to_multiset() == saved.to_multiset(),
    ensures
        pairs_view(loaded) == record,
{
    lemma_pairs_order_irrelevant(loaded, saved);
}

/// For each file path, the hash of the contents last uploaded.
pub struct SyncState {
    hashes: Vec<(String, String)>,
}

impl View for SyncState {
    type V = Map<Seq<char>, Seq<char>>;

    closed spec fn view(&self) -> Map<Seq<char>, Seq<char>> {
        entries_view(self.hashes@)
    }
}

impl SyncState {
    #[verifier::type_invariant]
    spec fn inv(self) -> bool {
        keys_unique(self.hashes@)
    }

    /// A record that holds no path.
    pub fn new() -> (s: SyncState)
        ensures
            s@ == Map::<Seq<char>, Seq<char>>::empty(),
            s@.dom().finite(),
    {
        let s = SyncState { hashes: Vec::new() };
        assert(s@ =~= Map::<Seq<char>, Seq<char>>::empty());
        s
    }

    /// The position of `key` among the entries, if it is there.
    fn find(hashes: &Vec<(String, String)>, key: &String) -> (r: Option<usize>)
        requires
            keys_unique(hashes@),
        ensures
            r matches Some(i) ==> i < hashes@.len() && hashes@[i as int].0@ == key@,
            r is None ==> !entries_view(hashes@).contains_key(key@),
    {
        let mut i: usize = 0;
        while i < hashes.len()
            invariant
                i <= hashes@.len(),
                forall|j: int| 0 <= j < i ==> hashes@[j].0@ != key@,
            decreases hashes.len() - i,
        {
            if hashes[i].0 == *key {
                return Some(i);
            }
            i = i + 1;
        }
        assert(!entries_view(hashes@).contains_key(key@)) by {
            if entries_view(hashes@).contains_key(key@) {
                let j = choose|j: int| key_at(hashes@, key@, j);
            }
        }
        None
    }

    /// Stores `hash` as the hash of `path`, in place of any earlier one.
    pub fn record(&mut self, path: String, hash: String)
        ensures
            final(self)@ == old(self)@.insert(path@, hash@),
            final(self)@.dom().finite(),
    {
        proof {
            use_type_invariant(&*self);
        }
        let mut hashes: Vec<(String, String)> = Vec::new();
        std::mem::swap(&mut hashes, &mut self.hashes);
        let ghost before = hashes@;
        match Self::find(&hashes, &path) {
            Some(i) => {
                proof {
                    lemma_view_update(before, i as int, path, hash);
                }
                hashes.set(i, (path, hash));
            },
            None => {
                proof {
                    lemma_view_push(before, path, hash);
                }
                hashes.push((path, hash));
            },
        }
        proof {
            lemma_entries_view_finite(hashes@);
        }
        self.hashes = hashes;
    }

    /// The hash recorded for `path`, if there is one.
    pub fn hash_of(&self, path: &str) -> (r: Option<String>)
        ensures
            r matches Some(h) ==> self@.contains_key(path@) && self@[path@] == h@,
            r is None ==> !self@.contains_key(path@),
    {
        proof {
            use_type_invariant(self);
        }
        let key = String::from_str(path);
        match Self::find(&self.hashes, &key) {
            Some(i) => {
                proof {
                    lemma_entry_in_view(self.hashes@, i as int);
                }
                Some(self.hashes[i].1.clone())
            },
            None => None,
        }
    }

    /// Decides whether the file at `path`, whose contents now hash to
    /// `current_hash`, has to be uploaded: it has unless the same hash is
    /// recorded for it. When it has, the new hash is recorded.
    pub fn should_upload(&mut self, path: &str, current_hash: String) -> (r: bool)
        ensures
            r == needs_upload(old(self)@, path@, current_hash@),
            final(self)@ == after_check(old(self)@, path@, current_hash@),
            final(self)@.dom().finite(),
            final(self)@.dom().len() <= old(self)@.dom().len() + 1,
    {
        proof {
            use_type_invariant(&*self);
            lemma_entries_view_finite(self.hashes@);
        }
        match self.hash_of(path) {
            Some(prev) => {
                if prev == current_hash {
                    false
                } else {
                    self.record(String::from_str(path), current_hash);
                    true
                }
            },
            None => {
                self.record(String::from_str(path), current_hash);
                true
            },
        }
    }

    /// The record built from `pairs`, inserted in order, so that a later pair for a
    /// path replaces an earlier one.
    pub fn from_pairs(pairs: Vec<(String, String)>) -> (s: SyncState)
        ensures
            s@ == pairs_view(pairs@),
            s@.dom().finite(),
    {
        let mut s = SyncState::new();
        let n = pairs.len();
        let mut i: usize = 0;
        while i < n
            invariant
                n == pairs@.len(),
                i <= n,
                s@ == pairs_view(pairs@.take(i as int)),
            decreases n - i,
        {
            let k = pairs[i].0.clone();
            let v = pairs[i].1.clone();
            proof {
                assert(pairs@.take(i + 1).drop_last() =~= pairs@.take(i as int));
            }
            s.record(k, v);
            i = i + 1;
        }
        assert(pairs@.take(n as int) =~= pairs@);
        proof {
            lemma_pairs_view_finite(pairs@);
        }
        s
    }

    /// All recorded paths with their hashes, each path once.
    pub fn pairs(&self) -> (r: Vec<(String, String)>)
        ensures
            keys_unique(r@),
            pairs_view(r@) == self@,
    {
        proof {
            use_type_invariant(self);
        }
        let n = self.hashes.len();
        let mut r: Vec<(String, String)> = Vec::new();
        let mut i: usize = 0;
        while i < n
            invariant
                n == self.hashes@.len(),
                i <= n,
                r@.len() == i,
                forall|j: int| 0 <= j < i ==> r@[j].0@ == self.hashes@[j].0@ && r@[j].1@
                    == self.hashes@[j].1@,
            decreases n - i,
        {
            let k = self.hashes[i].0.clone();
            let v = self.hashes[i].1.clone();
            r.push((k, v));
            i = i + 1;
        }
        proof {
            assert(keys_unique(r@));
            lemma_pairs_view_unique(r@);
            assert forall|key: Seq<char>| #[trigger] entries_view(r@).contains_key(key)
                == entries_view(self.hashes@).contains_key(key) by {
                if entries_view(r@).contains_key(key) {
                    let j = choose|j: int| key_at(r@, key, j);
                    assert(key_at(self.hashes@, key, j));
                }
                if entries_view(self.hashes@).contains_key(key) {
                    let j = choose|j: int| key_at(self.hashes@, key, j);
                    assert(key_at(r@, key, j));
                }
            }
            assert forall|key: Seq<char>| #[trigger] entries_view(r@).contains_key(key)
                implies entries_view(r@)[key] == entries_view(self.hashes@)[key] by {
                let j = choose|j: int| key_at(r@, key, j);
                lemma_entry_in_view(r@, j);
                lemma_entry_in_view(self.hashes@, j);
            }
            assert(entries_view(r@) =~= entries_view(self.hashes@));
        }
        r
    }
}

} // verus!
