//! The set of nonces already seen, with its bulk eviction.

use vstd::prelude::*;

verus! {

/// The most nonces remembered at once; one more clears them all.
pub const MAX_NONCES: usize = 1000;

/// A nonce as the store sees it: a request's timestamp and its signature.
pub type NonceKey = (i64, Seq<char>);

/// Recording `k` among the remembered nonces `seen`: whether it was fresh,
/// and what is remembered afterwards. A fresh nonce is added, and where that
/// makes more than `MAX_NONCES`, all of them are forgotten.
pub open spec fn nonce_step(seen: Seq<NonceKey>, k: NonceKey) -> (bool, Seq<NonceKey>) {
    if seen.contains(k) {
        (false, seen)
    } else {
        let grown = seen.push(k);
        if grown.len() > MAX_NONCES {
            (true, Seq::empty())
        } else {
            (true, grown)
        }
    }
}

/// What is remembered after recording each of `keys` in turn, starting from `seen`.
pub open spec fn nonces_after(seen: Seq<NonceKey>, keys: Seq<NonceKey>) -> Seq<NonceKey>
    decreases keys.len(),
{
    if keys.len() == 0 {
        seen
    } else {
        nonce_step(nonces_after(seen, keys.drop_last()), keys.last()).1
    }
}

proof fn lemma_distinct_fill(keys: Seq<NonceKey>, i: int)
    requires
        keys.no_duplicates(),
        0 <= i <= keys.len(),
        i <= MAX_NONCES,
    ensures
        nonces_after(Seq::empty(), keys.take(i)) == keys.take(i),
    decreases i,
{
    if i > 0 {
        lemma_distinct_fill(keys, i - 1);
        let prev = keys.take(i - 1);
        assert(keys.take(i).drop_last() =~= prev);
        assert(!prev.contains(keys[i - 1])) by {
            if prev.contains(keys[i - 1]) {
                let j = choose|j: int| 0 <= j < prev.len() && prev[j] == keys[i - 1];
                assert(keys[j] == keys[i - 1]);
            }
        }
        assert(prev.push(keys[i - 1]) =~= keys.take(i));
    } else {
        assert(keys.take(0) =~= Seq::<NonceKey>::empty());
    }
}

/// Bulk eviction: from an empty store, each of `MAX_NONCES + 1` distinct
/// nonces recorded in turn is accepted, the last one clears the store, and
/// so the first of them is accepted once more afterwards.
pub proof fn law_bulk_eviction(keys: Seq<NonceKey>)
    requires
        keys.len() == MAX_NONCES + 1,
        keys.no_duplicates(),
    ensures
        forall|i: int|
            0 <= i < keys.len() ==> (#[trigger] nonce_step(
                nonces_after(Seq::empty(), keys.take(i)),
                keys[i],
            )).0,
        nonces_after(Seq::empty(), keys) == Seq::<NonceKey>::empty(),
        nonce_step(nonces_after(Seq::empty(), keys), keys[0]).0,
{
    assert forall|i: int| 0 <= i < keys.len() implies (#[trigger] nonce_step(
        nonces_after(Seq::empty(), keys.take(i)),
        keys[i],
    )).0 by {
        if i <= MAX_NONCES {
            lemma_distinct_fill(keys, i);
            if keys.take(i).contains(keys[i]) {
                let j = choose|j: int| 0 <= j < i && keys.take(i)[j] == keys[i];
                assert(keys[j] == keys[i]);
            }
        }
    }
    lemma_distinct_fill(keys, MAX_NONCES as int);
    let full = keys.take(MAX_NONCES as int);
    assert(keys.drop_last() =~= full);
    if full.contains(keys.last()) {
        let j = choose|j: int| 0 <= j < full.len() && full[j] == keys.last();
        assert(keys[j] == keys[MAX_NONCES as int]);
    }
}

/// One remembered nonce.
pub struct Nonce {
    pub timestamp: i64,
    pub signature: Vec<char>,
}

impl View for Nonce {
    type V = NonceKey;

    open spec fn view(&self) -> NonceKey {
        (self.timestamp, self.signature@)
    }
}

/// The nonces seen so far, each once, at most `MAX_NONCES` of them.
pub struct NonceStore {
    entries: Vec<Nonce>,
}

impl View for NonceStore {
    type V = Seq<NonceKey>;

    closed spec fn view(&self) -> Seq<NonceKey> {
        self.entries@.map_values(|n: Nonce| n@)
    }
}

/// Whether `a` and `b` hold the same characters.
fn same_chars(a: &Vec<char>, b: &Vec<char>) -> (r: bool)
    ensures
        r == (a@ == b@),
{
    if a.len() != b.len() {
        return false;
    }
    let mut i: usize = 0;
    while i < a.len()
        invariant
            i <= a.len() == b.len(),
            forall|j: int| 0 <= j < i ==> a@[j] == b@[j],
        decreases a.len() - i,
    {
        if a[i] != b[i] {
            return false;
        }
        i = i + 1;
    }
    assert(a@ =~= b@);
    true
}

impl NonceStore {
    /// Each nonce is remembered once, and at most `MAX_NONCES` of them.
    pub closed spec fn wf(&self) -> bool {
        &&& self.entries.len() <= MAX_NONCES
        &&& self@.no_duplicates()
    }

    /// A store that remembers nothing.
    pub fn new() -> (r: NonceStore)
        ensures
            r@ == Seq::<NonceKey>::empty(),
            r.wf(),
    {
        let r = NonceStore { entries: Vec::new() };
        assert(r@ =~= Seq::<NonceKey>::empty());
        r
    }

    /// The number of nonces remembered.
    pub fn len(&self) -> (r: usize)
        requires
            self.wf(),
        ensures
            r == self@.len(),
            r <= MAX_NONCES,
    {
        self.entries.len()
    }

    /// Whether the nonce (`timestamp`, `signature`) was seen before.
    pub fn contains(&self, timestamp: i64, signature: &Vec<char>) -> (r: bool)
        ensures
            r == self@.contains((timestamp, signature@)),
    {
        let ghost k = (timestamp, signature@);
        let mut i: usize = 0;
        while i < self.entries.len()
            invariant
                i <= self.entries.len(),
                self@.len() == self.entries.len(),
                k == (timestamp, signature@),
                forall|j: int| 0 <= j < i ==> self@[j] != k,
            decreases self.entries.len() - i,
        {
            let e = &self.entries[i];
            assert(self@[i as int] == (e.timestamp, e.signature@));
            let same = e.timestamp == timestamp && same_chars(&e.signature, signature);
            if same {
                assert(self@[i as int] == k);
                return true;
            }
            assert(self@[i as int] != k);
            i = i + 1;
        }
        false
    }

    /// Records the nonce (`timestamp`, `signature`); returns whether it was
    /// fresh. See `nonce_step` for the eviction.
    pub fn check_and_insert(&mut self, timestamp: i64, signature: Vec<char>) -> (fresh: bool)
        requires
            old(self).wf(),
        ensures
            final(self).wf(),
            (fresh, final(self)@) == nonce_step(old(self)@, (timestamp, signature@)),
    {
        if self.contains(timestamp, &signature) {
            return false;
        }
        let ghost k = (timestamp, signature@);
        if self.entries.len() + 1 > MAX_NONCES {
            self.entries = Vec::new();
            assert(self@ =~= Seq::<NonceKey>::empty());
        } else {
            let ghost before = self@;
            let n = Nonce { timestamp, signature };
            self.entries.push(n);
            assert(self@ =~= before.push(k));
            assert(self@.no_duplicates()) by {
                assert forall|i: int, j: int|
                    0 <= i < self@.len() && 0 <= j < self@.len() && i != j implies self@[i]
                    != self@[j] by {
                    if i < before.len() && j < before.len() {
                        assert(before[i] != before[j]);
                    } else if i < before.len() {
                        assert(before.contains(before[i]));
                    } else {
                        assert(before.contains(before[j]));
                    }
                }
            }
        }
        true
    }
}

} // verus!
