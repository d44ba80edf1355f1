//! A set of strings that remembers the order of insertion and finds a string
//! by its hash: strings are bucketed by a deterministic hash of their UTF-8
//! bytes, and a lookup compares only within one bucket.
use std::collections::HashMap;
use std::hash::DefaultHasher;
use std::hash::Hasher;
use vstd::prelude::*;
use vstd::std_specs::hash::DefaultHasherAdditionalSpecFns;
use vstd::string::StringSliceAdditionalSpecFns;

verus! {

/// The hash of a string: std's `DefaultHasher` over its UTF-8 bytes.
pub open spec fn hash_of(s: Seq<char>) -> u64 {
    DefaultHasher::spec_finish(seq![vstd::utf8::encode_utf8(s)])
}

/// Hashes `s` as `hash_of` says.
pub fn hash_str(s: &String) -> (h: u64)
    ensures
        h == hash_of(s@),
{
    let mut hasher = DefaultHasher::new();
    let bytes = s.as_str().as_bytes();
    hasher.write(bytes);
    assert(hasher@ =~= seq![vstd::utf8::encode_utf8(s@)]);
    hasher.finish()
}

/// `s` holds no value twice.
pub open spec fn distinct(s: Seq<Seq<char>>) -> bool {
    forall|i: int, j: int| 0 <= i < j < s.len() ==> s[i] != s[j]
}

/// Distinct strings in the order they were added.
pub struct StringIndex {
    buckets: HashMap<u64, Vec<usize>>,
    keys: Vec<String>,
}

impl View for StringIndex {
    type V = Seq<Seq<char>>;

    closed spec fn view(&self) -> Seq<Seq<char>> {
        crate::text::views(self.keys@)
    }
}

impl StringIndex {
    /// Every bucket lists exactly the positions of the keys with its hash,
    /// and no key is there twice.
    pub closed spec fn wf(&self) -> bool {
        &&& forall|h: u64, k: int|
            #![trigger self.buckets@[h]@[k]]
            self.buckets@.contains_key(h) && 0 <= k < self.buckets@[h]@.len() ==> {
                let j = self.buckets@[h]@[k] as int;
                &&& 0 <= j < self.keys@.len()
                &&& hash_of(self.keys@[j]@) == h
            }
        &&& forall|j: int|
            #![trigger self.keys@[j]]
            0 <= j < self.keys@.len() ==> {
                let h = hash_of(self.keys@[j]@);
                &&& self.buckets@.contains_key(h)
                &&& self.buckets@[h]@.contains(j as usize)
            }
        &&& distinct(self@)
    }

    /// An index holds no string twice.
    pub proof fn lemma_distinct(&self)
        requires
            self.wf(),
        ensures
            distinct(self@),
    {
    }

    /// An empty index.
    pub fn new() -> (r: StringIndex)
        ensures
            r.wf(),
            r@ == Seq::<Seq<char>>::empty(),
    {
        let r = StringIndex { buckets: HashMap::new(), keys: Vec::new() };
        assert(r@ =~= Seq::<Seq<char>>::empty());
        r
    }

    /// The number of strings.
    pub fn len(&self) -> (r: usize)
        ensures
            r == self@.len(),
    {
        self.keys.len()
    }

    /// The string at position `i`.
    pub fn get(&self, i: usize) -> (r: &String)
        requires
            i < self@.len(),
        ensures
            r@ == self@[i as int],
    {
        &self.keys[i]
    }

    /// The position of `s`, if it is there.
    pub fn position(&self, s: &String) -> (r: Option<usize>)
        requires
            self.wf(),
        ensures
            match r {
                Some(j) => j < self@.len() && self@[j as int] == s@,
                None => !self@.contains(s@),
            },
    {
        let h = hash_str(s);
        let n = self.keys.len();
        match self.buckets.get(&h) {
            Some(bucket) => {
                let mut k: usize = 0;
                while k < bucket.len()
                    invariant
                        self.wf(),
                        self.buckets@.contains_key(h),
                        *bucket == self.buckets@[h],
                        h == hash_of(s@),
                        k <= bucket@.len(),
                        n == self.keys@.len(),
                        forall|q: int| 0 <= q < k ==> self.keys@[bucket@[q] as int]@ != s@,
                    decreases bucket@.len() - k,
                {
                    let j = bucket[k];
                    assert(0 <= j < self.keys@.len() && hash_of(self.keys@[j as int]@) == h) by {
                        assert(self.buckets@[h]@[k as int] == j);
                    }
                    if self.keys[j] == *s {
                        return Some(j);
                    }
                    k = k + 1;
                }
                assert forall|j: int| 0 <= j < self@.len() implies self@[j] != s@ by {
                    if self@[j] == s@ {
                        assert(self.keys@[j]@ == s@);
                        let h2 = hash_of(self.keys@[j]@);
                        assert(h2 == h);
                        assert(self.buckets@.contains_key(h2) && self.buckets@[h2]@.contains(j as usize));
                        assert(bucket@.contains(j as usize));
                        let q = choose|q: int| 0 <= q < bucket@.len() && bucket@[q] == j as usize;
                        assert(self.keys@[bucket@[q] as int]@ != s@);
                        assert(bucket@[q] as int == j);
                        assert(false);
                    }
                }
                None
            },
            None => {
                assert forall|j: int| 0 <= j < self@.len() implies self@[j] != s@ by {
                    if self@[j] == s@ {
                        assert(self.keys@[j]@ == s@);
                    }
                }
                None
            },
        }
    }

    /// Adds `s` unless it is there; says whether it was added.
    pub fn insert(&mut self, s: String) -> (added: bool)
        requires
            old(self).wf(),
        ensures
            final(self).wf(),
            added == !old(self)@.contains(s@),
            final(self)@ == if added {
                old(self)@.push(s@)
            } else {
                old(self)@
            },
    {
        match self.position(&s) {
            Some(_) => false,
            None => {
                let h = hash_str(&s);
                let n = self.keys.len();
                let mut bucket = match self.buckets.get(&h) {
                    Some(b) => b.clone(),
                    None => Vec::new(),
                };
                let ghost old_bucket = if self.buckets@.contains_key(h) {
                    self.buckets@[h]@
                } else {
                    Seq::<usize>::empty()
                };
                assert(bucket@ == old_bucket);
                bucket.push(n);
                let ghost old_keys = self.keys@;
                let ghost old_buckets = self.buckets@;
                self.buckets.insert(h, bucket);
                self.keys.push(s);
                assert(self@ =~= old(self)@.push(self.keys@[n as int]@));
                assert forall|h2: u64, k: int|
                    #![trigger self.buckets@[h2]@[k]]
                    self.buckets@.contains_key(h2) && 0 <= k < self.buckets@[h2]@.len() implies {
                        let j = self.buckets@[h2]@[k] as int;
                        &&& 0 <= j < self.keys@.len()
                        &&& hash_of(self.keys@[j]@) == h2
                    } by {
                    if h2 != h {
                        assert(self.buckets@[h2] == old_buckets[h2]);
                        let j = old_buckets[h2]@[k] as int;
                        assert(self.keys@[j] == old_keys[j]);
                    } else if k < old_bucket.len() {
                        assert(old_buckets[h]@[k] == old_bucket[k]);
                        let j = old_bucket[k] as int;
                        assert(self.keys@[j] == old_keys[j]);
                    }
                }
                assert forall|j: int|
                    #![trigger self.keys@[j]]
                    0 <= j < self.keys@.len() implies {
                        let h2 = hash_of(self.keys@[j]@);
                        &&& self.buckets@.contains_key(h2)
                        &&& self.buckets@[h2]@.contains(j as usize)
                    } by {
                    if j < n {
                        assert(self.keys@[j] == old_keys[j]);
                        let h2 = hash_of(old_keys[j]@);
                        assert(old_buckets.contains_key(h2) && old_buckets[h2]@.contains(j as usize));
                        if h2 == h {
                            let q = choose|q: int| 0 <= q < old_bucket.len() && old_bucket[q] == j as usize;
                            assert(self.buckets@[h]@[q] == j as usize);
                        }
                    } else {
                        assert(self.buckets@[h]@[old_bucket.len() as int] == n);
                    }
                }
                true
            },
        }
    }
}

} // verus!
