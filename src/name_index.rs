//! An index from names to positions in a list, by a hash of each name, so that a
//! lookup compares only names that share a hash.
use crate::program::Function;
use std::collections::HashMap;
use vstd::prelude::*;

verus! {

broadcast use vstd::std_specs::hash::group_hash_axioms;

/// FNV-1a over the code points of a name.
pub open spec fn name_hash(s: Seq<char>) -> u64
    decreases s.len(),
{
    if s.len() == 0 {
        0xcbf2_9ce4_8422_2325
    } else {
        (name_hash(s.drop_last()) ^ (s.last() as u32 as u64)).wrapping_mul(0x100_0000_01b3)
    }
}

pub fn hash_name(s: &str) -> (h: u64)
    ensures
        h == name_hash(s@),
{
    let cs = crate::matcher::chars_of(s);
    let mut h: u64 = 0xcbf2_9ce4_8422_2325;
    let mut i: usize = 0;
    while i < cs.len()
        invariant
            i <= cs@.len(),
            h == name_hash(cs@.take(i as int)),
        decreases cs@.len() - i,
    {
        let c = cs[i];
        proof {
            let next = cs@.take(i + 1);
            assert(next.drop_last() =~= cs@.take(i as int));
            assert(next.last() == c);
        }
        h = (h ^ (c as u32 as u64)).wrapping_mul(0x100_0000_01b3);
        i = i + 1;
    }
    assert(cs@.take(cs@.len() as int) =~= cs@);
    h
}

/// The names of a list of named functions.
pub open spec fn names_of(v: Seq<(String, Function)>) -> Seq<Seq<char>> {
    v.map_values(|e: (String, Function)| e.0@)
}

/// Positions of names, grouped by the hash of the name.
pub struct NameIndex {
    buckets: HashMap<u64, Vec<usize>>,
}

impl NameIndex {
    /// Every position in a bucket holds a name with that bucket's hash, and every
    /// position of `names` is in the bucket of its name's hash.
    pub closed spec fn indexes(&self, names: Seq<Seq<char>>) -> bool {
        &&& forall|h: u64, a: int| #[trigger] self.buckets@.contains_key(h) && 0 <= a < self.buckets@[h]@.len() ==> {
            let i = #[trigger] self.buckets@[h]@[a];
            i < names.len() && name_hash(names[i as int]) == h
        }
        &&& forall|i: int| 0 <= i < names.len() ==> {
            let h = name_hash(#[trigger] names[i]);
            self.buckets@.contains_key(h) && self.buckets@[h]@.contains(i as usize)
        }
    }

    pub fn new() -> (r: NameIndex)
        ensures
            r.indexes(Seq::empty()),
    {
        NameIndex { buckets: HashMap::new() }
    }

    /// Records that position `i`, the next one, holds `name`.
    pub fn add(&mut self, name: &str, i: usize, names: Ghost<Seq<Seq<char>>>)
        requires
            old(self).indexes(names@),
            i == names@.len(),
        ensures
            final(self).indexes(names@.push(name@)),
    {
        let h = hash_name(name);
        let ghost old_buckets = self.buckets@;
        let mut bucket = match self.buckets.remove(&h) {
            Some(b) => b,
            None => Vec::new(),
        };
        let ghost old_bucket = bucket@;
        bucket.push(i);
        self.buckets.insert(h, bucket);
        proof {
            let all = names@.push(name@);
            assert forall|g: u64, a: int| #[trigger] self.buckets@.contains_key(g) && 0 <= a < self.buckets@[g]@.len() implies {
                let k = #[trigger] self.buckets@[g]@[a];
                k < all.len() && name_hash(all[k as int]) == g
            } by {
                if g == h {
                    if a < old_bucket.len() {
                        assert(old_buckets.contains_key(h));
                        assert(self.buckets@[g]@[a] == old_buckets[h]@[a]);
                    }
                } else {
                    assert(old_buckets.contains_key(g));
                    assert(self.buckets@[g] == old_buckets[g]);
                }
            }
            assert forall|k: int| 0 <= k < all.len() implies {
                let g = name_hash(#[trigger] all[k]);
                self.buckets@.contains_key(g) && self.buckets@[g]@.contains(k as usize)
            } by {
                if k < names@.len() {
                    assert(all[k] == names@[k]);
                    let g = name_hash(names@[k]);
                    assert(old_buckets.contains_key(g) && old_buckets[g]@.contains(k as usize));
                    if g == h {
                        let a = choose|a: int| 0 <= a < old_bucket.len() && old_bucket[a] == k as usize;
                        assert(self.buckets@[g]@[a] == k as usize);
                    }
                } else {
                    assert(self.buckets@[h]@[old_bucket.len() as int] == i);
                }
            }
        }
    }

    /// The position of `name` among `names`, which this index covers; names are
    /// unique there.
    pub fn find(&self, names: &Vec<(String, Function)>, name: &String) -> (r: Option<usize>)
        requires
            self.indexes(names_of(names@)),
        ensures
            match r {
                Some(i) => i < names@.len() && names@[i as int].0@ == name@,
                None => forall|k: int| 0 <= k < names@.len() ==> names@[k].0@ != name@,
            },
    {
        let ghost all = names_of(names@);
        let n = names.len();
        let h = hash_name(name.as_str());
        let bucket = match self.buckets.get(&h) {
            Some(b) => b,
            None => {
                proof {
                    assert forall|k: int| 0 <= k < names@.len() implies names@[k].0@ != name@ by {
                        if names@[k].0@ == name@ {
                            assert(all[k] == name@);
                        }
                    }
                }
                return None;
            },
        };
        let mut a: usize = 0;
        while a < bucket.len()
            invariant
                self.indexes(all),
                all == names_of(names@),
                self.buckets@.contains_key(h),
                *bucket == self.buckets@[h],
                h == name_hash(name@),
                a <= bucket@.len(),
                n == names@.len(),
                forall|b: int| 0 <= b < a ==> all[bucket@[b] as int] != name@,
            decreases bucket@.len() - a,
        {
            let i = bucket[a];
            assert(i < all.len() && name_hash(all[i as int]) == h);
            if names[i].0 == *name {
                return Some(i);
            }
            a = a + 1;
        }
        proof {
            assert forall|k: int| 0 <= k < names@.len() implies names@[k].0@ != name@ by {
                if names@[k].0@ == name@ {
                    assert(all[k] == name@);
                    assert(self.buckets@[h]@.contains(k as usize));
                    let b = choose|b: int| 0 <= b < bucket@.len() && bucket@[b] == k as usize;
                    assert(all[bucket@[b] as int] != name@);
                }
            }
        }
        None
    }
}

} // verus!
