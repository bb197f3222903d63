//! A set of byte strings.

use std::collections::HashMap;
use vstd::prelude::*;

verus! {

/// The bucket that a byte string falls into.
pub open spec fn bucket_of(bytes: Seq<u8>) -> u64
    decreases bytes.len(),
{
    if bytes.len() == 0 {
        0xcbf2_9ce4_8422_2325
    } else {
        ((bucket_of(bytes.drop_last()) ^ (bytes.last() as u64)).wrapping_mul(0x0100_0000_01b3))
    }
}

fn bucket(bytes: &[u8]) -> (r: u64)
    ensures
        r == bucket_of(bytes@),
{
    let mut h: u64 = 0xcbf2_9ce4_8422_2325;
    let mut i: usize = 0;
    assert(bytes@.take(0) =~= Seq::empty());
    while i < bytes.len()
        invariant
            0 <= i <= bytes.len(),
            h == bucket_of(bytes@.take(i as int)),
        decreases bytes.len() - i,
    {
        proof {
            assert(bytes@.take(i as int + 1).drop_last() =~= bytes@.take(i as int));
            assert(bytes@.take(i as int + 1).last() == bytes@[i as int]);
        }
        h = (h ^ (bytes[i] as u64)).wrapping_mul(0x0100_0000_01b3);
        i += 1;
    }
    assert(bytes@.take(i as int) =~= bytes@);
    h
}

/// Returns whether two byte strings are the same.
pub fn slice_eq(a: &[u8], b: &[u8]) -> (r: bool)
    ensures
        r == (a@ == b@),
{
    if a.len() != b.len() {
        return false;
    }
    let mut i: usize = 0;
    while i < a.len()
        invariant
            0 <= i <= a.len(),
            a.len() == b.len(),
            forall|j: int| 0 <= j < i ==> a@[j] == b@[j],
        decreases a.len() - i,
    {
        if a[i] != b[i] {
            return false;
        }
        i += 1;
    }
    assert(a@ =~= b@);
    true
}

/// A set of byte strings that are borrowed.
pub struct ByteSet<'a> {
    keys: Vec<&'a Vec<u8>>,
    buckets: HashMap<u64, Vec<usize>>,
}

impl<'a> ByteSet<'a> {
    /// The byte strings of the set, in the order in which they were inserted.
    pub closed spec fn keys_view(&self) -> Seq<Seq<u8>> {
        Seq::new(self.keys@.len(), |i: int| self.keys@[i]@)
    }

    /// Whether each key is found in the bucket that it falls into.
    pub closed spec fn wf(&self) -> bool {
        &&& forall|b: u64, k: int|
            #![trigger self.buckets@[b]@[k]]
            self.buckets@.dom().contains(b) && 0 <= k < self.buckets@[b]@.len()
                ==> self.buckets@[b]@[k] < self.keys@.len()
        &&& forall|i: int|
            0 <= i < self.keys@.len() ==> {
                let b = bucket_of((#[trigger] self.keys@[i])@);
                self.buckets@.dom().contains(b) && self.buckets@[b]@.contains(i as usize)
            }
    }

    /// Whether the set holds a byte string.
    pub open spec fn holds(&self, bytes: Seq<u8>) -> bool {
        self.keys_view().contains(bytes)
    }

    /// Makes an empty set.
    pub fn new() -> (r: Self)
        ensures
            r.wf(),
            r.keys_view() == Seq::<Seq<u8>>::empty(),
    {
        broadcast use vstd::std_specs::hash::group_hash_axioms;

        let r = ByteSet { keys: Vec::new(), buckets: HashMap::new() };
        assert(r.keys_view() =~= Seq::<Seq<u8>>::empty());
        r
    }

    /// Inserts a byte string.
    pub fn insert(&mut self, bytes: &'a Vec<u8>)
        requires
            old(self).wf(),
            old(self).keys_view().len() < usize::MAX,
        ensures
            final(self).wf(),
            final(self).keys_view() == old(self).keys_view().push(bytes@),
    {
        broadcast use vstd::std_specs::hash::group_hash_axioms;

        let b: u64 = bucket(bytes.as_slice());
        let index: usize = self.keys.len();
        let ghost before = self.buckets@;
        let ghost old_keys = self.keys@;
        let mut members: Vec<usize> = Vec::new();
        match self.buckets.get(&b) {
            Some(present) => {
                let mut i: usize = 0;
                while i < present.len()
                    invariant
                        0 <= i <= present.len(),
                        members@ =~= present@.take(i as int),
                    decreases present.len() - i,
                {
                    members.push(present[i]);
                    i += 1;
                }
                assert(members@ =~= present@);
            },
            None => {},
        }
        let ghost former = members@;
        members.push(index);
        self.keys.push(bytes);
        self.buckets.insert(b, members);
        proof {
            assert forall|i: int| 0 <= i < self.keys@.len() implies {
                let c = bucket_of((#[trigger] self.keys@[i])@);
                self.buckets@.dom().contains(c) && self.buckets@[c]@.contains(i as usize)
            } by {
                let c = bucket_of(self.keys@[i]@);
                if i < old_keys.len() {
                    assert(self.keys@[i] == old_keys[i]);
                    assert(before.dom().contains(c) && before[c]@.contains(i as usize));
                    if c == b {
                        let k = choose|k: int|
                            0 <= k < before[c]@.len() && before[c]@[k] == i as usize;
                        assert(self.buckets@[c]@[k] == i as usize);
                    }
                } else {
                    assert(self.buckets@[c]@[former.len() as int] == i as usize);
                }
            }
            assert(self.keys_view() =~= old(self).keys_view().push(bytes@));
        }
    }

    /// Returns whether the set holds a byte string.
    pub fn contains(&self, bytes: &[u8]) -> (r: bool)
        requires
            self.wf(),
        ensures
            r == self.holds(bytes@),
    {
        broadcast use vstd::std_specs::hash::group_hash_axioms;

        let b: u64 = bucket(bytes);
        let members = match self.buckets.get(&b) {
            Some(members) => members,
            None => {
                proof {
                    if self.holds(bytes@) {
                        let i = choose|i: int|
                            0 <= i < self.keys_view().len() && self.keys_view()[i] == bytes@;
                        assert(self.keys@[i]@ == bytes@);
                    }
                }
                return false;
            },
        };
        let mut k: usize = 0;
        while k < members.len()
            invariant
                0 <= k <= members.len(),
                self.wf(),
                self.buckets@.dom().contains(b),
                *members == self.buckets@[b],
                forall|j: int|
                    0 <= j < k ==> self.keys@[(#[trigger] members@[j]) as int]@ != bytes@,
            decreases members.len() - k,
        {
            assert(self.buckets@[b]@[k as int] < self.keys@.len());
            let index: usize = members[k];
            if slice_eq(self.keys[index].as_slice(), bytes) {
                assert(self.keys_view()[index as int] == bytes@);
                return true;
            }
            k += 1;
        }
        proof {
            if self.holds(bytes@) {
                let i = choose|i: int|
                    0 <= i < self.keys_view().len() && self.keys_view()[i] == bytes@;
                assert(self.keys@[i]@ == bytes@);
                assert(i < self.keys.len());
                let j = choose|j: int| 0 <= j < members@.len() && members@[j] == i as usize;
                assert(self.keys@[members@[j] as int]@ == bytes@);
            }
        }
        false
    }
}

} // verus!
