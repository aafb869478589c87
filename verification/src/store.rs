//! The membership store: a mapping from member identity to the monotonic
//! timestamp at which that identity was last observed joining the channel.
//!
//! The store is modelled as a `Map<Seq<char>, u64>` from identity to
//! timestamp; internally it is a vector of pairs with pairwise-distinct
//! identities.

use vstd::map::*;
use vstd::prelude::*;

use crate::text::str_eq;

verus! {

/// In-memory record of who is currently present in the channel and since
/// when. Identities are case-sensitive display names, unique at any instant.
pub struct Users {
    entries: Vec<(String, u64)>,
}

impl View for Users {
    type V = Map<Seq<char>, u64>;

    closed spec fn view(&self) -> Map<Seq<char>, u64> {
        Map::new(
            |k: Seq<char>|
                exists|i: int| 0 <= i < self.entries@.len() && self.entries@[i].0@ == k,
            |k: Seq<char>|
                {
                    let i = choose|i: int|
                        0 <= i < self.entries@.len() && self.entries@[i].0@ == k;
                    self.entries@[i].1
                },
        )
    }
}

impl Users {
    /// Identities stored in the vector are pairwise distinct.
    pub closed spec fn wf(&self) -> bool {
        forall|i: int, j: int|
            0 <= i < j < self.entries@.len() ==> self.entries@[i].0@ != self.entries@[j].0@
    }

    proof fn lemma_entry_in_view(&self, i: int)
        requires
            self.wf(),
            0 <= i < self.entries@.len(),
        ensures
            self@.contains_key(self.entries@[i].0@),
            self@[self.entries@[i].0@] == self.entries@[i].1,
    {
        let k = self.entries@[i].0@;
        assert(self@.contains_key(k));
        let j = choose|j: int| 0 <= j < self.entries@.len() && self.entries@[j].0@ == k;
        assert(j == i);
    }

    /// An empty store: nobody is considered present.
    pub fn new() -> (s: Users)
        ensures
            s.wf(),
            s@ == Map::<Seq<char>, u64>::empty(),
    {
        let s = Users { entries: Vec::new() };
        proof {
            assert(s@ =~= Map::<Seq<char>, u64>::empty());
        }
        s
    }

    fn index_of(&self, name: &str) -> (r: Option<usize>)
        ensures
            match r {
                Some(i) => i < self.entries@.len() && self.entries@[i as int].0@ == name@,
                None => forall|i: int|
                    0 <= i < self.entries@.len() ==> self.entries@[i].0@ != name@,
            },
    {
        let n = self.entries.len();
        let mut i: usize = 0;
        while i < n
            invariant
                n == self.entries@.len(),
                i <= n,
                forall|j: int| 0 <= j < i ==> self.entries@[j].0@ != name@,
            decreases n - i,
        {
            if str_eq(self.entries[i].0.as_str(), name) {
                return Some(i);
            }
            i += 1;
        }
        None
    }

    /// True when the identity is currently considered present.
    pub fn contains(&self, name: &str) -> (r: bool)
        requires
            self.wf(),
        ensures
            r == self@.contains_key(name@),
    {
        let r = self.index_of(name);
        proof {
            match r {
                Some(i) => {
                    self.lemma_entry_in_view(i as int);
                }
                None => {
                    assert(!self@.contains_key(name@));
                }
            }
        }
        r.is_some()
    }

    /// Marks the identity as present since `now`. A repeated observation of
    /// an identity that is already present resets its timestamp: every
    /// observed join event restarts the cooldown clock.
    pub fn record_present(&mut self, name: &str, now: u64)
        requires
            old(self).wf(),
        ensures
            final(self).wf(),
            final(self)@ == old(self)@.insert(name@, now),
    {
        let ghost pre = *self;
        match self.index_of(name) {
            Some(i) => {
                self.entries.remove(i);
                proof {
                    assert forall|a: int, b: int|
                        0 <= a < b < self.entries@.len() implies self.entries@[a].0@
                        != self.entries@[b].0@ by {
                        let pa = if a < i { a } else { a + 1 };
                        let pb = if b < i { b } else { b + 1 };
                        assert(self.entries@[a] == pre.entries@[pa]);
                        assert(self.entries@[b] == pre.entries@[pb]);
                    }
                    assert forall|j: int|
                        0 <= j < self.entries@.len() implies self.entries@[j].0@ != name@ by {
                        let pj = if j < i { j } else { j + 1 };
                        assert(self.entries@[j] == pre.entries@[pj]);
                    }
                }
                let ghost mid = *self;
                self.entries.push((name.to_owned(), now));
                proof {
                    Self::lemma_push_fresh(mid, *self, name@, now);
                    assert_maps_equal!(self@, pre@.insert(name@, now), k => {
                        Self::lemma_key_after_insert(pre, mid, *self, i as int, name@, now, k);
                    });
                }
            }
            None => {
                let ghost mid = *self;
                self.entries.push((name.to_owned(), now));
                proof {
                    Self::lemma_push_fresh(mid, *self, name@, now);
                    assert_maps_equal!(self@, pre@.insert(name@, now), k => {
                        Self::lemma_key_after_insert(pre, pre, *self, pre.entries@.len() as int,
                            name@, now, k);
                    });
                }
            }
        }
    }

    spec fn key_matches(pre: Users, post: Users, name: Seq<char>, now: u64, k: Seq<char>) -> bool {
        &&& post@.contains_key(k) == pre@.insert(name, now).contains_key(k)
        &&& post@.contains_key(k) ==> post@[k] == pre@.insert(name, now)[k]
    }

    proof fn lemma_push_fresh(mid: Users, post: Users, name: Seq<char>, now: u64)
        requires
            mid.wf(),
            forall|j: int| 0 <= j < mid.entries@.len() ==> mid.entries@[j].0@ != name,
            post.entries@.len() == mid.entries@.len() + 1,
            forall|j: int| 0 <= j < mid.entries@.len() ==> post.entries@[j] == mid.entries@[j],
            post.entries@.last().0@ == name,
            post.entries@.last().1 == now,
        ensures
            post.wf(),
            post@.contains_key(name),
            post@[name] == now,
            forall|k: Seq<char>|
                k != name ==> post@.contains_key(k) == mid@.contains_key(k),
            forall|k: Seq<char>|
                k != name && post@.contains_key(k) ==> post@[k] == mid@[k],
    {
        let n = mid.entries@.len() as int;
        assert forall|a: int, b: int|
            0 <= a < b < post.entries@.len() implies post.entries@[a].0@ != post.entries@[b].0@ by {
            if b == n {
                assert(post.entries@[a] == mid.entries@[a]);
            } else {
                assert(post.entries@[a] == mid.entries@[a]);
                assert(post.entries@[b] == mid.entries@[b]);
            }
        }
        post.lemma_entry_in_view(n);
        assert forall|k: Seq<char>|
            k != name implies post@.contains_key(k) == mid@.contains_key(k) by {
            if post@.contains_key(k) {
                let i = choose|i: int|
                    0 <= i < post.entries@.len() && post.entries@[i].0@ == k;
                assert(i != n);
                assert(mid.entries@[i].0@ == k);
            }
            if mid@.contains_key(k) {
                let i = choose|i: int| 0 <= i < mid.entries@.len() && mid.entries@[i].0@ == k;
                assert(post.entries@[i].0@ == k);
            }
        }
        assert forall|k: Seq<char>|
            k != name && post@.contains_key(k) implies post@[k] == mid@[k] by {
            let i = choose|i: int| 0 <= i < mid.entries@.len() && mid.entries@[i].0@ == k;
            mid.lemma_entry_in_view(i);
            post.lemma_entry_in_view(i);
        }
    }

    proof fn lemma_key_after_insert(
        pre: Users,
        mid: Users,
        post: Users,
        i: int,
        name: Seq<char>,
        now: u64,
        k: Seq<char>,
    )
        requires
            pre.wf(),
            mid.wf(),
            post.wf(),
            0 <= i <= pre.entries@.len(),
            i < pre.entries@.len() ==> pre.entries@[i].0@ == name,
            i == pre.entries@.len() ==> mid == pre,
            i < pre.entries@.len() ==> mid.entries@ == pre.entries@.remove(i),
            post@.contains_key(name),
            post@[name] == now,
            forall|k2: Seq<char>| k2 != name ==> post@.contains_key(k2) == mid@.contains_key(k2),
            forall|k2: Seq<char>| k2 != name && post@.contains_key(k2) ==> post@[k2] == mid@[k2],
        ensures
            Self::key_matches(pre, post, name, now, k),
    {
        if k == name {
            assert(pre@.insert(name, now).contains_key(k));
            assert(pre@.insert(name, now)[k] == now);
        } else {
            if i < pre.entries@.len() {
                // mid's entries are pre's with index i removed.
                assert forall|j: int|
                    0 <= j < mid.entries@.len() implies #[trigger] mid.entries@[j]
                    == pre.entries@[if j < i { j } else { j + 1 }] by {
                }
                if mid@.contains_key(k) {
                    let a = choose|a: int|
                        0 <= a < mid.entries@.len() && mid.entries@[a].0@ == k;
                    let pa = if a < i { a } else { a + 1 };
                    assert(pre.entries@[pa].0@ == k);
                    pre.lemma_entry_in_view(pa);
                    mid.lemma_entry_in_view(a);
                    assert(pre@.contains_key(k) && mid@[k] == pre@[k]);
                }
                if pre@.contains_key(k) {
                    let a = choose|a: int|
                        0 <= a < pre.entries@.len() && pre.entries@[a].0@ == k;
                    assert(a != i);
                    let ma = if a < i { a } else { a - 1 };
                    assert(mid.entries@[ma] == pre.entries@[if ma < i { ma } else { ma + 1 }]);
                    assert(mid.entries@[ma].0@ == k);
                    assert(mid@.contains_key(k));
                }
            }
            assert(post@.contains_key(k) == pre@.contains_key(k));
            if post@.contains_key(k) {
                let a = choose|a: int|
                    0 <= a < pre.entries@.len() && pre.entries@[a].0@ == k;
                pre.lemma_entry_in_view(a);
                assert(post@[k] == pre@[k]);
            }
        }
    }

    /// Removes the identity from the store; a no-op when it is absent.
    pub fn remove(&mut self, name: &str)
        requires
            old(self).wf(),
        ensures
            final(self).wf(),
            final(self)@ == old(self)@.remove(name@),
    {
        let ghost pre = *self;
        match self.index_of(name) {
            Some(i) => {
                proof {
                    pre.lemma_entry_in_view(i as int);
                }
                self.entries.remove(i);
                proof {
                    assert forall|j: int|
                        0 <= j < self.entries@.len() implies #[trigger] self.entries@[j]
                        == pre.entries@[if j < i { j } else { j + 1 }] by {
                    }
                    assert forall|a: int, b: int|
                        0 <= a < b < self.entries@.len() implies self.entries@[a].0@
                        != self.entries@[b].0@ by {
                        let pa = if a < i { a } else { a + 1 };
                        let pb = if b < i { b } else { b + 1 };
                        assert(self.entries@[a] == pre.entries@[pa]);
                        assert(self.entries@[b] == pre.entries@[pb]);
                    }
                    assert_maps_equal!(self@, pre@.remove(name@), k => {
                        if self@.contains_key(k) {
                            let a = choose|a: int|
                                0 <= a < self.entries@.len() && self.entries@[a].0@ == k;
                            let pa = if a < i { a } else { a + 1 };
                            assert(pre.entries@[pa].0@ == k);
                            assert(k != name@);
                            pre.lemma_entry_in_view(pa);
                            self.lemma_entry_in_view(a);
                        }
                        if pre@.remove(name@).contains_key(k) {
                            let a = choose|a: int|
                                0 <= a < pre.entries@.len() && pre.entries@[a].0@ == k;
                            assert(a != i);
                            let ma = if a < i { a } else { a - 1 };
                            assert(self.entries@[ma] == pre.entries@[
                                if ma < i { ma } else { ma + 1 }
                            ]);
                            assert(self.entries@[ma].0@ == k);
                        }
                    });
                }
            }
            None => {
                proof {
                    assert(!pre@.contains_key(name@));
                    assert(self@ =~= pre@.remove(name@));
                }
            }
        }
    }

    /// A read-only snapshot of the current (identity, joined_at) pairs, for
    /// iteration by the promotion selector. Every pair is an entry of the
    /// store and every stored identity appears in it.
    pub fn snapshot(&self) -> (r: &Vec<(String, u64)>)
        requires
            self.wf(),
        ensures
            forall|i: int|
                0 <= i < r@.len() ==> #[trigger] self@.contains_key(r@[i].0@) && self@[r@[i].0@]
                    == r@[i].1,
            forall|k: Seq<char>|
                self@.contains_key(k) ==> exists|i: int| 0 <= i < r@.len() && r@[i].0@ == k,
    {
        proof {
            assert forall|i: int|
                0 <= i < self.entries@.len() implies #[trigger] self@.contains_key(
                self.entries@[i].0@,
            ) && self@[self.entries@[i].0@] == self.entries@[i].1 by {
                self.lemma_entry_in_view(i);
            }
        }
        &self.entries
    }

    /// The number of entries currently held.
    pub closed spec fn count(&self) -> nat {
        self.entries@.len()
    }

    /// The number of identities currently tracked.
    pub fn len(&self) -> (n: usize)
        requires
            self.wf(),
        ensures
            n == self.count(),
            n == 0 <==> self@ == Map::<Seq<char>, u64>::empty(),
    {
        proof {
            if self.entries@.len() == 0 {
                assert(self@ =~= Map::<Seq<char>, u64>::empty());
            } else {
                self.lemma_entry_in_view(0);
                assert(self@.contains_key(self.entries@[0].0@));
            }
        }
        self.entries.len()
    }
}

} // verus!
