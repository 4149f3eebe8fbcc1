//! Producer-side registry of result subscriptions: message id to deadline.
//! Completing a waiter is the caller's part; the registry says which ids
//! complete, and why.
use crate::error::Error;
use vstd::prelude::*;

verus! {

/// The subscriptions still outstanding after a tick at `now`.
pub open spec fn unexpired(m: Map<u32, u64>, now: u64) -> Map<u32, u64> {
    Map::new(|k: u32| m.contains_key(k) && m[k] > now, |k: u32| m[k])
}

/// Outstanding subscriptions, each a message id with its deadline.
pub struct Registry {
    subs: Vec<(u32, u64)>,
    view: Ghost<Map<u32, u64>>,
}

impl View for Registry {
    type V = Map<u32, u64>;

    closed spec fn view(&self) -> Map<u32, u64> {
        self.view@
    }
}

impl Registry {
    pub closed spec fn wf(&self) -> bool {
        let s = self.subs@;
        let m = self.view@;
        &&& forall|i: int|
            0 <= i < s.len() ==> m.contains_key((#[trigger] s[i]).0) && m[s[i].0] == s[i].1
        &&& forall|i: int, j: int| 0 <= i < j < s.len() ==> (#[trigger] s[i]).0 != (#[trigger] s[j]).0
        &&& forall|k: u32| m.contains_key(k) ==> exists|i: int| 0 <= i < s.len() && (#[trigger] s[i]).0 == k
    }

    pub fn new() -> (r: Self)
        ensures
            r.wf(),
            r@ == Map::<u32, u64>::empty(),
    {
        Registry { subs: Vec::new(), view: Ghost(Map::empty()) }
    }

    /// Number of outstanding subscriptions.
    pub fn len(&self) -> (r: usize)
        requires
            self.wf(),
        ensures
            r == self@.len(),
    {
        proof {
            lemma_len_matches(self.subs@, self.view@);
        }
        self.subs.len()
    }

    fn find(&self, msg_id: u32) -> (r: Option<usize>)
        requires
            self.wf(),
        ensures
            r matches Some(i) ==> i < self.subs@.len() && self.subs@[i as int].0 == msg_id,
            r is None ==> !self@.contains_key(msg_id),
    {
        let mut i: usize = 0;
        while i < self.subs.len()
            invariant
                i <= self.subs@.len(),
                forall|j: int| 0 <= j < i ==> (#[trigger] self.subs@[j]).0 != msg_id,
            decreases self.subs.len() - i,
        {
            if self.subs[i].0 == msg_id {
                return Some(i);
            }
            i = i + 1;
        }
        None
    }

    /// Registers a subscription for `msg_id` that expires at `deadline`.
    /// Registering an id that is already present is refused.
    pub fn register(&mut self, msg_id: u32, deadline: u64) -> (r: Result<(), Error>)
        requires
            old(self).wf(),
        ensures
            final(self).wf(),
            old(self)@.contains_key(msg_id) <==> r is Err,
            r matches Err(e) ==> e is InvalidParameter && final(self)@ == old(self)@,
            r is Ok ==> final(self)@ == old(self)@.insert(msg_id, deadline),
    {
        if let Some(_) = self.find(msg_id) {
            return Err(Error::InvalidParameter { detail: "duplicate subscription".to_string() });
        }
        let ghost s0 = self.subs@;
        let ghost m0 = self.view@;
        self.subs.push((msg_id, deadline));
        self.view = Ghost(m0.insert(msg_id, deadline));
        proof {
            let s = self.subs@;
            let m = self.view@;
            assert forall|k: u32| m.contains_key(k) implies exists|i: int|
                0 <= i < s.len() && (#[trigger] s[i]).0 == k by {
                if k == msg_id {
                    assert(s[s0.len() as int].0 == k);
                } else {
                    let i = choose|i: int| 0 <= i < s0.len() && (#[trigger] s0[i]).0 == k;
                    assert(s[i] == s0[i]);
                }
            }
            assert forall|i: int| 0 <= i < s.len() implies m.contains_key((#[trigger] s[i]).0)
                && m[s[i].0] == s[i].1 by {
                if i < s0.len() {
                    assert(s[i] == s0[i]);
                }
            }
            assert forall|i: int, j: int| 0 <= i < j < s.len() implies (#[trigger] s[i]).0 != (
            #[trigger] s[j]).0 by {
                assert(s[i] == s0[i]);
                if j < s0.len() {
                    assert(s[j] == s0[j]);
                }
            }
        }
        Ok(())
    }

    /// Removes the subscription for `msg_id`; returns whether there was one,
    /// that is whether a waiter is to receive the result. A second delivery
    /// of the same id finds nothing.
    pub fn deliver(&mut self, msg_id: u32) -> (r: bool)
        requires
            old(self).wf(),
        ensures
            final(self).wf(),
            r == old(self)@.contains_key(msg_id),
            final(self)@ == old(self)@.remove(msg_id),
    {
        match self.find(msg_id) {
            None => {
                proof {
                    assert(self.view@.remove(msg_id) =~= self.view@);
                }
                false
            },
            Some(i) => {
                let ghost s0 = self.subs@;
                let ghost m0 = self.view@;
                self.subs.remove(i);
                self.view = Ghost(m0.remove(msg_id));
                proof {
                    let s = self.subs@;
                    let m = self.view@;
                    assert forall|j: int| 0 <= j < s.len() implies s[j] == if j < i {
                        s0[j]
                    } else {
                        s0[j + 1]
                    } by {}
                    assert forall|j: int| 0 <= j < s.len() implies m.contains_key(
                        (#[trigger] s[j]).0,
                    ) && m[s[j].0] == s[j].1 by {
                        if j < i {
                            assert(s[j] == s0[j]);
                        } else {
                            assert(s[j] == s0[j + 1]);
                        }
                    }
                    assert forall|a: int, b: int| 0 <= a < b < s.len() implies (
                    #[trigger] s[a]).0 != (#[trigger] s[b]).0 by {
                        let a0 = if a < i {
                            a
                        } else {
                            a + 1
                        };
                        let b0 = if b < i {
                            b
                        } else {
                            b + 1
                        };
                        assert(s[a] == s0[a0] && s[b] == s0[b0]);
                    }
                    assert forall|k: u32| m.contains_key(k) implies exists|j: int|
                        0 <= j < s.len() && (#[trigger] s[j]).0 == k by {
                        let t = choose|t: int| 0 <= t < s0.len() && (#[trigger] s0[t]).0 == k;
                        assert(t != i);
                        if t < i {
                            assert(s[t] == s0[t]);
                        } else {
                            assert(s[t - 1] == s0[t]);
                        }
                    }
                }
                true
            },
        }
    }

    /// Removes every subscription whose deadline is at or before `now`, and
    /// returns their ids, each once: those waiters complete with a timeout.
    pub fn tick(&mut self, now: u64) -> (r: Vec<u32>)
        requires
            old(self).wf(),
        ensures
            final(self).wf(),
            final(self)@ == unexpired(old(self)@, now),
            r@.no_duplicates(),
            forall|id: u32|
                r@.contains(id) <==> old(self)@.contains_key(id) && old(self)@[id] <= now,
    {
        let ghost m0 = self.view@;
        let ghost s0 = self.subs@;
        let mut keep: Vec<(u32, u64)> = Vec::new();
        let mut expired: Vec<u32> = Vec::new();
        let ghost mut seen: Set<u32> = Set::empty();
        let mut i: usize = 0;
        while i < self.subs.len()
            invariant
                self.wf(),
                self.view@ == m0,
                self.subs@ == s0,
                i <= s0.len(),
                forall|k: u32| seen.contains(k) ==> exists|t: int| 0 <= t < i && (#[trigger] s0[t]).0 == k,
                forall|t: int| 0 <= t < i ==> seen.contains((#[trigger] s0[t]).0),
                forall|j: int|
                    0 <= j < keep@.len() ==> seen.contains((#[trigger] keep@[j]).0) && m0.contains_key(
                        keep@[j].0,
                    ) && m0[keep@[j].0] == keep@[j].1 && keep@[j].1 > now,
                forall|a: int, b: int|
                    0 <= a < b < keep@.len() ==> (#[trigger] keep@[a]).0 != (#[trigger] keep@[b]).0,
                forall|t: int|
                    0 <= t < i && (#[trigger] s0[t]).1 > now ==> exists|j: int|
                        0 <= j < keep@.len() && (#[trigger] keep@[j]).0 == s0[t].0,
                forall|j: int|
                    0 <= j < expired@.len() ==> seen.contains(#[trigger] expired@[j]) && m0.contains_key(
                        expired@[j],
                    ) && m0[expired@[j]] <= now,
                expired@.no_duplicates(),
                forall|t: int|
                    0 <= t < i && (#[trigger] s0[t]).1 <= now ==> expired@.contains(s0[t].0),
            decreases s0.len() - i,
        {
            let (id, deadline) = self.subs[i];
            proof {
                assert forall|t: int| 0 <= t < i implies (#[trigger] s0[t]).0 != id by {
                    assert(s0[i as int].0 == id);
                }
                assert(!seen.contains(id));
            }
            let ghost k0 = keep@;
            let ghost e0 = expired@;
            if deadline > now {
                keep.push((id, deadline));
                proof {
                    assert forall|t: int| 0 <= t < i + 1 && (#[trigger] s0[t]).1 > now implies exists|
                        j: int,
                    | 0 <= j < keep@.len() && (#[trigger] keep@[j]).0 == s0[t].0 by {
                        if t < i {
                            let j = choose|j: int| 0 <= j < k0.len() && (#[trigger] k0[j]).0 == s0[t].0;
                            assert(keep@[j] == k0[j]);
                        } else {
                            assert(keep@[k0.len() as int].0 == id);
                        }
                    }
                }
            } else {
                expired.push(id);
                proof {
                    assert forall|t: int| 0 <= t < i + 1 && (#[trigger] s0[t]).1 <= now implies expired@.contains(
                        s0[t].0,
                    ) by {
                        if t < i {
                            let j = choose|j: int| 0 <= j < e0.len() && e0[j] == s0[t].0;
                            assert(expired@[j] == e0[j]);
                        } else {
                            assert(expired@[e0.len() as int] == id);
                        }
                    }
                }
            }
            proof {
                seen = seen.insert(id);
            }
            i = i + 1;
        }
        let ghost m1 = unexpired(m0, now);
        self.subs = keep;
        self.view = Ghost(m1);
        proof {
            let s = self.subs@;
            assert forall|k: u32| m1.contains_key(k) implies exists|j: int|
                0 <= j < s.len() && (#[trigger] s[j]).0 == k by {
                let t = choose|t: int| 0 <= t < s0.len() && (#[trigger] s0[t]).0 == k;
                assert(s0[t].1 > now);
            }
            assert forall|j: int| 0 <= j < s.len() implies m1.contains_key((#[trigger] s[j]).0)
                && m1[s[j].0] == s[j].1 by {}
            assert forall|id: u32| expired@.contains(id) implies m0.contains_key(id) && m0[id]
                <= now by {
                let j = choose|j: int| 0 <= j < expired@.len() && expired@[j] == id;
                assert(expired@[j] == id);
            }
            assert forall|id: u32| m0.contains_key(id) && m0[id] <= now implies expired@.contains(
                id,
            ) by {
                let t = choose|t: int| 0 <= t < s0.len() && (#[trigger] s0[t]).0 == id;
                assert(s0[t].1 <= now);
            }
        }
        expired
    }

    /// Removes every subscription and returns their ids, each once: on
    /// teardown those waiters complete with the teardown's reason.
    pub fn drain(&mut self) -> (r: Vec<u32>)
        requires
            old(self).wf(),
        ensures
            final(self).wf(),
            final(self)@ == Map::<u32, u64>::empty(),
            r@.no_duplicates(),
            forall|id: u32| r@.contains(id) <==> old(self)@.contains_key(id),
    {
        let ids = self.tick(u64::MAX);
        proof {
            assert(self.view@ =~= Map::<u32, u64>::empty());
        }
        ids
    }
}

/// A sequence of distinct keys that are exactly the keys of `m` is as long as `m`.
proof fn lemma_len_matches(s: Seq<(u32, u64)>, m: Map<u32, u64>)
    requires
        forall|a: int, b: int| 0 <= a < b < s.len() ==> (#[trigger] s[a]).0 != (#[trigger] s[b]).0,
        forall|j: int| 0 <= j < s.len() ==> m.contains_key((#[trigger] s[j]).0),
        forall|k: u32| m.contains_key(k) ==> exists|j: int| 0 <= j < s.len() && (#[trigger] s[j]).0 == k,
    ensures
        s.len() == m.len(),
{
    let keys = s.map_values(|p: (u32, u64)| p.0);
    assert forall|a: int, b: int| 0 <= a < b < keys.len() implies keys[a] != keys[b] by {
        assert(keys[a] == s[a].0 && keys[b] == s[b].0);
    }
    assert(keys.no_duplicates());
    keys.unique_seq_to_set();
    assert(keys.to_set() =~= m.dom()) by {
        assert forall|k: u32| m.dom().contains(k) implies keys.to_set().contains(k) by {
            let j = choose|j: int| 0 <= j < s.len() && (#[trigger] s[j]).0 == k;
            assert(keys[j] == k);
        }
        assert forall|k: u32| keys.to_set().contains(k) implies m.dom().contains(k) by {
            let j = choose|j: int| 0 <= j < keys.len() && keys[j] == k;
            assert(keys[j] == s[j].0);
        }
    }
}

} // verus!
