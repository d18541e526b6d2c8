//! The membership store: the mapping from member identifier to record that
//! consumers observe.  Its view is the mathematical map the entries
//! describe; every operation says exactly how it changes that map.
//!
//! The store itself is plain owned data.  The process that owns it wraps it
//! in a reader/writer lock and holds the lock for one operation at a time,
//! so a reader may observe a cycle's mutations one by one; that
//! interleaving is the documented weak-consistency behaviour, and every
//! intermediate state is one of the maps these contracts describe.

use vstd::prelude::*;
use crate::record::{
    ServersetMember, MemberModel, assoc_view, unique_keys, ids_view, lemma_assoc_view_contains,
    lemma_assoc_view_push, lemma_assoc_view_index,
};

verus! {

/// Removing an entry removes its key, when keys are pairwise distinct.
pub proof fn lemma_assoc_view_remove<T: View>(s: Seq<(String, T)>, n: int)
    requires
        unique_keys(s),
        0 <= n < s.len(),
    ensures
        assoc_view(s.remove(n)) == assoc_view(s).remove(s[n].0@),
        unique_keys(s.remove(n)),
    decreases s.len(),
{
    assert(unique_keys(s.remove(n))) by {
        assert(forall|m: int| 0 <= m < s.len() - 1 ==> s.remove(n)[m] == (if m < n {
            s[m]
        } else {
            s[m + 1]
        }));
    }
    let k = s[n].0@;
    let dl = s.drop_last();
    assert(unique_keys(dl)) by {
        assert(forall|m: int| 0 <= m < s.len() - 1 ==> dl[m] == s[m]);
    }
    lemma_assoc_view_contains(dl, k);
    if n == s.len() - 1 {
        assert(s.remove(n) =~= dl);
        assert(!assoc_view(dl).contains_key(k));
        assert(assoc_view(s.remove(n)) =~= assoc_view(s).remove(k));
    } else {
        assert(s.remove(n).drop_last() =~= dl.remove(n));
        assert(s.remove(n).last() == s.last());
        lemma_assoc_view_remove(dl, n);
        assert(s.last().0@ != k);
        assert(assoc_view(s.remove(n)) =~= assoc_view(s).remove(k));
    }
}

/// The membership store.  Consumers read it; the reconciler alone writes
/// it.  Entries carry pairwise-distinct identifiers, and the view is the
/// map from identifier to record model.
pub struct Serverset {
    members: Vec<(String, ServersetMember)>,
}

impl View for Serverset {
    type V = Map<Seq<char>, MemberModel>;

    closed spec fn view(&self) -> Map<Seq<char>, MemberModel> {
        assoc_view(self.members@)
    }
}

impl Serverset {
    /// No two entries share an identifier.
    pub closed spec fn wf(&self) -> bool {
        unique_keys(self.members@)
    }

    /// An empty store: the snapshot holds no members until a cycle runs.
    pub fn new() -> (s: Serverset)
        ensures
            s@ == Map::<Seq<char>, MemberModel>::empty(),
            s.wf(),
    {
        Serverset { members: Vec::new() }
    }

    /// The position of the entry carrying `id`, if any.
    fn find(&self, id: &String) -> (r: Option<usize>)
        requires
            self.wf(),
        ensures
            (match r {
                Some(n) => n < self.members@.len() && self.members@[n as int].0@ == id@
                    && self@.contains_key(id@),
                None => !self@.contains_key(id@),
            }),
    {
        proof {
            lemma_assoc_view_contains(self.members@, id@);
        }
        let mut n: usize = 0;
        while n < self.members.len()
            invariant
                n <= self.members@.len(),
                forall|m: int| 0 <= m < n ==> self.members@[m].0@ != id@,
                self@.contains_key(id@) <==> exists|m: int|
                    0 <= m < self.members@.len() && self.members@[m].0@ == id@,
            decreases self.members@.len() - n,
        {
            if self.members[n].0 == *id {
                return Some(n);
            }
            n = n + 1;
        }
        None
    }

    /// The record published for `id`, if `id` is in the snapshot.
    pub fn lookup(&self, id: &String) -> (r: Option<&ServersetMember>)
        requires
            self.wf(),
        ensures
            (match r {
                Some(m) => self@.contains_key(id@) && self@[id@] == m@,
                None => !self@.contains_key(id@),
            }),
    {
        match self.find(id) {
            Some(n) => {
                proof {
                    lemma_assoc_view_index(self.members@, n as int);
                }
                Some(&self.members[n].1)
            },
            None => None,
        }
    }

    /// The identifiers currently in the snapshot.
    pub fn ids(&self) -> (r: Vec<String>)
        requires
            self.wf(),
        ensures
            forall|k: Seq<char>| self@.contains_key(k) <==> ids_view(r@).contains(k),
            forall|m1: int, m2: int| 0 <= m1 < m2 < r@.len() ==> r@[m1]@ != r@[m2]@,
    {
        proof {
            assert(forall|k: Seq<char>|
                (self@.contains_key(k) <==> exists|m: int|
                    0 <= m < self.members@.len() && self.members@[m].0@ == k)) by {
                assert forall|k: Seq<char>|
                    (self@.contains_key(k) <==> exists|m: int|
                        0 <= m < self.members@.len() && self.members@[m].0@ == k) by {
                    lemma_assoc_view_contains(self.members@, k);
                }
            }
        }
        let mut r: Vec<String> = Vec::new();
        let mut n: usize = 0;
        while n < self.members.len()
            invariant
                n <= self.members@.len(),
                r@.len() == n,
                forall|m: int| 0 <= m < n ==> r@[m]@ == self.members@[m].0@,
            decreases self.members@.len() - n,
        {
            r.push(self.members[n].0.clone());
            n = n + 1;
        }
        proof {
            assert forall|k: Seq<char>|
                self@.contains_key(k) <==> ids_view(r@).contains(k) by {
                if self@.contains_key(k) {
                    let m = choose|m: int|
                        0 <= m < self.members@.len() && self.members@[m].0@ == k;
                    assert(ids_view(r@)[m] == k);
                    assert(ids_view(r@).contains(k));
                }
                if ids_view(r@).contains(k) {
                    let m = choose|m: int| 0 <= m < ids_view(r@).len() && ids_view(r@)[m] == k;
                    assert(self.members@[m].0@ == k);
                }
            }
        }
        r
    }

    /// Publish `member` under `id`, replacing whatever the snapshot held
    /// for it.
    pub fn upsert(&mut self, id: String, member: ServersetMember)
        requires
            old(self).wf(),
        ensures
            final(self).wf(),
            final(self)@ == old(self)@.insert(id@, member@),
    {
        let ghost m0 = self@;
        match self.find(&id) {
            Some(n) => {
                proof {
                    lemma_assoc_view_remove(self.members@, n as int);
                }
                self.members.remove(n);
                proof {
                    lemma_assoc_view_contains(self.members@, id@);
                    lemma_assoc_view_push(self.members@, (id, member));
                }
                let ghost before = self.members@;
                self.members.push((id, member));
                proof {
                    assert(unique_keys(self.members@)) by {
                        assert(forall|m: int|
                            0 <= m < before.len() ==> self.members@[m] == before[m]);
                    }
                    assert(self@ =~= m0.insert(self.members@.last().0@, member@));
                }
            },
            None => {
                proof {
                    lemma_assoc_view_contains(self.members@, id@);
                    lemma_assoc_view_push(self.members@, (id, member));
                }
                let ghost before = self.members@;
                self.members.push((id, member));
                proof {
                    assert(unique_keys(self.members@)) by {
                        assert(forall|m: int|
                            0 <= m < before.len() ==> self.members@[m] == before[m]);
                    }
                }
            },
        }
    }

    /// Drop `id` from the snapshot; a store that does not hold it is left
    /// as it is.
    pub fn remove(&mut self, id: &String)
        requires
            old(self).wf(),
        ensures
            final(self).wf(),
            final(self)@ == old(self)@.remove(id@),
    {
        match self.find(id) {
            Some(n) => {
                proof {
                    lemma_assoc_view_remove(self.members@, n as int);
                }
                self.members.remove(n);
            },
            None => {
                proof {
                    assert(self@ =~= self@.remove(id@));
                }
            },
        }
    }
}

} // verus!
