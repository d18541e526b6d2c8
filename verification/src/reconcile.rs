//! One reconciliation cycle: apply a listing of the root path's children
//! and each child's fetch outcome to the membership store.
//!
//! The process that polls the coordination store performs the reads and
//! hands their outcomes in as plain values; every decision — decode, the
//! health filter, upsert, removal of unlisted identifiers — is made here
//! and proved against the cycle model [`spec_cycle`].

use vstd::prelude::*;
use crate::decoder::decode_member;
use crate::json::spec_decode;
use crate::record::{MemberModel, ids_view};
use crate::store::Serverset;

verus! {

/// What the process observed for one listed child: its node was gone by the
/// time it was checked, its data could not be fetched, or its raw payload.
pub enum FetchOutcome {
    /// The child's node no longer exists.
    Absent,
    /// The existence check or the data read failed.
    Failed,
    /// The node's raw payload.
    Payload(Vec<u8>),
}

/// Mathematical model of a [`FetchOutcome`].
pub ghost enum FetchModel {
    Absent,
    Failed,
    Payload(Seq<u8>),
}

impl View for FetchOutcome {
    type V = FetchModel;

    open spec fn view(&self) -> FetchModel {
        match self {
            FetchOutcome::Absent => FetchModel::Absent,
            FetchOutcome::Failed => FetchModel::Failed,
            FetchOutcome::Payload(v) => FetchModel::Payload(v@),
        }
    }
}

/// The fetch-outcome sequence a cycle observed.
pub open spec fn fetch_views(s: Seq<FetchOutcome>) -> Seq<FetchModel> {
    s.map_values(|f: FetchOutcome| f@)
}

/// The listing a cycle observed: `None` when the root was missing or its
/// children could not be listed.
pub open spec fn listing_view(o: Option<&Vec<String>>) -> Option<Seq<Seq<char>>> {
    match o {
        Some(v) => Some(ids_view(v@)),
        None => None,
    }
}

/// Whether this fetch outcome publishes a member: its payload decoded and
/// reported an alive status.
pub open spec fn inserts_member(f: FetchModel) -> bool {
    match f {
        FetchModel::Payload(raw) => match spec_decode(raw) {
            Ok(mem) => mem.status == "ALIVE"@,
            Err(_) => false,
        },
        _ => false,
    }
}

/// The member record a publishing fetch outcome carries.
pub open spec fn decoded_member(f: FetchModel) -> MemberModel
    recommends
        inserts_member(f),
{
    match f {
        FetchModel::Payload(raw) => match spec_decode(raw) {
            Ok(mem) => mem,
            Err(_) => arbitrary(),
        },
        _ => arbitrary(),
    }
}

/// What one child's outcome does to the snapshot: an alive record is
/// published under the child's identifier; anything else — a vanished node,
/// a failed fetch, an undecodable payload, a non-alive status — changes
/// nothing at this step.
pub open spec fn apply_child(
    m: Map<Seq<char>, MemberModel>,
    id: Seq<char>,
    f: FetchModel,
) -> Map<Seq<char>, MemberModel> {
    if inserts_member(f) {
        m.insert(id, decoded_member(f))
    } else {
        m
    }
}

/// The snapshot after the first `n` children's outcomes, in listing order.
pub open spec fn apply_children(
    m: Map<Seq<char>, MemberModel>,
    ids: Seq<Seq<char>>,
    fs: Seq<FetchModel>,
    n: int,
) -> Map<Seq<char>, MemberModel>
    decreases n,
{
    if n <= 0 {
        m
    } else {
        apply_child(apply_children(m, ids, fs, n - 1), ids[n - 1], fs[n - 1])
    }
}

/// The snapshot with every identifier the listing no longer shows removed.
pub open spec fn retain_listed(
    m: Map<Seq<char>, MemberModel>,
    ids: Seq<Seq<char>>,
) -> Map<Seq<char>, MemberModel> {
    m.restrict(ids.to_set())
}

/// One whole cycle: a failed listing leaves the snapshot untouched — store
/// unavailability is not "no members"; otherwise every child's outcome is
/// applied and the identifiers that dropped out of the listing are removed.
pub open spec fn spec_cycle(
    m: Map<Seq<char>, MemberModel>,
    listing: Option<Seq<Seq<char>>>,
    fs: Seq<FetchModel>,
) -> Map<Seq<char>, MemberModel> {
    match listing {
        None => m,
        Some(ids) => retain_listed(apply_children(m, ids, fs, ids.len() as int), ids),
    }
}

/// Whether some element of the listing is this identifier.
#[verifier::loop_isolation(false)]
fn contains_string(v: &Vec<String>, s: &String) -> (b: bool)
    ensures
        b == ids_view(v@).contains(s@),
{
    let mut n: usize = 0;
    while n < v.len()
        invariant
            n <= v@.len(),
            forall|m: int| 0 <= m < n ==> v@[m]@ != s@,
        decreases v@.len() - n,
    {
        if v[n] == *s {
            assert(ids_view(v@)[n as int] == s@);
            return true;
        }
        n = n + 1;
    }
    assert(forall|m: int| 0 <= m < v@.len() ==> ids_view(v@)[m] != s@);
    false
}

impl Serverset {
    /// Apply one listed child's fetch outcome to the store, as the cycle
    /// model describes: publish the record when the payload decodes with an
    /// alive status, change nothing otherwise.
    pub fn update_member(&mut self, member_znode: &String, fetch: &FetchOutcome)
        requires
            old(self).wf(),
        ensures
            final(self).wf(),
            final(self)@ == apply_child(old(self)@, member_znode@, fetch@),
    {
        match fetch {
            FetchOutcome::Payload(raw) => {
                match decode_member(raw.as_slice()) {
                    Ok(m) => {
                        let alive_tag = "ALIVE".to_owned();
                        if m.status == alive_tag {
                            self.upsert(member_znode.clone(), m);
                        }
                    },
                    Err(_) => {},
                }
            },
            _ => {},
        }
    }

    /// Remove every identifier the listing no longer shows; the records of
    /// the listed identifiers stay as they are.
    #[verifier::loop_isolation(false)]
    pub fn remove_absent(&mut self, children: &Vec<String>)
        requires
            old(self).wf(),
        ensures
            final(self).wf(),
            final(self)@ == retain_listed(old(self)@, ids_view(children@)),
    {
        let current = self.ids();
        let ghost cs = ids_view(current@);
        let mut t: usize = 0;
        while t < current.len()
            invariant
                self.wf(),
                t <= current@.len(),
                forall|k: Seq<char>| #[trigger] old(self)@.contains_key(k) ==> (
                self@.contains_key(k) <==> (ids_view(children@).contains(k) || !cs.take(
                    t as int,
                ).contains(k))),
                forall|k: Seq<char>| #[trigger] self@.contains_key(k) ==> old(
                    self,
                )@.contains_key(k) && self@[k] == old(self)@[k],
            decreases current@.len() - t,
        {
            let listed = contains_string(children, &current[t]);
            if !listed {
                self.remove(&current[t]);
            }
            proof {
                let cur = current@[t as int]@;
                assert(cs[t as int] == cur);
                assert forall|k: Seq<char>| #[trigger] old(self)@.contains_key(k) implies (
                    self@.contains_key(k) <==> (ids_view(children@).contains(k) || !cs.take(
                        t + 1,
                    ).contains(k))) by {
                    if cs.take(t + 1).contains(k) {
                        let i = choose|i: int| 0 <= i < t + 1 && #[trigger] cs.take(t + 1)[i] == k;
                        if i < t {
                            assert(cs.take(t as int)[i] == k);
                            assert(cs.take(t as int).contains(k));
                        } else {
                            assert(k == cur);
                        }
                    }
                    if cs.take(t as int).contains(k) {
                        let i = choose|i: int| 0 <= i < t && #[trigger] cs.take(t as int)[i] == k;
                        assert(cs.take(t + 1)[i] == k);
                        assert(cs.take(t + 1).contains(k));
                    }
                    if k == cur {
                        assert(cs.take(t + 1)[t as int] == k);
                        assert(cs.take(t + 1).contains(k));
                    }
                }
            }
            t = t + 1;
        }
        proof {
            assert(cs.take(current@.len() as int) =~= cs);
            assert forall|k: Seq<char>| #[trigger] old(self)@.contains_key(k) implies (
                self@.contains_key(k) <==> ids_view(children@).contains(k)) by {
                assert(cs.contains(k));
            }
            assert(self@ =~= retain_listed(old(self)@, ids_view(children@)));
        }
    }

    /// Run one whole reconciliation cycle against the store.
    ///
    /// `listing` is the root path's children, or `None` when the root was
    /// missing or listing failed; `fetches` holds, for each listed child in
    /// order, what fetching it produced.  The store afterwards is exactly
    /// what the cycle model [`spec_cycle`] describes.
    #[verifier::loop_isolation(false)]
    pub fn run_cycle(&mut self, listing: Option<&Vec<String>>, fetches: &Vec<FetchOutcome>)
        requires
            old(self).wf(),
            (match listing {
                Some(ch) => ch@.len() == fetches@.len(),
                None => true,
            }),
        ensures
            final(self).wf(),
            final(self)@ == spec_cycle(old(self)@, listing_view(listing), fetch_views(fetches@)),
    {
        match listing {
            None => {},
            Some(ch) => {
                let mut n: usize = 0;
                while n < ch.len()
                    invariant
                        self.wf(),
                        n <= ch@.len(),
                        self@ == apply_children(
                            old(self)@,
                            ids_view(ch@),
                            fetch_views(fetches@),
                            n as int,
                        ),
                    decreases ch@.len() - n,
                {
                    self.update_member(&ch[n], &fetches[n]);
                    n = n + 1;
                }
                self.remove_absent(ch);
            },
        }
    }
}

/// A cycle whose listing failed — the root path missing, or its children
/// unavailable — leaves the snapshot exactly as it was: store
/// unavailability is never read as an empty membership.
pub proof fn lemma_cycle_failed_listing(m: Map<Seq<char>, MemberModel>, fs: Seq<FetchModel>)
    ensures
        spec_cycle(m, None, fs) == m,
{
}

proof fn lemma_apply_children_contains(
    m: Map<Seq<char>, MemberModel>,
    ids: Seq<Seq<char>>,
    fs: Seq<FetchModel>,
    n: int,
)
    requires
        0 <= n <= ids.len(),
        ids.len() == fs.len(),
    ensures
        forall|k: Seq<char>|
            #[trigger] apply_children(m, ids, fs, n).contains_key(k) <==> (m.contains_key(k)
                || exists|j: int| 0 <= j < n && ids[j] == k && #[trigger] inserts_member(fs[j])),
    decreases n,
{
    if n > 0 {
        lemma_apply_children_contains(m, ids, fs, n - 1);
        let prev = apply_children(m, ids, fs, n - 1);
        assert forall|k: Seq<char>|
            #[trigger] apply_children(m, ids, fs, n).contains_key(k) <==> (m.contains_key(k)
                || exists|j: int|
                0 <= j < n && ids[j] == k && #[trigger] inserts_member(fs[j])) by {
            if apply_children(m, ids, fs, n).contains_key(k) {
                if inserts_member(fs[n - 1]) && ids[n - 1] == k {
                    assert(0 <= n - 1 < n && ids[n - 1] == k && inserts_member(fs[n - 1]));
                } else {
                    assert(prev.contains_key(k));
                    if !m.contains_key(k) {
                        let j = choose|j: int|
                            0 <= j < n - 1 && ids[j] == k && #[trigger] inserts_member(fs[j]);
                        assert(0 <= j < n && ids[j] == k && inserts_member(fs[j]));
                    }
                }
            }
            if m.contains_key(k) {
                assert(prev.contains_key(k));
                assert(apply_children(m, ids, fs, n).contains_key(k));
            }
            if exists|j: int| 0 <= j < n && ids[j] == k && #[trigger] inserts_member(fs[j]) {
                let j = choose|j: int|
                    0 <= j < n && ids[j] == k && #[trigger] inserts_member(fs[j]);
                if j < n - 1 {
                    assert(prev.contains_key(k));
                } else {
                }
                assert(apply_children(m, ids, fs, n).contains_key(k));
            }
        }
    }
}

/// After any cycle with a listing, the snapshot's key set is a subset of
/// the listed children; and a child whose identifier was not already in the
/// snapshot appears only if its fetch decoded to an alive record — one that
/// failed to fetch or decode, or whose status was not alive, is not newly
/// inserted.
pub proof fn lemma_cycle_keys(m: Map<Seq<char>, MemberModel>, ids: Seq<Seq<char>>, fs: Seq<FetchModel>)
    requires
        ids.len() == fs.len(),
    ensures
        forall|k: Seq<char>| #[trigger] spec_cycle(m, Some(ids), fs).contains_key(k)
            ==> ids.contains(k),
        forall|k: Seq<char>| #[trigger] spec_cycle(m, Some(ids), fs).contains_key(k)
            ==> m.contains_key(k) || exists|j: int|
            0 <= j < ids.len() && ids[j] == k && #[trigger] inserts_member(fs[j]),
{
    lemma_apply_children_contains(m, ids, fs, ids.len() as int);
}

/// Removal correctness: an identifier the cycle's listing does not show is
/// absent from the snapshot after the cycle, whatever it held before.
pub proof fn lemma_cycle_removes_unlisted(
    m: Map<Seq<char>, MemberModel>,
    ids: Seq<Seq<char>>,
    fs: Seq<FetchModel>,
    k: Seq<char>,
)
    requires
        ids.len() == fs.len(),
        !ids.contains(k),
    ensures
        !spec_cycle(m, Some(ids), fs).contains_key(k),
{
}

proof fn lemma_apply_children_value(
    m: Map<Seq<char>, MemberModel>,
    ids: Seq<Seq<char>>,
    fs: Seq<FetchModel>,
    n: int,
    t: int,
)
    requires
        ids.len() == fs.len(),
        0 <= n < t <= ids.len(),
        forall|i: int, j: int| 0 <= i < j < ids.len() ==> ids[i] != ids[j],
        inserts_member(fs[n]),
    ensures
        apply_children(m, ids, fs, t).contains_key(ids[n]),
        apply_children(m, ids, fs, t)[ids[n]] == decoded_member(fs[n]),
    decreases t,
{
    if t == n + 1 {
    } else {
        lemma_apply_children_value(m, ids, fs, n, t - 1);
        assert(ids[t - 1] != ids[n]);
    }
}

/// Partial-failure isolation: whatever happened to the other children, a
/// listed child whose fetch decoded to an alive record is in the snapshot
/// after the cycle, under exactly that record.  (A store's child names are
/// pairwise distinct.)
pub proof fn lemma_cycle_applies_alive(
    m: Map<Seq<char>, MemberModel>,
    ids: Seq<Seq<char>>,
    fs: Seq<FetchModel>,
    n: int,
)
    requires
        ids.len() == fs.len(),
        0 <= n < ids.len(),
        forall|i: int, j: int| 0 <= i < j < ids.len() ==> ids[i] != ids[j],
        inserts_member(fs[n]),
    ensures
        spec_cycle(m, Some(ids), fs).contains_key(ids[n]),
        spec_cycle(m, Some(ids), fs)[ids[n]] == decoded_member(fs[n]),
{
    lemma_apply_children_value(m, ids, fs, n, ids.len() as int);
    assert(ids.contains(ids[n]));
}

proof fn lemma_second_run_agrees(
    m: Map<Seq<char>, MemberModel>,
    ids: Seq<Seq<char>>,
    fs: Seq<FetchModel>,
    t: int,
)
    requires
        ids.len() == fs.len(),
        0 <= t <= ids.len(),
    ensures
        forall|k: Seq<char>|
            (exists|j: int| 0 <= j < t && ids[j] == k && #[trigger] inserts_member(fs[j]))
                ==> #[trigger] apply_children(
                spec_cycle(m, Some(ids), fs),
                ids,
                fs,
                t,
            ).contains_key(k) && apply_children(m, ids, fs, t).contains_key(k) && apply_children(
                spec_cycle(m, Some(ids), fs),
                ids,
                fs,
                t,
            )[k] == apply_children(m, ids, fs, t)[k],
        forall|k: Seq<char>|
            !(exists|j: int| 0 <= j < t && ids[j] == k && #[trigger] inserts_member(fs[j]))
                ==> (#[trigger] apply_children(
                spec_cycle(m, Some(ids), fs),
                ids,
                fs,
                t,
            ).contains_key(k) <==> spec_cycle(m, Some(ids), fs).contains_key(k)) && (spec_cycle(
                m,
                Some(ids),
                fs,
            ).contains_key(k) ==> apply_children(spec_cycle(m, Some(ids), fs), ids, fs, t)[k]
                == spec_cycle(m, Some(ids), fs)[k]),
    decreases t,
{
    let m1 = spec_cycle(m, Some(ids), fs);
    if t > 0 {
        lemma_second_run_agrees(m, ids, fs, t - 1);
        assert forall|k: Seq<char>|
            #![trigger apply_children(m1, ids, fs, t).contains_key(k)]
            (exists|j: int| 0 <= j < t && ids[j] == k && #[trigger] inserts_member(fs[j]))
                implies apply_children(m1, ids, fs, t).contains_key(k) && apply_children(
                m,
                ids,
                fs,
                t,
            ).contains_key(k) && apply_children(m1, ids, fs, t)[k] == apply_children(
                m,
                ids,
                fs,
                t,
            )[k] by {
            if inserts_member(fs[t - 1]) && ids[t - 1] == k {
            } else {
                let seed = apply_children(m1, ids, fs, t - 1).contains_key(k);
                let j = choose|j: int|
                    0 <= j < t && ids[j] == k && #[trigger] inserts_member(fs[j]);
                assert(0 <= j < t - 1 && ids[j] == k && inserts_member(fs[j]));
                assert(apply_children(m1, ids, fs, t - 1).contains_key(k) && apply_children(
                    m,
                    ids,
                    fs,
                    t - 1,
                ).contains_key(k) && apply_children(m1, ids, fs, t - 1)[k] == apply_children(
                    m,
                    ids,
                    fs,
                    t - 1,
                )[k]);
            }
        }
        assert forall|k: Seq<char>|
            #![trigger apply_children(m1, ids, fs, t).contains_key(k)]
            !(exists|j: int| 0 <= j < t && ids[j] == k && #[trigger] inserts_member(fs[j]))
                implies (apply_children(m1, ids, fs, t).contains_key(k) <==> m1.contains_key(k))
                && (m1.contains_key(k) ==> apply_children(m1, ids, fs, t)[k] == m1[k]) by {
            let seed = apply_children(m1, ids, fs, t - 1).contains_key(k);
            assert(!(exists|j: int|
                0 <= j < t - 1 && ids[j] == k && #[trigger] inserts_member(fs[j])));
            assert(!(inserts_member(fs[t - 1]) && ids[t - 1] == k));
            assert(seed <==> m1.contains_key(k));
            if m1.contains_key(k) {
                assert(apply_children(m1, ids, fs, t - 1)[k] == m1[k]);
            }
        }
    }
}

/// Idempotence: running a cycle twice against an unchanged backing store —
/// the same listing and the same fetch outcomes — produces the identical
/// snapshot; the second run changes nothing.
pub proof fn lemma_cycle_idempotent(
    m: Map<Seq<char>, MemberModel>,
    ids: Seq<Seq<char>>,
    fs: Seq<FetchModel>,
)
    requires
        ids.len() == fs.len(),
    ensures
        spec_cycle(spec_cycle(m, Some(ids), fs), Some(ids), fs) == spec_cycle(m, Some(ids), fs),
{
    let m1 = spec_cycle(m, Some(ids), fs);
    let t = ids.len() as int;
    lemma_second_run_agrees(m, ids, fs, t);
    lemma_cycle_keys(m, ids, fs);
    assert forall|k: Seq<char>|
        #[trigger] spec_cycle(m1, Some(ids), fs).contains_key(k) <==> m1.contains_key(k) by {
        let seed = apply_children(m1, ids, fs, t).contains_key(k);
        if exists|j: int| 0 <= j < t && ids[j] == k && #[trigger] inserts_member(fs[j]) {
            let j = choose|j: int| 0 <= j < t && ids[j] == k && #[trigger] inserts_member(fs[j]);
            assert(ids.contains(k));
            assert(apply_children(m, ids, fs, t).contains_key(k));
            assert(m1.contains_key(k));
        }
    }
    assert forall|k: Seq<char>| #[trigger] m1.contains_key(k) implies spec_cycle(
        m1,
        Some(ids),
        fs,
    )[k] == m1[k] by {
        let seed = apply_children(m1, ids, fs, t).contains_key(k);
        assert(ids.contains(k));
        if exists|j: int| 0 <= j < t && ids[j] == k && #[trigger] inserts_member(fs[j]) {
            assert(apply_children(m1, ids, fs, t)[k] == apply_children(m, ids, fs, t)[k]);
        }
    }
    assert(spec_cycle(m1, Some(ids), fs) =~= m1);
}

} // verus!
