//! The data carried by one member node: its primary endpoint, a set of named
//! additional endpoints, and a health status tag.

use vstd::prelude::*;

verus! {

/// A network endpoint of a service instance.
pub struct ServiceEndpoint {
    pub host: String,
    pub port: u16,
}

/// Mathematical model of a [`ServiceEndpoint`].
pub ghost struct EndpointModel {
    pub host: Seq<char>,
    pub port: u16,
}

impl View for ServiceEndpoint {
    type V = EndpointModel;

    open spec fn view(&self) -> EndpointModel {
        EndpointModel { host: self.host@, port: self.port }
    }
}

/// One member's record, as decoded from its node's payload.  A record is
/// identified by the name of the node it came from, not by any field inside
/// it.
pub struct ServersetMember {
    pub service_endpoint: ServiceEndpoint,
    pub additional_endpoints: Vec<(String, ServiceEndpoint)>,
    pub status: String,
}

/// Mathematical model of a [`ServersetMember`]: the role map is a
/// mathematical map from role name to endpoint.
pub ghost struct MemberModel {
    pub service_endpoint: EndpointModel,
    pub additional_endpoints: Map<Seq<char>, EndpointModel>,
    pub status: Seq<char>,
}

/// The map described by an association list, later entries taking precedence.
pub open spec fn assoc_view<T: View>(s: Seq<(String, T)>) -> Map<Seq<char>, T::V>
    decreases s.len(),
{
    if s.len() == 0 {
        Map::empty()
    } else {
        assoc_view(s.drop_last()).insert(s.last().0@, s.last().1@)
    }
}

/// No two entries of the association list share a key.
pub open spec fn unique_keys<T>(s: Seq<(String, T)>) -> bool {
    forall|i: int, j: int| 0 <= i < j < s.len() ==> s[i].0@ != s[j].0@
}

/// The identifier sequence a listing describes.
pub open spec fn ids_view(s: Seq<String>) -> Seq<Seq<char>> {
    s.map_values(|x: String| x@)
}

/// A key is in the map of an association list exactly when some entry
/// carries it.
pub proof fn lemma_assoc_view_contains<T: View>(s: Seq<(String, T)>, k: Seq<char>)
    ensures
        assoc_view(s).contains_key(k) <==> exists|n: int| 0 <= n < s.len() && s[n].0@ == k,
    decreases s.len(),
{
    if s.len() > 0 {
        lemma_assoc_view_contains(s.drop_last(), k);
        if s.last().0@ == k {
            assert(s[s.len() - 1].0@ == k);
        } else {
            if assoc_view(s.drop_last()).contains_key(k) {
                let n = choose|n: int|
                    0 <= n < s.drop_last().len() && s.drop_last()[n].0@ == k;
                assert(s[n].0@ == k);
            }
            if exists|n: int| 0 <= n < s.len() && s[n].0@ == k {
                let n = choose|n: int| 0 <= n < s.len() && s[n].0@ == k;
                assert(0 <= n < s.len() - 1);
                assert(s.drop_last()[n].0@ == k);
            }
        }
    }
}

/// Appending an entry inserts its key.
pub proof fn lemma_assoc_view_push<T: View>(s: Seq<(String, T)>, p: (String, T))
    ensures
        assoc_view(s.push(p)) == assoc_view(s).insert(p.0@, p.1@),
{
    assert(s.push(p).drop_last() =~= s);
    assert(s.push(p).last() == p);
}

/// With pairwise-distinct keys, each entry is what the map holds for its key.
pub proof fn lemma_assoc_view_index<T: View>(s: Seq<(String, T)>, n: int)
    requires
        unique_keys(s),
        0 <= n < s.len(),
    ensures
        assoc_view(s).contains_key(s[n].0@),
        assoc_view(s)[s[n].0@] == s[n].1@,
    decreases s.len(),
{
    if n == s.len() - 1 {
    } else {
        assert(s.drop_last()[n] == s[n]);
        lemma_assoc_view_index(s.drop_last(), n);
        assert(s[n].0@ != s.last().0@);
    }
}

impl View for ServersetMember {
    type V = MemberModel;

    open spec fn view(&self) -> MemberModel {
        MemberModel {
            service_endpoint: self.service_endpoint@,
            additional_endpoints: assoc_view(self.additional_endpoints@),
            status: self.status@,
        }
    }
}

impl ServersetMember {
    /// The role names are pairwise distinct.
    pub open spec fn wf(&self) -> bool {
        unique_keys(self.additional_endpoints@)
    }
}

/// Why a payload failed to decode.  Malformed UTF-8 and a malformed JSON
/// structure are reported as distinct kinds; neither is ever fatal.
#[derive(Clone, Copy, Debug, PartialEq, Eq, Structural)]
pub enum DecodeError {
    /// The payload is not valid UTF-8.
    Utf8,
    /// The payload is valid UTF-8 but is not a well-formed member record.
    Malformed,
}

} // verus!
