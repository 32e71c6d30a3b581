//! Laws of the registry: properties that relate several operations,
//! stated over the registry's mathematical model and proved once for
//! all registries.

use vstd::prelude::*;

use crate::loader::loaded_models;
use crate::peer::PeerModel;
use crate::registry::{distinct_ids, has_id, idx_of, with_net_addr};

verus! {

/// The identities of `s`, in registry order.
pub open spec fn ids_of(s: Seq<PeerModel>) -> Seq<Seq<char>> {
    s.map_values(|m: PeerModel| m.id)
}

/// Index/key agreement: in a registry with distinct identities, the
/// record at any valid position `i` is exactly the record a keyed
/// lookup of that record's identity finds.
pub proof fn lemma_index_key_agreement(s: Seq<PeerModel>, i: int)
    requires
        distinct_ids(s),
        0 <= i < s.len(),
    ensures
        has_id(s, s[i].id),
        idx_of(s, s[i].id) == i,
{
    assert(has_id(s, s[i].id));
    let j = idx_of(s, s[i].id);
    if j != i {
        if j < i {
            assert(s[j].id != s[i].id);
        } else {
            assert(s[i].id != s[j].id);
        }
    }
}

/// Append-order iteration under mutation: overwriting or appending a
/// secondary address of one record leaves the sequence of identities,
/// and so the iteration order, exactly as it was.
pub proof fn lemma_mutation_preserves_order(s: Seq<PeerModel>, i: int, n: int, a: Seq<char>)
    requires
        0 <= i < s.len(),
    ensures
        ids_of(s.update(i, with_net_addr(s[i], n, a))) == ids_of(s),
{
    assert(ids_of(s.update(i, with_net_addr(s[i], n, a))) =~= ids_of(s));
}

/// Round trip: loading a well-formed artifact into an empty registry
/// yields exactly the records the artifact describes - one registry
/// record per artifact record, in file order, each carrying the
/// artifact's identity and primary address and no secondary addresses.
pub proof fn lemma_load_round_trip(recs: Seq<(Seq<char>, Seq<char>)>)
    ensures
        Seq::<PeerModel>::empty() + loaded_models(recs) == loaded_models(recs),
        loaded_models(recs).len() == recs.len(),
        forall|k: int| 0 <= k < recs.len() ==> #[trigger] loaded_models(recs)[k] == (PeerModel {
            id: recs[k].0,
            base_addr: recs[k].1,
            net_addrs: Seq::empty(),
        }),
{
    assert(Seq::<PeerModel>::empty() + loaded_models(recs) =~= loaded_models(recs));
}

/// The registry contents after one `add` call: unchanged when the
/// identity is already present, extended at the tail otherwise.
pub open spec fn add_step(s: Seq<PeerModel>, m: PeerModel) -> Seq<PeerModel> {
    if has_id(s, m.id) {
        s
    } else {
        s.push(m)
    }
}

/// The registry contents after one `add` call for each record of
/// `ms`, in order.
pub open spec fn add_all(s: Seq<PeerModel>, ms: Seq<PeerModel>) -> Seq<PeerModel>
    decreases ms.len(),
{
    if ms.len() == 0 {
        s
    } else {
        add_all(add_step(s, ms[0]), ms.drop_first())
    }
}

/// No insertion is lost: `add` calls for records with pairwise
/// distinct identities, none already registered, all succeed, in any
/// number, and the registry ends with every record appended - from an
/// empty registry, a final size equal to the number of calls.
pub proof fn lemma_distinct_adds_lose_nothing(s: Seq<PeerModel>, ms: Seq<PeerModel>)
    requires
        distinct_ids(ms),
        forall|k: int| 0 <= k < ms.len() ==> !has_id(s, ms[k].id),
    ensures
        add_all(s, ms) == s + ms,
        add_all(s, ms).len() == s.len() + ms.len(),
    decreases ms.len(),
{
    if ms.len() == 0 {
        assert(add_all(s, ms) =~= s + ms);
    } else {
        let m0 = ms[0];
        let tail = ms.drop_first();
        assert(!has_id(s, m0.id));
        let s1 = s.push(m0);
        assert forall|k: int| 0 <= k < tail.len() implies !has_id(s1, tail[k].id) by {
            assert(tail[k] == ms[k + 1]);
            if has_id(s1, tail[k].id) {
                let j = choose|j: int| 0 <= j < s1.len() && s1[j].id == tail[k].id;
                if j < s.len() {
                    assert(s[j].id == ms[k + 1].id);
                    assert(!has_id(s, ms[k + 1].id));
                    assert(false);
                } else {
                    assert(s1[j] == m0);
                    assert(ms[0].id != ms[k + 1].id);
                    assert(false);
                }
            }
        }
        assert forall|k1: int, k2: int| 0 <= k1 < k2 < tail.len() implies tail[k1].id
            != tail[k2].id by {
            assert(tail[k1] == ms[k1 + 1]);
            assert(tail[k2] == ms[k2 + 1]);
        }
        lemma_distinct_adds_lose_nothing(s1, tail);
        assert(add_all(s, ms) == add_all(s1, tail));
        assert(s1 + tail =~= s + ms);
    }
}

} // verus!
