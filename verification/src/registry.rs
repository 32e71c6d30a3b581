//! The authoritative, insertion-ordered collection of peer records.
//!
//! The registry enforces identity uniqueness, keeps keyed and positional
//! lookup in agreement, and admits bulk population with all-or-nothing
//! semantics. It is a plain synchronous structure: callers that share it
//! across threads impose a reader/writer discipline outside it.

use vstd::prelude::*;
use vstd::std_specs::iter::IteratorSpec;
use vstd::string::StringExecFns;

use crate::errors::Error;
use crate::loader::{artifact_records, loaded_models, MembershipLoader};
use crate::peer::{Peer, PeerId, PeerModel};

verus! {

/// True when some record in `s` carries the identity `id`.
pub open spec fn has_id(s: Seq<PeerModel>, id: Seq<char>) -> bool {
    exists|i: int| 0 <= i < s.len() && s[i].id == id
}

/// The position of the record carrying `id`; meaningful when
/// `has_id(s, id)` holds, and unique when the identities of `s` are
/// distinct.
pub open spec fn idx_of(s: Seq<PeerModel>, id: Seq<char>) -> int {
    choose|i: int| 0 <= i < s.len() && s[i].id == id
}

/// True when no two records in `s` share an identity.
pub open spec fn distinct_ids(s: Seq<PeerModel>) -> bool {
    forall|i: int, j: int| 0 <= i < j < s.len() ==> s[i].id != s[j].id
}

/// The models of a sequence of peer records.
pub open spec fn models_of(s: Seq<Peer>) -> Seq<PeerModel> {
    s.map_values(|p: Peer| p@)
}

/// The record `m` with its `n`th secondary address overwritten by `a`,
/// or with `a` appended when `n` is exactly the next free position.
pub open spec fn with_net_addr(m: PeerModel, n: int, a: Seq<char>) -> PeerModel {
    PeerModel {
        id: m.id,
        base_addr: m.base_addr,
        net_addrs: if n < m.net_addrs.len() {
            m.net_addrs.update(n, a)
        } else {
            m.net_addrs.push(a)
        },
    }
}

/// The peer records a node knows, in insertion order, with no two
/// records sharing an identity.
pub struct PeerList {
    records: Vec<Peer>,
}

impl View for PeerList {
    type V = Seq<PeerModel>;

    closed spec fn view(&self) -> Seq<PeerModel> {
        models_of(self.records@)
    }
}

impl PeerList {
    /// Identity uniqueness: the registry's invariant. Every constructor
    /// establishes it and every operation preserves it.
    pub open spec fn wf(&self) -> bool {
        distinct_ids(self@)
    }

    /// Creates an empty registry.
    pub fn new() -> (r: PeerList)
        ensures
            r@ == Seq::<PeerModel>::empty(),
            r.wf(),
    {
        let r = PeerList { records: Vec::new() };
        proof {
            assert(r@ =~= Seq::<PeerModel>::empty());
        }
        r
    }

    /// The number of registered peers.
    pub fn len(&self) -> (n: usize)
        ensures
            n == self@.len(),
    {
        self.records.len()
    }

    /// Positional access: the record at position `i`, in insertion
    /// order, or `None` past the end.
    pub fn at(&self, i: usize) -> (r: Option<&Peer>)
        ensures
            i < self@.len() ==> (r matches Some(p) && p@ == self@[i as int]),
            i >= self@.len() ==> r is None,
    {
        if i < self.records.len() {
            Some(&self.records[i])
        } else {
            None
        }
    }

    /// The position of the record keyed by `id`, or `None` when no
    /// record carries that identity.
    fn find_index(&self, id: &PeerId) -> (r: Option<usize>)
        ensures
            r matches Some(i) ==> i < self@.len() && self@[i as int].id == id@,
            r is None ==> !has_id(self@, id@),
    {
        let mut k: usize = 0;
        while k < self.records.len()
            invariant
                k <= self@.len(),
                self@.len() == self.records@.len(),
                forall|j: int| 0 <= j < k ==> self@[j].id != id@,
            decreases self@.len() - k,
        {
            if self.records[k].has_id(id) {
                return Some(k);
            }
            k = k + 1;
        }
        None
    }

    /// Appends `peer` at the next position. Fails with `Unsupported`,
    /// and leaves the registry unchanged, when a record with the same
    /// identity is already present.
    pub fn add(&mut self, peer: Peer) -> (r: Result<(), Error>)
        requires
            old(self).wf(),
        ensures
            final(self).wf(),
            !has_id(old(self)@, peer@.id) ==> r is Ok && final(self)@ == old(self)@.push(peer@),
            has_id(old(self)@, peer@.id) ==> (r matches Err(e) && e matches Error::Unsupported(_))
                && final(self)@ == old(self)@,
    {
        match self.find_index(peer.id_ref()) {
            Some(_) => Err(
                Error::Unsupported(
                    String::from_str("a peer with this identity is already registered"),
                ),
            ),
            None => {
                self.records.push(peer);
                proof {
                    assert(self@ =~= old(self)@.push(peer@));
                    assert forall|i: int, j: int| 0 <= i < j < self@.len() implies self@[i].id
                        != self@[j].id by {
                        if j == self@.len() - 1 {
                            assert(!(0 <= i < old(self)@.len() && old(self)@[i].id == peer@.id));
                        }
                    }
                }
                Ok(())
            },
        }
    }

    /// The primary contact address of the peer keyed by `id`, or
    /// `Absent` when no such peer is registered.
    pub fn get_base_address(&self, id: &PeerId) -> (r: Result<String, Error>)
        requires
            self.wf(),
        ensures
            has_id(self@, id@) ==> (r matches Ok(a) && a@ == self@[idx_of(self@, id@)].base_addr),
            !has_id(self@, id@) ==> (r matches Err(e) && e is Absent),
    {
        match self.find_index(id) {
            Some(i) => {
                proof {
                    self.lemma_found_is_idx_of(i as int, id@);
                }
                Ok(self.records[i].get_base_addr())
            },
            None => Err(Error::Absent),
        }
    }

    /// The `n`th secondary address of the peer keyed by `id`. Fails
    /// with `Absent` when no such peer is registered or when `n` is out
    /// of range for that peer's address list.
    pub fn get_net_address(&self, id: &PeerId, n: usize) -> (r: Result<String, Error>)
        requires
            self.wf(),
        ensures
            has_id(self@, id@) && n < self@[idx_of(self@, id@)].net_addrs.len() ==> (r matches Ok(
                a,
            ) && a@ == self@[idx_of(self@, id@)].net_addrs[n as int]),
            has_id(self@, id@) && n >= self@[idx_of(self@, id@)].net_addrs.len() ==> (r matches Err(
                e,
            ) && e is Absent),
            !has_id(self@, id@) ==> (r matches Err(e) && e is Absent),
    {
        match self.find_index(id) {
            Some(i) => {
                proof {
                    self.lemma_found_is_idx_of(i as int, id@);
                }
                if n < self.records[i].net_addr_count() {
                    Ok(self.records[i].get_net_addr(n))
                } else {
                    Err(Error::Absent)
                }
            },
            None => Err(Error::Absent),
        }
    }

    /// Overwrites the `n`th secondary address of the peer keyed by
    /// `id`, or appends it when `n` is exactly the peer's next free
    /// position. Fails with `Absent`, leaving the registry unchanged,
    /// when the peer is missing or `n` lies beyond the next free
    /// position.
    pub fn set_net_address(&mut self, id: &PeerId, n: usize, addr: String) -> (r: Result<
        (),
        Error,
    >)
        requires
            old(self).wf(),
        ensures
            final(self).wf(),
            !has_id(old(self)@, id@) ==> (r matches Err(e) && e is Absent) && final(self)@ == old(
                self,
            )@,
            has_id(old(self)@, id@) && n <= old(self)@[idx_of(old(self)@, id@)].net_addrs.len()
                ==> r is Ok && final(self)@ == old(self)@.update(
                idx_of(old(self)@, id@),
                with_net_addr(old(self)@[idx_of(old(self)@, id@)], n as int, addr@),
            ),
            has_id(old(self)@, id@) && n > old(self)@[idx_of(old(self)@, id@)].net_addrs.len()
                ==> (r matches Err(e) && e is Absent) && final(self)@ == old(self)@,
    {
        match self.find_index(id) {
            None => Err(Error::Absent),
            Some(i) => {
                proof {
                    self.lemma_found_is_idx_of(i as int, id@);
                }
                if n > self.records[i].net_addr_count() {
                    return Err(Error::Absent);
                }
                let mut p = self.records.remove(i);
                let res = p.set_net_addr(n, addr);
                self.records.insert(i, p);
                proof {
                    assert(res is Ok);
                    assert(self@ =~= old(self)@.update(
                        i as int,
                        with_net_addr(old(self)@[i as int], n as int, addr@),
                    ));
                    assert forall|a: int, b: int| 0 <= a < b < self@.len() implies self@[a].id
                        != self@[b].id by {
                        assert(self@[a].id == old(self)@[a].id);
                        assert(self@[b].id == old(self)@[b].id);
                    }
                }
                Ok(())
            },
        }
    }

    /// With identity uniqueness, any position whose record carries `id`
    /// is the position `idx_of` names.
    proof fn lemma_found_is_idx_of(&self, i: int, id: Seq<char>)
        requires
            self.wf(),
            0 <= i < self@.len(),
            self@[i].id == id,
        ensures
            has_id(self@, id),
            idx_of(self@, id) == i,
    {
        assert(has_id(self@, id));
        let j = idx_of(self@, id);
        if j != i {
            if j < i {
                assert(self@[j].id != self@[i].id);
            } else {
                assert(self@[i].id != self@[j].id);
            }
        }
    }


    /// An iterator over the records, in insertion order. It reflects
    /// the registry at the moment of the call; the external locking
    /// discipline keeps writers out while it runs.
    pub fn iter(&self) -> (it: core::slice::Iter<'_, Peer>)
        ensures
            it.remaining().len() == self@.len(),
            forall|k: int| 0 <= k < self@.len() ==> it.remaining()[k]@ == self@[k],
    {
        let it = self.records.as_slice().iter();
        proof {
            broadcast use vstd::std_specs::slice::axiom_spec_slice_iter;

            assert(it.remaining() =~= self.records@.as_ref());
        }
        it
    }

    /// Bulk-populates the registry from the text of a membership
    /// artifact: every record the artifact describes is appended, in
    /// file order, or none is. A malformed artifact, a record that
    /// duplicates a registered identity, and an identity the artifact
    /// carries twice each fail with `Unsupported` and leave the
    /// registry unchanged.
    pub fn load_from_str(&mut self, text: &str) -> (r: Result<(), Error>)
        requires
            old(self).wf(),
        ensures
            final(self).wf(),
            artifact_records(text@) is None ==> (r matches Err(e) && e matches Error::Unsupported(
                _,
            )) && final(self)@ == old(self)@,
            artifact_records(text@) matches Some(recs) ==> {
                &&& (r is Ok <==> (distinct_ids(loaded_models(recs)) && (forall|k: int|
                    0 <= k < recs.len() ==> !has_id(old(self)@, loaded_models(recs)[k].id))))
                &&& (r is Ok ==> final(self)@ == old(self)@ + loaded_models(recs))
                &&& (r matches Err(e) ==> (e matches Error::Unsupported(_)) && final(self)@ == old(
                    self,
                )@)
            },
    {
        match MembershipLoader::parse(text) {
            Err(e) => Err(e),
            Ok(peers) => {
                proof {
                    let recs = artifact_records(text@)->Some_0;
                    assert(models_of(peers@).len() == peers@.len());
                    assert(loaded_models(recs).len() == recs.len());
                    assert(peers@.len() == recs.len());
                }
                self.ingest(peers)
            },
        }
    }
    /// Appends every record of `peers`, in order, or leaves the
    /// registry unchanged: the whole batch is refused with
    /// `Unsupported` when two of its records share an identity or one
    /// duplicates an identity already registered.
    pub fn ingest(&mut self, peers: Vec<Peer>) -> (r: Result<(), Error>)
        requires
            old(self).wf(),
        ensures
            final(self).wf(),
            r is Ok <==> (distinct_ids(models_of(peers@)) && (forall|k: int|
                0 <= k < peers@.len() ==> !has_id(old(self)@, models_of(peers@)[k].id))),
            r is Ok ==> final(self)@ == old(self)@ + models_of(peers@),
            r matches Err(e) ==> (e matches Error::Unsupported(_)) && final(self)@ == old(self)@,
    {
        let n = peers.len();
        let mut k: usize = 0;
        while k < n
            invariant
                k <= n,
                n == peers@.len(),
                *self == *old(self),
                old(self).wf(),
                forall|j: int| 0 <= j < k ==> !has_id(old(self)@, models_of(peers@)[j].id),
                forall|j1: int, j2: int|
                    0 <= j1 < j2 < k ==> models_of(peers@)[j1].id != models_of(peers@)[j2].id,
            decreases n - k,
        {
            match self.find_index(peers[k].id_ref()) {
                Some(_) => {
                    proof {
                        assert(models_of(peers@)[k as int] == peers@[k as int]@);
                        assert(has_id(old(self)@, models_of(peers@)[k as int].id));
                    }
                    return Err(
                        Error::Unsupported(
                            String::from_str("the batch duplicates a registered peer identity"),
                        ),
                    );
                },
                None => {},
            }
            let mut l: usize = 0;
            while l < k
                invariant
                    l <= k < n,
                    n == peers@.len(),
                    *self == *old(self),
                    old(self).wf(),
                    forall|j: int|
                        0 <= j < l ==> models_of(peers@)[j].id != models_of(peers@)[k as int].id,
                decreases k - l,
            {
                if peers[l].has_id(peers[k].id_ref()) {
                    proof {
                        assert(models_of(peers@)[l as int] == peers@[l as int]@);
                        assert(models_of(peers@)[k as int] == peers@[k as int]@);
                        assert(!distinct_ids(models_of(peers@)));
                    }
                    return Err(
                        Error::Unsupported(
                            String::from_str("the batch carries one peer identity twice"),
                        ),
                    );
                }
                l = l + 1;
            }
            k = k + 1;
        }
        let ghost olds = old(self)@;
        let ghost ms = models_of(peers@);
        let mut m: usize = 0;
        while m < n
            invariant
                m <= n,
                n == peers@.len(),
                olds == old(self)@,
                ms == models_of(peers@),
                distinct_ids(olds),
                forall|j: int| 0 <= j < n ==> !has_id(olds, ms[j].id),
                forall|j1: int, j2: int| 0 <= j1 < j2 < n ==> ms[j1].id != ms[j2].id,
                self@.len() == olds.len() + m,
                forall|j: int| 0 <= j < olds.len() ==> self@[j] == olds[j],
                forall|j: int| 0 <= j < m ==> self@[olds.len() + j] == ms[j],
            decreases n - m,
        {
            let p = peers[m].clone();
            self.records.push(p);
            proof {
                assert(self@[self@.len() - 1] == p@);
                assert(ms[m as int] == peers@[m as int]@);
            }
            m = m + 1;
        }
        proof {
            assert(self@ =~= olds + ms);
            assert forall|i: int, j: int| 0 <= i < j < self@.len() implies self@[i].id
                != self@[j].id by {
                if j < olds.len() {
                } else if i >= olds.len() {
                    assert(ms[i - olds.len()].id != ms[j - olds.len()].id);
                } else {
                    assert(!has_id(olds, ms[j - olds.len()].id));
                    assert(!(0 <= i < olds.len() && olds[i].id == ms[j - olds.len()].id));
                }
            }
        }
        Ok(())
    }
}

} // verus!
