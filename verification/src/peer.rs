//! Peer identities and peer records.
//!
//! A `PeerId` is the opaque value identifying one peer; a `Peer` couples
//! an identity with a primary contact address and an ordered list of
//! secondary addresses. The identity of a record is immutable for the
//! record's lifetime; the addresses are mutable in place.

use vstd::prelude::*;
use vstd::string::StrSliceExecFns;

use crate::errors::Error;

verus! {

/// The unique, equality-comparable, hashable key identifying a peer.
///
/// Its textual form (a hex-encoded public key in the persisted artifact)
/// is the whole value: two identities are equal exactly when their texts
/// are.
#[derive(Hash, Debug)]
pub struct PeerId {
    key: String,
}

impl View for PeerId {
    type V = Seq<char>;

    closed spec fn view(&self) -> Seq<char> {
        self.key@
    }
}

impl PeerId {
    /// Builds an identity from its textual key.
    pub fn new(key: String) -> (r: PeerId)
        ensures
            r@ == key@,
    {
        PeerId { key }
    }

    /// Identities are totally ordered: true exactly when this one comes
    /// strictly before `other`.
    pub fn lt(&self, other: &PeerId) -> (r: bool)
        ensures
            r == lex_lt(self@, other@),
    {
        let n: usize = self.key.as_str().unicode_len();
        let m: usize = other.key.as_str().unicode_len();
        let mut i: usize = 0;
        proof {
            assert(self@.skip(0) =~= self@);
            assert(other@.skip(0) =~= other@);
        }
        while i < n && i < m
            invariant
                i <= n,
                i <= m,
                n == self@.len(),
                m == other@.len(),
                lex_lt(self@, other@) == lex_lt(self@.skip(i as int), other@.skip(i as int)),
            decreases n - i,
        {
            let a = self.key.as_str().get_char(i);
            let b = other.key.as_str().get_char(i);
            if (a as u32) != (b as u32) {
                return (a as u32) < (b as u32);
            }
            proof {
                assert(self@.skip(i as int).drop_first() =~= self@.skip(i as int + 1));
                assert(other@.skip(i as int).drop_first() =~= other@.skip(i as int + 1));
            }
            i = i + 1;
        }
        proof {
            assert(self@.skip(i as int).len() == n - i);
            assert(other@.skip(i as int).len() == m - i);
        }
        n < m
    }

    /// The textual form of the identity, for display and serialization.
    pub fn as_text(&self) -> (r: &String)
        ensures
            r@ == self@,
    {
        &self.key
    }
}

impl Clone for PeerId {
    fn clone(&self) -> (r: PeerId)
        ensures
            r@ == self@,
    {
        PeerId { key: self.key.clone() }
    }
}

impl PartialEq for PeerId {
    fn eq(&self, other: &PeerId) -> bool {
        self.key == other.key
    }
}

impl vstd::std_specs::cmp::PartialEqSpecImpl for PeerId {
    open spec fn obeys_eq_spec() -> bool {
        true
    }

    open spec fn eq_spec(&self, other: &PeerId) -> bool {
        self@ == other@
    }
}

impl Default for PeerId {
    /// The defined empty identity: an empty key text.
    fn default() -> (r: PeerId)
        ensures
            r@ == Seq::<char>::empty(),
    {
        PeerId { key: String::new() }
    }
}

/// Identity `a` comes strictly before identity `b`: lexicographic
/// order of the key texts, by character code, a proper prefix first.
pub open spec fn lex_lt(a: Seq<char>, b: Seq<char>) -> bool
    decreases a.len(),
{
    if b.len() == 0 {
        false
    } else if a.len() == 0 {
        true
    } else if a[0] as u32 != b[0] as u32 {
        (a[0] as u32) < (b[0] as u32)
    } else {
        lex_lt(a.drop_first(), b.drop_first())
    }
}

/// The mathematical value of one peer record.
pub ghost struct PeerModel {
    /// The peer's identity text.
    pub id: Seq<char>,
    /// The primary contact address, a URI-formatted string.
    pub base_addr: Seq<char>,
    /// The ordered list of secondary addresses.
    pub net_addrs: Seq<Seq<char>>,
}

/// One peer: an identity, a primary address, and zero or more
/// positionally indexed secondary addresses.
pub struct Peer {
    id: PeerId,
    base_addr: String,
    net_addrs: Vec<String>,
}

impl View for Peer {
    type V = PeerModel;

    closed spec fn view(&self) -> PeerModel {
        PeerModel { id: self.id@, base_addr: self.base_addr@, net_addrs: self.net_addrs.deep_view() }
    }
}

impl Peer {
    /// Creates a peer with the given identity and primary address and no
    /// secondary addresses.
    pub fn new(id: PeerId, base_addr: String) -> (r: Peer)
        ensures
            r@.id == id@,
            r@.base_addr == base_addr@,
            r@.net_addrs == Seq::<Seq<char>>::empty(),
    {
        let r = Peer { id, base_addr, net_addrs: Vec::new() };
        proof {
            assert(r@.net_addrs =~= Seq::<Seq<char>>::empty());
        }
        r
    }

    /// Returns a copy of the peer's identity.
    pub fn get_id(&self) -> (r: PeerId)
        ensures
            r@ == self@.id,
    {
        self.id.clone()
    }

    /// Borrows the peer's identity.
    pub fn id_ref(&self) -> (r: &PeerId)
        ensures
            r@ == self@.id,
    {
        &self.id
    }

    /// True exactly when this peer carries the given identity.
    pub fn has_id(&self, id: &PeerId) -> (r: bool)
        ensures
            r == (self@.id == id@),
    {
        self.id == *id
    }

    /// Returns the peer's primary contact address.
    pub fn get_base_addr(&self) -> (r: String)
        ensures
            r@ == self@.base_addr,
    {
        self.base_addr.clone()
    }

    /// The number of secondary addresses currently recorded.
    pub fn net_addr_count(&self) -> (n: usize)
        ensures
            n == self@.net_addrs.len(),
    {
        self.net_addrs.len()
    }

    /// Returns the peer's `n`th secondary address.
    pub fn get_net_addr(&self, n: usize) -> (r: String)
        requires
            n < self@.net_addrs.len(),
        ensures
            r@ == self@.net_addrs[n as int],
    {
        self.net_addrs[n].clone()
    }

    /// Overwrites the `n`th secondary address, or appends it when `n`
    /// is exactly the next free position. A position beyond that is
    /// rejected with `Absent`: the list never grows sparsely.
    pub fn set_net_addr(&mut self, n: usize, addr: String) -> (r: Result<(), Error>)
        ensures
            final(self)@.id == old(self)@.id,
            final(self)@.base_addr == old(self)@.base_addr,
            n < old(self)@.net_addrs.len() ==> r is Ok && final(self)@.net_addrs == old(
                self,
            )@.net_addrs.update(n as int, addr@),
            n == old(self)@.net_addrs.len() ==> r is Ok && final(self)@.net_addrs == old(
                self,
            )@.net_addrs.push(addr@),
            n > old(self)@.net_addrs.len() ==> (r matches Err(e) && e is Absent) && final(self)@
                == old(self)@,
    {
        let len = self.net_addrs.len();
        if n < len {
            self.net_addrs[n] = addr;
            proof {
                assert(self@.net_addrs =~= old(self)@.net_addrs.update(n as int, addr@));
            }
            Ok(())
        } else if n == len {
            self.net_addrs.push(addr);
            proof {
                assert(self@.net_addrs =~= old(self)@.net_addrs.push(addr@));
            }
            Ok(())
        } else {
            Err(Error::Absent)
        }
    }
}

impl Clone for Peer {
    fn clone(&self) -> (r: Peer)
        ensures
            r@ == self@,
    {
        let mut net_addrs: Vec<String> = Vec::new();
        let mut i: usize = 0;
        while i < self.net_addrs.len()
            invariant
                i <= self.net_addrs.len(),
                net_addrs@.len() == i,
                forall|j: int| 0 <= j < i ==> net_addrs@[j]@ == self@.net_addrs[j],
            decreases self.net_addrs.len() - i,
        {
            let c = self.net_addrs[i].clone();
            net_addrs.push(c);
            i = i + 1;
        }
        let r = Peer { id: self.id.clone(), base_addr: self.base_addr.clone(), net_addrs };
        proof {
            assert(r@.net_addrs =~~= self@.net_addrs);
        }
        r
    }
}

} // verus!
