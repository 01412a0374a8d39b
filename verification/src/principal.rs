//! Caller identities.
//!
//! The engine never inspects an identity beyond comparing it for equality, so
//! a principal is modelled as its raw bytes.  The transport layer converts
//! between its own identity type and this one at the boundary.

use vstd::prelude::*;

verus! {

/// An authenticated caller identity: an opaque byte string.
#[derive(Debug, Eq)]
pub struct PrincipalId {
    bytes: Vec<u8>,
}

impl View for PrincipalId {
    type V = Seq<u8>;

    closed spec fn view(&self) -> Seq<u8> {
        self.bytes@
    }
}

/// True when two byte vectors hold the same bytes.
pub fn byte_vecs_eq(a: &Vec<u8>, b: &Vec<u8>) -> (r: bool)
    ensures
        r == (a@ == b@),
{
    if a.len() != b.len() {
        assert(a@ != b@) by {
            assert(a@.len() != b@.len());
        }
        return false;
    }
    let n = a.len();
    let mut i: usize = 0;
    while i < n
        invariant
            n == a.len() == b.len(),
            i <= n,
            forall|j: int| 0 <= j < i ==> a@[j] == b@[j],
        decreases n - i,
    {
        if a[i] != b[i] {
            return false;
        }
        i = i + 1;
    }
    assert(a@ =~= b@);
    true
}

impl PartialEq for PrincipalId {
    fn eq(&self, other: &PrincipalId) -> (r: bool) {
        byte_vecs_eq(&self.bytes, &other.bytes)
    }
}

impl vstd::std_specs::cmp::PartialEqSpecImpl for PrincipalId {
    open spec fn obeys_eq_spec() -> bool {
        true
    }

    open spec fn eq_spec(&self, other: &PrincipalId) -> bool {
        self@ == other@
    }
}

impl Clone for PrincipalId {
    fn clone(&self) -> (r: PrincipalId)
        ensures
            r@ == self@,
    {
        PrincipalId { bytes: clone_byte_vec(&self.bytes) }
    }
}

/// Copies a byte vector element by element.
pub fn clone_byte_vec(a: &Vec<u8>) -> (r: Vec<u8>)
    ensures
        r@ == a@,
{
    let mut r: Vec<u8> = Vec::new();
    let n = a.len();
    let mut i: usize = 0;
    while i < n
        invariant
            n == a.len(),
            i <= n,
            r@ == a@.take(i as int),
        decreases n - i,
    {
        r.push(a[i]);
        assert(r@ =~= a@.take(i as int + 1));
        i = i + 1;
    }
    assert(r@ =~= a@);
    r
}

impl PrincipalId {
    /// The distinguished anonymous identity: the single byte `0x04`.
    pub fn anonymous() -> (r: PrincipalId)
        ensures
            r@ == anonymous_principal(),
    {
        let mut bytes: Vec<u8> = Vec::new();
        bytes.push(4u8);
        assert(bytes@ =~= anonymous_principal());
        PrincipalId { bytes }
    }

    /// Builds an identity from raw bytes.
    pub fn from_slice(s: &[u8]) -> (r: PrincipalId)
        ensures
            r@ == s@,
    {
        let mut bytes: Vec<u8> = Vec::new();
        let n = s.len();
        let mut i: usize = 0;
        while i < n
            invariant
                n == s@.len(),
                i <= n,
                bytes@ == s@.take(i as int),
            decreases n - i,
        {
            bytes.push(*vstd::slice::slice_index_get(s, i));
            assert(bytes@ =~= s@.take(i as int + 1));
            i = i + 1;
        }
        assert(bytes@ =~= s@);
        PrincipalId { bytes }
    }

    /// Builds an identity from an owned byte vector.
    pub fn from_bytes(bytes: Vec<u8>) -> (r: PrincipalId)
        ensures
            r@ == bytes@,
    {
        PrincipalId { bytes }
    }

    /// The raw bytes of the identity.
    pub fn as_bytes(&self) -> (r: &Vec<u8>)
        ensures
            r@ == self@,
    {
        &self.bytes
    }
}

/// The byte string of the anonymous identity.
pub open spec fn anonymous_principal() -> Seq<u8> {
    seq![4u8]
}

} // verus!
