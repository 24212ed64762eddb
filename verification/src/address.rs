//! Twenty-byte account identifiers and thirty-two-byte hash values, each
//! viewed as its sequence of bytes, with the byte-wise order on them.

use vstd::prelude::*;

verus! {

/// Whether every byte of `s` is zero.
pub open spec fn all_zero(s: Seq<u8>) -> bool {
    forall|i: int| 0 <= i < s.len() ==> s[i] == 0
}

/// The order of two byte strings of one length from position `i` on: the
/// first position at which they differ decides, and equal strings are in
/// order.
pub open spec fn ordered_from(a: Seq<u8>, b: Seq<u8>, i: int) -> bool
    decreases a.len() - i,
{
    if i < 0 || i >= a.len() || i >= b.len() {
        true
    } else if a[i] != b[i] {
        a[i] < b[i]
    } else {
        ordered_from(a, b, i + 1)
    }
}

/// `a` comes before `b`, or equals it, in the byte-wise order.
pub open spec fn bytes_le(a: Seq<u8>, b: Seq<u8>) -> bool {
    ordered_from(a, b, 0)
}

/// Of two byte strings of one length, one comes before the other or equals it.
pub proof fn lemma_order_total(a: Seq<u8>, b: Seq<u8>, i: int)
    requires
        a.len() == b.len(),
        0 <= i,
    ensures
        ordered_from(a, b, i) || ordered_from(b, a, i),
    decreases a.len() - i,
{
    if i < a.len() && a[i] == b[i] {
        lemma_order_total(a, b, i + 1);
    }
}

/// Two byte strings of one length that agree before position `i` and are in
/// order both ways from there on are equal.
pub proof fn lemma_order_antisymmetric(a: Seq<u8>, b: Seq<u8>, i: int)
    requires
        a.len() == b.len(),
        0 <= i,
        forall|j: int| 0 <= j < i && j < a.len() ==> a[j] == b[j],
        ordered_from(a, b, i),
        ordered_from(b, a, i),
    ensures
        a == b,
    decreases a.len() - i,
{
    if i < a.len() {
        lemma_order_antisymmetric(a, b, i + 1);
    } else {
        assert(a =~= b);
    }
}

/// Whether two slices of one length hold the same bytes.
fn same_bytes(a: &[u8], b: &[u8]) -> (r: bool)
    requires
        a@.len() == b@.len(),
    ensures
        r == (a@ == b@),
{
    let mut i: usize = 0;
    while i < a.len()
        invariant
            a@.len() == b@.len(),
            0 <= i <= a@.len(),
            forall|j: int| 0 <= j < i ==> a@[j] == b@[j],
        decreases a@.len() - i,
    {
        if a[i] != b[i] {
            return false;
        }
        i = i + 1;
    }
    assert(a@ =~= b@);
    true
}

/// Whether a slice holds zero bytes only.
fn only_zero(a: &[u8]) -> (r: bool)
    ensures
        r == all_zero(a@),
{
    let mut i: usize = 0;
    while i < a.len()
        invariant
            0 <= i <= a@.len(),
            forall|j: int| 0 <= j < i ==> a@[j] == 0,
        decreases a@.len() - i,
    {
        if a[i] != 0 {
            return false;
        }
        i = i + 1;
    }
    true
}

/// Whether `a` comes before `b`, or equals it, in the byte-wise order.
fn in_order(a: &[u8], b: &[u8]) -> (r: bool)
    requires
        a@.len() == b@.len(),
    ensures
        r == bytes_le(a@, b@),
{
    let mut i: usize = 0;
    while i < a.len()
        invariant
            a@.len() == b@.len(),
            0 <= i <= a@.len(),
            bytes_le(a@, b@) == ordered_from(a@, b@, i as int),
        decreases a@.len() - i,
    {
        if a[i] != b[i] {
            return a[i] < b[i];
        }
        i = i + 1;
    }
    true
}

/// An account or asset identifier of twenty bytes.
#[derive(Clone, Copy, Debug, PartialEq, Eq)]
pub struct Address {
    pub bytes: [u8; 20],
}

impl View for Address {
    type V = Seq<u8>;

    open spec fn view(&self) -> Seq<u8> {
        self.bytes@
    }
}

impl Address {
    /// The identifier whose bytes are all zero: the native asset.
    pub fn zero() -> (r: Address)
        ensures
            all_zero(r@),
    {
        Address { bytes: [0u8; 20] }
    }

    /// The identifier with the given bytes.
    pub fn from_bytes(bytes: [u8; 20]) -> (r: Address)
        ensures
            r@ == bytes@,
    {
        Address { bytes }
    }

    /// Whether every byte is zero.
    pub fn is_zero(&self) -> (r: bool)
        ensures
            r == all_zero(self@),
    {
        only_zero(self.bytes.as_slice())
    }

    /// Whether both identifiers hold the same bytes.
    pub fn same(&self, other: &Address) -> (r: bool)
        ensures
            r == (self@ == other@),
            r == (*self == *other),
    {
        proof {
            lemma_address_by_view(*self, *other);
        }
        same_bytes(self.bytes.as_slice(), other.bytes.as_slice())
    }

    /// Whether `self` comes before `other`, or equals it.
    pub fn le(&self, other: &Address) -> (r: bool)
        ensures
            r == bytes_le(self@, other@),
    {
        in_order(self.bytes.as_slice(), other.bytes.as_slice())
    }
}

/// Identifiers with the same bytes are the same identifier.
pub proof fn lemma_address_by_view(a: Address, b: Address)
    ensures
        (a@ == b@) == (a == b),
{
    if a@ == b@ {
        assert(a.bytes =~= b.bytes);
    }
}

/// A hash value of thirty-two bytes, the key of a pool or of a position.
#[derive(Clone, Copy, Debug, PartialEq, Eq)]
pub struct B256 {
    pub bytes: [u8; 32],
}

impl View for B256 {
    type V = Seq<u8>;

    open spec fn view(&self) -> Seq<u8> {
        self.bytes@
    }
}

impl B256 {
    /// The value with the given bytes.
    pub fn from_bytes(bytes: [u8; 32]) -> (r: B256)
        ensures
            r@ == bytes@,
    {
        B256 { bytes }
    }

    /// Whether both values hold the same bytes.
    pub fn same(&self, other: &B256) -> (r: bool)
        ensures
            r == (self@ == other@),
            r == (*self == *other),
    {
        proof {
            lemma_hash_by_view(*self, *other);
        }
        same_bytes(self.bytes.as_slice(), other.bytes.as_slice())
    }
}

/// Hash values with the same bytes are the same value.
pub proof fn lemma_hash_by_view(a: B256, b: B256)
    ensures
        (a@ == b@) == (a == b),
{
    if a@ == b@ {
        assert(a.bytes =~= b.bytes);
    }
}

} // verus!
