//! Keys of the hash table, and the distance between them.

use libp2p_identity::PeerId;
use vstd::arithmetic::power2::lemma2_to64;
use vstd::arithmetic::power2::lemma_pow2_adds;
use vstd::arithmetic::power2::lemma_pow2_pos;
use vstd::arithmetic::power2::lemma_pow2_unfold;
use vstd::arithmetic::power2::pow2;
use vstd::prelude::*;

use crate::assoc::Ident;
use crate::net::peer_id_bytes;
use crate::net::peer_to_bytes;
use crate::net::sha256;
use crate::net::sha256_digest;

verus! {

/// A key: a number of 256 bits, as its upper and its lower half.
#[derive(Clone, Copy, Debug, PartialEq, Eq, Structural)]
pub struct KeyBytes {
    /// The upper half.
    pub hi: u128,
    /// The lower half.
    pub lo: u128,
}

/// The distance between two keys: a number of 256 bits, as its upper and its lower half.
#[derive(Clone, Copy, Debug, PartialEq, Eq, Structural)]
pub struct Distance {
    /// The upper half.
    pub hi: u128,
    /// The lower half.
    pub lo: u128,
}

/// The key that `data` hashes to.
pub open spec fn key_of_bytes(data: Seq<u8>) -> KeyBytes {
    let (hi, lo) = sha256(data);
    KeyBytes { hi, lo }
}

/// The key of a peer.
pub open spec fn key_of_peer(peer: PeerId) -> KeyBytes {
    key_of_bytes(peer_id_bytes(peer))
}

impl Ident for KeyBytes {
    fn same(&self, other: &Self) -> (r: bool) {
        *self == *other
    }
}

impl KeyBytes {
    /// The key that `data` hashes to.
    pub fn new(data: &Vec<u8>) -> (r: KeyBytes)
        ensures
            r == key_of_bytes(data@),
    {
        let (hi, lo) = sha256_digest(data);
        KeyBytes { hi, lo }
    }

    /// The key of a peer.
    pub fn from_peer(peer: &PeerId) -> (r: KeyBytes)
        ensures
            r == key_of_peer(*peer),
    {
        let bytes = peer_to_bytes(peer);
        KeyBytes::new(&bytes)
    }

    /// The distance to another key: the bits in which the two differ.
    pub open spec fn spec_distance(self, other: KeyBytes) -> Distance {
        Distance { hi: self.hi ^ other.hi, lo: self.lo ^ other.lo }
    }

    /// The distance to another key: the bits in which the two differ.
    pub fn distance(&self, other: &KeyBytes) -> (r: Distance)
        ensures
            r == self.spec_distance(*other),
    {
        Distance { hi: self.hi ^ other.hi, lo: self.lo ^ other.lo }
    }
}

impl Distance {
    /// The distance as a number.
    pub open spec fn view(&self) -> nat {
        self.hi as nat * pow2(128) + self.lo as nat
    }

    /// Whether this distance is not larger than another.
    pub open spec fn le(self, other: Distance) -> bool {
        self.hi < other.hi || (self.hi == other.hi && self.lo <= other.lo)
    }

    /// Whether this distance is smaller than another.
    pub open spec fn lt(self, other: Distance) -> bool {
        self.hi < other.hi || (self.hi == other.hi && self.lo < other.lo)
    }

    /// Whether this distance is not larger than another.
    pub fn is_le(&self, other: &Distance) -> (r: bool)
        ensures
            r == self.le(*other),
    {
        self.hi < other.hi || (self.hi == other.hi && self.lo <= other.lo)
    }

    /// Whether this distance is smaller than another.
    pub fn is_lt(&self, other: &Distance) -> (r: bool)
        ensures
            r == self.lt(*other),
    {
        self.hi < other.hi || (self.hi == other.hi && self.lo < other.lo)
    }

    /// Whether this is the distance of a key to itself.
    pub open spec fn is_zero(self) -> bool {
        self.hi == 0 && self.lo == 0
    }

    /// The position of the highest bit.
    pub open spec fn spec_ilog2(self) -> nat {
        if self.hi == 0 {
            log2(self.lo as nat)
        } else {
            128 + log2(self.hi as nat)
        }
    }

    /// The position of the highest bit, or `None` if there is none.
    pub fn ilog2(&self) -> (r: Option<u32>)
        ensures
            r is None <==> self.is_zero(),
            r matches Some(i) ==> i == self.spec_ilog2() && i < 256,
    {
        if self.hi == 0 {
            if self.lo == 0 {
                None
            } else {
                Some(ilog2_u128(self.lo))
            }
        } else {
            Some(128 + ilog2_u128(self.hi))
        }
    }
}

/// The position of the highest bit of a positive number.
pub open spec fn log2(x: nat) -> nat
    decreases x,
{
    if x <= 1 {
        0
    } else {
        1 + log2(x / 2)
    }
}

/// A positive number lies between the powers of two that its highest bit gives.
pub proof fn lemma_log2(x: nat)
    requires
        x > 0,
    ensures
        pow2(log2(x)) <= x < 2 * pow2(log2(x)),
    decreases x,
{
    if x == 1 {
        lemma2_to64();
    } else {
        lemma_log2(x / 2);
        lemma_pow2_unfold(log2(x));
    }
}

/// Only one power of two fits a number so.
pub proof fn lemma_log2_unique(x: nat, i: nat)
    requires
        pow2(i) <= x < 2 * pow2(i),
    ensures
        log2(x) == i,
    decreases i,
{
    lemma_pow2_pos(i);
    if i == 0 {
        lemma2_to64();
    } else {
        lemma_pow2_unfold(i);
        lemma2_to64();
        lemma_pow2_pos((i - 1) as nat);
        lemma_log2_unique(x / 2, (i - 1) as nat);
    }
}

/// A larger exponent gives a power that is not smaller.
pub proof fn lemma_pow2_monotonic(i: nat, j: nat)
    requires
        i <= j,
    ensures
        pow2(i) <= pow2(j),
    decreases j - i,
{
    if i < j {
        lemma_pow2_monotonic(i, (j - 1) as nat);
        lemma_pow2_unfold(j);
    }
}

/// The number of values of half a key.
pub proof fn lemma_pow2_128()
    ensures
        pow2(128) == u128::MAX + 1,
{
    lemma2_to64();
    lemma_pow2_adds(64, 64);
    assert(0x1_0000_0000_0000_0000nat * 0x1_0000_0000_0000_0000nat
        == 0x1_0000_0000_0000_0000_0000_0000_0000_0000nat) by (nonlinear_arith);
}

/// The position of the highest bit.
fn ilog2_u128(x: u128) -> (r: u32)
    requires
        x > 0,
    ensures
        r == log2(x as nat),
        r < 128,
{
    let mut y: u128 = x;
    let mut i: u32 = 0;
    proof {
        lemma_log2(x as nat);
        lemma_pow2_128();
        if log2(x as nat) >= 128 {
            lemma_pow2_monotonic(128, log2(x as nat));
        }
    }
    while y > 1
        invariant
            y > 0,
            i + log2(y as nat) == log2(x as nat),
            log2(x as nat) < 128,
        decreases y,
    {
        y = y / 2;
        i = i + 1;
    }
    i
}

/// The power of two with the given exponent.
fn pow2_u128(i: u32) -> (r: u128)
    requires
        i < 128,
    ensures
        r == pow2(i as nat),
{
    proof {
        lemma2_to64();
        lemma_pow2_128();
    }
    let mut r: u128 = 1;
    let mut j: u32 = 0;
    while j < i
        invariant
            j <= i < 128,
            r == pow2(j as nat),
            pow2(128) == u128::MAX + 1,
        decreases i - j,
    {
        proof {
            lemma_pow2_unfold((j + 1) as nat);
            lemma_pow2_monotonic((j + 1) as nat, 127);
            lemma_pow2_unfold(128);
        }
        r = r * 2;
        j = j + 1;
    }
    r
}

/// Whether a pair of distances is the range of the bucket with index `i`: the smallest and
/// the largest distance whose highest bit is at `i`.
pub open spec fn is_bucket_range(range: (Distance, Distance), i: nat) -> bool {
    &&& range.0@ == pow2(i)
    &&& range.1@ == 2 * pow2(i) - 1
}

/// The smallest and the largest distance whose highest bit is at `i`.
pub fn bucket_range(i: u32) -> (r: (Distance, Distance))
    requires
        i < 256,
    ensures
        is_bucket_range(r, i as nat),
{
    proof {
        lemma_pow2_128();
    }
    if i < 128 {
        let p: u128 = pow2_u128(i);
        proof {
            lemma_pow2_monotonic(i as nat, 127);
            lemma_pow2_unfold(128);
            lemma_pow2_pos(i as nat);
        }
        (Distance { hi: 0, lo: p }, Distance { hi: 0, lo: p + (p - 1) })
    } else {
        let p: u128 = pow2_u128(i - 128);
        proof {
            lemma_pow2_monotonic((i - 128) as nat, 127);
            lemma_pow2_unfold(128);
            lemma_pow2_adds((i - 128) as nat, 128);
            lemma_pow2_pos((i - 128) as nat);
        }
        let r = (Distance { hi: p, lo: 0 }, Distance { hi: p + (p - 1), lo: u128::MAX });
        assert(r.1@ == (2 * p - 1) * pow2(128) + (pow2(128) - 1));
        assert((2 * p - 1) * pow2(128) + (pow2(128) - 1) == 2 * (p * pow2(128)) - 1)
            by (nonlinear_arith);
        r
    }
}

/// The order of distances is that of numbers.
pub proof fn lemma_distance_order(a: Distance, b: Distance)
    ensures
        a.le(b) <==> a@ <= b@,
        a.lt(b) <==> a@ < b@,
        a == b <==> a@ == b@,
{
    lemma_pow2_128();
    let w = pow2(128) as int;
    if a.hi < b.hi {
        assert(a.hi * w + w <= b.hi * w) by (nonlinear_arith)
            requires
                a.hi + 1 <= b.hi,
                w > 0,
        ;
    } else if b.hi < a.hi {
        assert(b.hi * w + w <= a.hi * w) by (nonlinear_arith)
            requires
                b.hi + 1 <= a.hi,
                w > 0,
        ;
    }
}

/// The range of a bucket holds the distances with that index, and no others.
pub proof fn law_bucket_range_holds_its_distances(d: Distance, range: (Distance, Distance), i: nat)
    requires
        !d.is_zero(),
        i < 256,
        is_bucket_range(range, i),
    ensures
        d.spec_ilog2() == i <==> range.0.le(d) && d.le(range.1),
{
    lemma_pow2_128();
    lemma_distance_order(range.0, d);
    lemma_distance_order(d, range.1);
    let w = pow2(128);
    if d.hi == 0 {
        lemma_log2(d.lo as nat);
        if pow2(i) <= d@ < 2 * pow2(i) {
            lemma_log2_unique(d@, i);
        }
    } else {
        let h = d.hi as nat;
        let k = log2(h);
        lemma_log2(h);
        lemma_pow2_adds(k, 128);
        let p = pow2(k);
        assert(p * w <= h * w + d.lo < 2 * (p * w)) by (nonlinear_arith)
            requires
                p <= h < 2 * p,
                0 <= d.lo < w,
        ;
        assert(pow2(128 + k) <= d@ < 2 * pow2(128 + k));
        lemma_log2_unique(d@, 128 + k);
        if pow2(i) <= d@ < 2 * pow2(i) {
            lemma_log2_unique(d@, i);
        }
    }
}

/// The index of a distance is the place of its highest bit, and there are as many as bits.
pub proof fn law_bucket_index_is_highest_bit(d: Distance)
    requires
        !d.is_zero(),
    ensures
        d.spec_ilog2() < 256,
        pow2(d.spec_ilog2()) <= d@ < 2 * pow2(d.spec_ilog2()),
{
    lemma_pow2_128();
    let w = pow2(128);
    if d.hi == 0 {
        lemma_log2(d.lo as nat);
        lemma_log2_below(d.lo as nat);
    } else {
        let h = d.hi as nat;
        let k = log2(h);
        lemma_log2(h);
        lemma_log2_below(h);
        lemma_pow2_adds(k, 128);
        let p = pow2(k);
        assert(p * w <= h * w + d.lo < 2 * (p * w)) by (nonlinear_arith)
            requires
                p <= h < 2 * p,
                0 <= d.lo < w,
        ;
    }
}

/// The index of a number that fits into half a key is less than the number of its bits.
proof fn lemma_log2_below(n: nat)
    requires
        0 < n < pow2(128),
    ensures
        log2(n) < 128,
{
    lemma_log2(n);
    if log2(n) >= 128 {
        lemma_pow2_monotonic(128, log2(n));
    }
}

/// The distance between two keys is the same from either side, it is zero only from a key to
/// itself, no two keys are equally far from a third, a way over a third key is no shorter, and
/// the distance to a key gives the key back.
pub proof fn law_distance_is_a_metric(a: KeyBytes, b: KeyBytes, c: KeyBytes)
    ensures
        a.spec_distance(b) == b.spec_distance(a),
        a.spec_distance(b).is_zero() <==> a == b,
        a.spec_distance(c) == b.spec_distance(c) ==> a == b,
        a.spec_distance(c)@ <= a.spec_distance(b)@ + b.spec_distance(c)@,
        a.spec_distance(b) == c.spec_distance(b) ==> a == c,
        a.spec_distance(b).hi ^ b.hi == a.hi,
        a.spec_distance(b).lo ^ b.lo == a.lo,
{
    lemma_triangle(a, b, c);
    let (x, y, z) = (a.hi, b.hi, c.hi);
    assert(x ^ y == y ^ x) by (bit_vector);
    assert((x ^ y == 0) <==> x == y) by (bit_vector);
    assert(x ^ z == y ^ z ==> x == y) by (bit_vector);
    assert(x ^ y == z ^ y ==> x == z) by (bit_vector);
    assert((x ^ y) ^ y == x) by (bit_vector);
    let (x, y, z) = (a.lo, b.lo, c.lo);
    assert(x ^ y == y ^ x) by (bit_vector);
    assert((x ^ y == 0) <==> x == y) by (bit_vector);
    assert(x ^ z == y ^ z ==> x == y) by (bit_vector);
    assert(x ^ y == z ^ y ==> x == z) by (bit_vector);
    assert((x ^ y) ^ y == x) by (bit_vector);
}

/// A way over a third key is no shorter.
proof fn lemma_triangle(a: KeyBytes, b: KeyBytes, c: KeyBytes)
    ensures
        a.spec_distance(c)@ <= a.spec_distance(b)@ + b.spec_distance(c)@,
{
    let (x, y, z) = (a.hi, b.hi, c.hi);
    assert((x ^ z) <= (x ^ y) + (y ^ z)) by (bit_vector);
    let (u, v, w) = (a.lo, b.lo, c.lo);
    assert((u ^ w) <= (u ^ v) + (v ^ w)) by (bit_vector);
    let p = pow2(128);
    assert((x ^ z) * p <= (x ^ y) * p + (y ^ z) * p) by (nonlinear_arith)
        requires
            (x ^ z) <= (x ^ y) + (y ^ z),
    ;
}

} // verus!
