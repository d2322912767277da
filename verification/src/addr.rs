//! The 20-byte participant identifier and the 32-byte word type that
//! event payloads are made of.

use vstd::prelude::*;

verus! {

/// An opaque 20-byte identifier of a contract or a voting participant.
///
/// The 160 bits are held big-endian: `hi` is the first 4 bytes, `lo`
/// the remaining 16, so the lexicographic byte order coincides with the
/// numeric order on `(hi, lo)`.
#[derive(Clone, Copy, PartialEq, Eq, Structural, Debug, Hash)]
pub struct Address {
    pub hi: u32,
    pub lo: u128,
}

/// Strict order on addresses: byte-lexicographic, i.e. numeric on `(hi, lo)`.
pub open spec fn addr_lt(a: Address, b: Address) -> bool {
    a.hi < b.hi || (a.hi == b.hi && a.lo < b.lo)
}

impl Address {
    /// The all-zero address, which read-only lookups use to report "no result".
    pub fn zero() -> (r: Address)
        ensures
            r == Address::zero_spec(),
    {
        Address { hi: 0, lo: 0 }
    }

    pub open spec fn zero_spec() -> Address {
        Address { hi: 0, lo: 0 }
    }

    pub fn is_zero(&self) -> (r: bool)
        ensures
            r == (*self == Address::zero_spec()),
    {
        self.hi == 0 && self.lo == 0
    }

    /// Comparison used to keep voter sets and reports deterministically ordered.
    pub fn less_than(&self, other: &Address) -> (r: bool)
        ensures
            r == addr_lt(*self, *other),
    {
        self.hi < other.hi || (self.hi == other.hi && self.lo < other.lo)
    }
}

/// Totality: two distinct addresses are strictly ordered one way or the other.
pub proof fn lemma_addr_order_total(a: Address, b: Address)
    ensures
        addr_lt(a, b) || addr_lt(b, a) || a == b,
{
}

/// Transitivity of the address order.
pub proof fn lemma_addr_order_trans(a: Address, b: Address, c: Address)
    requires
        addr_lt(a, b),
        addr_lt(b, c),
    ensures
        addr_lt(a, c),
{
}

/// A 256-bit word, the unit that log topics and payloads are made of.
///
/// Big-endian: `hi` holds the first 16 bytes of the word, `lo` the last 16.
#[derive(Clone, Copy, PartialEq, Eq, Structural, Debug, Hash)]
pub struct U256 {
    pub hi: u128,
    pub lo: u128,
}

impl U256 {
    pub open spec fn zero_spec() -> U256 {
        U256 { hi: 0, lo: 0 }
    }

    pub fn zero() -> (r: U256)
        ensures
            r == U256::zero_spec(),
    {
        U256 { hi: 0, lo: 0 }
    }

    pub open spec fn from_u64_spec(n: u64) -> U256 {
        U256 { hi: 0, lo: n as u128 }
    }

    /// The word whose numeric value is `n`; handy for small ballot ids.
    pub fn from_u64(n: u64) -> (r: U256)
        ensures
            r == U256::from_u64_spec(n),
    {
        U256 { hi: 0, lo: n as u128 }
    }
}

impl Address {
    /// Whether the word is a well-formed address, that is, its first
    /// 12 bytes are zero.
    pub open spec fn word_is_address(w: U256) -> bool {
        w.hi < 0x1_0000_0000
    }

    pub open spec fn of_word_spec(w: U256) -> Address {
        Address { hi: (w.hi % 0x1_0000_0000) as u32, lo: w.lo }
    }

    /// Reads the address held in the last 20 bytes of a word; `None` if
    /// any of the first 12 bytes is set.
    pub fn of_word(w: &U256) -> (r: Option<Address>)
        ensures
            r == if Address::word_is_address(*w) {
                Some(Address::of_word_spec(*w))
            } else {
                None::<Address>
            },
    {
        if w.hi < 0x1_0000_0000 {
            Some(Address { hi: (w.hi % 0x1_0000_0000) as u32, lo: w.lo })
        } else {
            None
        }
    }

    pub open spec fn to_word_spec(self) -> U256 {
        U256 { hi: self.hi as u128, lo: self.lo }
    }

    /// The word that carries this address, zero-padded on the left.
    pub fn to_word(&self) -> (r: U256)
        ensures
            r == self.to_word_spec(),
            Address::word_is_address(r),
            Address::of_word_spec(r) == *self,
    {
        U256 { hi: self.hi as u128, lo: self.lo }
    }
}

/// Whether the vector holds the given address.
pub fn contains_address(v: &Vec<Address>, a: &Address) -> (r: bool)
    ensures
        r == v@.contains(*a),
{
    let n: usize = v.len();
    let mut i: usize = 0;
    while i < n
        invariant
            i <= n,
            n == v@.len(),
            forall|k: int| 0 <= k < i ==> v@[k] != *a,
        decreases n - i,
    {
        if v[i].hi == a.hi && v[i].lo == a.lo {
            return true;
        }
        i = i + 1;
    }
    false
}

/// Whether the vector holds the given word.
pub fn contains_word(v: &Vec<U256>, w: &U256) -> (r: bool)
    ensures
        r == v@.contains(*w),
{
    let n: usize = v.len();
    let mut i: usize = 0;
    while i < n
        invariant
            i <= n,
            n == v@.len(),
            forall|k: int| 0 <= k < i ==> v@[k] != *w,
        decreases n - i,
    {
        if v[i] == *w {
            return true;
        }
        i = i + 1;
    }
    false
}

/// The value of a big-endian byte string.
pub open spec fn be_val(s: Seq<u8>) -> nat
    decreases s.len(),
{
    if s.len() == 0 {
        0
    } else {
        (be_val(s.drop_last()) * 256 + s.last()) as nat
    }
}

/// 256 to the `n`th power, the bound on a `n`-byte big-endian value.
pub open spec fn pow256(n: nat) -> nat
    decreases n,
{
    if n == 0 {
        1nat
    } else {
        256 * pow256((n - 1) as nat)
    }
}

pub proof fn lemma_be_val_bound(s: Seq<u8>)
    ensures
        be_val(s) < pow256(s.len() as nat),
    decreases s.len(),
{
    if s.len() > 0 {
        lemma_be_val_bound(s.drop_last());
    }
}

pub proof fn lemma_pow256_16()
    ensures
        pow256(16) == 0x1_0000_0000_0000_0000_0000_0000_0000_0000,
{
    reveal_with_fuel(pow256, 17);
}

pub proof fn lemma_pow256_mono(m: nat, n: nat)
    requires
        m <= n,
    ensures
        pow256(m) <= pow256(n),
    decreases n,
{
    if m < n {
        lemma_pow256_mono(m, (n - 1) as nat);
    }
}

/// Reads the 16 bytes starting at `start` as a big-endian value.
pub fn be_u128(data: &Vec<u8>, start: usize) -> (r: u128)
    requires
        start + 16 <= data@.len(),
    ensures
        r == be_val(data@.subrange(start as int, start + 16)),
{
    proof {
        lemma_be_val_bound(data@.subrange(start as int, start + 16));
        lemma_pow256_16();
    }
    let len: usize = data.len();
    let mut acc: u128 = 0;
    let mut j: usize = 0;
    while j < 16
        invariant
            j <= 16,
            start + 16 <= len,
            len == data@.len(),
            acc == be_val(data@.subrange(start as int, start + j)),
            acc < pow256(j as nat),
        decreases 16 - j,
    {
        proof {
            let prefix = data@.subrange(start as int, start + j);
            let next = data@.subrange(start as int, start + j + 1);
            assert(next.drop_last() =~= prefix);
            assert(next.last() == data@[start + j]);
            lemma_pow256_mono((j + 1) as nat, 16);
            lemma_pow256_16();
        }
        acc = acc * 256 + (data[start + j] as u128);
        j = j + 1;
    }
    proof {
        assert(data@.subrange(start as int, start + 16) =~= data@.subrange(
            start as int,
            start + j,
        ));
    }
    acc
}

/// The word held in bytes `32 * i .. 32 * i + 32` of a payload.
pub open spec fn word_at_spec(s: Seq<u8>, i: int) -> U256 {
    U256 {
        hi: be_val(s.subrange(32 * i, 32 * i + 16)) as u128,
        lo: be_val(s.subrange(32 * i + 16, 32 * i + 32)) as u128,
    }
}

/// Reads the `i`th 32-byte word of a payload.
pub fn word_at(data: &Vec<u8>, i: usize) -> (r: U256)
    requires
        32 * (i + 1) <= data@.len(),
    ensures
        r == word_at_spec(data@, i as int),
{
    proof {
        lemma_be_val_bound(data@.subrange(32 * i as int, 32 * i + 16));
        lemma_be_val_bound(data@.subrange(32 * i + 16, 32 * i + 32));
        lemma_pow256_16();
    }
    let len: usize = data.len();
    assert(32 * (i as int) + 32 <= len);
    let base: usize = 32 * i;
    let hi: u128 = be_u128(data, base);
    let lo: u128 = be_u128(data, base + 16);
    U256 { hi, lo }
}

} // verus!
