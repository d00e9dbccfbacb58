//! Little-endian fixed-width encoding of the values kept in storage.
use vstd::prelude::*;

verus! {

/// `256` raised to the power `n`.
pub open spec fn pow256(n: nat) -> nat
    decreases n,
{
    if n == 0 {
        1
    } else {
        256 * pow256((n - 1) as nat)
    }
}

/// The `n` low bytes of `v`, least significant first.
pub open spec fn le_bytes(v: nat, n: nat) -> Seq<u8>
    decreases n,
{
    if n == 0 {
        Seq::empty()
    } else {
        seq![(v % 256) as u8] + le_bytes(v / 256, (n - 1) as nat)
    }
}

/// The number whose little-endian bytes are `b`.
pub open spec fn le_value(b: Seq<u8>) -> nat
    decreases b.len(),
{
    if b.len() == 0 {
        0
    } else {
        b[0] as nat + 256 * le_value(b.drop_first())
    }
}

pub proof fn lemma_pow256_positive(n: nat)
    ensures
        pow256(n) >= 1,
    decreases n,
{
    if n > 0 {
        lemma_pow256_positive((n - 1) as nat);
    }
}

pub proof fn lemma_le_bytes_len(v: nat, n: nat)
    ensures
        le_bytes(v, n).len() == n,
    decreases n,
{
    if n > 0 {
        lemma_le_bytes_len(v / 256, (n - 1) as nat);
    }
}

pub proof fn lemma_le_value_bound(b: Seq<u8>)
    ensures
        le_value(b) < pow256(b.len()),
    decreases b.len(),
{
    if b.len() > 0 {
        lemma_le_value_bound(b.drop_first());
        let r = le_value(b.drop_first());
        let p = pow256((b.len() - 1) as nat);
        assert(b[0] as nat + 256 * r < 256 * p) by (nonlinear_arith)
            requires
                r < p,
                b[0] < 256,
        ;
    }
}

/// Reading back the `n` low bytes of a value below `256^n` gives the value.
pub proof fn lemma_le_round_trip(v: nat, n: nat)
    requires
        v < pow256(n),
    ensures
        le_value(le_bytes(v, n)) == v,
    decreases n,
{
    if n > 0 {
        let q = v / 256;
        let p = pow256((n - 1) as nat);
        assert(q < p) by (nonlinear_arith)
            requires
                v < 256 * p,
                q == v / 256,
        ;
        lemma_le_round_trip(q, (n - 1) as nat);
        let b = le_bytes(v, n);
        assert(b.drop_first() =~= le_bytes(q, (n - 1) as nat));
        assert(v == v % 256 + 256 * q);
    }
}

/// Writes the `n` low bytes of `v`, least significant first.
pub fn encode_le(v: u64, n: usize) -> (r: Vec<u8>)
    requires
        n <= 8,
    ensures
        r@ == le_bytes(v as nat, n as nat),
{
    let mut out: Vec<u8> = Vec::new();
    let mut x: u64 = v;
    let mut i: usize = 0;
    while i < n
        invariant
            i <= n,
            le_bytes(v as nat, n as nat) == out@ + le_bytes(x as nat, (n - i) as nat),
        decreases n - i,
    {
        let b = (x % 256) as u8;
        proof {
            let rest = le_bytes((x / 256) as nat, (n - i - 1) as nat);
            assert(le_bytes(x as nat, (n - i) as nat) == seq![b] + rest);
            assert(out@ + (seq![b] + rest) =~= out@.push(b) + rest);
        }
        out.push(b);
        x = x / 256;
        i = i + 1;
    }
    assert(out@ + le_bytes(x as nat, 0) =~= out@);
    out
}

/// The number whose little-endian bytes are `b`.
pub fn decode_le(b: &[u8]) -> (r: u64)
    requires
        b@.len() <= 8,
    ensures
        r as nat == le_value(b@),
{
    let n = b.len();
    let mut acc: u64 = 0;
    let mut i: usize = n;
    proof {
        assert(b@.subrange(n as int, n as int) =~= Seq::<u8>::empty());
    }
    while i > 0
        invariant
            i <= n,
            n == b@.len(),
            n <= 8,
            acc as nat == le_value(b@.subrange(i as int, n as int)),
        decreases i,
    {
        let ghost tail = b@.subrange(i as int, n as int);
        let ghost ext = b@.subrange(i - 1, n as int);
        proof {
            assert(ext.drop_first() =~= tail);
            lemma_le_value_bound(tail);
            lemma_pow256_le(tail.len(), 7);
            lemma_pow256_fixed();
        }
        acc = acc * 256 + b[i - 1] as u64;
        i = i - 1;
    }
    assert(b@.subrange(0, n as int) =~= b@);
    acc
}

proof fn lemma_pow256_le(m: nat, n: nat)
    requires
        m <= n,
    ensures
        pow256(m) <= pow256(n),
    decreases n,
{
    if m < n {
        lemma_pow256_le(m, (n - 1) as nat);
        lemma_pow256_positive((n - 1) as nat);
    }
}

proof fn lemma_pow256_fixed()
    ensures
        pow256(4) == 0x1_0000_0000,
        pow256(7) == 0x100_0000_0000_0000,
        pow256(8) == 0x1_0000_0000_0000_0000,
{
    reveal_with_fuel(pow256, 9);
}

/// A value with a fixed, self-delimiting byte encoding.
pub trait Codec: Sized {
    /// The bytes that encode `v`.
    spec fn spec_encode(v: Self) -> Seq<u8>;

    /// The value that `b` encodes, if `b` is a valid encoding.
    spec fn spec_decode(b: Seq<u8>) -> Option<Self>;

    /// The value that an absent entry reads as under the default policy.
    spec fn spec_default() -> Self;

    /// Decoding an encoding gives the value back.
    proof fn lemma_round_trip(v: Self)
        ensures
            Self::spec_decode(Self::spec_encode(v)) == Some(v),
    ;

    fn encode(&self) -> (r: Vec<u8>)
        ensures
            r@ == Self::spec_encode(*self),
    ;

    fn decode(b: &[u8]) -> (r: Option<Self>)
        ensures
            r == Self::spec_decode(b@),
    ;

    fn default_value() -> (r: Self)
        ensures
            r == Self::spec_default(),
    ;
}

impl Codec for u64 {
    open spec fn spec_encode(v: u64) -> Seq<u8> {
        le_bytes(v as nat, 8)
    }

    open spec fn spec_decode(b: Seq<u8>) -> Option<u64> {
        if b.len() == 8 {
            Some(le_value(b) as u64)
        } else {
            None
        }
    }

    open spec fn spec_default() -> u64 {
        0
    }

    proof fn lemma_round_trip(v: u64) {
        lemma_pow256_fixed();
        lemma_le_round_trip(v as nat, 8);
        lemma_le_bytes_len(v as nat, 8);
    }

    fn encode(&self) -> (r: Vec<u8>) {
        encode_le(*self, 8)
    }

    fn decode(b: &[u8]) -> (r: Option<u64>) {
        if b.len() == 8 {
            Some(decode_le(b))
        } else {
            None
        }
    }

    fn default_value() -> (r: u64) {
        0
    }
}

impl Codec for u32 {
    open spec fn spec_encode(v: u32) -> Seq<u8> {
        le_bytes(v as nat, 4)
    }

    open spec fn spec_decode(b: Seq<u8>) -> Option<u32> {
        if b.len() == 4 {
            Some(le_value(b) as u32)
        } else {
            None
        }
    }

    open spec fn spec_default() -> u32 {
        0
    }

    proof fn lemma_round_trip(v: u32) {
        lemma_pow256_fixed();
        lemma_le_round_trip(v as nat, 4);
        lemma_le_bytes_len(v as nat, 4);
    }

    fn encode(&self) -> (r: Vec<u8>) {
        encode_le(*self as u64, 4)
    }

    fn decode(b: &[u8]) -> (r: Option<u32>) {
        if b.len() == 4 {
            proof {
                lemma_le_value_bound(b@);
                lemma_pow256_fixed();
            }
            Some(decode_le(b) as u32)
        } else {
            None
        }
    }

    fn default_value() -> (r: u32) {
        0
    }
}

impl Codec for bool {
    open spec fn spec_encode(v: bool) -> Seq<u8> {
        if v {
            seq![1u8]
        } else {
            seq![0u8]
        }
    }

    open spec fn spec_decode(b: Seq<u8>) -> Option<bool> {
        if b == seq![1u8] {
            Some(true)
        } else if b == seq![0u8] {
            Some(false)
        } else {
            None
        }
    }

    open spec fn spec_default() -> bool {
        false
    }

    proof fn lemma_round_trip(v: bool) {
        assert(seq![1u8][0] != seq![0u8][0]);
    }

    fn encode(&self) -> (r: Vec<u8>) {
        if *self {
            vec![1u8]
        } else {
            vec![0u8]
        }
    }

    fn decode(b: &[u8]) -> (r: Option<bool>) {
        if b.len() == 1 && b[0] == 1 {
            assert(b@ =~= seq![1u8]);
            Some(true)
        } else if b.len() == 1 && b[0] == 0 {
            assert(b@ =~= seq![0u8]);
            Some(false)
        } else {
            None
        }
    }

    fn default_value() -> (r: bool) {
        false
    }
}

/// Every value of a codec type decodes back from its encoding.
pub proof fn lemma_codec_round_trip<T: Codec>(v: T)
    ensures
        T::spec_decode(T::spec_encode(v)) == Some(v),
{
    T::lemma_round_trip(v);
}

} // verus!
