//! The balance encoding of the shared ABI.
//!
//! A stored balance travels between host and guest as a fixed 32-byte
//! little-endian buffer. The value itself is confined to 64 bits, so a
//! well-formed buffer has its upper 24 bytes zero. `le_val` gives the
//! mathematical value of any byte string and is the single meaning all
//! contracts in this crate attach to balance buffers.

use vstd::prelude::*;

verus! {

/// Width of a balance buffer in bytes.
pub const BALANCE_LEN: usize = 32;

/// 256 raised to `n`: the weight of the byte at position `n` of a
/// little-endian byte string.
pub open spec fn pow256(n: nat) -> nat
    decreases n,
{
    if n == 0 {
        1
    } else {
        256 * pow256((n - 1) as nat)
    }
}

/// The non-negative integer a byte string encodes, least significant byte
/// first.
pub open spec fn le_val(s: Seq<u8>) -> nat
    decreases s.len(),
{
    if s.len() == 0 {
        0
    } else {
        (s[0] + 256 * le_val(s.skip(1))) as nat
    }
}

/// A byte string in the shape the ABI fixes for balances: 32 bytes, value
/// confined to the low 8.
pub open spec fn abi_balance(s: Seq<u8>) -> bool {
    &&& s.len() == BALANCE_LEN
    &&& forall|i: int| 8 <= i < s.len() ==> s[i] == 0
}

pub proof fn lemma_pow256_positive(n: nat)
    ensures
        pow256(n) >= 1,
    decreases n,
{
    if n > 0 {
        lemma_pow256_positive((n - 1) as nat);
    }
}

pub proof fn lemma_pow256_monotone(m: nat, n: nat)
    requires
        m <= n,
    ensures
        pow256(m) <= pow256(n),
    decreases n,
{
    if m < n {
        lemma_pow256_monotone(m, (n - 1) as nat);
        lemma_pow256_positive((n - 1) as nat);
        assert(pow256(n) == 256 * pow256((n - 1) as nat));
    }
}

/// Appending a byte adds its value at the weight of the old length.
pub proof fn lemma_le_val_push(s: Seq<u8>, b: u8)
    ensures
        le_val(s.push(b)) == le_val(s) + b * pow256(s.len()),
    decreases s.len(),
{
    let t = s.push(b);
    assert(t.len() == s.len() + 1);
    if s.len() == 0 {
        assert(t.skip(1) =~= Seq::<u8>::empty());
        assert(t.skip(1).len() == 0);
        assert(le_val(t.skip(1)) == 0);
        assert(t[0] == b);
        assert(le_val(t) == (t[0] + 256 * le_val(t.skip(1))) as nat);
        assert(le_val(t) == b);
        assert(le_val(s) == 0);
        assert(pow256(0) == 1);
        assert(b * 1 == b) by (nonlinear_arith);
    } else {
        assert(t.skip(1) =~= s.skip(1).push(b));
        lemma_le_val_push(s.skip(1), b);
        let x = le_val(s.skip(1));
        let p = pow256(s.skip(1).len());
        assert(le_val(t.skip(1)) == x + b * p);
        assert(t[0] == s[0]);
        assert(le_val(t) == (t[0] + 256 * le_val(t.skip(1))) as nat);
        assert(256 * (x + b * p) == 256 * x + b * (256 * p)) by (nonlinear_arith);
        assert(pow256(s.len()) == 256 * pow256((s.len() - 1) as nat));
        assert(s.skip(1).len() == s.len() - 1);
        assert(le_val(t) == s[0] + 256 * x + b * pow256(s.len()));
        assert(le_val(s) == (s[0] + 256 * x) as nat);
    }
}

/// A byte string of length `n` encodes a value below `pow256(n)`.
pub proof fn lemma_le_val_bound(s: Seq<u8>)
    ensures
        le_val(s) < pow256(s.len()),
    decreases s.len(),
{
    if s.len() == 0 {
        assert(pow256(0) == 1);
    } else {
        lemma_le_val_bound(s.skip(1));
        let x = le_val(s.skip(1));
        let p = pow256(s.skip(1).len());
        assert(256 * x <= 256 * (p - 1)) by (nonlinear_arith)
            requires x <= p - 1;
        assert(pow256(s.len()) == 256 * p);
        assert(le_val(s) == (s[0] + 256 * x) as nat);
        assert(s[0] <= 255);
    }
}

/// Any single byte gives a lower bound on the whole value, at its weight.
pub proof fn lemma_le_val_lower(s: Seq<u8>, k: int)
    requires
        0 <= k < s.len(),
    ensures
        le_val(s) >= s[k] * pow256(k as nat),
    decreases s.len(),
{
    if k == 0 {
        assert(pow256(0) == 1);
        assert(s[0] * 1 == s[0]) by (nonlinear_arith);
        assert(le_val(s) == (s[0] + 256 * le_val(s.skip(1))) as nat);
    } else {
        lemma_le_val_lower(s.skip(1), k - 1);
        let b = s[k];
        assert(s.skip(1)[k - 1] == s[k]);
        let q = pow256((k - 1) as nat);
        assert(le_val(s.skip(1)) >= b * q);
        assert(256 * le_val(s.skip(1)) >= b * (256 * q)) by (nonlinear_arith)
            requires le_val(s.skip(1)) >= b * q;
        assert(pow256(k as nat) == 256 * q);
        assert(le_val(s) == (s[0] + 256 * le_val(s.skip(1))) as nat);
    }
}

/// The value splits at any position into a low part and a weighted high part.
pub proof fn lemma_le_val_split(s: Seq<u8>, n: int)
    requires
        0 <= n <= s.len(),
    ensures
        le_val(s) == le_val(s.take(n)) + pow256(n as nat) * le_val(s.skip(n)),
    decreases n,
{
    if n == 0 {
        assert(s.take(0) =~= Seq::<u8>::empty());
        assert(s.skip(0) =~= s);
        assert(pow256(0) == 1);
        assert(1 * le_val(s) == le_val(s)) by (nonlinear_arith);
    } else {
        lemma_le_val_split(s.skip(1), n - 1);
        assert(s.skip(1).take(n - 1) =~= s.take(n).skip(1));
        assert(s.skip(1).skip(n - 1) =~= s.skip(n));
        let lo = le_val(s.take(n).skip(1));
        let hi = le_val(s.skip(n));
        let q = pow256((n - 1) as nat);
        assert(le_val(s.skip(1)) == lo + q * hi);
        assert(s.take(n)[0] == s[0]);
        assert(s.take(n).len() == n);
        assert(le_val(s.take(n)) == (s[0] + 256 * lo) as nat);
        assert(le_val(s) == (s[0] + 256 * (lo + q * hi)) as nat);
        assert(256 * (lo + q * hi) == 256 * lo + (256 * q) * hi) by (nonlinear_arith);
        assert(pow256(n as nat) == 256 * q);
    }
}

/// An all-zero byte string encodes zero.
pub proof fn lemma_le_val_zero(s: Seq<u8>)
    requires
        forall|i: int| 0 <= i < s.len() ==> s[i] == 0,
    ensures
        le_val(s) == 0,
    decreases s.len(),
{
    if s.len() > 0 {
        assert(forall|i: int| 0 <= i < s.skip(1).len() ==> s.skip(1)[i] == s[i + 1]);
        lemma_le_val_zero(s.skip(1));
    }
}

/// The weight of position 8 is one past the largest 64-bit value.
pub proof fn lemma_pow256_u64()
    ensures
        pow256(8) == 0x1_0000_0000_0000_0000,
        pow256(0) == 1,
{
    assert(pow256(0) == 1);
    assert(pow256(1) == 256);
    assert(pow256(2) == 0x1_0000);
    assert(pow256(3) == 0x100_0000);
    assert(pow256(4) == 0x1_0000_0000);
    assert(pow256(5) == 0x100_0000_0000);
    assert(pow256(6) == 0x1_0000_0000_0000);
    assert(pow256(7) == 0x100_0000_0000_0000);
    assert(pow256(8) == 0x1_0000_0000_0000_0000);
}

/// A buffer in ABI shape encodes a value that fits in 64 bits.
pub proof fn lemma_abi_balance_fits(s: Seq<u8>)
    requires
        abi_balance(s),
    ensures
        le_val(s) <= u64::MAX,
        le_val(s) == le_val(s.take(8)),
{
    lemma_le_val_split(s, 8);
    assert(forall|i: int| 0 <= i < s.skip(8).len() ==> s.skip(8)[i] == s[i + 8]);
    lemma_le_val_zero(s.skip(8));
    lemma_le_val_bound(s.take(8));
    lemma_pow256_u64();
    assert(pow256(8) * 0 == 0) by (nonlinear_arith);
    assert(s.take(8).len() == 8);
}

/// Encodes a 64-bit value as a 32-byte little-endian balance buffer.
pub fn encode_balance(v: u64) -> (r: Vec<u8>)
    ensures
        abi_balance(r@),
        le_val(r@) == v,
{
    let mut r: Vec<u8> = Vec::new();
    let mut rem: u64 = v;
    let mut i: usize = 0;
    proof {
        lemma_pow256_u64();
        assert(le_val(r@) == 0);
        assert((rem as nat) * 1 == rem as nat) by (nonlinear_arith);
    }
    while i < 8
        invariant
            i <= 8,
            r@.len() == i,
            v as nat == le_val(r@) + (rem as nat) * pow256(i as nat),
            (rem as nat) < pow256((8 - i) as nat),
        decreases 8 - i,
    {
        let b: u8 = (rem % 256) as u8;
        proof {
            lemma_le_val_push(r@, b);
            assert((rem as nat) == 256 * ((rem / 256) as nat) + ((rem % 256) as nat));
            assert(pow256((i + 1) as nat) == 256 * pow256(i as nat));
            assert((b as nat) * pow256(i as nat) + ((rem / 256) as nat) * pow256((i + 1) as nat)
                == (rem as nat) * pow256(i as nat)) by (nonlinear_arith)
                requires
                    (rem as nat) == 256 * ((rem / 256) as nat) + (b as nat),
                    pow256((i + 1) as nat) == 256 * pow256(i as nat),
            ;
            assert(pow256((8 - i) as nat) == 256 * pow256((8 - (i + 1)) as nat));
            assert(((rem / 256) as nat) < pow256((8 - (i + 1)) as nat)) by (nonlinear_arith)
                requires
                    (rem as nat) < pow256((8 - i) as nat),
                    pow256((8 - i) as nat) == 256 * pow256((8 - (i + 1)) as nat),
                    (rem as nat) == 256 * ((rem / 256) as nat) + ((rem % 256) as nat),
            ;
        }
        r.push(b);
        rem = rem / 256;
        i = i + 1;
    }
    proof {
        assert(pow256(0) == 1);
        assert(rem < 1);
        assert((0 as nat) * 1 == 0) by (nonlinear_arith);
    }
    while i < 32
        invariant
            8 <= i <= 32,
            r@.len() == i,
            le_val(r@) == v,
            forall|j: int| 8 <= j < r@.len() ==> r@[j] == 0,
        decreases 32 - i,
    {
        proof {
            lemma_le_val_push(r@, 0);
            assert((0 as nat) * pow256(r@.len()) == 0) by (nonlinear_arith);
        }
        r.push(0);
        i = i + 1;
    }
    r
}

/// Reads the 32-byte balance buffer at `ptr` in `buf`. Returns the encoded
/// value when it fits in 64 bits; a buffer carrying a larger value is outside
/// the ABI and yields `None`.
pub fn decode_balance(buf: &Vec<u8>, ptr: usize) -> (r: Option<u64>)
    requires
        ptr + BALANCE_LEN <= buf@.len(),
    ensures
        ({
            let s = buf@.subrange(ptr as int, ptr + BALANCE_LEN);
            match r {
                Some(v) => v as nat == le_val(s),
                None => le_val(s) > u64::MAX,
            }
        }),
{
    let ghost s = buf@.subrange(ptr as int, ptr + BALANCE_LEN);
    let n = buf.len();
    proof {
        lemma_pow256_u64();
    }
    let mut i: usize = 8;
    while i < 32
        invariant
            8 <= i <= 32,
            ptr + BALANCE_LEN <= n == buf@.len(),
            s == buf@.subrange(ptr as int, ptr + BALANCE_LEN),
            forall|j: int| 8 <= j < i ==> s[j] == 0,
        decreases 32 - i,
    {
        if buf[ptr + i] != 0 {
            proof {
                assert(s[i as int] == buf@[ptr + i]);
                lemma_pow256_u64();
                lemma_le_val_lower(s, i as int);
                lemma_pow256_monotone(8, i as nat);
                let p = pow256(i as nat);
                assert((s[i as int] as nat) * p >= 1 * p) by (nonlinear_arith)
                    requires (s[i as int] as nat) >= 1, p >= 0;
                assert(1 * p == p) by (nonlinear_arith);
                assert(le_val(s) >= pow256(8));
                assert(le_val(s) > u64::MAX);
            }
            return None;
        }
        i = i + 1;
    }
    proof {
        assert(abi_balance(s));
        lemma_abi_balance_fits(s);
    }
    let mut acc: u64 = 0;
    let mut k: usize = 8;
    proof {
        assert(s.take(8).skip(8) =~= Seq::<u8>::empty());
    }
    while k > 0
        invariant
            k <= 8,
            ptr + BALANCE_LEN <= n == buf@.len(),
            s == buf@.subrange(ptr as int, ptr + BALANCE_LEN),
            acc as nat == le_val(s.take(8).skip(k as int)),
        decreases k,
    {
        proof {
            lemma_le_val_bound(s.take(8).skip(k as int));
            lemma_pow256_monotone(s.take(8).skip(k as int).len(), 7);
            lemma_pow256_u64();
            assert(pow256(7) == 0x100_0000_0000_0000);
            assert(s.take(8).skip(k - 1)[0] == s[k - 1]);
            assert(s.take(8).skip(k - 1).skip(1) =~= s.take(8).skip(k as int));
            assert(s[k - 1] == buf@[ptr + (k - 1)]);
        }
        k = k - 1;
        acc = acc * 256 + (buf[ptr + k] as u64);
    }
    proof {
        assert(s.take(8).skip(0) =~= s.take(8));
    }
    Some(acc)
}

} // verus!
