//! Little-endian byte encodings, as mathematical functions.
use vstd::prelude::*;

verus! {

/// The number denoted by the little-endian bytes `s`.
pub open spec fn le_value(s: Seq<u8>) -> nat
    decreases s.len(),
{
    if s.len() == 0 {
        0
    } else {
        s[0] as nat + 256 * le_value(s.drop_first())
    }
}

/// The `n` least significant little-endian bytes of `v`.
pub open spec fn le_bytes(v: nat, n: nat) -> Seq<u8>
    decreases n,
{
    if n == 0 {
        Seq::empty()
    } else {
        seq![(v % 256) as u8] + le_bytes(v / 256, (n - 1) as nat)
    }
}

/// `256` to the power `n`: the first number that does not fit in `n` bytes.
pub open spec fn byte_bound(n: nat) -> nat
    decreases n,
{
    if n == 0 {
        1
    } else {
        256 * byte_bound((n - 1) as nat)
    }
}

/// Encoding a number that fits and decoding the bytes gives the number back.
pub proof fn lemma_le_value_of_bytes(v: nat, n: nat)
    requires
        v < byte_bound(n),
    ensures
        le_bytes(v, n).len() == n,
        le_value(le_bytes(v, n)) == v,
    decreases n,
{
    if n > 0 {
        lemma_le_value_of_bytes(v / 256, (n - 1) as nat);
        let s = le_bytes(v, n);
        assert(s.drop_first() =~= le_bytes(v / 256, (n - 1) as nat));
    }
}

/// Decoding bytes and encoding the number again gives the bytes back.
pub proof fn lemma_le_bytes_of_value(s: Seq<u8>)
    ensures
        le_value(s) < byte_bound(s.len()),
        le_bytes(le_value(s), s.len()) =~= s,
    decreases s.len(),
{
    if s.len() > 0 {
        lemma_le_bytes_of_value(s.drop_first());
        let v = le_value(s);
        let r = le_value(s.drop_first());
        assert(v % 256 == s[0] as nat && v / 256 == r) by (nonlinear_arith)
            requires
                v == s[0] as nat + 256 * r,
                s[0] < 256,
        ;
        assert(le_bytes(v, s.len()) =~= seq![s[0]] + le_bytes(r, (s.len() - 1) as nat));
    }
}

/// The length of an encoding.
pub proof fn lemma_le_bytes_len(v: nat, n: nat)
    ensures
        le_bytes(v, n).len() == n,
    decreases n,
{
    if n > 0 {
        lemma_le_bytes_len(v / 256, (n - 1) as nat);
    }
}

/// The first `k` bytes of an `n`-byte encoding are the `k`-byte encoding.
pub proof fn lemma_le_bytes_prefix(v: nat, n: nat, k: nat)
    requires
        k <= n,
    ensures
        le_bytes(v, n).take(k as int) =~= le_bytes(v, k),
    decreases k,
{
    lemma_le_bytes_len(v, n);
    lemma_le_bytes_len(v, k);
    if k > 0 {
        lemma_le_bytes_prefix(v / 256, (n - 1) as nat, (k - 1) as nat);
        lemma_le_bytes_len(v / 256, (n - 1) as nat);
        assert(le_bytes(v, n).take(k as int) =~= seq![(v % 256) as u8] + le_bytes(
            v / 256,
            (n - 1) as nat,
        ).take(k - 1));
    }
}

/// Values of one to four little-endian bytes, unfolded.
pub proof fn lemma_le_value_small(s: Seq<u8>)
    ensures
        s.len() == 1 ==> le_value(s) == s[0] as nat,
        s.len() == 2 ==> le_value(s) == s[0] as nat + 256 * s[1] as nat,
        s.len() == 3 ==> le_value(s) == s[0] as nat + 256 * s[1] as nat + 65536 * s[2] as nat,
        s.len() == 4 ==> le_value(s) == s[0] as nat + 256 * s[1] as nat + 65536 * s[2] as nat
            + 16777216 * s[3] as nat,
    decreases s.len(),
{
    if s.len() >= 1 && s.len() <= 4 {
        let t = s.drop_first();
        lemma_le_value_small(t);
        if t.len() == 0 {
            assert(le_value(t) == 0);
        }
    }
}

/// The byte bounds for up to four bytes.
pub proof fn lemma_byte_bound_small()
    ensures
        byte_bound(0) == 1,
        byte_bound(1) == 256,
        byte_bound(2) == 65536,
        byte_bound(3) == 16777216,
        byte_bound(4) == 4294967296,
{
    reveal_with_fuel(byte_bound, 5);
}

} // verus!
