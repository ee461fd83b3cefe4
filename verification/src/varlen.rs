//! Length fields of the legacy wire formats: minimal-width big-endian bytes
//! for binary frames, decimal ASCII digits for string frames.

use vstd::prelude::*;

verus! {

/// Minimal-width big-endian byte encoding of `n`: the base-256 digits of `n`
/// with every leading zero byte stripped, so zero encodes as no bytes at all.
pub open spec fn be_bytes(n: nat) -> Seq<u8>
    decreases n,
{
    if n == 0 {
        seq![]
    } else {
        be_bytes(n / 256) + seq![(n % 256) as u8]
    }
}

/// Decimal ASCII digits of `n`, most significant first; zero encodes as "0".
pub open spec fn dec_bytes(n: nat) -> Seq<u8>
    decreases n,
{
    if n < 10 {
        seq![(0x30 + n) as u8]
    } else {
        dec_bytes(n / 10) + seq![(0x30 + n % 10) as u8]
    }
}

/// The value that a big-endian byte sequence denotes.
pub open spec fn be_value(s: Seq<u8>) -> nat
    decreases s.len(),
{
    if s.len() == 0 {
        0
    } else {
        (be_value(s.drop_last()) * 256 + s.last()) as nat
    }
}

/// The minimal-width big-endian encoding denotes the encoded value and
/// carries no leading zero byte: it is the shortest encoding of that value.
pub proof fn lemma_be_bytes_minimal(n: nat)
    ensures
        be_value(be_bytes(n)) == n,
        n > 0 ==> be_bytes(n).len() > 0 && be_bytes(n)[0] != 0,
    decreases n,
{
    if n == 0 {
    } else {
        lemma_be_bytes_minimal(n / 256);
        assert(be_bytes(n).drop_last() =~= be_bytes(n / 256));
        assert(be_bytes(n).last() == n % 256);
        if n / 256 == 0 {
            assert(be_bytes(n) =~= seq![(n % 256) as u8]);
        } else {
            assert(be_bytes(n)[0] == be_bytes(n / 256)[0]);
        }
    }
}

/// The decimal encoding consists of ASCII digits alone.
pub proof fn lemma_dec_bytes_digits(n: nat)
    ensures
        dec_bytes(n).len() > 0,
        forall|i: int|
            0 <= i < dec_bytes(n).len() ==> 0x30 <= #[trigger] dec_bytes(n)[i] <= 0x39,
    decreases n,
{
    if n < 10 {
    } else {
        lemma_dec_bytes_digits(n / 10);
        assert forall|i: int| 0 <= i < dec_bytes(n).len() implies 0x30 <= #[trigger] dec_bytes(
            n,
        )[i] <= 0x39 by {
            if i < dec_bytes(n / 10).len() {
                assert(dec_bytes(n)[i] == dec_bytes(n / 10)[i]);
            }
        }
    }
}

/// Appends the minimal-width big-endian encoding of `n` to `out`.
pub fn append_be_bytes(out: &mut Vec<u8>, n: u128)
    ensures
        final(out)@ == old(out)@ + be_bytes(n as nat),
    decreases n,
{
    if n == 0 {
        assert(old(out)@ + be_bytes(0) =~= old(out)@);
    } else {
        append_be_bytes(out, n / 256);
        out.push((n % 256) as u8);
        assert(out@ =~= old(out)@ + be_bytes(n as nat));
    }
}

/// Appends the decimal ASCII encoding of `n` to `out`.
pub fn append_dec_bytes(out: &mut Vec<u8>, n: u64)
    ensures
        final(out)@ == old(out)@ + dec_bytes(n as nat),
    decreases n,
{
    if n < 10 {
        out.push(0x30 + (n as u8));
        assert(out@ =~= old(out)@ + dec_bytes(n as nat));
    } else {
        append_dec_bytes(out, n / 10);
        out.push(0x30 + ((n % 10) as u8));
        assert(out@ =~= old(out)@ + dec_bytes(n as nat));
    }
}

} // verus!
