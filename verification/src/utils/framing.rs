//! Lengths as eight bytes, least significant first: in front of the header of a weight file, and
//! in front of an index that is sent to the other ranks.

use vstd::prelude::*;

verus! {

/// The number that bytes stand for, least significant first.
pub open spec fn le_value(s: Seq<u8>) -> nat
    decreases s.len(),
{
    if s.len() == 0 {
        0
    } else {
        s[0] as nat + 256 * le_value(s.drop_first())
    }
}

/// A number as `len` bytes, least significant first.
pub open spec fn le_bytes(n: nat, len: nat) -> Seq<u8>
    decreases len,
{
    if len == 0 {
        Seq::empty()
    } else {
        seq![(n % 256) as u8] + le_bytes(n / 256, (len - 1) as nat)
    }
}

/// How many numbers `len` bytes can tell apart.
pub open spec fn le_limit(len: nat) -> nat
    decreases len,
{
    if len == 0 {
        1
    } else {
        256 * le_limit((len - 1) as nat)
    }
}

/// Eight bytes tell apart as many numbers as 64 bits do.
pub proof fn lemma_le_limit()
    ensures
        le_limit(8) == u64::MAX + 1,
{
    reveal_with_fuel(le_limit, 9);
}

proof fn lemma_le_value_bound(s: Seq<u8>)
    ensures
        le_value(s) < le_limit(s.len()),
    decreases s.len(),
{
    if s.len() > 0 {
        lemma_le_value_bound(s.drop_first());
    }
}

proof fn lemma_le_limit_grows(a: nat, b: nat)
    requires
        a <= b,
    ensures
        0 < le_limit(a) <= le_limit(b),
    decreases b,
{
    if b > 0 && a < b {
        lemma_le_limit_grows(a, (b - 1) as nat);
    } else if b > 0 {
        lemma_le_limit_grows((a - 1) as nat, (b - 1) as nat);
    }
}

/// Writing a number as bytes and reading it again gives the number, where it fits.
pub proof fn law_le_read_back(n: nat, len: nat)
    requires
        n < le_limit(len),
    ensures
        le_bytes(n, len).len() == len,
        le_value(le_bytes(n, len)) == n,
    decreases len,
{
    if len > 0 {
        law_le_read_back(n / 256, (len - 1) as nat);
        let s = le_bytes(n, len);
        assert(s.drop_first() =~= le_bytes(n / 256, (len - 1) as nat));
        assert(s[0] == (n % 256) as u8);
    }
}

/// Reading bytes as a number and writing it again gives the bytes.
pub proof fn law_le_written_back(s: Seq<u8>)
    ensures
        le_bytes(le_value(s), s.len()) == s,
    decreases s.len(),
{
    if s.len() > 0 {
        law_le_written_back(s.drop_first());
        assert(le_value(s) % 256 == s[0]);
        assert(le_value(s) / 256 == le_value(s.drop_first()));
        assert(le_bytes(le_value(s), s.len()) =~= s);
    } else {
        assert(le_bytes(le_value(s), s.len()) =~= s);
    }
}

/// Reads a length from its eight bytes.
pub fn decode_len(bytes: &[u8]) -> (r: usize)
    requires
        bytes@.len() == 8,
    ensures
        r == le_value(bytes@) as u64 as usize,
        le_value(bytes@) <= u64::MAX,
{
    proof {
        lemma_le_limit();
        lemma_le_value_bound(bytes@);
    }
    let mut v: u64 = 0;
    let mut i: usize = 8;
    assert(bytes@.skip(8) =~= Seq::<u8>::empty());
    while i > 0
        invariant
            i <= 8,
            bytes@.len() == 8,
            v == le_value(bytes@.skip(i as int)),
            le_limit(8) == u64::MAX + 1,
        decreases i,
    {
        i = i - 1;
        proof {
            assert(bytes@.skip(i as int).drop_first() =~= bytes@.skip(i + 1));
            lemma_le_value_bound(bytes@.skip(i as int));
            lemma_le_limit_grows((8 - i) as nat, 8);
        }
        v = v * 256 + bytes[i] as u64;
    }
    assert(bytes@.skip(0) =~= bytes@);
    v as usize
}

/// Writes a length as eight bytes.
pub fn encode_len(n: usize) -> (r: Vec<u8>)
    ensures
        r@ == le_bytes(n as nat, 8),
        r@.len() == 8,
        le_value(r@) == n,
{
    proof {
        lemma_le_limit();
        law_le_read_back(n as nat, 8);
    }
    let mut r: Vec<u8> = Vec::new();
    let mut rest: usize = n;
    let mut i: usize = 0;
    while i < 8
        invariant
            i <= 8,
            le_bytes(n as nat, 8) == r@ + le_bytes(rest as nat, (8 - i) as nat),
        decreases 8 - i,
    {
        let ghost before = r@;
        let ghost left = rest;
        let b: u8 = (rest % 256) as u8;
        r.push(b);
        rest = rest / 256;
        i = i + 1;
        assert(before + le_bytes(left as nat, (8 - i + 1) as nat) =~= r@ + le_bytes(
            rest as nat,
            (8 - i) as nat,
        ));
    }
    assert(le_bytes(rest as nat, 0) =~= Seq::<u8>::empty());
    assert(r@ =~= le_bytes(n as nat, 8));
    r
}

} // verus!
