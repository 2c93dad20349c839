//! What holds of the texts, numbers and orders that everything else is written and sorted with.

use crate::utils::framing;
use crate::utils::framing::{decode_len, encode_len};
use crate::utils::order;
use crate::utils::order::sorted_positions;
use crate::utils::text;
use crate::utils::text::{bracketed_of, decimal_of, joined, pad_right, same_text};
use vstd::arithmetic::power::*;
use vstd::prelude::*;

verus! {

/// The number that a text of decimal digits stands for.
pub open spec fn number(s: Seq<char>) -> int
    decreases s.len(),
{
    if s.len() == 0 {
        0
    } else {
        10 * number(s.drop_last()) + (s.last() as u32 - '0' as u32)
    }
}

proof fn lemma_decimal(n: nat)
    ensures
        number(text::decimal(n)) == n,
        text::decimal(n).len() > 0,
        n > 0 ==> text::decimal(n)[0] != '0',
        n == 0 ==> text::decimal(n).len() == 1,
        forall|i: int|
            0 <= i < text::decimal(n).len() ==> '0' <= #[trigger] text::decimal(n)[i] <= '9',
    decreases n,
{
    let s = text::decimal(n);
    if n < 10 {
        assert(s.drop_last() =~= Seq::<char>::empty());
        assert(number(Seq::<char>::empty()) == 0);
    } else {
        lemma_decimal(n / 10);
        assert(s.drop_last() =~= text::decimal(n / 10));
        assert(s.last() == text::digit(n % 10));
        assert(n == 10 * (n / 10) + n % 10);
        assert(s[0] == text::decimal(n / 10)[0]);
    }
}

/// A number is written in decimal digits, without leading zeros, and read back as that number.
pub proof fn law_decimal(n: usize, r: String)
    requires
        call_ensures(decimal_of, (n,), r),
    ensures
        number(r@) == n,
        r@.len() > 0,
        r@.len() > 1 ==> r@[0] != '0',
        forall|i: int| 0 <= i < r@.len() ==> '0' <= #[trigger] r@[i] <= '9',
{
    lemma_decimal(n as nat);
}

/// Two numbers are not written alike.
pub proof fn law_decimals_differ(m: nat, n: nat)
    requires
        m != n,
    ensures
        text::decimal(m) != text::decimal(n),
{
    lemma_decimal(m);
    lemma_decimal(n);
}

/// A text is filled up with spaces on the right, to the width wanted and no further.
pub proof fn law_pad(s: &str, width: usize, r: String)
    requires
        call_ensures(pad_right, (s, width), r),
    ensures
        r@.len() >= width,
        r@.len() >= s@.len(),
        r@.len() == width || r@.len() == s@.len(),
        forall|i: int| 0 <= i < s@.len() ==> #[trigger] r@[i] == s@[i],
        forall|i: int| s@.len() <= i < r@.len() ==> #[trigger] r@[i] == ' ',
{
}

/// Two texts are put one after the other.
pub proof fn law_joined(a: &str, b: &str, r: String)
    requires
        call_ensures(joined, (a, b), r),
    ensures
        r@.len() == a@.len() + b@.len(),
        forall|i: int| 0 <= i < a@.len() ==> #[trigger] r@[i] == a@[i],
        forall|i: int| 0 <= i < b@.len() ==> r@[a@.len() + i] == #[trigger] b@[i],
{
}

/// Texts are the same if all their characters are.
pub proof fn law_same_text(a: &str, b: &str, r: bool)
    requires
        call_ensures(same_text, (a, b), r),
    ensures
        r <==> a@.len() == b@.len() && forall|i: int|
            0 <= i < a@.len() ==> #[trigger] a@[i] == b@[i],
{
    if a@.len() == b@.len() && forall|i: int| 0 <= i < a@.len() ==> #[trigger] a@[i] == b@[i] {
        assert(a@ =~= b@);
    }
}

/// Numbers are listed in brackets, with a comma and a space before each but the first: one number
/// more comes before the closing bracket.
pub proof fn law_bracketed(v: &[usize], w: &[usize], x: usize, a: String, b: String, n: String)
    requires
        call_ensures(bracketed_of, (v,), a),
        call_ensures(bracketed_of, (w,), b),
        call_ensures(decimal_of, (x,), n),
        w@ == v@.push(x),
    ensures
        a@.len() >= 2,
        a@[0] == '[',
        a@.last() == ']',
        v@.len() == 0 ==> a@ == seq!['[', ']'],
        v@.len() == 0 ==> b@ == seq!['['] + n@ + seq![']'],
        v@.len() > 0 ==> b@ == a@.drop_last() + seq![',', ' '] + n@ + seq![']'],
{
    reveal_strlit("[");
    reveal_strlit("]");
    reveal_strlit(", ");
    assert("["@ =~= seq!['[']);
    assert("]"@ =~= seq![']']);
    assert(", "@ =~= seq![',', ' ']);
    assert(w@.drop_last() =~= v@);
    assert(w@.last() == x);
    if v@.len() == 0 {
        assert(a@ =~= seq!['[', ']']);
        assert(w@.len() == 1);
        assert(b@ =~= seq!['['] + n@ + seq![']']);
    } else {
        assert(a@.drop_last() =~= "["@ + text::listed(v@));
        assert(b@ =~= a@.drop_last() + seq![',', ' '] + n@ + seq![']']);
    }
}

proof fn lemma_le_digit(n: nat, len: nat, k: nat)
    requires
        k < len,
    ensures
        framing::le_bytes(n, len).len() == len,
        framing::le_bytes(n, len)[k as int] == (n as int / pow(256, k)) % 256,
    decreases len,
{
    let rest = framing::le_bytes(n / 256, (len - 1) as nat);
    lemma_pow0(256);
    if len > 1 {
        lemma_le_digit(
            n / 256,
            (len - 1) as nat,
            if k == 0 {
                0
            } else {
                (k - 1) as nat
            },
        );
    } else {
        assert(rest =~= Seq::<u8>::empty());
    }
    assert(rest.len() == len - 1);
    if k == 0 {
        assert(n as int / 1 == n);
    } else {
        let j = (k - 1) as nat;
        lemma_pow_positive(256, j);
        lemma_pow_adds(256, 1, j);
        lemma_pow1(256);
        vstd::arithmetic::div_mod::lemma_div_denominator(n as int, 256, pow(256, j));
        assert(framing::le_bytes(n, len)[k as int] == rest[j as int]);
    }
}

/// A length is written as eight bytes, the least significant first: byte `k` counts the `k`th
/// power of 256.
pub proof fn law_length_written(n: usize, r: Vec<u8>, k: nat)
    requires
        call_ensures(encode_len, (n,), r),
    ensures
        r@.len() == 8,
        k < 8 ==> r@[k as int] == (n as int / pow(256, k)) % 256,
{
    if k < 8 {
        lemma_le_digit(n as nat, 8, k);
    }
}

/// A length is read from eight bytes, the least significant first, and what was written is read
/// back.
pub proof fn law_length_read(bytes: &[u8], r: usize, k: nat, n: usize, written: Vec<u8>)
    requires
        bytes@.len() == 8,
        call_ensures(decode_len, (bytes,), r),
        call_ensures(encode_len, (n,), written),
        framing::le_value(bytes@) <= usize::MAX,
    ensures
        k < 8 ==> bytes@[k as int] == (r as int / pow(256, k)) % 256,
        written@ == bytes@ ==> r == n,
{
    framing::law_le_written_back(bytes@);
    if k < 8 {
        lemma_le_digit(framing::le_value(bytes@), 8, k);
    }
}

/// One key comes before another in a dictionary, or is the same: where they differ first, it has
/// the lesser number, or it ends.
pub open spec fn in_dictionary_order(a: Seq<u32>, b: Seq<u32>) -> bool {
    exists|k: int| #[trigger] first_difference(a, b, k)
}

/// Two keys are alike before place `k`, where the first ends or has the lesser number.
pub open spec fn first_difference(a: Seq<u32>, b: Seq<u32>, k: int) -> bool {
    &&& 0 <= k <= a.len()
    &&& k <= b.len()
    &&& forall|i: int| 0 <= i < k ==> #[trigger] a[i] == b[i]
    &&& k == a.len() || (k < b.len() && a[k] < b[k])
}

/// The order by which keys are sorted is that of a dictionary.
pub proof fn law_dictionary_order(a: Seq<u32>, b: Seq<u32>)
    ensures
        order::lex_le(a, b) <==> in_dictionary_order(a, b),
    decreases a.len(),
{
    if a.len() == 0 {
        assert(first_difference(a, b, 0));
    } else if b.len() == 0 {
        if in_dictionary_order(a, b) {
            let k = choose|k: int| #[trigger] first_difference(a, b, k);
        }
    } else if a[0] != b[0] {
        if a[0] < b[0] {
            assert(first_difference(a, b, 0));
        }
        if in_dictionary_order(a, b) {
            let k = choose|k: int| #[trigger] first_difference(a, b, k);
            if k > 0 {
                assert(a[0] == b[0]);
            }
        }
    } else {
        let (c, d) = (a.drop_first(), b.drop_first());
        law_dictionary_order(c, d);
        if in_dictionary_order(c, d) {
            let k = choose|k: int| #[trigger] first_difference(c, d, k);
            assert forall|i: int| 0 <= i < k + 1 implies #[trigger] a[i] == b[i] by {
                if i > 0 {
                    assert(c[i - 1] == d[i - 1]);
                }
            }
            if k < c.len() {
                assert(a[k + 1] == c[k] && b[k + 1] == d[k]);
            }
            assert(first_difference(a, b, k + 1));
        }
        if in_dictionary_order(a, b) {
            let k = choose|k: int| #[trigger] first_difference(a, b, k);
            assert(k > 0);
            assert forall|i: int| 0 <= i < k - 1 implies #[trigger] c[i] == d[i] by {
                assert(a[i + 1] == b[i + 1]);
            }
            if k < a.len() {
                assert(a[k] == c[k - 1] && b[k] == d[k - 1]);
            }
            assert(first_difference(c, d, k - 1));
        }
    }
}

/// Sorting gives every position once, in dictionary order of the keys.
pub proof fn law_sorted(keys: Vec<Vec<u32>>, r: Vec<usize>, i: int, j: int)
    requires
        call_ensures(sorted_positions, (&keys,), r),
        0 <= i < j < r@.len(),
    ensures
        r@.len() == keys@.len(),
        r@[i] < keys@.len() && r@[j] < keys@.len(),
        r@[i] != r@[j],
        in_dictionary_order(keys@[r@[i] as int]@, keys@[r@[j] as int]@),
{
    let ks = order::keys_of(keys@);
    assert(r@[i] < keys@.len() && r@[j] < keys@.len());
    assert(order::lex_le(ks[r@[i] as int], ks[r@[j] as int]));
    law_dictionary_order(ks[r@[i] as int], ks[r@[j] as int]);
}

} // verus!
