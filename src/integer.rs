use vstd::prelude::*;
use crate::error::Asn1Error;

verus! {

/// The value of one octet read as a signed 8-bit number.
pub open spec fn signed_byte(b: u8) -> int {
    if b < 128 {
        b as int
    } else {
        b as int - 256
    }
}

/// The integer that big-endian two's-complement octets stand for (0 for no octets).
pub open spec fn twos_value(s: Seq<u8>) -> int
    decreases s.len(),
{
    if s.len() == 0 {
        0
    } else if s.len() == 1 {
        signed_byte(s[0])
    } else {
        twos_value(s.drop_last()) * 256 + s.last() as int
    }
}

/// The shortest big-endian two's-complement octets of `n`: one octet when
/// `n` fits in a signed octet, else the octets of `n / 256` and then `n % 256`.
pub open spec fn minimal_twos(n: int) -> Seq<u8>
    decreases (if n >= 0 { n } else { -n }),
{
    if -128 <= n < 128 {
        seq![(if n >= 0 { n } else { n + 256 }) as u8]
    } else {
        minimal_twos(n / 256).push((n % 256) as u8)
    }
}

/// Whether `n` fits in 64 signed bits.
pub open spec fn in_i64(n: int) -> bool {
    i64::MIN <= n <= i64::MAX
}

/// 256 to the power `k`.
pub open spec fn pow256(k: nat) -> int
    decreases k,
{
    if k == 0 {
        1
    } else {
        256 * pow256((k - 1) as nat)
    }
}

/// Reading back the minimal octets of `n` gives `n`.
pub proof fn lemma_integer_round_trip(n: int)
    ensures
        minimal_twos(n).len() >= 1,
        twos_value(minimal_twos(n)) == n,
    decreases (if n >= 0 { n } else { -n }),
{
    if -128 <= n < 128 {
    } else {
        lemma_integer_round_trip(n / 256);
        let m = minimal_twos(n / 256);
        assert(minimal_twos(n).drop_last() =~= m);
    }
}

/// No non-empty run of two's-complement octets for `twos_value(s)` is shorter
/// than its minimal octets.
pub proof fn lemma_minimal_is_shortest(s: Seq<u8>)
    requires
        s.len() >= 1,
    ensures
        minimal_twos(twos_value(s)).len() <= s.len(),
    decreases s.len(),
{
    let n = twos_value(s);
    if s.len() == 1 {
    } else if -128 <= n < 128 {
    } else {
        let p = s.drop_last();
        lemma_minimal_is_shortest(p);
        assert(n / 256 == twos_value(p));
    }
}

/// A number below `128 * 256^(k-1)` in magnitude takes at most `k` octets.
pub proof fn lemma_minimal_len(n: int, k: nat)
    requires
        k >= 1,
        -128 * pow256((k - 1) as nat) <= n < 128 * pow256((k - 1) as nat),
    ensures
        minimal_twos(n).len() <= k,
    decreases k,
{
    if -128 <= n < 128 {
    } else {
        assert(k >= 2);
        assert(pow256((k - 1) as nat) == 256 * pow256((k - 2) as nat));
        lemma_minimal_len(n / 256, (k - 1) as nat);
    }
}

/// Every 64-bit signed number takes at most eight octets.
pub proof fn lemma_minimal_len_i64(n: int)
    requires
        in_i64(n),
    ensures
        1 <= minimal_twos(n).len() <= 8,
{
    reveal_with_fuel(pow256, 8);
    lemma_minimal_len(n, 8);
    lemma_integer_round_trip(n);
}

/// Once a prefix of the octets stands for a number outside the 64-bit signed
/// range, so does every longer run of octets that starts with it.
proof fn lemma_out_of_range_extends(s: Seq<u8>, k: int)
    requires
        1 <= k <= s.len(),
        !in_i64(twos_value(s.subrange(0, k))),
    ensures
        !in_i64(twos_value(s)),
    decreases s.len(),
{
    if k == s.len() {
        assert(s.subrange(0, k) =~= s);
    } else {
        let p = s.drop_last();
        assert(p.subrange(0, k) =~= s.subrange(0, k));
        lemma_out_of_range_extends(p, k);
    }
}

/// The minimal big-endian two's-complement content octets of `n`.
pub fn encode_integer(n: i64) -> (r: Vec<u8>)
    ensures
        r@ == minimal_twos(n as int),
        1 <= r@.len() <= 8,
{
    let neg = n < 0;
    // For a negative `n` walk its complement `-1 - n`, whose octets are those
    // of `n` with every bit flipped.
    let mut m: u64 = if neg { (-1 - n) as u64 } else { n as u64 };
    let mut out: Vec<u8> = Vec::new();
    let ghost mut cur: int = n as int;
    while m >= 128
        invariant
            cur == (if neg { -1 - m as int } else { m as int }),
            minimal_twos(n as int) == minimal_twos(cur) + out@,
        decreases m,
    {
        let low: u8 = if neg { (255 - m % 256) as u8 } else { (m % 256) as u8 };
        proof {
            assert(low as int == cur % 256);
            assert((cur / 256) == (if neg { -1 - (m / 256) as int } else { (m / 256) as int }));
            assert(minimal_twos(cur) == minimal_twos(cur / 256).push(low));
            assert(minimal_twos(cur / 256) + seq![low] + out@ =~= minimal_twos(cur / 256) + (
            seq![low] + out@));
            cur = cur / 256;
        }
        out.insert(0, low);
        m = m / 256;
    }
    let top: u8 = if neg { (255 - m) as u8 } else { m as u8 };
    out.insert(0, top);
    proof {
        assert(minimal_twos(cur) == seq![top]);
        assert(out@ =~= minimal_twos(n as int));
        lemma_minimal_len_i64(n as int);
    }
    out
}

/// Reads big-endian two's-complement content octets as a 64-bit signed number.
pub fn decode_integer(content: &[u8]) -> (r: Result<i64, Asn1Error>)
    ensures
        content@.len() == 0 ==> r == Err::<i64, Asn1Error>(Asn1Error::MalformedInteger),
        content@.len() > 0 && in_i64(twos_value(content@)) ==> r == Ok::<i64, Asn1Error>(
            twos_value(content@) as i64,
        ),
        content@.len() > 0 && !in_i64(twos_value(content@)) ==> r == Err::<i64, Asn1Error>(
            Asn1Error::SerialNumberOutOfRange,
        ),
{
    if content.len() == 0 {
        return Err(Asn1Error::MalformedInteger);
    }
    let first = content[0];
    let mut acc: i128 = if first < 128 { first as i128 } else { first as i128 - 256 };
    let mut i: usize = 1;
    assert(content@.subrange(0, 1) =~= seq![first]);
    while i < content.len()
        invariant
            1 <= i <= content@.len(),
            acc as int == twos_value(content@.subrange(0, i as int)),
            in_i64(acc as int),
        decreases content@.len() - i,
    {
        let next: i128 = acc * 256 + content[i] as i128;
        assert(content@.subrange(0, i + 1).drop_last() =~= content@.subrange(0, i as int));
        if next < i64::MIN as i128 || next > i64::MAX as i128 {
            proof {
                lemma_out_of_range_extends(content@, i + 1);
            }
            return Err(Asn1Error::SerialNumberOutOfRange);
        }
        acc = next;
        i = i + 1;
    }
    assert(content@.subrange(0, i as int) =~= content@);
    Ok(acc as i64)
}

} // verus!
