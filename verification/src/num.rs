//! Decimal rendering and parsing of non-negative integers, used for ids in
//! paths and response bodies.

use vstd::prelude::*;

verus! {

/// The decimal digits of `n`, most significant first.
pub open spec fn dec_rep(n: nat) -> Seq<u8>
    decreases n,
{
    if n < 10 {
        seq![(48 + n) as u8]
    } else {
        dec_rep(n / 10).push((48 + n % 10) as u8)
    }
}

/// Every byte is an ASCII digit.
pub open spec fn all_digits(s: Seq<u8>) -> bool {
    forall|i: int| 0 <= i < s.len() ==> 48 <= #[trigger] s[i] <= 57
}

/// The value a digit byte stands for; other bytes count as zero.
pub open spec fn digit_val(b: u8) -> nat {
    if 48 <= b {
        (b - 48) as nat
    } else {
        0
    }
}

/// The numeric value of a digit string, most significant first.
pub open spec fn dec_val(s: Seq<u8>) -> nat
    decreases s.len(),
{
    if s.len() == 0 {
        0
    } else {
        dec_val(s.drop_last()) * 10 + digit_val(s.last())
    }
}

/// How a path segment parses as an id: it must be non-empty, all digits, and
/// its value must fit the id type.
pub open spec fn parse_u64_spec(s: Seq<u8>) -> Option<u64> {
    if s.len() > 0 && all_digits(s) && dec_val(s) <= u64::MAX as nat {
        Some(dec_val(s) as u64)
    } else {
        None
    }
}

/// A digit string's value is at least the value of any of its prefixes.
proof fn lemma_dec_val_prefix_le(s: Seq<u8>, j: int)
    requires
        0 <= j <= s.len(),
    ensures
        dec_val(s.take(j)) <= dec_val(s),
    decreases s.len(),
{
    if j < s.len() {
        let d = s.drop_last();
        lemma_dec_val_prefix_le(d, j);
        assert(d.take(j) =~= s.take(j));
    } else {
        assert(s.take(j) =~= s);
    }
}

/// Renders `n` in decimal.
pub fn u64_to_dec(n: u64) -> (r: Vec<u8>)
    ensures
        r@ == dec_rep(n as nat),
{
    let mut r: Vec<u8> = Vec::new();
    let mut m: u64 = n;
    proof {
        assert(dec_rep(n as nat) =~= dec_rep(n as nat) + r@);
    }
    while m >= 10
        invariant
            dec_rep(n as nat) == dec_rep(m as nat) + r@,
        decreases m,
    {
        let ghost r0 = r@;
        let d: u8 = (m % 10) as u8 + 48;
        r.insert(0, d);
        proof {
            assert(r@ =~= seq![d] + r0);
            assert(dec_rep(m as nat) == dec_rep((m as nat) / 10).push((48 + (m as nat) % 10) as u8));
            assert(dec_rep((m / 10) as nat) + r@ =~= dec_rep(m as nat) + r0);
        }
        m = m / 10;
    }
    let ghost r0 = r@;
    let d: u8 = m as u8 + 48;
    r.insert(0, d);
    proof {
        assert(dec_rep(m as nat) =~= seq![d]);
        assert(r@ =~= seq![d] + r0);
        assert(dec_rep(m as nat) + r0 =~= r@);
    }
    r
}

/// Parses a decimal id: `Some` exactly when the bytes are one or more ASCII
/// digits whose value fits, as `parse_u64_spec` says.
pub fn parse_u64(v: &Vec<u8>) -> (r: Option<u64>)
    ensures
        r == parse_u64_spec(v@),
{
    if v.len() == 0 {
        return None;
    }
    let mut acc: u64 = 0;
    let mut i: usize = 0;
    proof {
        assert(v@.take(0) =~= Seq::<u8>::empty());
    }
    while i < v.len()
        invariant
            i <= v.len(),
            all_digits(v@.take(i as int)),
            acc as nat == dec_val(v@.take(i as int)),
        decreases v.len() - i,
    {
        let b = v[i];
        if b < 48 || b > 57 {
            proof {
                assert(v@[i as int] == b);
                assert(!all_digits(v@));
            }
            return None;
        }
        let d: u64 = (b - 48) as u64;
        proof {
            assert(v@.take(i + 1).drop_last() =~= v@.take(i as int));
            assert(v@.take(i + 1).last() == v@[i as int]);
            assert(dec_val(v@.take(i + 1)) == acc as nat * 10 + d as nat);
        }
        if acc > (u64::MAX - d) / 10 {
            proof {
                vstd::arithmetic::div_mod::lemma_fundamental_div_mod(
                    (u64::MAX - d) as int,
                    10,
                );
                assert(dec_val(v@.take(i + 1)) > u64::MAX as nat);
                lemma_dec_val_prefix_le(v@, i + 1);
            }
            return None;
        }
        proof {
            vstd::arithmetic::div_mod::lemma_fundamental_div_mod((u64::MAX - d) as int, 10);
        }
        acc = acc * 10 + d;
        proof {
            assert(48 <= v@.take(i + 1).last() <= 57);
            assert(all_digits(v@.take(i + 1)));
        }
        i = i + 1;
    }
    proof {
        assert(v@.take(v.len() as int) =~= v@);
    }
    Some(acc)
}

} // verus!
