//! Decimal formatting of unsigned integers, as bytes.
use vstd::prelude::*;

verus! {

/// The decimal digits of `n`, most significant first, no leading zeroes
/// (zero itself is the single digit `0`).
pub open spec fn dec_digits(n: nat) -> Seq<u8>
    decreases n,
{
    if n < 10 {
        seq![(48 + n) as u8]
    } else {
        dec_digits(n / 10).push((48 + n % 10) as u8)
    }
}

/// Render `n` in decimal.
pub fn u64_to_dec(n: u64) -> (v: Vec<u8>)
    ensures
        v@ == dec_digits(n as nat),
{
    let mut rev: Vec<u8> = Vec::new();
    let mut x = n;
    rev.push(48 + (x % 10) as u8);
    x = x / 10;
    proof {
        if x > 0 {
            assert(dec_digits(n as nat) =~= dec_digits(x as nat) + rev@.reverse());
        } else {
            assert(dec_digits(n as nat) =~= rev@.reverse());
        }
    }
    while x > 0
        invariant
            rev@.len() >= 1,
            x > 0 ==> dec_digits(n as nat) == dec_digits(x as nat) + rev@.reverse(),
            x == 0 ==> dec_digits(n as nat) == rev@.reverse(),
        decreases x,
    {
        let ghost rev0 = rev@;
        let ghost x0 = x;
        rev.push(48 + (x % 10) as u8);
        x = x / 10;
        proof {
            assert(rev@.reverse() =~= seq![(48 + x0 % 10) as u8] + rev0.reverse());
            if x > 0 {
                assert(dec_digits(x0 as nat) == dec_digits(x as nat).push((48 + x0 % 10) as u8));
                assert(dec_digits(n as nat) =~= dec_digits(x as nat) + rev@.reverse()) by {
                    assert(dec_digits(x as nat) + rev@.reverse() =~= (dec_digits(x as nat).push(
                        (48 + x0 % 10) as u8,
                    )) + rev0.reverse());
                };
            } else {
                assert(x0 < 10);
                assert(dec_digits(x0 as nat) =~= seq![(48 + x0 % 10) as u8]);
                assert(dec_digits(n as nat) =~= rev@.reverse()) by {
                    assert(dec_digits(x0 as nat) + rev0.reverse() =~= rev@.reverse());
                };
            }
        }
    }
    let mut v: Vec<u8> = Vec::new();
    let mut i = rev.len();
    while i > 0
        invariant
            i <= rev@.len(),
            v@.len() == rev@.len() - i,
            forall|k: int| 0 <= k < v@.len() ==> v@[k] == rev@[rev@.len() - 1 - k],
        decreases i,
    {
        i = i - 1;
        v.push(rev[i]);
    }
    proof {
        assert(v@ =~= rev@.reverse());
    }
    v
}

} // verus!
