//! Choosing the listen port from the command-line arguments.
//!
//! Accepted forms (after the program name): nothing, a bare port, or
//! `-p <port>` / `--port <port>`. The port is an unsigned 16-bit decimal
//! integer, optionally preceded by `+`, exactly as the standard integer
//! parser accepts; anything else falls back to the default port with a
//! warning flag so the caller can log it.
use vstd::prelude::*;

use crate::config::DEFAULT_PORT;

verus! {

/// ASCII decimal digit.
pub open spec fn is_digit(b: u8) -> bool {
    48 <= b <= 57
}

/// Every byte of `s` is an ASCII decimal digit.
pub open spec fn all_digits(s: Seq<u8>) -> bool {
    forall|i: int| 0 <= i < s.len() ==> is_digit(#[trigger] s[i])
}

/// The value of `s` read as decimal digits, most significant first.
pub open spec fn dec_value(s: Seq<u8>) -> nat
    decreases s.len(),
{
    if s.len() == 0 {
        0
    } else {
        (dec_value(s.drop_last()) * 10 + (s.last() - 48)) as nat
    }
}

/// The digit part of a port string: everything after one optional leading
/// `+`.
pub open spec fn port_digits(s: Seq<u8>) -> Seq<u8> {
    if s.len() > 0 && s[0] == 43 {
        s.drop_first()
    } else {
        s
    }
}

/// What the standard unsigned 16-bit parser accepts: at least one digit
/// after the optional `+`, all digits, value at most 65535.
pub open spec fn valid_port_str(s: Seq<u8>) -> bool {
    &&& port_digits(s).len() > 0
    &&& all_digits(port_digits(s))
    &&& dec_value(port_digits(s)) <= 65535
}

/// A prefix of a digit string never exceeds the whole string's value.
proof fn lemma_dec_value_take_le(d: Seq<u8>, k: int)
    requires
        all_digits(d),
        0 <= k <= d.len(),
    ensures
        dec_value(d.take(k)) <= dec_value(d),
    decreases d.len() - k,
{
    if k == d.len() {
        assert(d.take(k) =~= d);
    } else {
        assert(d.take(k + 1).drop_last() =~= d.take(k));
        assert(d.take(k + 1).last() == d[k]);
        assert(dec_value(d.take(k)) <= dec_value(d.take(k + 1)));
        lemma_dec_value_take_le(d, k + 1);
    }
}

/// Parse a port number: returns the value exactly when the bytes are a
/// valid unsigned 16-bit decimal (optional `+`, digits, at most 65535),
/// and nothing otherwise.
pub fn parse_port(s: &[u8]) -> (r: Option<u16>)
    ensures
        r is Some <==> valid_port_str(s@),
        r matches Some(p) ==> p == dec_value(port_digits(s@)),
{
    let ghost d = port_digits(s@);
    let start: usize = if s.len() > 0 && s[0] == 43 {
        1
    } else {
        0
    };
    proof {
        assert(d =~= s@.skip(start as int));
    }
    if start >= s.len() {
        return None;
    }
    let mut i = start;
    let mut val: u32 = 0;
    while i < s.len()
        invariant
            start <= i <= s@.len(),
            d == port_digits(s@),
            d == s@.skip(start as int),
            d.len() == s@.len() - start,
            forall|j: int| 0 <= j < i - start ==> is_digit(#[trigger] d[j]),
            val == dec_value(d.take(i - start)),
            val <= 65535,
        decreases s@.len() - i,
    {
        let b = s[i];
        proof {
            assert(d[i - start] == s@[i as int]);
        }
        if b < 48 || b > 57 {
            proof {
                assert(0 <= i - start < d.len());
                assert(!is_digit(d[i - start]));
                assert(!all_digits(d));
                assert(!valid_port_str(s@));
            }
            return None;
        }
        val = val * 10 + (b - 48) as u32;
        proof {
            assert(d.take(i - start + 1).drop_last() =~= d.take(i - start));
            assert(d.take(i - start + 1).last() == d[i - start]);
        }
        i = i + 1;
        if val > 65535 {
            proof {
                assert(val == dec_value(d.take(i - start)));
                if all_digits(d) {
                    lemma_dec_value_take_le(d, i - start);
                    assert(dec_value(d) > 65535);
                }
                assert(!valid_port_str(s@));
            }
            return None;
        }
    }
    proof {
        assert(d.take(d.len() as int) =~= d);
    }
    Some(val as u16)
}

/// Compare two byte strings.
fn bytes_eq(a: &[u8], b: &[u8]) -> (r: bool)
    ensures
        r == (a@ == b@),
{
    if a.len() != b.len() {
        proof {
            assert(a@.len() != b@.len());
        }
        return false;
    }
    let mut i: usize = 0;
    while i < a.len()
        invariant
            i <= a@.len(),
            a@.len() == b@.len(),
            forall|j: int| 0 <= j < i ==> a@[j] == b@[j],
        decreases a@.len() - i,
    {
        if a[i] != b[i] {
            return false;
        }
        i = i + 1;
    }
    proof {
        assert(a@ =~= b@);
    }
    true
}

/// The short port flag, `-p`.
pub open spec fn flag_short() -> Seq<u8> {
    seq![45u8, 112u8]
}

/// The long port flag, `--port`.
pub open spec fn flag_long() -> Seq<u8> {
    seq![45u8, 45, 112, 111, 114, 116]
}

/// The port the server should listen on for the given arguments (program
/// name excluded), and whether that is the default because an explicit
/// port was given and rejected (the caller logs a warning in that case).
pub open spec fn spec_select_port(args: Seq<Seq<u8>>) -> (u16, bool) {
    if args.len() == 0 {
        (DEFAULT_PORT, false)
    } else if args[0] == flag_short() || args[0] == flag_long() {
        if args.len() >= 2 && valid_port_str(args[1]) {
            (dec_value(port_digits(args[1])) as u16, false)
        } else {
            (DEFAULT_PORT, true)
        }
    } else {
        if valid_port_str(args[0]) {
            (dec_value(port_digits(args[0])) as u16, false)
        } else {
            (DEFAULT_PORT, true)
        }
    }
}

/// Choose the listen port from the command-line arguments (program name
/// excluded). The second result says a given port was invalid or missing
/// and the default was used in its place.
pub fn select_port(args: &Vec<Vec<u8>>) -> (r: (u16, bool))
    ensures
        r == spec_select_port(args.deep_view()),
{
    if args.len() == 0 {
        return (DEFAULT_PORT, false);
    }
    let mut short: Vec<u8> = Vec::new();
    short.push(45);
    short.push(112);
    let mut long: Vec<u8> = Vec::new();
    long.push(45);
    long.push(45);
    long.push(112);
    long.push(111);
    long.push(114);
    long.push(116);
    proof {
        assert(short@ =~= flag_short());
        assert(long@ =~= flag_long());
        assert(args.deep_view()[0] == args@[0]@);
        assert(args.deep_view().len() == args@.len());
    }
    let is_flag = bytes_eq(args[0].as_slice(), short.as_slice()) || bytes_eq(
        args[0].as_slice(),
        long.as_slice(),
    );
    if is_flag {
        if args.len() >= 2 {
            proof {
                assert(args.deep_view()[1] == args@[1]@);
            }
            match parse_port(args[1].as_slice()) {
                Some(p) => (p, false),
                None => (DEFAULT_PORT, true),
            }
        } else {
            (DEFAULT_PORT, true)
        }
    } else {
        match parse_port(args[0].as_slice()) {
            Some(p) => (p, false),
            None => (DEFAULT_PORT, true),
        }
    }
}

} // verus!
