//! The fixed HTTP/1.1 response and the statsd gauge datagram, built byte
//! by byte so that the exact wire format is pinned down in the contracts.
use vstd::prelude::*;

use crate::fmt::{dec_digits, u64_to_dec};

verus! {

/// Everything before the decimal content length:
/// `HTTP/1.1 200 OK\r\nContent-Type: text/plain\r\nContent-Length: `.
pub open spec fn response_prefix() -> Seq<u8> {
    seq![
        72u8, 84, 84, 80, 47, 49, 46, 49, 32, 50, 48, 48, 32, 79, 75, 13, 10, 67, 111, 110, 116,
        101, 110, 116, 45, 84, 121, 112, 101, 58, 32, 116, 101, 120, 116, 47, 112, 108, 97, 105,
        110, 13, 10, 67, 111, 110, 116, 101, 110, 116, 45, 76, 101, 110, 103, 116, 104, 58, 32,
    ]
}

/// Everything between the content length and the body:
/// `\r\nConnection: keep-alive\r\n\r\n`.
pub open spec fn response_suffix() -> Seq<u8> {
    seq![
        13u8, 10, 67, 111, 110, 110, 101, 99, 116, 105, 111, 110, 58, 32, 107, 101, 101, 112, 45,
        97, 108, 105, 118, 101, 13, 10, 13, 10,
    ]
}

/// The complete response for a given body: status line, content type, the
/// body length in decimal, keep-alive, blank line, body.
pub open spec fn response_bytes(body: Seq<u8>) -> Seq<u8> {
    response_prefix() + dec_digits(body.len()) + response_suffix() + body
}

/// The fixed response body.
pub open spec fn spec_body() -> Seq<u8> {
    seq![86u8, 114, 121, 112, 116]
}

/// The fixed response body, `Vrypt`.
pub fn response_body() -> (r: Vec<u8>)
    ensures
        r@ == spec_body(),
{
    let mut v: Vec<u8> = Vec::new();
    v.push(86);
    v.push(114);
    v.push(121);
    v.push(112);
    v.push(116);
    proof {
        assert(v@ =~= spec_body());
    }
    v
}

/// Build the full response served for every complete request.
#[verifier::rlimit(100)]
pub fn build_response(body: &[u8]) -> (r: Vec<u8>)
    ensures
        r@ == response_bytes(body@),
{
    let mut r: Vec<u8> = Vec::new();
    r.push(72);
    r.push(84);
    r.push(84);
    r.push(80);
    r.push(47);
    r.push(49);
    r.push(46);
    r.push(49);
    r.push(32);
    r.push(50);
    r.push(48);
    r.push(48);
    r.push(32);
    r.push(79);
    r.push(75);
    r.push(13);
    r.push(10);
    r.push(67);
    r.push(111);
    r.push(110);
    r.push(116);
    r.push(101);
    r.push(110);
    r.push(116);
    r.push(45);
    r.push(84);
    r.push(121);
    r.push(112);
    r.push(101);
    r.push(58);
    r.push(32);
    r.push(116);
    r.push(101);
    r.push(120);
    r.push(116);
    r.push(47);
    r.push(112);
    r.push(108);
    r.push(97);
    r.push(105);
    r.push(110);
    r.push(13);
    r.push(10);
    r.push(67);
    r.push(111);
    r.push(110);
    r.push(116);
    r.push(101);
    r.push(110);
    r.push(116);
    r.push(45);
    r.push(76);
    r.push(101);
    r.push(110);
    r.push(103);
    r.push(116);
    r.push(104);
    r.push(58);
    r.push(32);
    proof {
        assert(r@ =~= response_prefix());
    }
    let mut len_digits = u64_to_dec(body.len() as u64);
    r.append(&mut len_digits);
    r.push(13);
    r.push(10);
    r.push(67);
    r.push(111);
    r.push(110);
    r.push(110);
    r.push(101);
    r.push(99);
    r.push(116);
    r.push(105);
    r.push(111);
    r.push(110);
    r.push(58);
    r.push(32);
    r.push(107);
    r.push(101);
    r.push(101);
    r.push(112);
    r.push(45);
    r.push(97);
    r.push(108);
    r.push(105);
    r.push(118);
    r.push(101);
    r.push(13);
    r.push(10);
    r.push(13);
    r.push(10);
    proof {
        assert(r@ =~= response_prefix() + dec_digits(body@.len()) + response_suffix());
    }
    let mut i: usize = 0;
    let ghost mid = r@;
    while i < body.len()
        invariant
            i <= body@.len(),
            r@ == mid + body@.take(i as int),
        decreases body@.len() - i,
    {
        r.push(body[i]);
        proof {
            assert(r@ =~= mid + body@.take(i + 1));
        }
        i = i + 1;
    }
    proof {
        assert(body@.take(body@.len() as int) =~= body@);
        assert(r@ =~= response_bytes(body@));
    }
    r
}

/// The metric name of the stats datagram, `vrypt.rps`.
pub open spec fn metric_bytes() -> Seq<u8> {
    seq![118u8, 114, 121, 112, 116, 46, 114, 112, 115]
}

/// The statsd gauge datagram for one tick: `vrypt.rps:<delta>|g`.
pub open spec fn stats_message_bytes(delta: nat) -> Seq<u8> {
    metric_bytes() + seq![58u8] + dec_digits(delta) + seq![124u8, 103u8]
}

/// Format the statsd gauge datagram announcing this tick's delta.
pub fn stats_message(delta: u64) -> (r: Vec<u8>)
    ensures
        r@ == stats_message_bytes(delta as nat),
{
    let mut r: Vec<u8> = Vec::new();
    r.push(118);
    r.push(114);
    r.push(121);
    r.push(112);
    r.push(116);
    r.push(46);
    r.push(114);
    r.push(112);
    r.push(115);
    r.push(58);
    let mut digits = u64_to_dec(delta);
    r.append(&mut digits);
    r.push(124);
    r.push(103);
    proof {
        assert(r@ =~= stats_message_bytes(delta as nat));
    }
    r
}

} // verus!
