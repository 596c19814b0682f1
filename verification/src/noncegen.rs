//! The message generator: brute-forces a nonce meeting a proof-of-work
//! target, for composing a `set` request line.
use vstd::prelude::*;
use vstd::string::{StrSliceExecFns, StringExecFns, StringSliceAdditionalSpecFns};
use vstd::utf8::encode_utf8;
use rand::distr::{Alphanumeric, SampleString};
use crate::digest::{sha512_of, get_hash};
use crate::pow::{leading_zero_bits, get_leading_zeros};

verus! {

/// Relies on rand's `Alphanumeric::sample_string`: a string of exactly
/// `len` characters, each an ASCII letter or digit.
#[verifier::external_body]
fn random_alnum_string(len: usize) -> (r: String)
    ensures
        r@.len() == len,
{
    SampleString::sample_string(&Alphanumeric, &mut rand::rng(), len)
}

/// Searches for a nonce whose message digest has at least `min_pow`
/// leading zero bits, drawing at most `attempts` random candidates.
/// The nonce length grows with the target, one character per four bits.
pub fn find_nonce(timestamp: &str, payload: &str, min_pow: u64, attempts: u64) -> (r: Option<
    String,
>)
    requires
        min_pow <= 512,
    ensures
        match r {
            Some(n) => n@.len() == min_pow / 4 + 1 && leading_zero_bits(
                sha512_of(encode_utf8(n@) + timestamp.spec_bytes() + payload.spec_bytes()),
            ) >= min_pow,
            None => true,
        },
{
    let nlen: usize = (min_pow / 4) as usize + 1;
    let mut i: u64 = 0;
    while i < attempts
        invariant
            min_pow <= 512,
            nlen == min_pow / 4 + 1,
        decreases attempts - i,
    {
        let nonce = random_alnum_string(nlen);
        let h = get_hash(nonce.as_str(), timestamp, payload);
        let p = get_leading_zeros(&h);
        if p >= min_pow {
            return Some(nonce);
        }
        i += 1;
    }
    None
}

/// Renders the `set` request line for a found message.
pub fn make_set_line(nonce: &str, timestamp: &str, payload: &str) -> (r: String)
    ensures
        r@ == "set "@ + nonce@ + " "@ + timestamp@ + " "@ + payload@,
{
    let mut s = String::from_str("set ");
    s.append(nonce);
    s.append(" ");
    s.append(timestamp);
    s.append(" ");
    s.append(payload);
    s
}

} // verus!
