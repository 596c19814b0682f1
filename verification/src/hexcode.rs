//! Uppercase hexadecimal encoding of digests and the matching decoder.
//!
//! A table key is the 128-character uppercase hex rendering of a 64-byte
//! digest.  The decoder accepts both cases, as the keys handed in over the
//! wire may be typed either way, and rejects odd lengths and non-hex digits.
use vstd::prelude::*;
use vstd::string::{StrSliceExecFns, StringExecFns};

verus! {

/// The uppercase hex digit for a nibble value.
pub open spec fn hex_char_of(n: int) -> char
    recommends
        0 <= n < 16,
{
    if n == 0 {
        '0'
    } else if n == 1 {
        '1'
    } else if n == 2 {
        '2'
    } else if n == 3 {
        '3'
    } else if n == 4 {
        '4'
    } else if n == 5 {
        '5'
    } else if n == 6 {
        '6'
    } else if n == 7 {
        '7'
    } else if n == 8 {
        '8'
    } else if n == 9 {
        '9'
    } else if n == 10 {
        'A'
    } else if n == 11 {
        'B'
    } else if n == 12 {
        'C'
    } else if n == 13 {
        'D'
    } else if n == 14 {
        'E'
    } else {
        'F'
    }
}

/// Uppercase hex rendering of a byte sequence, two digits per byte.
pub open spec fn hex_upper(b: Seq<u8>) -> Seq<char>
    decreases b.len(),
{
    if b.len() == 0 {
        Seq::<char>::empty()
    } else {
        seq![hex_char_of(b[0] as int / 16), hex_char_of(b[0] as int % 16)] + hex_upper(
            b.drop_first(),
        )
    }
}

/// The value of one hex digit, upper or lower case; -1 for any other character.
pub open spec fn hex_val(c: char) -> int {
    let u = c as u32;
    if 48 <= u <= 57 {
        u - 48
    } else if 65 <= u <= 70 {
        u - 55
    } else if 97 <= u <= 102 {
        u - 87
    } else {
        -1
    }
}

/// Decodes a hex string to bytes; `None` on odd length or a non-hex digit.
pub open spec fn hex_decode(s: Seq<char>) -> Option<Seq<u8>>
    decreases s.len(),
{
    if s.len() == 0 {
        Some(Seq::<u8>::empty())
    } else if s.len() == 1 {
        None
    } else {
        let h = hex_val(s[0]);
        let l = hex_val(s[1]);
        if h < 0 || l < 0 {
            None
        } else {
            match hex_decode(s.skip(2)) {
                None => None,
                Some(r) => Some(seq![(h * 16 + l) as u8] + r),
            }
        }
    }
}

proof fn lemma_hex_char_val(n: int)
    requires
        0 <= n < 16,
    ensures
        hex_val(hex_char_of(n)) == n,
{
}

pub proof fn lemma_hex_upper_len(b: Seq<u8>)
    ensures
        hex_upper(b).len() == 2 * b.len(),
    decreases b.len(),
{
    if b.len() > 0 {
        lemma_hex_upper_len(b.drop_first());
    }
}

/// Decoding undoes encoding: every key the library builds decodes back to
/// the digest it was built from.
pub proof fn lemma_hex_round_trip(b: Seq<u8>)
    ensures
        hex_decode(hex_upper(b)) == Some(b),
    decreases b.len(),
{
    if b.len() == 0 {
        assert(hex_upper(b) =~= Seq::<char>::empty());
    } else {
        lemma_hex_round_trip(b.drop_first());
        lemma_hex_upper_len(b.drop_first());
        let s = hex_upper(b);
        let h = b[0] as int / 16;
        let l = b[0] as int % 16;
        lemma_hex_char_val(h);
        lemma_hex_char_val(l);
        assert(s.skip(2) =~= hex_upper(b.drop_first()));
        assert(hex_val(s[0]) == h && hex_val(s[1]) == l);
        assert((h * 16 + l) as u8 == b[0]);
        assert(seq![b[0]] + b.drop_first() =~= b);
    }
}

/// The one-character string for an uppercase hex digit.
fn hex_digit_str(n: u8) -> (r: &'static str)
    requires
        n < 16,
    ensures
        r@ =~= seq![hex_char_of(n as int)],
        r@.len() == 1,
{
    proof {
        reveal_strlit("0");
        reveal_strlit("1");
        reveal_strlit("2");
        reveal_strlit("3");
        reveal_strlit("4");
        reveal_strlit("5");
        reveal_strlit("6");
        reveal_strlit("7");
        reveal_strlit("8");
        reveal_strlit("9");
        reveal_strlit("A");
        reveal_strlit("B");
        reveal_strlit("C");
        reveal_strlit("D");
        reveal_strlit("E");
        reveal_strlit("F");
    }
    match n {
        0 => "0",
        1 => "1",
        2 => "2",
        3 => "3",
        4 => "4",
        5 => "5",
        6 => "6",
        7 => "7",
        8 => "8",
        9 => "9",
        10 => "A",
        11 => "B",
        12 => "C",
        13 => "D",
        14 => "E",
        _ => "F",
    }
}

proof fn lemma_hex_upper_push(b: Seq<u8>, x: u8)
    ensures
        hex_upper(b.push(x)) =~= hex_upper(b) + seq![
            hex_char_of(x as int / 16),
            hex_char_of(x as int % 16),
        ],
    decreases b.len(),
{
    let p = b.push(x);
    let two = seq![hex_char_of(x as int / 16), hex_char_of(x as int % 16)];
    assert(p.len() == b.len() + 1);
    assert(hex_upper(p) == seq![hex_char_of(p[0] as int / 16), hex_char_of(p[0] as int % 16)]
        + hex_upper(p.drop_first()));
    if b.len() == 0 {
        assert(p[0] == x);
        assert(p.drop_first() =~= Seq::<u8>::empty());
        assert(hex_upper(p.drop_first()) == Seq::<char>::empty());
        assert(hex_upper(b) == Seq::<char>::empty());
        assert(hex_upper(p) =~= hex_upper(b) + two);
    } else {
        lemma_hex_upper_push(b.drop_first(), x);
        lemma_hex_upper_len(b.drop_first());
        assert(p[0] == b[0]);
        assert(p.drop_first() =~= b.drop_first().push(x));
        let head = seq![hex_char_of(b[0] as int / 16), hex_char_of(b[0] as int % 16)];
        assert(hex_upper(p) == head + (hex_upper(b.drop_first()) + two));
        assert(hex_upper(b) == head + hex_upper(b.drop_first()));
        assert(head + (hex_upper(b.drop_first()) + two) =~= (head + hex_upper(b.drop_first()))
            + two);
        assert(hex_upper(p) =~= hex_upper(b) + two);
    }
}

/// Renders bytes as uppercase hex, two digits per byte.
pub fn bytes_to_hex(a: &Vec<u8>) -> (r: String)
    ensures
        r@ == hex_upper(a@),
        r@.len() == 2 * a@.len(),
{
    let mut s = String::new();
    let mut i: usize = 0;
    while i < a.len()
        invariant
            i <= a.len(),
            s@ == hex_upper(a@.take(i as int)),
        decreases a.len() - i,
    {
        let b = a[i];
        let hi = hex_digit_str(b / 16);
        let lo = hex_digit_str(b % 16);
        s.append(hi);
        s.append(lo);
        proof {
            lemma_hex_upper_push(a@.take(i as int), b);
            assert(a@.take(i as int).push(b) =~= a@.take(i + 1));
        }
        i += 1;
    }
    proof {
        assert(a@.take(a@.len() as int) =~= a@);
        lemma_hex_upper_len(a@);
    }
    s
}

/// Decodes a hex string; `None` on odd length or a character outside
/// `0-9A-Fa-f`.
pub fn hex_to_bytes(s: &str) -> (r: Option<Vec<u8>>)
    ensures
        match r {
            Some(v) => hex_decode(s@) == Some(v@),
            None => hex_decode(s@) is None,
        },
{
    let n = s.unicode_len();
    if n % 2 != 0 {
        proof {
            lemma_hex_decode_odd(s@);
        }
        return None;
    }
    let mut out: Vec<u8> = Vec::new();
    let mut i: usize = 0;
    proof {
        assert(s@.skip(0) =~= s@);
        if hex_decode(s@) is Some {
            let v = hex_decode(s@)->Some_0;
            assert(Seq::<u8>::empty() + v =~= v);
        }
    }
    while i < n
        invariant
            i <= n,
            n == s@.len(),
            i % 2 == 0,
            n % 2 == 0,
            hex_decode(s@) == (match hex_decode(s@.skip(i as int)) {
                None => None::<Seq<u8>>,
                Some(v) => Some(out@ + v),
            }),
        decreases n - i,
    {
        let c1 = s.get_char(i);
        let c2 = s.get_char(i + 1);
        let v1 = hex_char_value(c1);
        let v2 = hex_char_value(c2);
        proof {
            assert(s@.skip(i as int).len() >= 2);
            assert(s@.skip(i as int)[0] == s@[i as int]);
            assert(s@.skip(i as int)[1] == s@[i as int + 1]);
        }
        if v1 >= 16 || v2 >= 16 {
            proof {
                assert(hex_decode(s@.skip(i as int)) is None);
            }
            return None;
        }
        let byte: u8 = v1 * 16 + v2;
        let ghost prev = out@;
        out.push(byte);
        proof {
            assert(s@.skip(i as int).skip(2) =~= s@.skip(i as int + 2));
            if hex_decode(s@.skip(i as int + 2)) is Some {
                let v = hex_decode(s@.skip(i as int + 2))->Some_0;
                assert(hex_decode(s@.skip(i as int)) == Some(seq![byte] + v));
                assert(prev + (seq![byte] + v) =~= out@ + v);
            }
        }
        i += 2;
    }
    proof {
        assert(s@.skip(n as int) =~= Seq::<char>::empty());
        assert(out@ + Seq::<u8>::empty() =~= out@);
    }
    Some(out)
}

proof fn lemma_hex_decode_odd(s: Seq<char>)
    requires
        s.len() % 2 == 1,
    ensures
        hex_decode(s) is None,
    decreases s.len(),
{
    if s.len() > 1 {
        lemma_hex_decode_odd(s.skip(2));
    }
}

/// The numeric value of a hex digit; 255 for any other character.
fn hex_char_value(c: char) -> (r: u8)
    ensures
        hex_val(c) >= 0 ==> r == hex_val(c),
        hex_val(c) < 0 ==> r == 255,
{
    let u = c as u32;
    if 48 <= u && u <= 57 {
        (u - 48) as u8
    } else if 65 <= u && u <= 70 {
        (u - 55) as u8
    } else if 97 <= u && u <= 102 {
        (u - 87) as u8
    } else {
        255
    }
}

} // verus!
