//! Parsing of whitespace-separated hex byte strings, used to write byte-level
//! test vectors compactly (`"02 00 07"` for the bytes 2, 0, 7).

use vstd::prelude::*;
use vstd::string::StrSliceExecFns;

verus! {

/// True for the whitespace characters that may separate hex byte tokens.
pub open spec fn is_hex_space(c: char) -> bool {
    c == ' ' || c == '\n' || c == '\t' || c == '\r'
}

/// True for an ASCII hex digit.
pub open spec fn is_hex_digit(c: char) -> bool {
    ('0' <= c && c <= '9') || ('a' <= c && c <= 'f') || ('A' <= c && c <= 'F')
}

/// Numeric value of an ASCII hex digit.
pub open spec fn hex_digit_val(c: char) -> u8 {
    if '0' <= c && c <= '9' {
        (c as u32 - '0' as u32) as u8
    } else if 'a' <= c && c <= 'f' {
        (c as u32 - 'a' as u32 + 10) as u8
    } else {
        (c as u32 - 'A' as u32 + 10) as u8
    }
}

/// True when the characters form whitespace-separated tokens of one or two
/// hex digits each.
pub open spec fn hex_string_ok(s: Seq<char>) -> bool
    decreases s.len(),
{
    if s.len() == 0 {
        true
    } else if is_hex_space(s[0]) {
        hex_string_ok(s.skip(1))
    } else if is_hex_digit(s[0]) {
        if s.len() >= 2 && is_hex_digit(s[1]) {
            (s.len() == 2 || is_hex_space(s[2])) && hex_string_ok(s.skip(2))
        } else {
            (s.len() == 1 || is_hex_space(s[1])) && hex_string_ok(s.skip(1))
        }
    } else {
        false
    }
}

/// The bytes denoted by a well-formed hex byte string: each token of one or
/// two hex digits yields one byte, most significant digit first.
pub open spec fn hex_string_bytes(s: Seq<char>) -> Seq<u8>
    decreases s.len(),
{
    if s.len() == 0 {
        Seq::empty()
    } else if is_hex_space(s[0]) {
        hex_string_bytes(s.skip(1))
    } else if s.len() >= 2 && is_hex_digit(s[1]) {
        seq![(16 * hex_digit_val(s[0]) + hex_digit_val(s[1])) as u8] + hex_string_bytes(s.skip(2))
    } else {
        seq![hex_digit_val(s[0])] + hex_string_bytes(s.skip(1))
    }
}

fn hex_digit_value(c: char) -> (r: u8)
    requires
        is_hex_digit(c),
    ensures
        r == hex_digit_val(c),
        r < 16,
{
    let u = c as u32;
    if u >= '0' as u32 && u <= '9' as u32 {
        (u - '0' as u32) as u8
    } else if u >= 'a' as u32 && u <= 'f' as u32 {
        (u - 'a' as u32 + 10) as u8
    } else {
        (u - 'A' as u32 + 10) as u8
    }
}

/// Parses a whitespace-separated string of one- or two-digit hex byte tokens
/// into the bytes it denotes.
pub fn bytes_from_hex_string(hex_str: &str) -> (r: Vec<u8>)
    requires
        hex_string_ok(hex_str@),
    ensures
        r@ == hex_string_bytes(hex_str@),
{
    let s = hex_str;
    let n = s.unicode_len();
    let mut out: Vec<u8> = Vec::new();
    let mut i: usize = 0;
    proof {
        assert(s@.skip(0) =~= s@);
        assert(out@ + hex_string_bytes(s@) =~= hex_string_bytes(s@));
    }
    while i < n
        invariant
            i <= n,
            n == s@.len(),
            hex_string_ok(s@.skip(i as int)),
            out@ + hex_string_bytes(s@.skip(i as int)) == hex_string_bytes(s@),
        decreases n - i,
    {
        let c = s.get_char(i);
        proof {
            assert(s@.skip(i as int)[0] == s@[i as int]);
        }
        if c == ' ' || c == '\n' || c == '\t' || c == '\r' {
            proof {
                assert(s@.skip(i as int).skip(1) =~= s@.skip(i as int + 1));
            }
            i = i + 1;
        } else {
            let h0 = hex_digit_value(c);
            if i + 1 < n {
                let c1 = s.get_char(i + 1);
                proof {
                    assert(s@.skip(i as int)[1] == s@[i as int + 1]);
                }
                let u1 = c1 as u32;
                let second_is_digit = (u1 >= '0' as u32 && u1 <= '9' as u32) || (u1 >= 'a' as u32
                    && u1 <= 'f' as u32) || (u1 >= 'A' as u32 && u1 <= 'F' as u32);
                if second_is_digit {
                    let h1 = hex_digit_value(c1);
                    out.push(16 * h0 + h1);
                    proof {
                        assert(s@.skip(i as int).skip(2) =~= s@.skip(i as int + 2));
                    }
                    i = i + 2;
                } else {
                    out.push(h0);
                    proof {
                        assert(s@.skip(i as int).skip(1) =~= s@.skip(i as int + 1));
                    }
                    i = i + 1;
                }
            } else {
                out.push(h0);
                proof {
                    assert(s@.skip(i as int).skip(1) =~= s@.skip(i as int + 1));
                }
                i = i + 1;
            }
        }
    }
    proof {
        assert(s@.skip(n as int) =~= Seq::<char>::empty());
        assert(out@ =~= hex_string_bytes(s@));
    }
    out
}

} // verus!
