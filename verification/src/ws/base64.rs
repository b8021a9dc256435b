//! Standard base64 encoding (RFC 4648, `+/` alphabet, `=` padding), used to
//! turn the 20-byte handshake digest into the `Sec-WebSocket-Accept` token.

use vstd::prelude::*;
use crate::text::{push_char};

verus! {

/// The symbol of the 6-bit value `v` in the standard alphabet.
pub open spec fn symbol(v: int) -> char {
    if v < 26 {
        (65 + v) as char
    } else if v < 52 {
        (97 + (v - 26)) as char
    } else if v < 62 {
        (48 + (v - 52)) as char
    } else if v == 62 {
        '+'
    } else {
        '/'
    }
}

/// The byte at `i`, or zero past the end.
pub open spec fn byte_or_zero(s: Seq<u8>, i: int) -> int {
    if 0 <= i < s.len() {
        s[i] as int
    } else {
        0
    }
}

/// The 24-bit group packing the three bytes of chunk `c`, zero-padded.
pub open spec fn group(s: Seq<u8>, c: int) -> int {
    byte_or_zero(s, 3 * c) * 65536 + byte_or_zero(s, 3 * c + 1) * 256 + byte_or_zero(s, 3 * c + 2)
}

/// Output character `j`: the `j % 4`-th sextet of chunk `j / 4`, or `=` where
/// that sextet would come only from padding.
pub open spec fn encoded_char(s: Seq<u8>, j: int) -> char {
    let c = j / 4;
    let k = j % 4;
    let g = group(s, c);
    if k == 0 {
        symbol(g / 262144)
    } else if k == 1 {
        symbol((g / 4096) % 64)
    } else if k == 2 {
        if 3 * c + 1 < s.len() {
            symbol((g / 64) % 64)
        } else {
            '='
        }
    } else {
        if 3 * c + 2 < s.len() {
            symbol(g % 64)
        } else {
            '='
        }
    }
}

/// The padded base64 text of `s`: four characters per started 3-byte chunk.
pub open spec fn encoded(s: Seq<u8>) -> Seq<char> {
    Seq::new((4 * ((s.len() + 2) / 3)) as nat, |j: int| encoded_char(s, j))
}

fn symbol_of(v: u32) -> (c: char)
    requires
        v < 64,
    ensures
        c == symbol(v as int),
{
    if v < 26 {
        ((65 + v) as u8) as char
    } else if v < 52 {
        ((97 + (v - 26)) as u8) as char
    } else if v < 62 {
        ((48 + (v - 52)) as u8) as char
    } else if v == 62 {
        '+'
    } else {
        '/'
    }
}

/// Encode bytes as standard, padded base64.
pub fn encode(input: &[u8]) -> (out: String)
    requires
        input@.len() + 2 <= usize::MAX,
    ensures
        out@ == encoded(input@),
        out@.len() == 4 * ((input@.len() + 2) / 3),
{
    let n = input.len();
    let mut out = String::new();
    let mut i: usize = 0;
    while i < n
        invariant
            n == input@.len(),
            n + 2 <= usize::MAX,
            i % 3 == 0,
            i <= n + 2,
            i < n ==> i <= n,
            out@ =~= Seq::new((4 * (i / 3)) as nat, |j: int| encoded_char(input@, j)),
        decreases n + 2 - i,
    {
        let c: Ghost<int> = Ghost((i / 3) as int);
        let b0 = input[i] as u32;
        let b1: u32 = if i + 1 < n { input[i + 1] as u32 } else { 0 };
        let b2: u32 = if i + 2 < n { input[i + 2] as u32 } else { 0 };
        let grp: u32 = (b0 << 16) | (b1 << 8) | b2;
        assert(grp == b0 * 65536 + b1 * 256 + b2) by (bit_vector)
            requires
                b0 < 256,
                b1 < 256,
                b2 < 256,
                grp == (b0 << 16) | (b1 << 8) | b2,
        ;
        assert(3 * c@ == i);
        assert(grp == group(input@, c@));
        assert(grp >> 18 & 0x3f == grp / 262144 && grp / 262144 < 64) by (bit_vector)
            requires
                grp < 16777216,
        ;
        assert(grp >> 12 & 0x3f == (grp / 4096) % 64) by (bit_vector);
        assert(grp >> 6 & 0x3f == (grp / 64) % 64) by (bit_vector);
        assert(grp & 0x3f == grp % 64) by (bit_vector);
        let ghost before = out@;
        push_char(&mut out, symbol_of(grp >> 18 & 0x3f));
        push_char(&mut out, symbol_of(grp >> 12 & 0x3f));
        if i + 1 < n {
            push_char(&mut out, symbol_of(grp >> 6 & 0x3f));
        } else {
            push_char(&mut out, '=');
        }
        if i + 2 < n {
            push_char(&mut out, symbol_of(grp & 0x3f));
        } else {
            push_char(&mut out, '=');
        }
        proof {
            let m = 4 * c@;
            assert(m / 4 == c@ && m % 4 == 0);
            assert((m + 1) / 4 == c@ && (m + 1) % 4 == 1);
            assert((m + 2) / 4 == c@ && (m + 2) % 4 == 2);
            assert((m + 3) / 4 == c@ && (m + 3) % 4 == 3);
            assert((i + 3) / 3 == c@ + 1);
            assert(out@ =~= Seq::new((4 * ((i + 3) / 3)) as nat, |j: int| encoded_char(input@, j))) by {
                assert forall|j: int| 0 <= j < out@.len() implies out@[j] == encoded_char(
                    input@,
                    j,
                ) by {
                    if j < m {
                        assert(out@[j] == before[j]);
                    }
                }
            }
        }
        i = i + 3;
    }
    assert(i / 3 == (n + 2) / 3);
    out
}

} // verus!
