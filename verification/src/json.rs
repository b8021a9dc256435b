//! JSON text for the request and response bodies the site emits: string
//! literals with the mandatory escapes (RFC 8259 §7), and arrays of them.

use vstd::prelude::*;
use crate::text::chars_of;

verus! {

/// The lowercase hexadecimal digit of `n` (0..=15).
pub open spec fn hex_digit(n: int) -> char {
    if n < 10 {
        (48 + n) as char
    } else {
        (87 + n) as char
    }
}

/// The JSON escape of one character: `"` and `\` are backslashed, the usual
/// control characters get their short escapes, other control characters
/// become `\u00XX`, and everything else stands as is.
pub open spec fn escape_char(c: char) -> Seq<char> {
    if c == '"' {
        seq!['\\', '"']
    } else if c == '\\' {
        seq!['\\', '\\']
    } else if c == '\n' {
        seq!['\\', 'n']
    } else if c == '\r' {
        seq!['\\', 'r']
    } else if c == '\t' {
        seq!['\\', 't']
    } else if c == '\u{8}' {
        seq!['\\', 'b']
    } else if c == '\u{c}' {
        seq!['\\', 'f']
    } else if (c as u32) < 0x20 {
        seq!['\\', 'u', '0', '0', hex_digit((c as u32) as int / 16), hex_digit((c as u32) as int % 16)]
    } else {
        seq![c]
    }
}

/// The escaped body of a JSON string.
pub open spec fn escaped(s: Seq<char>) -> Seq<char>
    decreases s.len(),
{
    if s.len() == 0 {
        seq![]
    } else {
        escaped(s.drop_last()) + escape_char(s.last())
    }
}

/// A JSON string literal holding `s`.
pub open spec fn json_string(s: Seq<char>) -> Seq<char> {
    seq!['"'] + escaped(s) + seq!['"']
}

/// The string literals of `items`, comma-separated.
pub open spec fn joined_strings(items: Seq<Seq<char>>) -> Seq<char>
    decreases items.len(),
{
    if items.len() == 0 {
        seq![]
    } else if items.len() == 1 {
        json_string(items[0])
    } else {
        joined_strings(items.drop_last()) + seq![','] + json_string(items.last())
    }
}

/// A JSON array of the string literals of `items`.
pub open spec fn json_string_array(items: Seq<Seq<char>>) -> Seq<char> {
    seq!['['] + joined_strings(items) + seq![']']
}

fn hex_of(n: u32) -> (c: char)
    requires
        n < 16,
    ensures
        c == hex_digit(n as int),
{
    if n < 10 {
        ((48 + n) as u8) as char
    } else {
        ((87 + n) as u8) as char
    }
}

/// Append the JSON escape of `c`.
pub fn push_escaped_char(out: &mut Vec<char>, c: char)
    ensures
        final(out)@ == old(out)@ + escape_char(c),
{
    let ghost start = out@;
    if c == '"' {
        out.push('\\');
        out.push('"');
    } else if c == '\\' {
        out.push('\\');
        out.push('\\');
    } else if c == '\n' {
        out.push('\\');
        out.push('n');
    } else if c == '\r' {
        out.push('\\');
        out.push('r');
    } else if c == '\t' {
        out.push('\\');
        out.push('t');
    } else if c == '\u{8}' {
        out.push('\\');
        out.push('b');
    } else if c == '\u{c}' {
        out.push('\\');
        out.push('f');
    } else if (c as u32) < 0x20 {
        out.push('\\');
        out.push('u');
        out.push('0');
        out.push('0');
        out.push(hex_of((c as u32) / 16));
        out.push(hex_of((c as u32) % 16));
    } else {
        out.push(c);
    }
    assert(out@ =~= start + escape_char(c));
}

/// Append the JSON string literal holding `s`.
pub fn push_json_string(out: &mut Vec<char>, s: &str)
    ensures
        final(out)@ == old(out)@ + json_string(s@),
{
    let v = chars_of(s);
    let ghost start = out@;
    out.push('"');
    let mut i: usize = 0;
    while i < v.len()
        invariant
            i <= v@.len(),
            out@ == start + seq!['"'] + escaped(v@.subrange(0, i as int)),
        decreases v@.len() - i,
    {
        let ghost before = out@;
        assert(v@.subrange(0, i + 1).drop_last() =~= v@.subrange(0, i as int));
        push_escaped_char(out, v[i]);
        assert(out@ =~= start + seq!['"'] + escaped(v@.subrange(0, i + 1)));
        i = i + 1;
    }
    assert(v@.subrange(0, v@.len() as int) =~= v@);
    out.push('"');
    assert(out@ =~= start + json_string(s@));
}

/// Append a JSON array of the string literals of `items`.
pub fn push_json_string_array(out: &mut Vec<char>, items: &Vec<String>)
    ensures
        final(out)@ == old(out)@ + json_string_array(Seq::new(items@.len(), |k: int| items@[k]@)),
{
    let ghost all = Seq::new(items@.len(), |k: int| items@[k]@);
    let ghost start = out@;
    out.push('[');
    let mut i: usize = 0;
    while i < items.len()
        invariant
            i <= items@.len(),
            all == Seq::new(items@.len(), |k: int| items@[k]@),
            out@ == start + seq!['['] + joined_strings(all.subrange(0, i as int)),
        decreases items@.len() - i,
    {
        let ghost before = out@;
        assert(all.subrange(0, i + 1).drop_last() =~= all.subrange(0, i as int));
        assert(all.subrange(0, i + 1).last() == items@[i as int]@);
        if i > 0 {
            out.push(',');
        } else {
            assert(all.subrange(0, 0) =~= Seq::<Seq<char>>::empty());
        }
        push_json_string(out, items[i].as_str());
        assert(out@ =~= start + seq!['['] + joined_strings(all.subrange(0, i + 1)));
        i = i + 1;
    }
    assert(all.subrange(0, items@.len() as int) =~= all);
    out.push(']');
    assert(out@ =~= start + json_string_array(all));
}

} // verus!
