//! The few JSON shapes the reports print, written by hand: quoted strings
//! with their escapes, and `"name":value` fields.

use vstd::prelude::*;
use crate::text::{chars_of, decimal, decimal_chars, push_chars, push_str, string_of};

verus! {

/// The hex digit for `d < 16`, lower case.
pub open spec fn hex_char(d: nat) -> char {
    if d < 10 {
        crate::text::digit_char(d)
    } else if d == 10 {
        'a'
    } else if d == 11 {
        'b'
    } else if d == 12 {
        'c'
    } else if d == 13 {
        'd'
    } else if d == 14 {
        'e'
    } else {
        'f'
    }
}

/// How one character is written inside a JSON string.
pub open spec fn json_esc_char(c: char) -> Seq<char> {
    if c == '"' {
        seq!['\\', '"']
    } else if c == '\\' {
        seq!['\\', '\\']
    } else if c == '\n' {
        seq!['\\', 'n']
    } else if c == '\r' {
        seq!['\\', 'r']
    } else if c == '\t' {
        seq!['\\', 't']
    } else if (c as u32) < 0x20 {
        seq!['\\', 'u', '0', '0', hex_char((c as u32 / 16) as nat), hex_char((c as u32 % 16) as nat)]
    } else {
        seq![c]
    }
}

/// The inside of a JSON string holding `s`.
pub open spec fn json_escape(s: Seq<char>) -> Seq<char>
    decreases s.len(),
{
    if s.len() == 0 {
        seq![]
    } else {
        json_esc_char(s[0]) + json_escape(s.skip(1))
    }
}

/// `s` as a JSON string, quotes included.
pub open spec fn quoted(s: Seq<char>) -> Seq<char> {
    seq!['"'] + json_escape(s) + seq!['"']
}

/// `"name":` before a field's value.
pub open spec fn field_head(name: Seq<char>) -> Seq<char> {
    seq!['"'] + name + seq!['"', ':']
}

fn hex_exec(d: u32) -> (c: char)
    requires
        d < 16,
    ensures
        c == hex_char(d as nat),
{
    if d < 10 {
        let v = decimal_chars(d as u64);
        assert(v@ == seq![crate::text::digit_char(d as nat)]);
        v[0]
    } else if d == 10 {
        'a'
    } else if d == 11 {
        'b'
    } else if d == 12 {
        'c'
    } else if d == 13 {
        'd'
    } else if d == 14 {
        'e'
    } else {
        'f'
    }
}

/// Append the escaped form of `s`.
pub fn push_escaped(out: &mut Vec<char>, s: &Vec<char>)
    ensures
        final(out)@ == old(out)@ + json_escape(s@),
{
    let ghost start = out@;
    let mut i: usize = 0;
    assert(s@.skip(0) =~= s@);
    while i < s.len()
        invariant
            i <= s.len(),
            out@ + json_escape(s@.skip(i as int)) == start + json_escape(s@),
        decreases s.len() - i,
    {
        let c = s[i];
        let ghost before = out@;
        if c == '"' {
            out.push('\\');
            out.push('"');
        } else if c == '\\' {
            out.push('\\');
            out.push('\\');
        } else if c == '\n' {
            out.push('\\');
            out.push('n');
        } else if c == '\r' {
            out.push('\\');
            out.push('r');
        } else if c == '\t' {
            out.push('\\');
            out.push('t');
        } else if (c as u32) < 0x20 {
            out.push('\\');
            out.push('u');
            out.push('0');
            out.push('0');
            out.push(hex_exec(c as u32 / 16));
            out.push(hex_exec(c as u32 % 16));
        } else {
            out.push(c);
        }
        proof {
            assert(out@ =~= before + json_esc_char(c));
            assert(s@.skip(i as int).skip(1) =~= s@.skip(i + 1));
            assert(json_escape(s@.skip(i as int)) == json_esc_char(c) + json_escape(s@.skip(i + 1)));
        }
        i += 1;
    }
    assert(s@.skip(i as int) =~= seq![]);
    assert(out@ + seq![] =~= out@);
}

/// `s` escaped for the inside of a JSON string.
pub fn escape(s: &str) -> (r: String)
    ensures
        r@ == json_escape(s@),
{
    let mut out: Vec<char> = Vec::new();
    push_escaped(&mut out, &chars_of(s));
    string_of(&out)
}

/// Append `"name":"value"`.
pub fn push_string_field(out: &mut Vec<char>, name: &str, value: &str)
    ensures
        final(out)@ == old(out)@ + field_head(name@) + quoted(value@),
{
    let ghost start = out@;
    out.push('"');
    push_str(out, name);
    out.push('"');
    out.push(':');
    out.push('"');
    push_escaped(out, &chars_of(value));
    out.push('"');
    assert(out@ =~= start + field_head(name@) + quoted(value@));
}

/// A number or `null`.
pub open spec fn opt_number(n: Option<u64>) -> Seq<char> {
    match n {
        Some(v) => decimal(v as nat),
        None => "null"@,
    }
}

/// Append `"name":<n>` or `"name":null`.
pub fn push_opt_number_field(out: &mut Vec<char>, name: &str, n: Option<u64>)
    ensures
        final(out)@ == old(out)@ + field_head(name@) + opt_number(n),
{
    let ghost start = out@;
    out.push('"');
    push_str(out, name);
    out.push('"');
    out.push(':');
    match n {
        Some(v) => push_chars(out, &decimal_chars(v)),
        None => {
            proof {
                reveal_strlit("null");
            }
            push_str(out, "null");
        },
    }
    assert(out@ =~= start + field_head(name@) + opt_number(n));
}

/// `true` or `false`.
pub open spec fn bool_text(b: bool) -> Seq<char> {
    if b {
        "true"@
    } else {
        "false"@
    }
}

/// Append `"name":true` or `"name":false`.
pub fn push_bool_field(out: &mut Vec<char>, name: &str, b: bool)
    ensures
        final(out)@ == old(out)@ + field_head(name@) + bool_text(b),
{
    let ghost start = out@;
    out.push('"');
    push_str(out, name);
    out.push('"');
    out.push(':');
    if b {
        push_str(out, "true");
    } else {
        push_str(out, "false");
    }
    assert(out@ =~= start + field_head(name@) + bool_text(b));
}

} // verus!
