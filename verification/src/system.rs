//! Text that comes back from the operating system's wide-character calls.

use vstd::prelude::*;

use crate::text::string_push;

verus! {

pub open spec fn is_high_surrogate(u: u16) -> bool {
    0xD800 <= u <= 0xDBFF
}

pub open spec fn is_low_surrogate(u: u16) -> bool {
    0xDC00 <= u <= 0xDFFF
}

pub open spec fn is_surrogate(u: u16) -> bool {
    0xD800 <= u <= 0xDFFF
}

/// Whether a number is a Unicode scalar value, i.e. a valid `char`.
pub open spec fn is_scalar(x: u32) -> bool {
    x <= 0xD7FF || (0xE000 <= x && x <= 0x10FFFF)
}

/// The scalar value that a high and a low surrogate encode together.
pub open spec fn pair_scalar(hi: u16, lo: u16) -> int {
    0x10000 + (hi - 0xD800) * 0x400 + (lo - 0xDC00)
}

/// Upper-case hexadecimal digit for a nibble.
pub open spec fn hex_upper_char(d: int) -> char {
    if d < 10 {
        (('0' as int) + d) as char
    } else {
        (('A' as int) + d - 10) as char
    }
}

/// `format!("\\u{{{:X}}}", u)` for a unit in `0x1000..=0xFFFF`, where `{:X}`
/// gives exactly four digits; every surrogate lies in that range.
pub open spec fn escape_unit(u: u16) -> Seq<char> {
    seq![
        '\\',
        'u',
        '{',
        hex_upper_char((u / 0x1000) as int),
        hex_upper_char(((u / 0x100) % 16) as int),
        hex_upper_char(((u / 0x10) % 16) as int),
        hex_upper_char((u % 16) as int),
        '}',
    ]
}

/// UTF-16 decoding in which each unpaired surrogate is kept as an escape
/// such as `\u{D800}` instead of being dropped: a high surrogate followed by
/// a low one is one character; any other surrogate stands alone and is escaped,
/// and the unit after an unpaired high surrogate is decoded afresh.
pub open spec fn decode_utf16_spec(s: Seq<u16>) -> Seq<char>
    decreases s.len(),
{
    if s.len() == 0 {
        Seq::empty()
    } else if is_high_surrogate(s[0]) && s.len() >= 2 && is_low_surrogate(s[1]) {
        seq![pair_scalar(s[0], s[1]) as char] + decode_utf16_spec(s.skip(2))
    } else if is_surrogate(s[0]) {
        escape_unit(s[0]) + decode_utf16_spec(s.skip(1))
    } else {
        seq![s[0] as char] + decode_utf16_spec(s.skip(1))
    }
}

/// `char::from_u32`: the character with that scalar value, or `None` for a
/// surrogate or a number above `0x10FFFF`.
#[verifier::external_body]
fn char_from_u32(x: u32) -> (r: Option<char>)
    ensures
        r == (if is_scalar(x) { Some(x as char) } else { None::<char> }),
{
    char::from_u32(x)
}

fn hex_upper_exec(d: u16) -> (c: char)
    requires
        d < 16,
    ensures
        c == hex_upper_char(d as int),
{
    if d < 10 {
        (48u8 + d as u8) as char
    } else {
        (55u8 + d as u8) as char
    }
}

fn push_escape(out: &mut String, u: u16)
    ensures
        final(out)@ == old(out)@ + escape_unit(u),
{
    string_push(out, '\\');
    string_push(out, 'u');
    string_push(out, '{');
    string_push(out, hex_upper_exec(u / 0x1000));
    string_push(out, hex_upper_exec((u / 0x100) % 16));
    string_push(out, hex_upper_exec((u / 0x10) % 16));
    string_push(out, hex_upper_exec(u % 16));
    string_push(out, '}');
    assert(out@ =~= old(out)@ + escape_unit(u));
}

/// Decodes UTF-16 text, keeping every unpaired surrogate visible as an
/// escape such as `\u{DC00}`, so that no part of a path is lost.
pub fn decode_utf16_preserving(v: &[u16]) -> (r: String)
    ensures
        r@ == decode_utf16_spec(v@),
{
    let mut out = String::new();
    let mut i: usize = 0;
    assert(v@.skip(0) =~= v@);
    assert(out@ + decode_utf16_spec(v@) =~= decode_utf16_spec(v@));
    while i < v.len()
        invariant
            0 <= i <= v.len(),
            out@ + decode_utf16_spec(v@.skip(i as int)) == decode_utf16_spec(v@),
        decreases v.len() - i,
    {
        let ghost rest = v@.skip(i as int);
        let u = v[i];
        assert(rest[0] == u);
        if 0xD800 <= u && u <= 0xDBFF && i + 1 < v.len() && 0xDC00 <= v[i + 1] && v[i + 1] <= 0xDFFF {
            let lo = v[i + 1];
            assert(rest[1] == lo);
            let x: u32 = 0x10000 + ((u - 0xD800) as u32) * 0x400 + ((lo - 0xDC00) as u32);
            assert(is_scalar(x));
            match char_from_u32(x) {
                Some(c) => {
                    string_push(&mut out, c);
                },
                None => {},
            }
            assert(rest.skip(2) =~= v@.skip(i + 2));
            i = i + 2;
        } else if 0xD800 <= u && u <= 0xDFFF {
            push_escape(&mut out, u);
            assert(rest.skip(1) =~= v@.skip(i + 1));
            i = i + 1;
        } else {
            assert(is_scalar(u as u32));
            match char_from_u32(u as u32) {
                Some(c) => {
                    string_push(&mut out, c);
                },
                None => {},
            }
            assert(rest.skip(1) =~= v@.skip(i + 1));
            i = i + 1;
        }
    }
    assert(v@.skip(v.len() as int) =~= Seq::<u16>::empty());
    out
}

} // verus!
