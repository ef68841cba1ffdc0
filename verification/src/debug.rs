//! The quoted, escaped form in which a bounded C string is shown for
//! debugging: valid UTF-8 characters appear as themselves (escaped), bytes
//! that are not part of a valid character appear as `\xNN` escapes.
use vstd::prelude::*;
use vstd::string::*;
use vstd::utf8::*;

use crate::cstring::BoundedCString;
use crate::senti::content;

verus! {

/// The lowercase hexadecimal digit for `d`.
pub open spec fn hex_digit(d: u8) -> char
    recommends
        d < 16,
{
    if d < 10 {
        ((48 + d) as u8) as char
    } else {
        ((87 + d) as u8) as char
    }
}

/// What `u8::escape_ascii` gives for `b`: a backslash escape for tab,
/// carriage return, line feed, quotes and backslash; printable ASCII as
/// itself; `\xNN` with lowercase hex digits for every other byte.
pub open spec fn escape_ascii_chars(b: u8) -> Seq<char> {
    if b == 9 {
        seq!['\\', 't']
    } else if b == 13 {
        seq!['\\', 'r']
    } else if b == 10 {
        seq!['\\', 'n']
    } else if b == 39 {
        seq!['\\', '\'']
    } else if b == 34 {
        seq!['\\', '"']
    } else if b == 92 {
        seq!['\\', '\\']
    } else if 32 <= b <= 126 {
        seq![b as char]
    } else {
        seq!['\\', 'x', hex_digit(b / 16), hex_digit(b % 16)]
    }
}

/// What `char::escape_debug` gives for `c`.
pub uninterp spec fn escape_debug_chars(c: char) -> Seq<char>;

/// How one decoded character is shown: ASCII other than nul through
/// `u8::escape_ascii`, everything else through `char::escape_debug`.
pub open spec fn show_char(c: char) -> Seq<char> {
    if 1 <= (c as u32) <= 127 {
        escape_ascii_chars((c as u32) as u8)
    } else {
        escape_debug_chars(c)
    }
}

/// The escaped form of `bytes`: from the front, a valid UTF-8 character is
/// shown as a character, and a byte that does not start one is shown as a
/// byte escape.
pub open spec fn debug_escape(bytes: Seq<u8>) -> Seq<char>
    decreases bytes.len(),
{
    if bytes.len() == 0 {
        seq![]
    } else if valid_first_scalar(bytes) {
        show_char(decode_first_scalar(bytes) as char) + debug_escape(pop_first_scalar(bytes))
    } else {
        escape_ascii_chars(bytes[0]) + debug_escape(bytes.drop_first())
    }
}

/// The characters `cs`, each shown as [`show_char`] shows it, one after the
/// other.
pub open spec fn show_chars(cs: Seq<char>) -> Seq<char>
    decreases cs.len(),
{
    if cs.len() == 0 {
        seq![]
    } else {
        show_char(cs[0]) + show_chars(cs.drop_first())
    }
}

/// A printable ASCII byte other than a quote or backslash is shown as
/// itself; tab, carriage return and line feed as `\t`, `\r`, `\n`; every
/// other byte outside the printable range as `\x` and two lowercase hex
/// digits that spell its value.
pub proof fn law_escape_ascii(b: u8)
    ensures
        32 <= b <= 126 && b != 34 && b != 39 && b != 92 ==> escape_ascii_chars(b) == seq![b as char],
        b == 34 || b == 39 || b == 92 ==> escape_ascii_chars(b) == seq!['\\', b as char],
        b == 9 ==> escape_ascii_chars(b) == seq!['\\', 't'],
        b == 10 ==> escape_ascii_chars(b) == seq!['\\', 'n'],
        b == 13 ==> escape_ascii_chars(b) == seq!['\\', 'r'],
        (b < 32 || b > 126) && b != 9 && b != 10 && b != 13 ==> {
            let e = escape_ascii_chars(b);
            &&& e.len() == 4
            &&& e[0] == '\\'
            &&& e[1] == 'x'
            &&& hex_value(e[2]) * 16 + hex_value(e[3]) == b
            &&& is_lower_hex(e[2]) && is_lower_hex(e[3])
        },
{
    if (b < 32 || b > 126) && b != 9 && b != 10 && b != 13 {
        let hi = b / 16;
        let lo = b % 16;
        assert(hex_value(hex_digit(hi)) == hi);
        assert(hex_value(hex_digit(lo)) == lo);
    }
}

/// Whether `c` is one of `0`-`9`, `a`-`f`.
pub open spec fn is_lower_hex(c: char) -> bool {
    (48 <= (c as u32) <= 57) || (97 <= (c as u32) <= 102)
}

/// The value of the hexadecimal digit `c`.
pub open spec fn hex_value(c: char) -> int {
    if (c as u32) <= 57 {
        (c as u32) - 48
    } else {
        (c as u32) - 87
    }
}

/// ASCII characters other than nul are shown through `u8::escape_ascii`;
/// every other character, nul and all non-ASCII ones, through
/// `char::escape_debug`.
pub proof fn law_show_char(c: char)
    ensures
        1 <= (c as u32) <= 127 ==> show_char(c) == escape_ascii_chars((c as u32) as u8),
        !(1 <= (c as u32) <= 127) ==> show_char(c) == escape_debug_chars(c),
{
}

/// When the bytes start with a valid UTF-8 character, of any width, the
/// debug form starts with that character shown and goes on with the debug
/// form of the bytes after it; otherwise it starts with the first byte
/// escaped and goes on with the rest.
pub proof fn law_debug_escape_step(bytes: Seq<u8>)
    requires
        bytes.len() > 0,
    ensures
        valid_first_scalar(bytes) ==> debug_escape(bytes) == show_char(
            decode_first_scalar(bytes) as char,
        ) + debug_escape(bytes.subrange(length_of_first_scalar(bytes), bytes.len() as int)),
        !valid_first_scalar(bytes) ==> debug_escape(bytes) == escape_ascii_chars(bytes[0])
            + debug_escape(bytes.subrange(1, bytes.len() as int)),
{
    assert(bytes.drop_first() =~= bytes.subrange(1, bytes.len() as int));
}

/// The debug form of valid UTF-8 is the decoded characters, each shown.
pub proof fn law_debug_escape_valid(bytes: Seq<u8>)
    requires
        valid_utf8(bytes),
    ensures
        debug_escape(bytes) == show_chars(decode_utf8(bytes)),
    decreases bytes.len(),
{
    if bytes.len() > 0 {
        let rest = pop_first_scalar(bytes);
        let c = decode_first_scalar(bytes) as char;
        law_debug_escape_valid(rest);
        let d = decode_utf8(bytes);
        assert(d == seq![c] + decode_utf8(rest));
        assert(d[0] == c);
        assert(d.drop_first() =~= decode_utf8(rest));
    }
}

/// The debug form of a string's UTF-8 bytes is its characters, each shown.
pub proof fn law_debug_escape_str(t: &str)
    ensures
        debug_escape(t.spec_bytes()) == show_chars(t@),
{
    encode_utf8_valid_utf8(t@);
    encode_utf8_decode_utf8(t@);
    law_debug_escape_valid(t.spec_bytes());
}

/// Calls `String::push`, which appends `c`.
#[verifier::external_body]
fn string_push(s: &mut String, c: char)
    ensures
        final(s)@ == old(s)@.push(c),
{
    s.push(c)
}

/// Calls `char::from_u32`, which gives the character with value `v` exactly
/// when `v` is a Unicode scalar value.
#[verifier::external_body]
fn char_from_u32(v: u32) -> (r: Option<char>)
    ensures
        is_scalar(v) ==> r == Some(v as char),
        !is_scalar(v) ==> r is None,
{
    char::from_u32(v)
}

/// Calls `char::escape_debug`; its result, as text, is named by
/// `escape_debug_chars`.
#[verifier::external_body]
fn char_escape_debug(c: char) -> (r: String)
    ensures
        r@ == escape_debug_chars(c),
{
    c.escape_debug().to_string()
}

fn hex_char(d: u8) -> (r: char)
    requires
        d < 16,
    ensures
        r == hex_digit(d),
{
    if d < 10 {
        (48 + d) as char
    } else {
        (87 + d) as char
    }
}

fn push_escaped_byte(out: &mut String, b: u8)
    ensures
        final(out)@ == old(out)@ + escape_ascii_chars(b),
{
    let ghost start = out@;
    if b == 9 {
        string_push(out, '\\');
        string_push(out, 't');
    } else if b == 13 {
        string_push(out, '\\');
        string_push(out, 'r');
    } else if b == 10 {
        string_push(out, '\\');
        string_push(out, 'n');
    } else if b == 39 {
        string_push(out, '\\');
        string_push(out, '\'');
    } else if b == 34 {
        string_push(out, '\\');
        string_push(out, '"');
    } else if b == 92 {
        string_push(out, '\\');
        string_push(out, '\\');
    } else if 32 <= b && b <= 126 {
        string_push(out, b as char);
    } else {
        string_push(out, '\\');
        string_push(out, 'x');
        string_push(out, hex_char(b / 16));
        string_push(out, hex_char(b % 16));
    }
    assert(out@ =~= start + escape_ascii_chars(b));
}

/// The first scalar of `bytes[i..]`: its value and width, if it is valid.
fn decode_at(bytes: &[u8], i: usize) -> (r: Option<(u32, usize)>)
    requires
        i < bytes@.len(),
    ensures
        match r {
            Some((v, w)) => valid_first_scalar(bytes@.skip(i as int)) && v == decode_first_scalar(
                bytes@.skip(i as int),
            ) && w == length_of_first_scalar(bytes@.skip(i as int)) && is_scalar(v) && 1 <= w
                <= 4 && i + w <= bytes@.len(),
            None => !valid_first_scalar(bytes@.skip(i as int)),
        },
{
    let ghost s = bytes@.skip(i as int);
    let rem = bytes.len() - i;
    let b0 = bytes[i];
    assert(s[0] == b0);
    if b0 <= 0x7f {
        let v = (b0 & 0x7F) as u32;
        assert(v <= 0x7f) by (bit_vector)
            requires
                v == (b0 & 0x7F) as u32,
        ;
        return Some((v, 1));
    }
    if 0xc0 <= b0 && b0 <= 0xdf {
        if rem < 2 {
            return None;
        }
        let b1 = bytes[i + 1];
        assert(s[1] == b1);
        if !(0x80 <= b1 && b1 <= 0xbf) {
            return None;
        }
        let v = (((b0 & 0x1F) as u32) << 6) | ((b1 & 0x3f) as u32);
        assert(v <= 0x7ff) by (bit_vector)
            requires
                v == (((b0 & 0x1F) as u32) << 6) | ((b1 & 0x3f) as u32),
        ;
        if v < 0x80 {
            return None;
        }
        return Some((v, 2));
    }
    if 0xe0 <= b0 && b0 <= 0xef {
        if rem < 3 {
            return None;
        }
        let b1 = bytes[i + 1];
        let b2 = bytes[i + 2];
        assert(s[1] == b1 && s[2] == b2);
        if !(0x80 <= b1 && b1 <= 0xbf && 0x80 <= b2 && b2 <= 0xbf) {
            return None;
        }
        let v = (((b0 & 0x0F) as u32) << 12) | (((b1 & 0x3f) as u32) << 6) | ((b2 & 0x3f) as u32);
        assert(v <= 0xffff) by (bit_vector)
            requires
                v == (((b0 & 0x0F) as u32) << 12) | (((b1 & 0x3f) as u32) << 6) | ((b2
                    & 0x3f) as u32),
        ;
        if v < 0x800 || (0xd800 <= v && v <= 0xdfff) {
            return None;
        }
        return Some((v, 3));
    }
    if 0xf0 <= b0 && b0 <= 0xf7 {
        if rem < 4 {
            return None;
        }
        let b1 = bytes[i + 1];
        let b2 = bytes[i + 2];
        let b3 = bytes[i + 3];
        assert(s[1] == b1 && s[2] == b2 && s[3] == b3);
        if !(0x80 <= b1 && b1 <= 0xbf && 0x80 <= b2 && b2 <= 0xbf && 0x80 <= b3 && b3 <= 0xbf) {
            return None;
        }
        let v = (((b0 & 0x07) as u32) << 18) | (((b1 & 0x3f) as u32) << 12) | (((b2 & 0x3f)
            as u32) << 6) | ((b3 & 0x3f) as u32);
        if v < 0x10000 || v > 0x10ffff {
            return None;
        }
        return Some((v, 4));
    }
    None
}

impl<const N: usize> BoundedCString<N> {
    /// The string as its debug form: in double quotes, each valid UTF-8
    /// character escaped (ASCII through `u8::escape_ascii`, the rest through
    /// `char::escape_debug`), and each byte that starts no valid character
    /// as a byte escape.
    pub fn debug_string(&self) -> (r: String)
        ensures
            r@ == seq!['"'] + debug_escape(content(self@)) + seq!['"'],
    {
        let bytes = self.to_bytes();
        let mut out = String::new();
        string_push(&mut out, '"');
        let mut i: usize = 0;
        assert(bytes@.skip(0) =~= bytes@);
        while i < bytes.len()
            invariant
                i <= bytes@.len(),
                bytes@ == content(self@),
                out@ + debug_escape(bytes@.skip(i as int)) == seq!['"'] + debug_escape(bytes@),
            decreases bytes@.len() - i,
        {
            let ghost s = bytes@.skip(i as int);
            let ghost before = out@;
            match decode_at(bytes, i) {
                Some((v, w)) => {
                    let c = match char_from_u32(v) {
                        Some(c) => c,
                        None => {
                            assert(false);
                            ' '
                        },
                    };
                    let cv = c as u32;
                    if 1 <= cv && cv <= 127 {
                        push_escaped_byte(&mut out, cv as u8);
                    } else {
                        let piece = char_escape_debug(c);
                        out.append(piece.as_str());
                    }
                    assert(pop_first_scalar(s) =~= bytes@.skip((i + w) as int));
                    assert(out@ == before + show_char(decode_first_scalar(s) as char));
                    assert(out@ + debug_escape(bytes@.skip((i + w) as int)) =~= before + debug_escape(s));
                    i = i + w;
                },
                None => {
                    push_escaped_byte(&mut out, bytes[i]);
                    assert(s.drop_first() =~= bytes@.skip((i + 1) as int));
                    assert(out@ + debug_escape(bytes@.skip((i + 1) as int)) =~= before + debug_escape(s));
                    i = i + 1;
                },
            }
        }
        assert(bytes@.skip(i as int) =~= Seq::<u8>::empty());
        string_push(&mut out, '"');
        assert(out@ =~= seq!['"'] + debug_escape(content(self@)) + seq!['"']);
        out
    }
}

} // verus!
