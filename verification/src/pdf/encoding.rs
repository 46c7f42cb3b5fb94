//! Character codes and text encodings.

use vstd::prelude::*;

use crate::text::char_of;

verus! {

/// The character that stands for what cannot be decoded.
pub const REPLACEMENT: char = '\u{FFFD}';

/// The WinAnsi character of a code: Latin-1, with printable characters at 0x80 to 0x9F.
pub open spec fn win_ansi_char(b: u8) -> char {
    match b {
        0x80 => '\u{20AC}',
        0x82 => '\u{201A}',
        0x83 => '\u{0192}',
        0x84 => '\u{201E}',
        0x85 => '\u{2026}',
        0x86 => '\u{2020}',
        0x87 => '\u{2021}',
        0x88 => '\u{02C6}',
        0x89 => '\u{2030}',
        0x8A => '\u{0160}',
        0x8B => '\u{2039}',
        0x8C => '\u{0152}',
        0x8E => '\u{017D}',
        0x91 => '\u{2018}',
        0x92 => '\u{2019}',
        0x93 => '\u{201C}',
        0x94 => '\u{201D}',
        0x95 => '\u{2022}',
        0x96 => '\u{2013}',
        0x97 => '\u{2014}',
        0x98 => '\u{02DC}',
        0x99 => '\u{2122}',
        0x9A => '\u{0161}',
        0x9B => '\u{203A}',
        0x9C => '\u{0153}',
        0x9E => '\u{017E}',
        0x9F => '\u{0178}',
        _ => b as char,
    }
}

/// Map a WinAnsi code to its character.
pub fn win_ansi(b: u8) -> (r: char)
    ensures
        r == win_ansi_char(b),
{
    match b {
        0x80 => '\u{20AC}',
        0x82 => '\u{201A}',
        0x83 => '\u{0192}',
        0x84 => '\u{201E}',
        0x85 => '\u{2026}',
        0x86 => '\u{2020}',
        0x87 => '\u{2021}',
        0x88 => '\u{02C6}',
        0x89 => '\u{2030}',
        0x8A => '\u{0160}',
        0x8B => '\u{2039}',
        0x8C => '\u{0152}',
        0x8E => '\u{017D}',
        0x91 => '\u{2018}',
        0x92 => '\u{2019}',
        0x93 => '\u{201C}',
        0x94 => '\u{201D}',
        0x95 => '\u{2022}',
        0x96 => '\u{2013}',
        0x97 => '\u{2014}',
        0x98 => '\u{02DC}',
        0x99 => '\u{2122}',
        0x9A => '\u{0161}',
        0x9B => '\u{203A}',
        0x9C => '\u{0153}',
        0x9E => '\u{017E}',
        0x9F => '\u{0178}',
        _ => b as char,
    }
}

/// Bytes read as WinAnsi text.
pub open spec fn win_ansi_text(s: Seq<u8>) -> Seq<char> {
    s.map_values(|b: u8| win_ansi_char(b))
}

/// Read bytes as WinAnsi text.
pub fn decode_win_ansi(s: &[u8]) -> (r: String)
    ensures
        r@ == win_ansi_text(s@),
{
    let mut out: String = String::new();
    let mut i: usize = 0;
    while i < s.len()
        invariant
            i <= s.len(),
            out@.len() == i,
            forall|k: int| 0 <= k < i ==> out@[k] == win_ansi_char(s@[k]),
        decreases s.len() - i,
    {
        out.push(win_ansi(s[i]));
        i += 1;
    }
    assert(out@ =~= win_ansi_text(s@));
    out
}

/// The 16-bit unit at `i`, highest byte first.
pub open spec fn unit_at(s: Seq<u8>, i: int) -> int {
    s[i] * 256 + s[i + 1]
}

pub open spec fn is_high(u: int) -> bool {
    0xD800 <= u <= 0xDBFF
}

pub open spec fn is_low(u: int) -> bool {
    0xDC00 <= u <= 0xDFFF
}

/// UTF-16 text from `i` on, after `acc`: an unpaired surrogate is replaced, and a single last
/// byte is dropped.
pub open spec fn utf16_from(s: Seq<u8>, i: int, acc: Seq<char>) -> Seq<char>
    decreases s.len() - i,
{
    if i < 0 || i + 1 >= s.len() {
        acc
    } else {
        let u = unit_at(s, i);
        if is_high(u) && i + 3 < s.len() && is_low(unit_at(s, i + 2)) {
            let c = 0x10000 + (u - 0xD800) * 0x400 + (unit_at(s, i + 2) - 0xDC00);
            utf16_from(s, i + 4, acc.push(c as char))
        } else if is_high(u) || is_low(u) {
            utf16_from(s, i + 2, acc.push(REPLACEMENT))
        } else {
            utf16_from(s, i + 2, acc.push(u as char))
        }
    }
}

/// Read the bytes from `start` on as UTF-16, highest byte first.
pub fn decode_utf16_from(s: &[u8], start: usize) -> (r: String)
    requires
        start <= s.len(),
    ensures
        r@ == utf16_from(s@, start as int, Seq::empty()),
{
    let mut out: String = String::new();
    let mut i: usize = start;
    while s.len() - i >= 2
        invariant
            start <= i <= s.len(),
            utf16_from(s@, start as int, Seq::empty()) == utf16_from(s@, i as int, out@),
        decreases s.len() - i,
    {
        let u: u32 = s[i] as u32 * 256 + s[i + 1] as u32;
        if u >= 0xD800 && u <= 0xDBFF && s.len() - i >= 4 {
            let v: u32 = s[i + 2] as u32 * 256 + s[i + 3] as u32;
            if v >= 0xDC00 && v <= 0xDFFF {
                out.push(char_of(0x10000 + (u - 0xD800) * 0x400 + (v - 0xDC00)));
                i = i + 4;
                continue;
            }
        }
        if u >= 0xD800 && u <= 0xDFFF {
            out.push(REPLACEMENT);
        } else {
            out.push(char_of(u));
        }
        i = i + 2;
    }
    out
}

/// The text that the bytes of a character map entry stand for: UTF-16, or a single WinAnsi byte.
pub open spec fn entry_text(s: Seq<u8>) -> Seq<char> {
    if s.len() < 2 {
        win_ansi_text(s)
    } else {
        utf16_from(s, 0, Seq::empty())
    }
}

pub fn decode_utf16be(bytes: &[u8]) -> (r: String)
    ensures
        r@ == entry_text(bytes@),
{
    if bytes.len() < 2 {
        decode_win_ansi(bytes)
    } else {
        decode_utf16_from(bytes, 0)
    }
}

/// The text of a text string: UTF-16 behind a byte order mark, else WinAnsi.
pub open spec fn string_text(s: Seq<u8>) -> Seq<char> {
    if s.len() >= 2 && s[0] == 0xFE && s[1] == 0xFF {
        utf16_from(s, 2, Seq::empty())
    } else {
        win_ansi_text(s)
    }
}

/// Decode a text string.
pub fn decode_text_string(bytes: &[u8]) -> (r: String)
    ensures
        r@ == string_text(bytes@),
{
    if bytes.len() >= 2 && bytes[0] == 0xFE && bytes[1] == 0xFF {
        decode_utf16_from(bytes, 2)
    } else {
        decode_win_ansi(bytes)
    }
}

/// The number that the bytes `i..j` make, highest first.
pub open spec fn code_between(s: Seq<u8>, i: int, j: int) -> int
    decreases j - i,
{
    if j <= i {
        0
    } else {
        code_between(s, i, j - 1) * 256 + s[j - 1]
    }
}

/// The end of a piece of at most `width` bytes that starts at `i`.
pub open spec fn piece_end(len: int, i: int, width: int) -> int {
    if i + width <= len {
        i + width
    } else {
        len
    }
}

/// The code that the first four bytes make.
pub open spec fn code_of(s: Seq<u8>) -> u32 {
    code_between(s, 0, piece_end(s.len() as int, 0, 4)) as u32
}

/// Read at most four bytes, highest first.
pub fn code_at(s: &[u8], i: usize, j: usize) -> (r: u32)
    requires
        i <= j <= s.len(),
        j - i <= 4,
    ensures
        r == code_between(s@, i as int, j as int),
{
    let mut code: u64 = 0;
    let mut k: usize = i;
    let mut bound: u64 = 1;
    while k < j
        invariant
            i <= k <= j <= s.len(),
            j - i <= 4,
            k - i == 0 ==> bound == 1,
            k - i == 1 ==> bound == 0x100,
            k - i == 2 ==> bound == 0x1_0000,
            k - i == 3 ==> bound == 0x100_0000,
            k - i == 4 ==> bound == 0x1_0000_0000,
            code < bound <= 0x1_0000_0000,
            code == code_between(s@, i as int, k as int),
        decreases j - k,
    {
        code = code * 256 + s[k] as u64;
        bound = bound * 256;
        k += 1;
    }
    code as u32
}

/// Interpret up to four bytes as a code, highest first.
pub fn be_code(bytes: &[u8]) -> (r: u32)
    ensures
        r == code_of(bytes@),
{
    let j: usize = if bytes.len() < 4 {
        bytes.len()
    } else {
        4
    };
    code_at(bytes, 0, j)
}

} // verus!
