//! Stream filters: what the encoded bytes of a stream stand for.

use std::io::Read;

use vstd::prelude::*;

use crate::pdf::lexer::{read_hex, ws_byte};
use crate::pdf::object::{
    dict_view, get, items_view, lemma_items_view, lookup, Dict, DictView, Obj, ObjView,
};
use crate::pdf::syntax::{hex_bytes, is_ws};
use crate::text::same;

verus! {

/// Largest decoded stream that is kept.
pub const MAX_DECODED: usize = 67_108_864;

/// No more of some bytes than the first `cap`.
pub open spec fn at_most(s: Seq<u8>, cap: int) -> Seq<u8> {
    if s.len() > cap {
        s.take(cap)
    } else {
        s
    }
}

/// Whether data starts with a zlib header: method 8, a window of 32 KiB or less, no preset
/// dictionary, and the two bytes a multiple of 31.
pub open spec fn zlib_header(data: Seq<u8>) -> bool {
    data.len() >= 2 && data[0] % 16 == 8 && data[0] / 16 <= 7 && data[1] / 32 % 2 == 0 && (data[0]
        * 256 + data[1]) % 31 == 0
}

/// All that `flate2`'s zlib reader hands out for `data` that is sound to its end; nothing where the
/// data is not sound.
pub uninterp spec fn zlib_decoded(data: Seq<u8>) -> Option<Seq<u8>>;

/// All that `flate2`'s raw deflate reader hands out for `data` that is sound to its end; nothing
/// where the data is not sound.
pub uninterp spec fn deflate_decoded(data: Seq<u8>) -> Option<Seq<u8>>;

/// Reads `flate2::read::ZlibDecoder` to the end, no further than `cap` bytes, and says whether that
/// went without an error. Sound data is read without one, and gives all that it stands for, or the
/// first `cap` bytes of it. Whatever is read to the end without an error is sound. Without a zlib
/// header the first read fails, with nothing handed out. What was decoded before an error is kept;
/// how much that is depends on how much the reader was asked for at once, so nothing is said of it,
/// nor of `cap` bytes read before the fault, but that it is no more than `cap` bytes. What the decoder
/// makes of the data is not said here.
#[verifier::external_body]
fn read_zlib(data: &[u8], cap: usize) -> (r: (Vec<u8>, bool))
    ensures
        r.0@.len() <= cap,
        zlib_decoded(data@) matches Some(t) ==> r.1 && r.0@ == at_most(t, cap as int),
        r.1 && r.0@.len() < cap ==> zlib_decoded(data@) == Some(r.0@),
        cap > 0 && !zlib_header(data@) ==> !r.1 && r.0@.len() == 0,
{
    let mut out = Vec::new();
    let read = flate2::read::ZlibDecoder::new(data).take(cap as u64).read_to_end(&mut out);
    (out, read.is_ok())
}

/// Reads `flate2::read::DeflateDecoder` to the end, no further than `cap` bytes, and says whether
/// that went without an error. Sound data is read without one, and gives all that it stands for, or
/// the first `cap` bytes of it. Whatever is read to the end without an error is sound. What was
/// decoded before an error is kept; how much that is depends on how much the reader was asked for at
/// once, so nothing is said of it, nor of `cap` bytes read before the fault, but that it is no more
/// than `cap` bytes. What the decoder makes of the data is not said here.
#[verifier::external_body]
fn read_deflate(data: &[u8], cap: usize) -> (r: (Vec<u8>, bool))
    ensures
        r.0@.len() <= cap,
        deflate_decoded(data@) matches Some(t) ==> r.1 && r.0@ == at_most(t, cap as int),
        r.1 && r.0@.len() < cap ==> deflate_decoded(data@) == Some(r.0@),
{
    let mut out = Vec::new();
    let read = flate2::read::DeflateDecoder::new(data).take(cap as u64).read_to_end(&mut out);
    (out, read.is_ok())
}

/// The first of two decodings that is not empty.
pub open spec fn first_filled(zlib: Seq<u8>, raw: Seq<u8>) -> Option<Seq<u8>> {
    if zlib.len() > 0 {
        Some(zlib)
    } else if raw.len() > 0 {
        Some(raw)
    } else {
        None
    }
}

/// Some bytes, where there are any.
pub open spec fn filled(s: Seq<u8>) -> Option<Seq<u8>> {
    if s.len() > 0 {
        Some(s)
    } else {
        None
    }
}

/// Whether a compressed stream is sound: as zlib-wrapped DEFLATE, or as raw DEFLATE where nothing
/// can come of the other.
pub open spec fn is_sound(data: Seq<u8>) -> bool {
    match zlib_decoded(data) {
        Some(t) => t.len() > 0 || deflate_decoded(data) is Some,
        None => !zlib_header(data) && deflate_decoded(data) is Some,
    }
}

/// What a sound compressed stream stands for, as far as it is kept; an empty decoding is none.
pub open spec fn inflated(data: Seq<u8>) -> Option<Seq<u8>> {
    if zlib_decoded(data) is Some && zlib_decoded(data).unwrap().len() > 0 {
        Some(capped(zlib_decoded(data).unwrap()))
    } else {
        filled(capped(deflate_decoded(data).unwrap()))
    }
}

/// Whether a decoding may come of a compressed stream. Of a sound stream it is what the stream stands
/// for. Of damaged data it is some part of what that was made from: it is not empty, and no longer
/// than may be, and there is one where the data is sound as raw DEFLATE.
pub open spec fn may_inflate(data: Seq<u8>, out: Option<Seq<u8>>) -> bool {
    if is_sound(data) {
        out == inflated(data)
    } else {
        &&& out matches Some(v) ==> 0 < v.len() <= MAX_DECODED
        &&& deflate_decoded(data) matches Some(t) ==> t.len() > 0 ==> out is Some
    }
}

pub open spec fn opt_bytes(o: Option<Vec<u8>>) -> Option<Seq<u8>> {
    match o {
        Some(v) => Some(v@),
        None => None,
    }
}

/// The zlib decoding where there is one, else the raw one, else none.
pub fn pick_filled(zlib: Vec<u8>, raw: Vec<u8>) -> (r: Option<Vec<u8>>)
    ensures
        opt_bytes(r) == first_filled(zlib@, raw@),
{
    if zlib.len() > 0 {
        Some(zlib)
    } else if raw.len() > 0 {
        Some(raw)
    } else {
        None
    }
}

/// What was read of a compressed stream, and whether each reading got to its end without an error.
pub struct Inflation {
    pub zlib: Vec<u8>,
    pub zlib_whole: bool,
    /// Read where the zlib reading is empty; else empty and not whole.
    pub raw: Vec<u8>,
    pub raw_whole: bool,
}

/// Read a compressed stream as zlib-wrapped DEFLATE, and where nothing comes of that as raw DEFLATE.
pub fn read_compressed(data: &[u8]) -> (r: Inflation)
    ensures
        r.zlib@.len() <= MAX_DECODED,
        r.raw@.len() <= MAX_DECODED,
        zlib_decoded(data@) matches Some(t) ==> r.zlib_whole && r.zlib@ == capped(t),
        r.zlib_whole && r.zlib@.len() < MAX_DECODED ==> zlib_decoded(data@) == Some(r.zlib@),
        !zlib_header(data@) ==> !r.zlib_whole && r.zlib@.len() == 0,
        r.zlib@.len() > 0 ==> r.raw@.len() == 0 && !r.raw_whole,
        r.zlib@.len() == 0 ==> {
            &&& deflate_decoded(data@) matches Some(t) ==> r.raw_whole && r.raw@ == capped(t)
            &&& r.raw_whole && r.raw@.len() < MAX_DECODED ==> deflate_decoded(data@) == Some(
                r.raw@,
            )
        },
{
    let (zlib, zlib_whole): (Vec<u8>, bool) = read_zlib(data, MAX_DECODED);
    if zlib.len() > 0 {
        return Inflation { zlib, zlib_whole, raw: Vec::new(), raw_whole: false };
    }
    let (raw, raw_whole): (Vec<u8>, bool) = read_deflate(data, MAX_DECODED);
    Inflation { zlib, zlib_whole, raw, raw_whole }
}

/// Zlib-wrapped DEFLATE, falling back to raw DEFLATE. A partial decoding is kept; an empty one is
/// none. At most `MAX_DECODED` bytes come out.
pub fn inflate(data: &[u8]) -> (r: Option<Vec<u8>>)
    ensures
        may_inflate(data@, opt_bytes(r)),
        r matches Some(v) ==> 0 < v@.len() <= MAX_DECODED,
{
    let read: Inflation = read_compressed(data);
    pick_filled(read.zlib, read.raw)
}

/// The bytes that hex digits stand for, up to `>` or the end.
pub fn ascii_hex_decode(data: &[u8]) -> (r: Vec<u8>)
    ensures
        r@ == hex_bytes(data@, 0),
{
    let (out, _end) = read_hex(data, 0);
    out
}

/// The number that five base-85 digits make, cut down to 32 bits.
pub open spec fn base85(g: Seq<u8>) -> int {
    ((((g[0] * 85 + g[1]) * 85 + g[2]) * 85 + g[3]) * 85 + g[4]) % 0x1_0000_0000
}

/// The bytes of a 32-bit number, highest first.
pub open spec fn be_bytes(v: int) -> Seq<u8> {
    seq![
        (v / 0x100_0000) as u8,
        (v / 0x1_0000 % 0x100) as u8,
        (v / 0x100 % 0x100) as u8,
        (v % 0x100) as u8,
    ]
}

/// A base-85 group, filled up with the highest digit.
pub open spec fn filled85(g: Seq<u8>) -> Seq<u8> {
    Seq::new(
        5,
        |k: int|
            if k < g.len() {
                g[k]
            } else {
                84
            },
    )
}

/// The bytes that a group of `g.len()` base-85 digits stands for: one fewer than its digits.
pub open spec fn group85(g: Seq<u8>) -> Seq<u8> {
    if g.len() > 1 {
        be_bytes(base85(filled85(g))).take(g.len() - 1)
    } else {
        Seq::empty()
    }
}

/// What base-85 text stands for from `i` on, with the digits `group` pending, after `acc`.
pub open spec fn base85_from(s: Seq<u8>, i: int, group: Seq<u8>, acc: Seq<u8>) -> Seq<u8>
    decreases s.len() - i,
{
    if i < 0 || i >= s.len() || s[i] == 0x7e {
        acc + group85(group)
    } else if is_ws(s[i]) {
        base85_from(s, i + 1, group, acc)
    } else if s[i] == 0x7a && group.len() == 0 {
        base85_from(s, i + 1, group, acc + seq![0u8, 0, 0, 0])
    } else if s[i] < 0x21 || s[i] > 0x75 {
        base85_from(s, i + 1, group, acc)
    } else if group.len() == 4 {
        base85_from(s, i + 1, Seq::empty(), acc + group85(group.push((s[i] - 0x21) as u8)))
    } else {
        base85_from(s, i + 1, group.push((s[i] - 0x21) as u8), acc)
    }
}

/// What base-85 text stands for; a leading `<~` is skipped, and `~` ends it.
pub open spec fn base85_bytes(s: Seq<u8>) -> Seq<u8> {
    base85_from(
        s,
        if s.len() >= 2 && s[0] == 0x3c && s[1] == 0x7e {
            2
        } else {
            0
        },
        Seq::empty(),
        Seq::empty(),
    )
}

/// Append the bytes that one base-85 group stands for.
fn push_base85(out: &mut Vec<u8>, group: &Vec<u8>)
    requires
        group@.len() <= 5,
        forall|k: int| 0 <= k < group@.len() ==> group@[k] <= 84,
    ensures
        final(out)@ == old(out)@ + group85(group@),
{
    if group.len() <= 1 {
        assert(out@ =~= old(out)@ + group85(group@));
        return;
    }
    let mut value: u64 = 0;
    let ghost f = filled85(group@);
    let g0: u64 = group[0] as u64;
    let g1: u64 = group[1] as u64;
    let g2: u64 = if group.len() > 2 {
        group[2] as u64
    } else {
        84
    };
    let g3: u64 = if group.len() > 3 {
        group[3] as u64
    } else {
        84
    };
    let g4: u64 = if group.len() > 4 {
        group[4] as u64
    } else {
        84
    };
    value = ((((g0 * 85 + g1) * 85 + g2) * 85 + g3) * 85 + g4) % 0x1_0000_0000;
    assert(value == base85(f));
    let ghost bytes = be_bytes(value as int);
    out.push((value / 0x100_0000) as u8);
    if group.len() > 2 {
        out.push((value / 0x1_0000 % 0x100) as u8);
    }
    if group.len() > 3 {
        out.push((value / 0x100 % 0x100) as u8);
    }
    if group.len() > 4 {
        out.push((value % 0x100) as u8);
    }
    assert(out@ =~= old(out)@ + bytes.take(group@.len() - 1));
}

/// Decode base-85 text.
pub fn ascii85_decode(data: &[u8]) -> (r: Vec<u8>)
    ensures
        r@ == base85_bytes(data@),
{
    let mut out: Vec<u8> = Vec::new();
    let mut group: Vec<u8> = Vec::new();
    let mut i: usize = 0;
    if data.len() >= 2 && data[0] == 0x3c && data[1] == 0x7e {
        i = 2;
    }
    while i < data.len() && data[i] != 0x7e
        invariant
            i <= data.len(),
            group@.len() <= 4,
            forall|k: int| 0 <= k < group@.len() ==> group@[k] <= 84,
            base85_bytes(data@) == base85_from(data@, i as int, group@, out@),
        decreases data.len() - i,
    {
        let b: u8 = data[i];
        let ghost before = out@;
        if ws_byte(b) {
        } else if b == 0x7a && group.len() == 0 {
            out.push(0);
            out.push(0);
            out.push(0);
            out.push(0);
            assert(out@ =~= before + seq![0u8, 0, 0, 0]);
        } else if b < 0x21 || b > 0x75 {
        } else {
            group.push(b - 0x21);
            if group.len() == 5 {
                push_base85(&mut out, &group);
                group.clear();
            }
        }
        i += 1;
    }
    push_base85(&mut out, &group);
    out
}

/// What run-length coded bytes stand for from `i` on, after `acc`.
pub open spec fn runs_from(s: Seq<u8>, i: int, acc: Seq<u8>) -> Seq<u8>
    decreases s.len() - i,
{
    if i < 0 || i >= s.len() || s[i] == 128 {
        acc
    } else if s[i] < 128 {
        let end = if i + 2 + s[i] <= s.len() {
            i + 2 + s[i]
        } else {
            s.len() as int
        };
        runs_from(s, end, acc + s.subrange(i + 1, end))
    } else if i + 1 >= s.len() {
        acc
    } else {
        runs_from(s, i + 2, acc + Seq::new((257 - s[i]) as nat, |k: int| s[i + 1]))
    }
}

fn append(out: &mut Vec<u8>, s: &[u8], start: usize, end: usize)
    requires
        start <= end <= s.len(),
    ensures
        final(out)@ == old(out)@ + s@.subrange(start as int, end as int),
{
    let mut i: usize = start;
    while i < end
        invariant
            start <= i <= end <= s.len(),
            out@ == old(out)@ + s@.subrange(start as int, i as int),
        decreases end - i,
    {
        out.push(s[i]);
        i += 1;
        assert(out@ =~= old(out)@ + s@.subrange(start as int, i as int));
    }
    assert(out@ =~= old(out)@ + s@.subrange(start as int, end as int));
}

fn append_run(out: &mut Vec<u8>, b: u8, n: usize)
    ensures
        final(out)@ == old(out)@ + Seq::new(n as nat, |k: int| b),
{
    let mut i: usize = 0;
    while i < n
        invariant
            i <= n,
            out@ == old(out)@ + Seq::new(i as nat, |k: int| b),
        decreases n - i,
    {
        out.push(b);
        i += 1;
        assert(out@ =~= old(out)@ + Seq::new(i as nat, |k: int| b));
    }
    assert(out@ =~= old(out)@ + Seq::new(n as nat, |k: int| b));
}

/// Decode run-length coded bytes: a length below 128 copies one byte more than it says, one above
/// repeats the next byte, and 128 ends the data.
pub fn run_length_decode(data: &[u8]) -> (r: Vec<u8>)
    ensures
        r@ == runs_from(data@, 0, Seq::empty()),
{
    let mut out: Vec<u8> = Vec::new();
    let mut i: usize = 0;
    while i < data.len()
        invariant
            i <= data.len(),
            runs_from(data@, 0, Seq::empty()) == runs_from(data@, i as int, out@),
        decreases data.len() - i,
    {
        let len: u8 = data[i];
        if len == 128 {
            return out;
        }
        if len < 128 {
            let n: usize = len as usize + 1;
            let end: usize = if n <= data.len() - (i + 1) {
                i + 1 + n
            } else {
                data.len()
            };
            append(&mut out, data, i + 1, end);
            i = end;
        } else {
            if i + 1 >= data.len() {
                return out;
            }
            let b: u8 = data[i + 1];
            append_run(&mut out, b, 257 - len as usize);
            assert(Seq::new((257 - len) as nat, |k: int| b) =~= Seq::new(
                (257 - data@[i as int]) as nat,
                |k: int| data@[i + 1],
            ));
            i = i + 2;
        }
    }
    out
}

/// The distance of two numbers.
pub open spec fn distance(a: int, b: int) -> int {
    if a >= b {
        a - b
    } else {
        b - a
    }
}

/// Of the left, upper and upper-left neighbours, the one nearest to left plus upper minus
/// upper-left; the earlier one on a tie.
pub open spec fn nearest(a: u8, b: u8, c: u8) -> u8 {
    let p = a + b - c;
    if distance(p, a as int) <= distance(p, b as int) && distance(p, a as int) <= distance(
        p,
        c as int,
    ) {
        a
    } else if distance(p, b as int) <= distance(p, c as int) {
        b
    } else {
        c
    }
}

fn apart(a: i32, b: i32) -> (r: i32)
    requires
        -1000 <= a <= 1000,
        -1000 <= b <= 1000,
    ensures
        r == distance(a as int, b as int),
{
    if a >= b {
        a - b
    } else {
        b - a
    }
}

/// The Paeth predictor.
pub fn paeth(a: u8, b: u8, c: u8) -> (r: u8)
    ensures
        r == nearest(a, b, c),
{
    let p: i32 = a as i32 + b as i32 - c as i32;
    let pa: i32 = apart(p, a as i32);
    let pb: i32 = apart(p, b as i32);
    let pc: i32 = apart(p, c as i32);
    if pa <= pb && pa <= pc {
        a
    } else if pb <= pc {
        b
    } else {
        c
    }
}

/// What predictor `tag` adds, given the left, upper and upper-left neighbours.
pub open spec fn predicted(tag: u8, a: u8, b: u8, c: u8) -> int {
    if tag == 1 {
        a as int
    } else if tag == 2 {
        b as int
    } else if tag == 3 {
        (a + b) / 2
    } else if tag == 4 {
        nearest(a, b, c) as int
    } else {
        0
    }
}

/// The byte `k` places to the left of place `n`; zero before the row.
pub open spec fn left_of(row: Seq<u8>, n: int, k: int) -> u8 {
    if n >= k {
        row[n - k]
    } else {
        0
    }
}

/// The first `n` bytes of a row, from the stored bytes and the row above; `bpp` bytes make up a
/// pixel.
pub open spec fn row_bytes(tag: u8, raw: Seq<u8>, prev: Seq<u8>, bpp: int, n: int) -> Seq<u8>
    decreases n,
{
    if n <= 0 {
        Seq::empty()
    } else {
        let done = row_bytes(tag, raw, prev, bpp, n - 1);
        done.push(
            ((raw[n - 1] + predicted(
                tag,
                left_of(done, n - 1, bpp),
                prev[n - 1],
                left_of(prev, n - 1, bpp),
            )) % 256) as u8,
        )
    }
}

/// The `len` bytes from `i` on, zeros following the last one.
pub open spec fn padded(s: Seq<u8>, i: int, len: int) -> Seq<u8> {
    Seq::new(
        len as nat,
        |k: int|
            if i + k < s.len() {
                s[i + k]
            } else {
                0
            },
    )
}

/// The rows from `i` on, each behind its predictor's tag, after `acc`. A short row is the last.
pub open spec fn rows_from(
    s: Seq<u8>,
    i: int,
    len: int,
    bpp: int,
    prev: Seq<u8>,
    acc: Seq<u8>,
) -> Seq<u8>
    decreases s.len() - i,
{
    if i < 0 || i >= s.len() || len <= 0 {
        acc
    } else {
        let row = row_bytes(s[i], padded(s, i + 1, len), prev, bpp, len);
        if i + 1 + len > s.len() {
            acc + row
        } else {
            rows_from(s, i + 1 + len, len, bpp, row, acc + row)
        }
    }
}

/// The number under `key`, or `default`, without its fraction and no more than a `usize`.
pub open spec fn size_entry(d: DictView, key: Seq<char>, default: int) -> int {
    match lookup(d, key) {
        Some(ObjView::Number(n)) => if n.floor() > usize::MAX {
            usize::MAX as int
        } else {
            n.floor()
        },
        _ => default,
    }
}

/// The bytes that a number of bits takes up.
pub open spec fn bytes_for(bits: int) -> int {
    (bits + 7) / 8
}

/// Bytes with the PNG predictor that the dictionary names undone. Row lengths that a `usize`
/// cannot count leave the bytes as they are.
pub open spec fn unpredicted(d: DictView, data: Seq<u8>) -> Seq<u8> {
    match lookup(d, "DecodeParms"@) {
        Some(o) => match o.dict() {
            Some(parms) => {
                let colors = size_entry(parms, "Colors"@, 1);
                let bpc = size_entry(parms, "BitsPerComponent"@, 8);
                let columns = size_entry(parms, "Columns"@, 1);
                let row = columns * colors * bpc;
                let pixel = colors * bpc;
                let bpp = if bytes_for(pixel) > 1 {
                    bytes_for(pixel)
                } else {
                    1
                };
                if size_entry(parms, "Predictor"@, 1) < 10 || row == 0 || row + 7 > usize::MAX {
                    data
                } else {
                    rows_from(
                        data,
                        0,
                        bytes_for(row),
                        bpp,
                        Seq::new(bytes_for(row) as nat, |k: int| 0u8),
                        Seq::empty(),
                    )
                }
            },
            None => data,
        },
        None => data,
    }
}

pub fn size_of_entry(d: &Dict, key: &str, default: usize) -> (r: usize)
    ensures
        r == size_entry(dict_view(d@), key@, default as int),
{
    match get(d, key) {
        Some(Obj::Number(n)) => n.as_usize(),
        _ => default,
    }
}

fn decode_row(tag: u8, data: &[u8], i: usize, len: usize, prev: &Vec<u8>, bpp: usize) -> (r: Vec<
    u8,
>)
    requires
        i <= data.len(),
        prev@.len() == len,
        bpp >= 1,
    ensures
        r@ == row_bytes(tag, padded(data@, i as int, len as int), prev@, bpp as int, len as int),
        r@.len() == len,
{
    let mut row: Vec<u8> = Vec::new();
    let mut x: usize = 0;
    let ghost raw = padded(data@, i as int, len as int);
    while x < len
        invariant
            x <= len,
            i <= data.len(),
            prev@.len() == len,
            bpp >= 1,
            row@.len() == x,
            raw == padded(data@, i as int, len as int),
            row@ == row_bytes(tag, raw, prev@, bpp as int, x as int),
        decreases len - x,
    {
        let stored: u8 = if x < data.len() - i {
            data[i + x]
        } else {
            0
        };
        let a: u8 = if x >= bpp {
            row[x - bpp]
        } else {
            0
        };
        let b: u8 = prev[x];
        let c: u8 = if x >= bpp {
            prev[x - bpp]
        } else {
            0
        };
        let p: u16 = if tag == 1 {
            a as u16
        } else if tag == 2 {
            b as u16
        } else if tag == 3 {
            (a as u16 + b as u16) / 2
        } else if tag == 4 {
            paeth(a, b, c) as u16
        } else {
            0
        };
        row.push(((stored as u16 + p) % 256) as u8);
        x += 1;
    }
    row
}

/// The product, where it and seven more fit.
fn product(a: usize, b: usize) -> (r: Option<usize>)
    ensures
        match r {
            Some(p) => p == a * b,
            None => a * b > usize::MAX,
        },
{
    a.checked_mul(b)
}

/// Undo the predictors of rows of `row_len` bytes, each behind its tag.
fn undo_rows(data: &[u8], row_len: usize, bpp: usize) -> (r: Vec<u8>)
    requires
        row_len >= 1,
        bpp >= 1,
    ensures
        r@ == rows_from(
            data@,
            0,
            row_len as int,
            bpp as int,
            Seq::new(row_len as nat, |k: int| 0u8),
            Seq::empty(),
        ),
{
    let mut out: Vec<u8> = Vec::new();
    let mut prev: Vec<u8> = Vec::new();
    append_run(&mut prev, 0, row_len);
    let ghost first = Seq::new(row_len as nat, |k: int| 0u8);
    assert(prev@ =~= first);
    let mut i: usize = 0;
    while i < data.len()
        invariant
            i <= data.len(),
            row_len >= 1,
            bpp >= 1,
            prev@.len() == row_len,
            first == Seq::new(row_len as nat, |k: int| 0u8),
            rows_from(data@, 0, row_len as int, bpp as int, first, Seq::empty()) == rows_from(
                data@,
                i as int,
                row_len as int,
                bpp as int,
                prev@,
                out@,
            ),
        decreases data.len() - i,
    {
        let tag: u8 = data[i];
        let row: Vec<u8> = decode_row(tag, data, i + 1, row_len, &prev, bpp);
        append(&mut out, row.as_slice(), 0, row.len());
        assert(row@.subrange(0, row@.len() as int) =~= row@);
        if row_len > data.len() - (i + 1) {
            return out;
        }
        i = i + 1 + row_len;
        prev = row;
    }
    out
}

/// Undo a PNG predictor (`/DecodeParms /Predictor >= 10`).
pub fn apply_predictor(dict: &Dict, data: Vec<u8>) -> (r: Vec<u8>)
    ensures
        r@ == unpredicted(dict_view(dict@), data@),
{
    let parms: &Dict = match get(dict, "DecodeParms") {
        Some(o) => match o.dict() {
            Some(d) => d,
            None => {
                return data;
            },
        },
        None => {
            return data;
        },
    };
    if size_of_entry(parms, "Predictor", 1) < 10 {
        return data;
    }
    let colors: usize = size_of_entry(parms, "Colors", 1);
    let bpc: usize = size_of_entry(parms, "BitsPerComponent", 8);
    let columns: usize = size_of_entry(parms, "Columns", 1);
    let row_bits: usize = match product(columns, colors) {
        Some(p) => match product(p, bpc) {
            Some(q) => q,
            None => {
                return data;
            },
        },
        None => {
            proof {
                assert(columns * colors * bpc == 0 || columns * colors * bpc > usize::MAX)
                    by (nonlinear_arith)
                    requires
                        columns * colors > usize::MAX,
                        bpc >= 0,
                ;
            }
            return data;
        },
    };
    if row_bits == 0 || row_bits > usize::MAX - 7 {
        return data;
    }
    proof {
        assert(0 < colors * bpc <= columns * colors * bpc) by (nonlinear_arith)
            requires
                columns * colors * bpc > 0,
                columns >= 0,
                colors >= 0,
                bpc >= 0,
        ;
    }
    let pixel_bits: usize = match product(colors, bpc) {
        Some(p) => p,
        None => {
            return data;
        },
    };
    let bpp: usize = (pixel_bits + 7) / 8;
    let row_len: usize = (row_bits + 7) / 8;
    undo_rows(data.as_slice(), row_len, bpp)
}

/// The names among a list of objects.
pub open spec fn names(a: Seq<ObjView>) -> Seq<Seq<char>>
    decreases a.len(),
{
    if a.len() == 0 {
        Seq::empty()
    } else {
        match a.last() {
            ObjView::Name(n) => names(a.drop_last()).push(n),
            _ => names(a.drop_last()),
        }
    }
}

/// The filters that a stream dictionary names, in order; none where the entry is malformed.
pub open spec fn filter_names(d: DictView) -> Option<Seq<Seq<char>>> {
    match lookup(d, "Filter"@) {
        None => Some(Seq::empty()),
        Some(ObjView::Name(n)) => Some(seq![n]),
        Some(ObjView::Array(a)) => Some(names(a)),
        Some(_) => None,
    }
}

/// Whether `out` may come of one filter on `data`; none comes of a filter that is not known.
pub open spec fn may_filter(name: Seq<char>, data: Seq<u8>, out: Option<Seq<u8>>) -> bool {
    if name == "FlateDecode"@ || name == "Fl"@ {
        may_inflate(data, out)
    } else if name == "ASCIIHexDecode"@ || name == "AHx"@ {
        out == Some(hex_bytes(data, 0))
    } else if name == "ASCII85Decode"@ || name == "A85"@ {
        out == Some(base85_bytes(data))
    } else if name == "RunLengthDecode"@ || name == "RL"@ {
        out == Some(runs_from(data, 0, Seq::empty()))
    } else {
        out is None
    }
}

/// No more of a decoding than is kept.
pub open spec fn capped(s: Seq<u8>) -> Seq<u8> {
    at_most(s, MAX_DECODED as int)
}

fn cap(v: Vec<u8>) -> (r: Vec<u8>)
    ensures
        r@ == capped(v@),
        r@.len() <= MAX_DECODED,
{
    let mut v = v;
    if v.len() > MAX_DECODED {
        v.truncate(MAX_DECODED);
    }
    v
}

/// Whether `out` may come of the filters from the `k`th on, on `data`. No more than is kept goes from
/// one to the next.
pub open spec fn may_chain(
    filters: Seq<Seq<char>>,
    k: int,
    data: Seq<u8>,
    out: Option<Seq<u8>>,
) -> bool
    decreases filters.len() - k,
{
    if k < 0 || k >= filters.len() {
        out == Some(data)
    } else {
        exists|x: Option<Seq<u8>>| #[trigger]
            may_filter(filters[k], data, x) && match x {
                Some(d) => may_chain(filters, k + 1, capped(d), out),
                None => out is None,
            }
    }
}

/// What comes of a stream with dictionary `d` whose filters gave `x`, as far as it is kept.
pub open spec fn finished(d: DictView, x: Option<Seq<u8>>) -> Option<Seq<u8>> {
    match x {
        Some(out) => Some(capped(unpredicted(d, out))),
        None => None,
    }
}

/// Whether the bytes of a stream with dictionary `d` may stand for `out` with these filters.
pub open spec fn may_give(
    d: DictView,
    filters: Seq<Seq<char>>,
    data: Seq<u8>,
    out: Option<Seq<u8>>,
) -> bool {
    exists|x: Option<Seq<u8>>| #[trigger]
        may_chain(filters, 0, data, x) && out == finished(d, x)
}

/// Whether the bytes of a stream with dictionary `d` may stand for `out`.
pub open spec fn may_decode(d: DictView, data: Seq<u8>, out: Option<Seq<u8>>) -> bool {
    match filter_names(d) {
        None => out is None,
        Some(filters) => may_give(d, filters, data, out),
    }
}

/// Apply one filter.
fn apply_filter(name: &str, data: &[u8]) -> (r: Option<Vec<u8>>)
    ensures
        may_filter(name@, data@, opt_bytes(r)),
{
    if same(name, "FlateDecode") || same(name, "Fl") {
        inflate(data)
    } else if same(name, "ASCIIHexDecode") || same(name, "AHx") {
        Some(ascii_hex_decode(data))
    } else if same(name, "ASCII85Decode") || same(name, "A85") {
        Some(ascii85_decode(data))
    } else if same(name, "RunLengthDecode") || same(name, "RL") {
        Some(run_length_decode(data))
    } else {
        None
    }
}

/// Apply the filters that a list of objects names, in order.
fn apply_names(a: &Vec<Obj>, data: Vec<u8>) -> (r: Option<Vec<u8>>)
    ensures
        may_chain(names(items_view(a@)), 0, data@, opt_bytes(r)),
{
    proof {
        lemma_items_view(a@);
    }
    let ghost views = items_view(a@);
    let ghost all = names(views);
    let ghost start = data@;
    let mut out: Vec<u8> = data;
    let mut i: usize = 0;
    while i < a.len()
        invariant
            i <= a.len(),
            views == items_view(a@),
            views.len() == a@.len(),
            forall|k: int| 0 <= k < a@.len() ==> (#[trigger] views[k]) == a@[k]@,
            all == names(items_view(a@)),
            start == data@,
            forall|x: Option<Seq<u8>>|
                may_chain(all, names(views.take(i as int)).len() as int, out@, x)
                    ==> #[trigger] may_chain(all, 0, start, x),
        decreases a.len() - i,
    {
        assert(views.take(i + 1).drop_last() =~= views.take(i as int));
        assert(views.take(i + 1).last() == a@[i as int]@);
        proof {
            lemma_names_prefix(views, i + 1);
        }
        match &a[i] {
            Obj::Name(n) => {
                let ghost k = names(views.take(i as int)).len() as int;
                assert(names(views.take(i + 1))[k] == n@);
                assert(all[k] == n@);
                let ghost had = out@;
                match apply_filter(n.as_str(), out.as_slice()) {
                    Some(v) => {
                        let ghost got = v@;
                        out = cap(v);
                        assert forall|x: Option<Seq<u8>>| may_chain(
                            all,
                            k + 1,
                            out@,
                            x,
                        ) implies #[trigger] may_chain(all, 0, start, x) by {
                            assert(may_filter(all[k], had, Some(got)));
                            assert(may_chain(all, k, had, x));
                        }
                    },
                    None => {
                        proof {
                            lemma_refused(all, k, had, None);
                        }
                        return None;
                    },
                }
            },
            _ => {},
        }
        i += 1;
    }
    assert(views.take(i as int) =~= views);
    assert(may_chain(all, all.len() as int, out@, Some(out@)));
    Some(out)
}

/// Decode a stream's bytes through its `/Filter` chain. None for a filter that is not known (image
/// codecs, LZW), so that the caller skips the stream.
pub fn decode_stream(dict: &Dict, data: &[u8]) -> (r: Option<Vec<u8>>)
    ensures
        may_decode(dict_view(dict@), data@, opt_bytes(r)),
        sound_stream(dict_view(dict@), data@) ==> opt_bytes(r) == decoded(dict_view(dict@), data@),
        r matches Some(v) ==> v@.len() <= MAX_DECODED,
{
    let mut out: Vec<u8> = vstd::slice::slice_to_vec(data);
    let ghost d = dict_view(dict@);
    match get(dict, "Filter") {
        None => {
            assert(may_chain(Seq::<Seq<char>>::empty(), 0, data@, Some(out@)));
        },
        Some(Obj::Name(n)) => {
            let ghost one = seq![n@];
            assert(one[0] == n@);
            match apply_filter(n.as_str(), out.as_slice()) {
                Some(v) => {
                    let ghost got = v@;
                    out = cap(v);
                    assert(may_chain(one, 1, out@, Some(out@)));
                    assert(may_filter(one[0], data@, Some(got)));
                    assert(may_chain(one, 0, data@, Some(out@)));
                },
                None => {
                    proof {
                        lemma_refused(one, 0, data@, None);
                        lemma_decodes(d, one, data@, None);
                        lemma_decoded(d, data@, None);
                    }
                    return None;
                },
            }
        },
        Some(Obj::Array(a)) => {
            match apply_names(a, out) {
                Some(v) => {
                    out = v;
                },
                None => {
                    proof {
                        lemma_decodes(d, names(items_view(a@)), data@, None);
                        lemma_decoded(d, data@, None);
                    }
                    return None;
                },
            }
        },
        Some(_) => {
            return None;
        },
    }
    let ghost chained = out@;
    let r: Vec<u8> = cap(apply_predictor(dict, out));
    assert(finished(d, Some(chained)) == Some(r@));
    proof {
        lemma_decoded(d, data@, Some(r@));
    }
    Some(r)
}

proof fn lemma_decoded(d: DictView, data: Seq<u8>, out: Option<Seq<u8>>)
    requires
        may_decode(d, data, out),
    ensures
        sound_stream(d, data) ==> out == decoded(d, data),
{
    if sound_stream(d, data) {
        sound_streams_decode_one_way(d, data, out);
    }
}

/// Where a filter gives nothing, nothing comes of the rest.
proof fn lemma_refused(filters: Seq<Seq<char>>, k: int, data: Seq<u8>, x: Option<Seq<u8>>)
    requires
        0 <= k < filters.len(),
        x is None,
        may_filter(filters[k], data, x),
    ensures
        may_chain(filters, k, data, x),
{
}

proof fn lemma_decodes(d: DictView, filters: Seq<Seq<char>>, data: Seq<u8>, x: Option<Seq<u8>>)
    requires
        filter_names(d) == Some(filters),
        may_chain(filters, 0, data, x),
    ensures
        may_decode(d, data, finished(d, x)),
{
}

/// Whether a filter's name stands for compression.
pub open spec fn is_flate(name: Seq<char>) -> bool {
    name == "FlateDecode"@ || name == "Fl"@
}

/// What one filter makes of `data`, where that is sound; none for a filter that is not known.
pub open spec fn filtered(name: Seq<char>, data: Seq<u8>) -> Option<Seq<u8>> {
    if is_flate(name) {
        inflated(data)
    } else if name == "ASCIIHexDecode"@ || name == "AHx"@ {
        Some(hex_bytes(data, 0))
    } else if name == "ASCII85Decode"@ || name == "A85"@ {
        Some(base85_bytes(data))
    } else if name == "RunLengthDecode"@ || name == "RL"@ {
        Some(runs_from(data, 0, Seq::empty()))
    } else {
        None
    }
}

/// What the filters from the `k`th on make of `data`, where all that is compressed is sound.
pub open spec fn chain(filters: Seq<Seq<char>>, k: int, data: Seq<u8>) -> Option<Seq<u8>>
    decreases filters.len() - k,
{
    if k < 0 || k >= filters.len() {
        Some(data)
    } else {
        match filtered(filters[k], data) {
            Some(d) => chain(filters, k + 1, capped(d)),
            None => None,
        }
    }
}

/// Whether all that the filters from the `k`th on find compressed is sound.
pub open spec fn sound_chain(filters: Seq<Seq<char>>, k: int, data: Seq<u8>) -> bool
    decreases filters.len() - k,
{
    if k < 0 || k >= filters.len() {
        true
    } else {
        &&& is_flate(filters[k]) ==> is_sound(data)
        &&& filtered(filters[k], data) matches Some(d) ==> sound_chain(filters, k + 1, capped(d))
    }
}

/// Whether all that is compressed in a stream is sound.
pub open spec fn sound_stream(d: DictView, data: Seq<u8>) -> bool {
    filter_names(d) matches Some(filters) ==> sound_chain(filters, 0, data)
}

/// What the bytes of a sound stream stand for, as far as it is kept.
pub open spec fn decoded(d: DictView, data: Seq<u8>) -> Option<Seq<u8>> {
    match filter_names(d) {
        None => None,
        Some(filters) => finished(d, chain(filters, 0, data)),
    }
}

proof fn lemma_sound_chain(filters: Seq<Seq<char>>, k: int, data: Seq<u8>, x: Option<Seq<u8>>)
    requires
        sound_chain(filters, k, data),
    ensures
        may_chain(filters, k, data, x) == (x == chain(filters, k, data)),
    decreases filters.len() - k,
{
    if 0 <= k < filters.len() {
        let y = filtered(filters[k], data);
        assert(may_filter(filters[k], data, y));
        assert(forall|z: Option<Seq<u8>>| #[trigger]
            may_filter(filters[k], data, z) ==> z == y);
        if let Some(d) = y {
            lemma_sound_chain(filters, k + 1, capped(d), x);
        }
    }
}

/// The bytes of a sound stream stand for one thing.
pub proof fn sound_streams_decode_one_way(d: DictView, data: Seq<u8>, out: Option<Seq<u8>>)
    requires
        sound_stream(d, data),
    ensures
        may_decode(d, data, out) == (out == decoded(d, data)),
{
    if let Some(filters) = filter_names(d) {
        let x = chain(filters, 0, data);
        lemma_sound_chain(filters, 0, data, x);
        lemma_decodes(d, filters, data, x);
        assert forall|y: Option<Seq<u8>>| #[trigger] may_chain(filters, 0, data, y) implies y
            == x by {
            lemma_sound_chain(filters, 0, data, y);
        }
    }
}

proof fn lemma_uncompressed(filters: Seq<Seq<char>>, k: int, data: Seq<u8>)
    requires
        forall|i: int| 0 <= i < filters.len() ==> !is_flate(#[trigger] filters[i]),
    ensures
        sound_chain(filters, k, data),
    decreases filters.len() - k,
{
    if 0 <= k < filters.len() {
        assert(!is_flate(filters[k]));
        if let Some(d) = filtered(filters[k], data) {
            lemma_uncompressed(filters, k + 1, capped(d));
        }
    }
}

/// Only what is compressed may be unsound.
pub proof fn only_compressed_streams_vary(d: DictView, data: Seq<u8>)
    requires
        filter_names(d) matches Some(filters) ==> forall|i: int|
            0 <= i < filters.len() ==> !is_flate(#[trigger] filters[i]),
    ensures
        sound_stream(d, data),
{
    if let Some(filters) = filter_names(d) {
        lemma_uncompressed(filters, 0, data);
    }
}

/// Whether stream `plain` holds uncompressed what stream `d` holds in compressed form, soundly: it
/// has no filter, its bytes are what the compressed ones stand for, and its predictor does the same.
pub open spec fn holds_plainly(
    d: DictView,
    data: Seq<u8>,
    plain: DictView,
    bytes: Seq<u8>,
) -> bool {
    &&& filter_names(d) matches Some(filters) && filters.len() == 1 && is_flate(filters[0])
    &&& is_sound(data)
    &&& inflated(data) == Some(bytes)
    &&& filter_names(plain) == Some(Seq::<Seq<char>>::empty())
    &&& unpredicted(plain, bytes) == unpredicted(d, bytes)
}

/// A sound compressed stream stands for what it does uncompressed.
pub proof fn compressed_streams_decode_as_plain_ones(
    d: DictView,
    data: Seq<u8>,
    plain: DictView,
    bytes: Seq<u8>,
    out: Option<Seq<u8>>,
)
    requires
        holds_plainly(d, data, plain, bytes),
    ensures
        sound_stream(d, data),
        sound_stream(plain, bytes),
        may_decode(d, data, out) == may_decode(plain, bytes, out),
{
    let filters = filter_names(d).unwrap();
    assert(capped(bytes) == bytes);
    assert(sound_chain(filters, 1, bytes));
    assert(chain(filters, 1, bytes) == Some(bytes));
    assert(chain(filters, 0, data) == Some(bytes));
    sound_streams_decode_one_way(d, data, out);
    sound_streams_decode_one_way(plain, bytes, out);
}

/// The names of the first `n` objects are the first names.
proof fn lemma_names_prefix(a: Seq<ObjView>, n: int)
    requires
        0 <= n <= a.len(),
    ensures
        names(a.take(n)).len() <= names(a).len(),
        forall|k: int|
            0 <= k < names(a.take(n)).len() ==> (#[trigger] names(a.take(n))[k]) == names(a)[k],
    decreases a.len(),
{
    if n == a.len() {
        assert(a.take(n) =~= a);
    } else {
        assert(a.drop_last().take(n) =~= a.take(n));
        lemma_names_prefix(a.drop_last(), n);
    }
}

} // verus!
