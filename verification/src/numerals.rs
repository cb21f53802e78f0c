//! Decimal and hexadecimal numerals, padding, and the labels under which
//! tasks and events are shown and looked up.

use vstd::prelude::*;
use crate::text::string_from_chars;

verus! {

/// The numeral digit of value `v` (`0`-`9`, then upper-case `A`-`F`).
pub open spec fn digit_char(v: int) -> char {
    if v == 0 { '0' } else if v == 1 { '1' } else if v == 2 { '2' } else if v == 3 { '3' }
    else if v == 4 { '4' } else if v == 5 { '5' } else if v == 6 { '6' } else if v == 7 { '7' }
    else if v == 8 { '8' } else if v == 9 { '9' } else if v == 10 { 'A' } else if v == 11 { 'B' }
    else if v == 12 { 'C' } else if v == 13 { 'D' } else if v == 14 { 'E' } else { 'F' }
}

/// Upper-case hexadecimal numeral of `n`, without leading zeros.
pub open spec fn hex_text(n: nat) -> Seq<char>
    decreases n,
{
    if n < 16 {
        seq![digit_char(n as int)]
    } else {
        hex_text(n / 16).push(digit_char((n % 16) as int))
    }
}

/// Decimal numeral of `n`, without leading zeros.
pub open spec fn dec_text(n: nat) -> Seq<char>
    decreases n,
{
    if n < 10 {
        seq![digit_char(n as int)]
    } else {
        dec_text(n / 10).push(digit_char((n % 10) as int))
    }
}

/// Decimal numeral of a signed number, with a leading `-` when negative.
pub open spec fn int_text(n: int) -> Seq<char> {
    if n < 0 {
        seq!['-'] + dec_text((-n) as nat)
    } else {
        dec_text(n as nat)
    }
}

/// `s` right-aligned in a field of `width` characters, filled with `fill`
/// on the left (what `{:>width}` does with that fill).
pub open spec fn pad_left(s: Seq<char>, width: int, fill: char) -> Seq<char> {
    if s.len() >= width {
        s
    } else {
        Seq::new((width - s.len()) as nat, |_i: int| fill) + s
    }
}

/// `s` left-aligned in a field of `width` characters, filled with `fill`
/// on the right (what `{:<width}` does with that fill).
pub open spec fn pad_right(s: Seq<char>, width: int, fill: char) -> Seq<char> {
    if s.len() >= width {
        s
    } else {
        s + Seq::new((width - s.len()) as nat, |_i: int| fill)
    }
}

/// The id of a task or event as it is shown and matched: upper-case
/// hexadecimal, zero-filled to six digits (`{:0>6X}`).
pub open spec fn id_text(id: u32) -> Seq<char> {
    pad_left(hex_text(id as nat), 6, '0')
}

/// The 24-bit short id taken from a 64-bit digest (`digest & 0x00FFFFFF`).
pub open spec fn short_id(digest: u64) -> u32 {
    (digest % 0x1000000) as u32
}

pub fn short_id_of(digest: u64) -> (r: u32)
    ensures
        r == short_id(digest),
        r < 0x1000000,
{
    assert(digest & 0x00FFFFFF == digest % 0x1000000) by (bit_vector);
    (digest & 0x00FFFFFF) as u32
}

fn digit(v: u64) -> (c: char)
    requires
        v < 16,
    ensures
        c == digit_char(v as int),
{
    match v {
        0 => '0', 1 => '1', 2 => '2', 3 => '3', 4 => '4', 5 => '5', 6 => '6', 7 => '7',
        8 => '8', 9 => '9', 10 => 'A', 11 => 'B', 12 => 'C', 13 => 'D', 14 => 'E', _ => 'F',
    }
}

/// The characters of `hex_text(n)`.
pub fn hex_chars(n: u64) -> (r: Vec<char>)
    ensures
        r@ == hex_text(n as nat),
{
    let mut acc: Vec<char> = Vec::new();
    let mut v = n;
    while v >= 16
        invariant
            hex_text(n as nat) == hex_text(v as nat) + acc@,
        decreases v,
    {
        let d = digit(v % 16);
        let ghost before = acc@;
        acc.insert(0, d);
        assert(hex_text(v as nat) == hex_text((v / 16) as nat).push(d));
        assert(hex_text((v / 16) as nat) + acc@ =~= hex_text((v / 16) as nat).push(d) + before);
        v = v / 16;
    }
    let d = digit(v);
    let ghost before = acc@;
    acc.insert(0, d);
    assert(acc@ =~= seq![d] + before);
    acc
}

/// The characters of `dec_text(n)`.
pub fn dec_chars(n: u64) -> (r: Vec<char>)
    ensures
        r@ == dec_text(n as nat),
{
    let mut acc: Vec<char> = Vec::new();
    let mut v = n;
    while v >= 10
        invariant
            dec_text(n as nat) == dec_text(v as nat) + acc@,
        decreases v,
    {
        let d = digit(v % 10);
        let ghost before = acc@;
        acc.insert(0, d);
        assert(dec_text(v as nat) == dec_text((v / 10) as nat).push(d));
        assert(dec_text((v / 10) as nat) + acc@ =~= dec_text((v / 10) as nat).push(d) + before);
        v = v / 10;
    }
    let d = digit(v);
    let ghost before = acc@;
    acc.insert(0, d);
    assert(acc@ =~= seq![d] + before);
    acc
}

/// The characters of `int_text(n)`.
pub fn int_chars(n: i64) -> (r: Vec<char>)
    ensures
        r@ == int_text(n as int),
{
    if n < 0 {
        let magnitude: u64 = (0i128 - n as i128) as u64;
        let mut digits = dec_chars(magnitude);
        let mut r: Vec<char> = Vec::new();
        r.push('-');
        r.append(&mut digits);
        assert(r@ =~= seq!['-'] + dec_text((-n) as nat));
        r
    } else {
        dec_chars(n as u64)
    }
}

/// `pad_left(s, width, fill)`.
pub fn pad_left_chars(s: Vec<char>, width: usize, fill: char) -> (r: Vec<char>)
    ensures
        r@ == pad_left(s@, width as int, fill),
{
    if s.len() >= width {
        s
    } else {
        let mut r: Vec<char> = Vec::new();
        let count = width - s.len();
        let mut i: usize = 0;
        while i < count
            invariant
                i <= count,
                r@ == Seq::new(i as nat, |_k: int| fill),
            decreases count - i,
        {
            r.push(fill);
            i = i + 1;
            assert(r@ =~= Seq::new(i as nat, |_k: int| fill));
        }
        let mut rest = s;
        r.append(&mut rest);
        r
    }
}

/// `pad_right(s, width, fill)`.
pub fn pad_right_chars(s: Vec<char>, width: usize, fill: char) -> (r: Vec<char>)
    ensures
        r@ == pad_right(s@, width as int, fill),
{
    if s.len() >= width {
        s
    } else {
        let count = width - s.len();
        let mut r = s;
        let ghost start = r@;
        let mut i: usize = 0;
        while i < count
            invariant
                i <= count,
                r@ == start + Seq::new(i as nat, |_k: int| fill),
            decreases count - i,
        {
            r.push(fill);
            i = i + 1;
            assert(r@ =~= start + Seq::new(i as nat, |_k: int| fill));
        }
        r
    }
}

/// The characters of `id_text(id)`.
pub fn id_chars(id: u32) -> (r: Vec<char>)
    ensures
        r@ == id_text(id),
{
    pad_left_chars(hex_chars(id as u64), 6, '0')
}

/// The id as it is shown and matched: six upper-case hexadecimal digits,
/// zero-filled on the left.
pub fn id_label(id: u32) -> (r: String)
    ensures
        r@ == id_text(id),
{
    string_from_chars(&id_chars(id))
}

/// The bracketed id that leads a listing line: `[` id `] `.
pub open spec fn tag_text(id: u32) -> Seq<char> {
    seq!['['] + id_text(id) + seq![']', ' ']
}

pub fn id_tag(id: u32) -> (r: String)
    ensures
        r@ == tag_text(id),
{
    let mut chars: Vec<char> = Vec::new();
    chars.push('[');
    let mut digits = id_chars(id);
    chars.append(&mut digits);
    chars.push(']');
    chars.push(' ');
    assert(chars@ =~= tag_text(id));
    string_from_chars(&chars)
}

/// The bracketed id printed once a task is deleted: the hexadecimal digits
/// filled with zeros on the right to six places (`[{:0<6X}]`).
pub open spec fn deleted_tag_text(id: u32) -> Seq<char> {
    seq!['['] + pad_right(hex_text(id as nat), 6, '0') + seq![']']
}

pub fn deleted_tag(id: u32) -> (r: String)
    ensures
        r@ == deleted_tag_text(id),
{
    let mut chars: Vec<char> = Vec::new();
    chars.push('[');
    let mut digits = pad_right_chars(hex_chars(id as u64), 6, '0');
    chars.append(&mut digits);
    chars.push(']');
    assert(chars@ =~= deleted_tag_text(id));
    string_from_chars(&chars)
}

} // verus!
