//! Text: names decoded from UTF-16, and numbers rendered as digits.

use crate::bytes::be16;
use vstd::prelude::*;

verus! {

/// The Unicode replacement character, which stands for an unpaired surrogate.
pub const REPLACEMENT: char = '\u{FFFD}';

/// Whether `unit` is a leading (high) surrogate.
pub open spec fn is_high_surrogate(unit: u16) -> bool {
    0xD800 <= unit <= 0xDBFF
}

/// Whether `unit` is a trailing (low) surrogate.
pub open spec fn is_low_surrogate(unit: u16) -> bool {
    0xDC00 <= unit <= 0xDFFF
}

/// The supplementary-plane character that a surrogate pair encodes.
pub open spec fn surrogate_pair(high: u16, low: u16) -> char {
    (0x1_0000 + (high - 0xD800) * 0x400 + (low - 0xDC00)) as char
}

/// The text of a UTF-16 sequence: each surrogate pair is one character, each
/// unpaired surrogate becomes U+FFFD, and every other unit is its own character.
pub open spec fn utf16_text(units: Seq<u16>) -> Seq<char>
    decreases units.len(),
{
    if units.len() == 0 {
        Seq::empty()
    } else if !is_high_surrogate(units[0]) && !is_low_surrogate(units[0]) {
        seq![units[0] as char] + utf16_text(units.skip(1))
    } else if is_high_surrogate(units[0]) && units.len() >= 2 && is_low_surrogate(units[1]) {
        seq![surrogate_pair(units[0], units[1])] + utf16_text(units.skip(2))
    } else {
        seq![REPLACEMENT] + utf16_text(units.skip(1))
    }
}

/// The big-endian 16-bit units of `bytes`; a trailing odd byte is dropped.
pub open spec fn be_units(bytes: Seq<u8>) -> Seq<u16> {
    Seq::new((bytes.len() / 2) as nat, |i: int| crate::bytes::be16_at(bytes, 2 * i))
}

/// The text of a big-endian UTF-16 byte sequence.
pub open spec fn name_text(bytes: Seq<u8>) -> Seq<char> {
    utf16_text(be_units(bytes))
}

/// Calls [`String::from_utf16_lossy`]: the units decode to text, with U+FFFD in
/// place of each surrogate that has no partner.
#[verifier::external_body]
fn from_utf16_lossy(units: &[u16]) -> (text: String)
    ensures
        text@ == utf16_text(units@),
{
    String::from_utf16_lossy(units)
}

/// Decodes big-endian UTF-16, lossily.
pub fn decode_utf16(bytes: &[u8]) -> (text: String)
    ensures
        text@ == name_text(bytes@),
{
    let count: usize = bytes.len() / 2;
    let mut units: Vec<u16> = Vec::new();
    let mut i: usize = 0;
    while i < count
        invariant
            count == bytes.len() / 2,
            i <= count,
            units@ =~= be_units(bytes@).take(i as int),
        decreases count - i,
    {
        units.push(be16(bytes, 2 * i));
        i = i + 1;
    }
    assert(units@ =~= be_units(bytes@));
    from_utf16_lossy(units.as_slice())
}

/// The decimal digit `d` as a character.
pub open spec fn digit(d: int) -> char {
    (d + '0' as int) as char
}

/// The decimal digits of `n`, most significant first, with no leading zero.
pub open spec fn decimal(n: int) -> Seq<char>
    decreases n,
{
    if n < 10 {
        seq![digit(n)]
    } else {
        decimal(n / 10).push(digit(n % 10))
    }
}

/// The decimal digits of `n`, with a minus sign in front of a negative number.
pub open spec fn signed_decimal(n: int) -> Seq<char> {
    if n < 0 {
        "-"@ + decimal(-n)
    } else {
        decimal(n)
    }
}

/// The hexadecimal digit `d` (below 16) as a lower-case character.
pub open spec fn hex_digit(d: int) -> char {
    if d < 10 {
        digit(d)
    } else {
        (d - 10 + 'a' as int) as char
    }
}

/// The last `width` hexadecimal digits of `n`, most significant first.
pub open spec fn hex(n: int, width: nat) -> Seq<char>
    decreases width,
{
    if width == 0 {
        Seq::empty()
    } else {
        hex(n / 16, (width - 1) as nat).push(hex_digit(n % 16))
    }
}

fn hex_digit_text(d: u32) -> (text: &'static str)
    requires
        d < 16,
    ensures
        text@ == seq![hex_digit(d as int)],
{
    proof {
        reveal_strlit("0");
        reveal_strlit("1");
        reveal_strlit("2");
        reveal_strlit("3");
        reveal_strlit("4");
        reveal_strlit("5");
        reveal_strlit("6");
        reveal_strlit("7");
        reveal_strlit("8");
        reveal_strlit("9");
        reveal_strlit("a");
        reveal_strlit("b");
        reveal_strlit("c");
        reveal_strlit("d");
        reveal_strlit("e");
        reveal_strlit("f");
    }
    match d {
        0 => "0",
        1 => "1",
        2 => "2",
        3 => "3",
        4 => "4",
        5 => "5",
        6 => "6",
        7 => "7",
        8 => "8",
        9 => "9",
        10 => "a",
        11 => "b",
        12 => "c",
        13 => "d",
        14 => "e",
        _ => "f",
    }
}

/// Appends the decimal digits of `n`.
pub fn push_decimal(out: &mut String, n: u64)
    ensures
        final(out)@ == old(out)@ + decimal(n as int),
    decreases n,
{
    if n >= 10 {
        push_decimal(out, n / 10);
    }
    out.append(hex_digit_text((n % 10) as u32));
    proof {
        let last = seq![digit(n as int % 10)];
        if n >= 10 {
            assert(decimal(n as int) =~= decimal(n as int / 10) + last);
        } else {
            assert(decimal(n as int) =~= last);
        }
    }
}

/// Appends the decimal digits of `n`, signed.
pub fn push_signed_decimal(out: &mut String, n: i16)
    ensures
        final(out)@ == old(out)@ + signed_decimal(n as int),
{
    if n < 0 {
        out.append("-");
        push_decimal(out, (-(n as i64)) as u64);
    } else {
        push_decimal(out, n as u64);
    }
}

/// Appends the last `width` hexadecimal digits of `n`.
pub fn push_hex(out: &mut String, n: u32, width: u32)
    ensures
        final(out)@ == old(out)@ + hex(n as int, width as nat),
    decreases width,
{
    if width > 0 {
        push_hex(out, n / 16, width - 1);
        out.append(hex_digit_text(n % 16));
        proof {
            assert(hex(n as int, width as nat) =~= hex(n as int / 16, (width - 1) as nat) + seq![
                hex_digit(n as int % 16),
            ]);
        }
    }
}

} // verus!
