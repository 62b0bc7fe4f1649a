//! Building text: the characters of a string, appending characters and
//! hexadecimal numbers to a `String`, and joining strings.

use vstd::prelude::*;
use vstd::string::StringExecFns;

verus! {

/// `String::push` of the standard library appends the given character to the
/// end of the string and changes nothing else. This is taken on trust.
pub assume_specification[ String::push ](s: &mut String, c: char)
    ensures
        final(s)@ == old(s)@.push(c),
;

/// The character that stands for the hexadecimal digit `d` (`0..16`), with
/// the letters in upper or in lower case.
pub open spec fn hex_digit(d: int, upper: bool) -> char
    recommends
        0 <= d < 16,
{
    if d < 10 {
        (48 + d) as char
    } else if upper {
        (55 + d) as char
    } else {
        (87 + d) as char
    }
}

/// `value` in hexadecimal with no leading zeros; zero is written `0`.
pub open spec fn hex(value: nat, upper: bool) -> Seq<char>
    decreases value,
{
    if value < 16 {
        seq![hex_digit(value as int, upper)]
    } else {
        hex(value / 16, upper).push(hex_digit((value % 16) as int, upper))
    }
}

/// `count` times the character `c`.
pub open spec fn repeated(c: char, count: nat) -> Seq<char> {
    Seq::new(count, |i: int| c)
}

/// `value` in hexadecimal, with zeros in front where it has fewer than
/// `width` digits.
pub open spec fn hex_padded(value: nat, width: nat, upper: bool) -> Seq<char> {
    let digits = hex(value, upper);
    if digits.len() < width {
        repeated('0', (width - digits.len()) as nat) + digits
    } else {
        digits
    }
}

/// A number in hexadecimal has between one and sixteen digits when it fits
/// in 64 bits.
pub proof fn lemma_hex_len(value: nat, upper: bool)
    ensures
        hex(value, upper).len() >= 1,
        value < 0x10 ==> hex(value, upper).len() == 1,
        0x10 <= value < 0x100 ==> hex(value, upper).len() == 2,
        value <= u64::MAX ==> hex(value, upper).len() <= 16,
{
    reveal_with_fuel(hex, 17);
}

/// The character of one hexadecimal digit.
pub fn hex_digit_char(d: u8, upper: bool) -> (c: char)
    requires
        d < 16,
    ensures
        c == hex_digit(d as int, upper),
{
    if d < 10 {
        (48 + d) as char
    } else if upper {
        (55 + d) as char
    } else {
        (87 + d) as char
    }
}

/// The number of hexadecimal digits of `value`.
pub fn hex_len(value: u64) -> (len: usize)
    ensures
        len == hex(value as nat, true).len(),
        len == hex(value as nat, false).len(),
        1 <= len <= 16,
    decreases value,
{
    proof {
        lemma_hex_len(value as nat, true);
    }
    if value < 16 {
        1
    } else {
        hex_len(value / 16) + 1
    }
}

/// Appends `value` in hexadecimal, without leading zeros.
pub fn push_hex(out: &mut String, value: u64, upper: bool)
    ensures
        final(out)@ == old(out)@ + hex(value as nat, upper),
    decreases value,
{
    if value >= 16 {
        push_hex(out, value / 16, upper);
    }
    out.push(hex_digit_char((value % 16) as u8, upper));
    assert(out@ =~= old(out)@ + hex(value as nat, upper));
}

/// Appends `value` in hexadecimal, padded with zeros to `width` digits.
pub fn push_hex_padded(out: &mut String, value: u64, width: usize, upper: bool)
    ensures
        final(out)@ == old(out)@ + hex_padded(value as nat, width as nat, upper),
{
    let len = hex_len(value);
    let mut k: usize = len;
    while k < width
        invariant
            len <= k,
            k == len || k <= width,
            out@ == old(out)@ + repeated('0', (k - len) as nat),
        decreases width - k,
    {
        out.push('0');
        k += 1;
        assert(out@ =~= old(out)@ + repeated('0', (k - len) as nat));
    }
    push_hex(out, value, upper);
    assert(out@ =~= old(out)@ + hex_padded(value as nat, width as nat, upper));
}

/// Appends a piece of text.
pub fn push_text(out: &mut String, text: &str)
    ensures
        final(out)@ == old(out)@ + text@,
{
    out.append(text);
}

/// The characters of a text.
pub fn chars_of(text: &str) -> (chars: Vec<char>)
    ensures
        chars@ == text@,
{
    let mut chars: Vec<char> = Vec::new();
    for c in it: text.chars()
        invariant
            it.seq() == text@,
            chars@ == text@.take(it.index()),
    {
        chars.push(c);
        assert(chars@ =~= text@.take(it.index() + 1));
    }
    assert(chars@ =~= text@);
    chars
}

/// The texts of a list of strings.
pub open spec fn texts(strings: Seq<String>) -> Seq<Seq<char>> {
    Seq::new(strings.len(), |k: int| strings[k]@)
}

/// The parts, with the separator between each two of them.
pub open spec fn joined(parts: Seq<Seq<char>>, separator: Seq<char>) -> Seq<char>
    decreases parts.len(),
{
    if parts.len() == 0 {
        Seq::empty()
    } else if parts.len() == 1 {
        parts[0]
    } else {
        joined(parts.drop_last(), separator) + separator + parts.last()
    }
}

} // verus!
