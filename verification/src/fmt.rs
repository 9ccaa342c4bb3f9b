//! Verified text rendering: hexadecimal, decimal and octal numerals, and a
//! quoted byte-string form with escapes for non-printable bytes.
//!
//! Every function states its exact output as a `Seq<char>` spec function, so
//! the rendering layer above can pin its own output down to the character.

use vstd::prelude::*;
use vstd::string::StringExecFns;

verus! {

/// Relies on `String::push`: appends exactly the one character.
#[verifier::external_body]
pub fn push_char(s: &mut String, c: char)
    ensures
        final(s)@ == old(s)@ + seq![c],
{
    s.push(c);
}

/// The character for one digit value below 16, lower case.
pub open spec fn hex_char(d: int) -> char {
    if d < 10 {
        ((48 + d) as u8) as char
    } else {
        ((87 + d) as u8) as char
    }
}

/// The character for one digit value below 16, upper case.
pub open spec fn hex_char_upper(d: int) -> char {
    if d < 10 {
        ((48 + d) as u8) as char
    } else {
        ((55 + d) as u8) as char
    }
}

/// Hexadecimal digits of `v`, lower case, no prefix, no leading zeros.
pub open spec fn hex_digits(v: nat) -> Seq<char>
    decreases v,
{
    if v < 16 {
        seq![hex_char(v as int)]
    } else {
        hex_digits(v / 16) + seq![hex_char((v % 16) as int)]
    }
}

/// Hexadecimal digits of `v`, upper case, no prefix.
pub open spec fn hex_digits_upper(v: nat) -> Seq<char>
    decreases v,
{
    if v < 16 {
        seq![hex_char_upper(v as int)]
    } else {
        hex_digits_upper(v / 16) + seq![hex_char_upper((v % 16) as int)]
    }
}

/// `v` in the `0x...` form.
pub open spec fn spec_hex(v: nat) -> Seq<char> {
    "0x"@ + hex_digits(v)
}

/// Decimal digits of `v`.
pub open spec fn dec_digits(v: nat) -> Seq<char>
    decreases v,
{
    if v < 10 {
        seq![hex_char(v as int)]
    } else {
        dec_digits(v / 10) + seq![hex_char((v % 10) as int)]
    }
}

/// A signed value in decimal, with a leading minus sign when negative.
pub open spec fn spec_dec_int(v: int) -> Seq<char> {
    if v < 0 {
        seq!['-'] + dec_digits((-v) as nat)
    } else {
        dec_digits(v as nat)
    }
}

/// Octal digits of `v`.
pub open spec fn oct_digits(v: nat) -> Seq<char>
    decreases v,
{
    if v < 8 {
        seq![hex_char(v as int)]
    } else {
        oct_digits(v / 8) + seq![hex_char((v % 8) as int)]
    }
}

/// `v` in the `0o...` form.
pub open spec fn spec_oct(v: nat) -> Seq<char> {
    "0o"@ + oct_digits(v)
}

/// One byte of a quoted byte string: printable characters stand for
/// themselves, common control characters use their short escapes, and
/// everything else appears as a two-digit hexadecimal escape.
pub open spec fn escape_byte(b: u8) -> Seq<char> {
    if b == 9 {
        seq!['\\', 't']
    } else if b == 13 {
        seq!['\\', 'r']
    } else if b == 10 {
        seq!['\\', 'n']
    } else if b == 34 {
        seq!['\\', '"']
    } else if b == 92 {
        seq!['\\', '\\']
    } else if 32 <= b && b < 127 {
        seq![b as char]
    } else {
        seq!['\\', 'x', hex_char((b / 16) as int), hex_char((b % 16) as int)]
    }
}

/// All bytes of a byte string, escaped.
pub open spec fn escape_bytes(s: Seq<u8>) -> Seq<char>
    decreases s.len(),
{
    if s.len() == 0 {
        Seq::empty()
    } else {
        escape_bytes(s.drop_last()) + escape_byte(s.last())
    }
}

/// A byte string between double quotes, with escapes.
pub open spec fn spec_quoted(s: Seq<u8>) -> Seq<char> {
    seq!['"'] + escape_bytes(s) + seq!['"']
}

/// The views of a list of rendered parts, joined by a separator.
pub open spec fn spec_join_sep(parts: Seq<Seq<char>>, sep: Seq<char>) -> Seq<char>
    decreases parts.len(),
{
    if parts.len() == 0 {
        Seq::empty()
    } else if parts.len() == 1 {
        parts[0]
    } else {
        spec_join_sep(parts.drop_last(), sep) + sep + parts.last()
    }
}

/// The digit character for a value below 16, lower case.
pub fn hex_digit_char(d: u8) -> (c: char)
    requires
        d < 16,
    ensures
        c == hex_char(d as int),
{
    if d < 10 {
        (48 + d) as char
    } else {
        (87 + d) as char
    }
}

fn hex_digits_string(v: u64) -> (r: String)
    ensures
        r@ == hex_digits(v as nat),
    decreases v,
{
    if v < 16 {
        let mut s = String::new();
        push_char(&mut s, hex_digit_char(v as u8));
        s
    } else {
        let mut s = hex_digits_string(v / 16);
        push_char(&mut s, hex_digit_char((v % 16) as u8));
        s
    }
}

/// `v` rendered in the `0x...` form.
pub fn fmt_hex(v: u64) -> (r: String)
    ensures
        r@ == spec_hex(v as nat),
{
    let mut s = String::from_str("0x");
    let digits = hex_digits_string(v);
    s.append(digits.as_str());
    s
}

fn hex_digits_upper_string(v: u64) -> (r: String)
    ensures
        r@ == hex_digits_upper(v as nat),
    decreases v,
{
    let d: u8 = (v % 16) as u8;
    let c: char = if d < 10 {
        (48 + d) as char
    } else {
        (55 + d) as char
    };
    if v < 16 {
        let mut s = String::new();
        push_char(&mut s, c);
        s
    } else {
        let mut s = hex_digits_upper_string(v / 16);
        push_char(&mut s, c);
        s
    }
}

/// `v` rendered in lower-case hexadecimal, without a prefix.
pub fn fmt_hex_digits(v: u64) -> (r: String)
    ensures
        r@ == hex_digits(v as nat),
{
    hex_digits_string(v)
}

/// `v` rendered in upper-case hexadecimal, without a prefix.
pub fn fmt_hex_upper(v: u64) -> (r: String)
    ensures
        r@ == hex_digits_upper(v as nat),
{
    hex_digits_upper_string(v)
}

fn dec_digits_string(v: u64) -> (r: String)
    ensures
        r@ == dec_digits(v as nat),
    decreases v,
{
    if v < 10 {
        let mut s = String::new();
        push_char(&mut s, hex_digit_char(v as u8));
        s
    } else {
        let mut s = dec_digits_string(v / 10);
        push_char(&mut s, hex_digit_char((v % 10) as u8));
        s
    }
}

/// `v` rendered in decimal.
pub fn fmt_dec_u64(v: u64) -> (r: String)
    ensures
        r@ == dec_digits(v as nat),
{
    dec_digits_string(v)
}

/// A signed value rendered in decimal.
pub fn fmt_dec_i64(v: i64) -> (r: String)
    ensures
        r@ == spec_dec_int(v as int),
{
    if v >= 0 {
        dec_digits_string(v as u64)
    } else {
        let magnitude: u64 = (-(v as i128)) as u64;
        let mut s = String::new();
        push_char(&mut s, '-');
        let digits = dec_digits_string(magnitude);
        s.append(digits.as_str());
        s
    }
}

fn oct_digits_string(v: u64) -> (r: String)
    ensures
        r@ == oct_digits(v as nat),
    decreases v,
{
    if v < 8 {
        let mut s = String::new();
        push_char(&mut s, hex_digit_char(v as u8));
        s
    } else {
        let mut s = oct_digits_string(v / 8);
        push_char(&mut s, hex_digit_char((v % 8) as u8));
        s
    }
}

/// `v` rendered in the `0o...` form.
pub fn fmt_oct(v: u64) -> (r: String)
    ensures
        r@ == spec_oct(v as nat),
{
    let mut s = String::from_str("0o");
    let digits = oct_digits_string(v);
    s.append(digits.as_str());
    s
}

/// Appends the escaped form of one byte.
fn append_escaped_byte(s: &mut String, b: u8)
    ensures
        final(s)@ == old(s)@ + escape_byte(b),
{
    if b == 9 {
        s.append("\\t");
        proof {
            reveal_strlit("\\t");
            assert(old(s)@ + "\\t"@ =~= old(s)@ + escape_byte(b));
        }
    } else if b == 13 {
        s.append("\\r");
        proof {
            reveal_strlit("\\r");
            assert(old(s)@ + "\\r"@ =~= old(s)@ + escape_byte(b));
        }
    } else if b == 10 {
        s.append("\\n");
        proof {
            reveal_strlit("\\n");
            assert(old(s)@ + "\\n"@ =~= old(s)@ + escape_byte(b));
        }
    } else if b == 34 {
        s.append("\\\"");
        proof {
            reveal_strlit("\\\"");
            assert(old(s)@ + "\\\""@ =~= old(s)@ + escape_byte(b));
        }
    } else if b == 92 {
        s.append("\\\\");
        proof {
            reveal_strlit("\\\\");
            assert(old(s)@ + "\\\\"@ =~= old(s)@ + escape_byte(b));
        }
    } else if 32 <= b && b < 127 {
        push_char(s, b as char);
        proof {
            assert(old(s)@ + seq![b as char] =~= old(s)@ + escape_byte(b));
        }
    } else {
        push_char(s, '\\');
        push_char(s, 'x');
        push_char(s, hex_digit_char(b / 16));
        push_char(s, hex_digit_char(b % 16));
        proof {
            assert(final(s)@ =~= old(s)@ + escape_byte(b));
        }
    }
}

/// A byte string rendered between double quotes, with escapes.
pub fn fmt_quoted(data: &[u8]) -> (r: String)
    ensures
        r@ == spec_quoted(data@),
{
    let mut s = String::new();
    push_char(&mut s, '"');
    let mut i: usize = 0;
    while i < data.len()
        invariant
            i <= data@.len(),
            s@ == seq!['"'] + escape_bytes(data@.take(i as int)),
        decreases data@.len() - i,
    {
        append_escaped_byte(&mut s, data[i]);
        proof {
            assert(data@.take(i + 1).drop_last() =~= data@.take(i as int));
            assert(data@.take(i + 1).last() == data@[i as int]);
        }
        i = i + 1;
    }
    proof {
        assert(data@.take(data@.len() as int) =~= data@);
    }
    push_char(&mut s, '"');
    proof {
        assert(s@ =~= spec_quoted(data@));
    }
    s
}

/// The first `n` parts, joined by the separator.
pub fn join_sep(parts: &Vec<String>, n: usize, sep: &str) -> (r: String)
    requires
        n <= parts@.len(),
    ensures
        r@ == spec_join_sep(parts@.take(n as int).map_values(|p: String| p@), sep@),
{
    let ghost all = parts@.take(n as int).map_values(|p: String| p@);
    let mut s = String::new();
    let mut i: usize = 0;
    while i < n
        invariant
            i <= n,
            n <= parts@.len(),
            all == parts@.take(n as int).map_values(|p: String| p@),
            s@ == spec_join_sep(all.take(i as int), sep@),
        decreases n - i,
    {
        if i > 0 {
            s.append(sep);
        }
        s.append(parts[i].as_str());
        proof {
            assert(all.take(i + 1).drop_last() =~= all.take(i as int));
            assert(all.take(i + 1).last() == parts@[i as int]@);
            if i == 0 {
                assert(s@ =~= spec_join_sep(all.take(i + 1), sep@));
            }
        }
        i = i + 1;
    }
    proof {
        assert(all.take(n as int) =~= all);
    }
    s
}

} // verus!
