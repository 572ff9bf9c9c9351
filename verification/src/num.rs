//! The numeric literal grammar: decimal, `0x`/`0X` hexadecimal and
//! `#` binary on the way in, canonical decimal and fixed-width hexadecimal
//! on the way out.

use vstd::prelude::*;
use crate::tree::str_eq;

verus! {

pub open spec fn is_dec_digit(c: char) -> bool {
    '0' <= c && c <= '9'
}

pub open spec fn is_hex_digit(c: char) -> bool {
    is_dec_digit(c) || ('a' <= c && c <= 'f') || ('A' <= c && c <= 'F')
}

pub open spec fn is_bin_digit(c: char) -> bool {
    c == '0' || c == '1'
}

pub open spec fn is_digit_r(c: char, radix: nat) -> bool {
    if radix == 16 {
        is_hex_digit(c)
    } else if radix == 2 {
        is_bin_digit(c)
    } else {
        is_dec_digit(c)
    }
}

/// Numeric value of one digit character, case-insensitive for hexadecimal.
pub open spec fn digit_val(c: char) -> nat {
    if '0' <= c && c <= '9' {
        (c as u32 - '0' as u32) as nat
    } else if 'a' <= c && c <= 'f' {
        (c as u32 - 'a' as u32 + 10) as nat
    } else if 'A' <= c && c <= 'F' {
        (c as u32 - 'A' as u32 + 10) as nat
    } else {
        0
    }
}

pub open spec fn all_digits(s: Seq<char>, radix: nat) -> bool {
    forall|i: int| 0 <= i < s.len() ==> is_digit_r(#[trigger] s[i], radix)
}

/// Left-to-right fold of a digit string into its numeric value.
pub open spec fn val_r(s: Seq<char>, radix: nat) -> nat
    decreases s.len(),
{
    if s.len() == 0 {
        0
    } else {
        val_r(s.drop_last(), radix) * radix + digit_val(s.last())
    }
}

/// A nonempty all-digit string whose value fits in 32 bits, or nothing.
pub open spec fn spec_parse_radix(s: Seq<char>, radix: nat) -> Option<u32> {
    if s.len() > 0 && all_digits(s, radix) && val_r(s, radix) <= u32::MAX {
        Some(val_r(s, radix) as u32)
    } else {
        None
    }
}

/// The whole numeric literal grammar: `0x`/`0X` prefix selects hexadecimal,
/// `#` selects binary, anything else is read as decimal.
pub open spec fn spec_parse_u32(s: Seq<char>) -> Option<u32> {
    if s.len() >= 2 && s[0] == '0' && (s[1] == 'x' || s[1] == 'X') {
        spec_parse_radix(s.subrange(2, s.len() as int), 16)
    } else if s.len() >= 1 && s[0] == '#' {
        spec_parse_radix(s.subrange(1, s.len() as int), 2)
    } else {
        spec_parse_radix(s, 10)
    }
}

/// A value never shrinks when more digits follow it.
proof fn lemma_val_prefix_le(t: Seq<char>, k: int, radix: nat)
    requires
        0 <= k <= t.len(),
        radix >= 1,
    ensures
        val_r(t.subrange(0, k), radix) <= val_r(t, radix),
    decreases t.len() - k,
{
    if k == t.len() {
        assert(t.subrange(0, k) =~= t);
    } else {
        assert(t.subrange(0, k + 1).drop_last() =~= t.subrange(0, k));
        assert(t.subrange(0, k + 1).last() == t[k]);
        let v = val_r(t.subrange(0, k), radix);
        assert(v * radix >= v) by (nonlinear_arith)
            requires
                radix >= 1,
                v >= 0,
        ;
        lemma_val_prefix_le(t, k + 1, radix);
    }
}

/// Digit-string classification and value of one character, executable.
fn digit_of(c: char, radix: u32) -> (r: Option<u32>)
    requires
        radix == 2 || radix == 10 || radix == 16,
    ensures
        r matches Some(d) ==> is_digit_r(c, radix as nat) && d == digit_val(c) && d < radix,
        r is None ==> !is_digit_r(c, radix as nat),
{
    if '0' <= c && c <= '9' {
        let d = c as u32 - '0' as u32;
        if d < radix {
            Some(d)
        } else {
            None
        }
    } else if radix == 16 && 'a' <= c && c <= 'f' {
        Some(c as u32 - 'a' as u32 + 10)
    } else if radix == 16 && 'A' <= c && c <= 'F' {
        Some(c as u32 - 'A' as u32 + 10)
    } else {
        None
    }
}

/// Reads the digit string starting at `from` in the given radix.
pub(crate) fn parse_radix(s: &str, from: usize, radix: u32) -> (r: Option<u32>)
    requires
        from as int <= s@.len(),
        radix == 2 || radix == 10 || radix == 16,
    ensures
        r == spec_parse_radix(s@.subrange(from as int, s@.len() as int), radix as nat),
{
    let ghost body = s@.subrange(from as int, s@.len() as int);
    let len = s.unicode_len();
    if from >= len {
        return None;
    }
    let mut acc: u64 = 0;
    let mut i: usize = from;
    while i < len
        invariant
            from <= i <= len,
            len == s@.len(),
            radix == 2 || radix == 10 || radix == 16,
            body == s@.subrange(from as int, s@.len() as int),
            all_digits(s@.subrange(from as int, i as int), radix as nat),
            acc == val_r(s@.subrange(from as int, i as int), radix as nat),
            acc <= u32::MAX,
        decreases len - i,
    {
        let c = s.get_char(i);
        proof {
            assert(body[i - from] == c);
        }
        match digit_of(c, radix) {
            None => {
                return None;
            },
            Some(d) => {
                proof {
                    assert(s@.subrange(from as int, (i + 1) as int).drop_last() =~= s@.subrange(
                        from as int,
                        i as int,
                    ));
                    assert(s@.subrange(from as int, (i + 1) as int).last() == c);
                }
                proof {
                    assert(acc * (radix as u64) + (d as u64) <= 0xFFFF_FFFFu64 * 16 + 15)
                        by (nonlinear_arith)
                        requires
                            acc <= 0xFFFF_FFFFu64,
                            radix as u64 <= 16,
                            (d as u64) < 16,
                    ;
                }
                acc = acc * (radix as u64) + (d as u64);
                if acc > u32::MAX as u64 {
                    proof {
                        assert(body.subrange(0, (i + 1 - from) as int) =~= s@.subrange(
                            from as int,
                            (i + 1) as int,
                        ));
                        lemma_val_prefix_le(body, (i + 1 - from) as int, radix as nat);
                    }
                    return None;
                }
                i += 1;
            },
        }
    }
    proof {
        assert(s@.subrange(from as int, i as int) =~= body);
    }
    Some(acc as u32)
}

/// Reads a numeric literal: decimal, `0x`/`0X` hexadecimal, or `#` binary.
pub fn parse_u32(s: &str) -> (r: Option<u32>)
    ensures
        r == spec_parse_u32(s@),
{
    let len = s.unicode_len();
    if len >= 2 {
        let c0 = s.get_char(0);
        let c1 = s.get_char(1);
        if c0 == '0' && (c1 == 'x' || c1 == 'X') {
            return parse_radix(s, 2, 16);
        }
    }
    if len >= 1 {
        let c0 = s.get_char(0);
        if c0 == '#' {
            return parse_radix(s, 1, 2);
        }
    }
    let r = parse_radix(s, 0, 10);
    proof {
        assert(s@.subrange(0, s@.len() as int) =~= s@);
    }
    r
}

/// The boolean literal grammar: exactly `true` or `false`.
pub open spec fn spec_parse_bool(s: Seq<char>) -> Option<bool> {
    if s == "true"@ {
        Some(true)
    } else if s == "false"@ {
        Some(false)
    } else {
        None
    }
}

/// Reads a boolean literal.
pub fn parse_bool(s: &str) -> (r: Option<bool>)
    ensures
        r == spec_parse_bool(s@),
{
    if str_eq(s, "true") {
        Some(true)
    } else if str_eq(s, "false") {
        Some(false)
    } else {
        None
    }
}

/// The boolean literal of a value.
pub open spec fn bool_str(b: bool) -> Seq<char> {
    if b {
        "true"@
    } else {
        "false"@
    }
}

/// Writes a boolean literal.
pub fn format_bool(b: bool) -> (r: &'static str)
    ensures
        r@ == bool_str(b),
{
    if b {
        "true"
    } else {
        "false"
    }
}

/// Reading back a written boolean literal gives the value again.
pub proof fn lemma_bool_roundtrip(b: bool)
    ensures
        spec_parse_bool(bool_str(b)) == Some(b),
        bool_str(b).len() > 0,
{
    reveal_strlit("true");
    reveal_strlit("false");
    assert("true"@.len() == 4);
    assert("false"@.len() == 5);
}

/// The decimal digit character for a value below ten.
pub open spec fn dec_digit_char(d: nat) -> char {
    if d == 0 { '0' } else if d == 1 { '1' } else if d == 2 { '2' } else if d == 3 { '3' }
    else if d == 4 { '4' } else if d == 5 { '5' } else if d == 6 { '6' } else if d == 7 { '7' }
    else if d == 8 { '8' } else { '9' }
}

/// The canonical decimal rendering of a number, most significant digit first.
pub open spec fn dec_str(v: nat) -> Seq<char>
    decreases v,
{
    if v < 10 {
        seq![dec_digit_char(v)]
    } else {
        dec_str(v / 10) + seq![dec_digit_char(v % 10)]
    }
}

fn dec_digit_str(d: u32) -> (r: &'static str)
    requires
        d < 10,
    ensures
        r@ == seq![dec_digit_char(d as nat)],
{
    if d == 0 { proof { reveal_strlit("0"); assert("0"@ =~= seq![dec_digit_char(0)]); } "0" }
    else if d == 1 { proof { reveal_strlit("1"); assert("1"@ =~= seq![dec_digit_char(1)]); } "1" }
    else if d == 2 { proof { reveal_strlit("2"); assert("2"@ =~= seq![dec_digit_char(2)]); } "2" }
    else if d == 3 { proof { reveal_strlit("3"); assert("3"@ =~= seq![dec_digit_char(3)]); } "3" }
    else if d == 4 { proof { reveal_strlit("4"); assert("4"@ =~= seq![dec_digit_char(4)]); } "4" }
    else if d == 5 { proof { reveal_strlit("5"); assert("5"@ =~= seq![dec_digit_char(5)]); } "5" }
    else if d == 6 { proof { reveal_strlit("6"); assert("6"@ =~= seq![dec_digit_char(6)]); } "6" }
    else if d == 7 { proof { reveal_strlit("7"); assert("7"@ =~= seq![dec_digit_char(7)]); } "7" }
    else if d == 8 { proof { reveal_strlit("8"); assert("8"@ =~= seq![dec_digit_char(8)]); } "8" }
    else { proof { reveal_strlit("9"); assert("9"@ =~= seq![dec_digit_char(9)]); } "9" }
}

/// Writes a number in canonical decimal.
pub fn format_u32_dec(v: u32) -> (r: String)
    ensures
        r@ == dec_str(v as nat),
    decreases v,
{
    if v < 10 {
        String::from_str(dec_digit_str(v))
    } else {
        let mut s = format_u32_dec(v / 10);
        s.append(dec_digit_str(v % 10));
        proof {
            assert(s@ =~= dec_str(v as nat));
        }
        s
    }
}

/// The lowercase hexadecimal digit character for a value below sixteen.
pub open spec fn hex_digit_char(d: nat) -> char {
    if d < 10 { dec_digit_char(d) } else if d == 10 { 'a' } else if d == 11 { 'b' }
    else if d == 12 { 'c' } else if d == 13 { 'd' } else if d == 14 { 'e' } else { 'f' }
}

/// The `k`-th nibble of a 32-bit value, counted from the least significant.
pub open spec fn nib(v: u32, k: nat) -> nat {
    ((v >> ((4 * k) as u32)) & 0xf) as nat
}

/// The canonical address rendering: `0x` and exactly eight lowercase
/// hexadecimal digits.
pub open spec fn hex8_str(v: u32) -> Seq<char> {
    seq![
        '0', 'x',
        hex_digit_char(nib(v, 7)), hex_digit_char(nib(v, 6)),
        hex_digit_char(nib(v, 5)), hex_digit_char(nib(v, 4)),
        hex_digit_char(nib(v, 3)), hex_digit_char(nib(v, 2)),
        hex_digit_char(nib(v, 1)), hex_digit_char(nib(v, 0)),
    ]
}

fn hex_digit_str(d: u32) -> (r: &'static str)
    requires
        d < 16,
    ensures
        r@ == seq![hex_digit_char(d as nat)],
{
    if d < 10 {
        dec_digit_str(d)
    } else if d == 10 { proof { reveal_strlit("a"); assert("a"@ =~= seq![hex_digit_char(10)]); } "a" }
    else if d == 11 { proof { reveal_strlit("b"); assert("b"@ =~= seq![hex_digit_char(11)]); } "b" }
    else if d == 12 { proof { reveal_strlit("c"); assert("c"@ =~= seq![hex_digit_char(12)]); } "c" }
    else if d == 13 { proof { reveal_strlit("d"); assert("d"@ =~= seq![hex_digit_char(13)]); } "d" }
    else if d == 14 { proof { reveal_strlit("e"); assert("e"@ =~= seq![hex_digit_char(14)]); } "e" }
    else { proof { reveal_strlit("f"); assert("f"@ =~= seq![hex_digit_char(15)]); } "f" }
}

/// One nibble of `v`, executable.
fn nib_exec(v: u32, k: u32) -> (r: u32)
    requires
        k < 8,
    ensures
        r == nib(v, k as nat),
        r < 16,
{
    let r = (v >> (4 * k)) & 0xf;
    proof {
        assert((v >> (4 * k)) & 0xf < 16) by (bit_vector);
    }
    r
}

/// Writes a 32-bit value as `0x` and eight hexadecimal digits.
pub fn format_u32_hex8(v: u32) -> (r: String)
    ensures
        r@ == hex8_str(v),
{
    let mut s = String::from_str("0x");
    proof {
        reveal_strlit("0x");
    }
    s.append(hex_digit_str(nib_exec(v, 7)));
    s.append(hex_digit_str(nib_exec(v, 6)));
    s.append(hex_digit_str(nib_exec(v, 5)));
    s.append(hex_digit_str(nib_exec(v, 4)));
    s.append(hex_digit_str(nib_exec(v, 3)));
    s.append(hex_digit_str(nib_exec(v, 2)));
    s.append(hex_digit_str(nib_exec(v, 1)));
    s.append(hex_digit_str(nib_exec(v, 0)));
    proof {
        assert(s@ =~= hex8_str(v));
    }
    s
}



/// Appending one digit multiplies the value by the radix and adds the digit.
pub proof fn lemma_val_push(s: Seq<char>, c: char, radix: nat)
    ensures
        val_r(s.push(c), radix) == val_r(s, radix) * radix + digit_val(c),
{
    assert(s.push(c).drop_last() =~= s);
    assert(s.push(c).last() == c);
}

proof fn lemma_dec_digit_char_val(d: nat)
    requires
        d < 10,
    ensures
        is_dec_digit(dec_digit_char(d)),
        digit_val(dec_digit_char(d)) == d,
{
}

/// A canonical decimal rendering is nonempty and all decimal digits.
proof fn lemma_dec_str_digits(v: nat)
    ensures
        dec_str(v).len() > 0,
        all_digits(dec_str(v), 10),
    decreases v,
{
    lemma_dec_digit_char_val(v % 10);
    if v < 10 {
        lemma_dec_digit_char_val(v);
    } else {
        lemma_dec_str_digits(v / 10);
        let s = dec_str(v);
        let p = dec_str(v / 10);
        assert forall|i: int| 0 <= i < s.len() implies is_digit_r(#[trigger] s[i], 10) by {
            if i < p.len() {
                assert(s[i] == p[i]);
            } else {
                assert(s[i] == dec_digit_char(v % 10));
            }
        }
    }
}

/// Reading back a canonical decimal rendering gives the value again.
proof fn lemma_dec_str_val(v: nat)
    ensures
        val_r(dec_str(v), 10) == v,
    decreases v,
{
    if v < 10 {
        lemma_dec_digit_char_val(v);
        assert(dec_str(v).drop_last() =~= Seq::<char>::empty());
        assert(val_r(Seq::<char>::empty(), 10) == 0);
        assert(dec_str(v).last() == dec_digit_char(v));
    } else {
        lemma_dec_str_val(v / 10);
        lemma_dec_digit_char_val(v % 10);
        assert(dec_str(v) =~= dec_str(v / 10).push(dec_digit_char(v % 10)));
        lemma_val_push(dec_str(v / 10), dec_digit_char(v % 10), 10);
    }
}

/// The numeric literal grammar accepts every canonical decimal rendering of
/// a 32-bit value and reads the same value back.
pub proof fn lemma_dec_roundtrip(v: u32)
    ensures
        spec_parse_u32(dec_str(v as nat)) == Some(v),
{
    lemma_dec_str_digits(v as nat);
    lemma_dec_str_val(v as nat);
    let s = dec_str(v as nat);
    if s.len() >= 2 {
        assert(is_dec_digit(s[1]));
    }
    assert(is_dec_digit(s[0]));
}

proof fn lemma_hex_digit_char_val(d: nat)
    requires
        d < 16,
    ensures
        is_hex_digit(hex_digit_char(d)),
        digit_val(hex_digit_char(d)) == d,
{
    if d < 10 {
        lemma_dec_digit_char_val(d);
    }
}

/// The numeric literal grammar accepts every canonical eight-digit
/// hexadecimal rendering and reads the same value back.
pub proof fn lemma_hex8_roundtrip(v: u32)
    ensures
        spec_parse_u32(hex8_str(v)) == Some(v),
{
    let s = hex8_str(v);
    let body = s.subrange(2, 10);
    assert(v >> ((4 * 7) as u32) == v >> 28u32);
    let c7 = hex_digit_char(nib(v, 7));
    let c6 = hex_digit_char(nib(v, 6));
    let c5 = hex_digit_char(nib(v, 5));
    let c4 = hex_digit_char(nib(v, 4));
    let c3 = hex_digit_char(nib(v, 3));
    let c2 = hex_digit_char(nib(v, 2));
    let c1 = hex_digit_char(nib(v, 1));
    let c0 = hex_digit_char(nib(v, 0));
    assert(((v >> 28u32) & 0xf) < 16 && ((v >> 24u32) & 0xf) < 16 && ((v >> 20u32) & 0xf) < 16
        && ((v >> 16u32) & 0xf) < 16 && ((v >> 12u32) & 0xf) < 16 && ((v >> 8u32) & 0xf) < 16 && (
    (v >> 4u32) & 0xf) < 16 && ((v >> 0u32) & 0xf) < 16) by (bit_vector);
    lemma_hex_digit_char_val(nib(v, 7));
    lemma_hex_digit_char_val(nib(v, 6));
    lemma_hex_digit_char_val(nib(v, 5));
    lemma_hex_digit_char_val(nib(v, 4));
    lemma_hex_digit_char_val(nib(v, 3));
    lemma_hex_digit_char_val(nib(v, 2));
    lemma_hex_digit_char_val(nib(v, 1));
    lemma_hex_digit_char_val(nib(v, 0));
    let s1 = Seq::<char>::empty().push(c7);
    let s2 = s1.push(c6);
    let s3 = s2.push(c5);
    let s4 = s3.push(c4);
    let s5 = s4.push(c3);
    let s6 = s5.push(c2);
    let s7 = s6.push(c1);
    let s8 = s7.push(c0);
    assert(body =~= s8);
    lemma_val_push(Seq::<char>::empty(), c7, 16);
    lemma_val_push(s1, c6, 16);
    lemma_val_push(s2, c5, 16);
    lemma_val_push(s3, c4, 16);
    lemma_val_push(s4, c3, 16);
    lemma_val_push(s5, c2, 16);
    lemma_val_push(s6, c1, 16);
    lemma_val_push(s7, c0, 16);
    assert(v as nat == ((v >> 28u32) & 0xf) * 0x10000000 + ((v >> 24u32) & 0xf) * 0x1000000 + (
    (v >> 20u32) & 0xf) * 0x100000 + ((v >> 16u32) & 0xf) * 0x10000 + ((v >> 12u32) & 0xf)
        * 0x1000 + ((v >> 8u32) & 0xf) * 0x100 + ((v >> 4u32) & 0xf) * 0x10 + ((v >> 0u32)
        & 0xf)) by (bit_vector);
    assert(all_digits(body, 16)) by {
        assert forall|i: int| 0 <= i < body.len() implies is_digit_r(#[trigger] body[i], 16) by {
            assert(body[i] == s8[i]);
        }
    }
    assert(val_r(body, 16) == v);
    assert(s[0] == '0' && s[1] == 'x');
}

} // verus!
