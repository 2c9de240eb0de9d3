//! Decimal and hexadecimal text for the protocol's numeric arguments.
//!
//! Requests carry addresses and values as lowercase hex with a `0x` prefix and
//! counts as decimal; responses carry values the same way.  The spec functions
//! here define those digit strings exactly, and the executable functions
//! produce and consume them.

use vstd::prelude::*;

verus! {

/// The character for a single digit value, lowercase for ten through fifteen.
pub open spec fn digit_char(d: nat) -> char {
    if d == 0 {
        '0'
    } else if d == 1 {
        '1'
    } else if d == 2 {
        '2'
    } else if d == 3 {
        '3'
    } else if d == 4 {
        '4'
    } else if d == 5 {
        '5'
    } else if d == 6 {
        '6'
    } else if d == 7 {
        '7'
    } else if d == 8 {
        '8'
    } else if d == 9 {
        '9'
    } else if d == 10 {
        'a'
    } else if d == 11 {
        'b'
    } else if d == 12 {
        'c'
    } else if d == 13 {
        'd'
    } else if d == 14 {
        'e'
    } else {
        'f'
    }
}

pub open spec fn is_dec_digit(c: char) -> bool {
    '0' as int <= c as int <= '9' as int
}

pub open spec fn dec_digit_val(c: char) -> nat {
    (c as int - '0' as int) as nat
}

/// Hex digits as `from_str_radix` accepts them: either case.
pub open spec fn is_hex_digit(c: char) -> bool {
    ||| is_dec_digit(c)
    ||| 'a' as int <= c as int <= 'f' as int
    ||| 'A' as int <= c as int <= 'F' as int
}

pub open spec fn hex_digit_val(c: char) -> nat {
    if is_dec_digit(c) {
        dec_digit_val(c)
    } else if 'a' as int <= c as int {
        (c as int - 'a' as int + 10) as nat
    } else {
        (c as int - 'A' as int + 10) as nat
    }
}

/// The decimal digit string of `n`, without sign or padding (`0` for zero).
pub open spec fn dec_string_of(n: nat) -> Seq<char>
    decreases n,
{
    if n < 10 {
        seq![digit_char(n)]
    } else {
        dec_string_of(n / 10) + seq![digit_char(n % 10)]
    }
}

/// The lowercase hex digit string of `n`, without the `0x` prefix (`0` for zero).
pub open spec fn hex_string_of(n: nat) -> Seq<char>
    decreases n,
{
    if n < 16 {
        seq![digit_char(n)]
    } else {
        hex_string_of(n / 16) + seq![digit_char(n % 16)]
    }
}

pub open spec fn all_dec_digits(s: Seq<char>) -> bool {
    forall|i: int| 0 <= i < s.len() ==> is_dec_digit(#[trigger] s[i])
}

pub open spec fn all_hex_digits(s: Seq<char>) -> bool {
    forall|i: int| 0 <= i < s.len() ==> is_hex_digit(#[trigger] s[i])
}

/// The value of a decimal digit string (0 for the empty string).
pub open spec fn dec_value(s: Seq<char>) -> nat
    decreases s.len(),
{
    if s.len() == 0 {
        0
    } else {
        10 * dec_value(s.drop_last()) + dec_digit_val(s.last())
    }
}

/// The value of a hex digit string (0 for the empty string).
pub open spec fn hex_value(s: Seq<char>) -> nat
    decreases s.len(),
{
    if s.len() == 0 {
        0
    } else {
        16 * hex_value(s.drop_last()) + hex_digit_val(s.last())
    }
}

/// The one-character string for a digit value below sixteen.
fn digit_str(d: u8) -> (r: &'static str)
    requires
        d < 16,
    ensures
        r@ =~= seq![digit_char(d as nat)],
{
    proof {
        reveal_strlit("0");
        reveal_strlit("1");
        reveal_strlit("2");
        reveal_strlit("3");
        reveal_strlit("4");
        reveal_strlit("5");
        reveal_strlit("6");
        reveal_strlit("7");
        reveal_strlit("8");
        reveal_strlit("9");
        reveal_strlit("a");
        reveal_strlit("b");
        reveal_strlit("c");
        reveal_strlit("d");
        reveal_strlit("e");
        reveal_strlit("f");
    }
    match d {
        0 => "0",
        1 => "1",
        2 => "2",
        3 => "3",
        4 => "4",
        5 => "5",
        6 => "6",
        7 => "7",
        8 => "8",
        9 => "9",
        10 => "a",
        11 => "b",
        12 => "c",
        13 => "d",
        14 => "e",
        _ => "f",
    }
}

/// Formats `n` in decimal.
pub fn fmt_dec(n: u64) -> (s: String)
    ensures
        s@ == dec_string_of(n as nat),
    decreases n,
{
    if n < 10 {
        String::from_str(digit_str(n as u8))
    } else {
        let mut s = fmt_dec(n / 10);
        s.append(digit_str((n % 10) as u8));
        proof {
            assert(s@ =~= dec_string_of(n as nat));
        }
        s
    }
}

/// Formats `n` in lowercase hex, without the `0x` prefix.
pub fn fmt_hex(n: u64) -> (s: String)
    ensures
        s@ == hex_string_of(n as nat),
    decreases n,
{
    if n < 16 {
        String::from_str(digit_str(n as u8))
    } else {
        let mut s = fmt_hex(n / 16);
        s.append(digit_str((n % 16) as u8));
        proof {
            assert(s@ =~= hex_string_of(n as nat));
        }
        s
    }
}

/// The decimal text of a signed value: a minus sign before the magnitude.
pub open spec fn dec_int_string_of(v: int) -> Seq<char> {
    if v >= 0 {
        dec_string_of(v as nat)
    } else {
        seq!['-'] + dec_string_of((-v) as nat)
    }
}

/// Formats `v` in signed decimal.
pub fn fmt_dec_signed(v: isize) -> (s: String)
    ensures
        s@ == dec_int_string_of(v as int),
{
    if v >= 0 {
        fmt_dec(v as u64)
    } else {
        let m = (-(v as i128)) as u64;
        let mut s = String::from_str("-");
        s.append(fmt_dec(m).as_str());
        proof {
            reveal_strlit("-");
            assert("-"@ =~= seq!['-']);
            assert(s@ =~= dec_int_string_of(v as int));
        }
        s
    }
}

/// The value of a longer digit prefix is at least the value of a shorter one.
proof fn lemma_dec_value_take_ge(s: Seq<char>, i: int)
    requires
        0 <= i <= s.len(),
    ensures
        dec_value(s) >= dec_value(s.take(i)),
    decreases s.len() - i,
{
    if i == s.len() {
        assert(s.take(i) =~= s);
    } else {
        assert(s.take(i + 1).drop_last() =~= s.take(i));
        assert(s.take(i + 1).last() == s[i]);
        lemma_dec_value_take_ge(s, i + 1);
    }
}

proof fn lemma_hex_value_take_ge(s: Seq<char>, i: int)
    requires
        0 <= i <= s.len(),
    ensures
        hex_value(s) >= hex_value(s.take(i)),
    decreases s.len() - i,
{
    if i == s.len() {
        assert(s.take(i) =~= s);
    } else {
        assert(s.take(i + 1).drop_last() =~= s.take(i));
        assert(s.take(i + 1).last() == s[i]);
        lemma_hex_value_take_ge(s, i + 1);
    }
}

/// How a digit string reads as a number: the value, or why there is none.
#[derive(Debug, Clone, Copy, PartialEq, Eq, Structural)]
pub enum ParseOutcome {
    /// The whole string is one or more digits and the value fits in a `u64`.
    Parsed(u64),
    /// The whole string is digits, but the value does not fit in a `u64`.
    TooLarge,
    /// The string is empty or holds a character that is not a digit.
    NotNumeric,
}

/// How a decimal digit string reads as a number.
pub open spec fn spec_parse_dec(s: Seq<char>) -> ParseOutcome {
    if s.len() > 0 && all_dec_digits(s) {
        if dec_value(s) <= u64::MAX {
            ParseOutcome::Parsed(dec_value(s) as u64)
        } else {
            ParseOutcome::TooLarge
        }
    } else {
        ParseOutcome::NotNumeric
    }
}

/// How a hex digit string (no prefix, either case) reads as a number.
pub open spec fn spec_parse_hex(s: Seq<char>) -> ParseOutcome {
    if s.len() > 0 && all_hex_digits(s) {
        if hex_value(s) <= u64::MAX {
            ParseOutcome::Parsed(hex_value(s) as u64)
        } else {
            ParseOutcome::TooLarge
        }
    } else {
        ParseOutcome::NotNumeric
    }
}

/// Parses a decimal digit string, telling a malformed string apart from a
/// value that is too large.
pub fn parse_dec(s: &str) -> (r: ParseOutcome)
    ensures
        r == spec_parse_dec(s@),
{
    let n = s.unicode_len();
    if n == 0 {
        return ParseOutcome::NotNumeric;
    }
    let mut i: usize = 0;
    while i < n
        invariant
            0 < n == s@.len(),
            0 <= i <= n,
            forall|t: int| 0 <= t < i ==> is_dec_digit(#[trigger] s@[t]),
        decreases n - i,
    {
        let c = s.get_char(i);
        let u = c as u32;
        if u < '0' as u32 || u > '9' as u32 {
            assert(!is_dec_digit(s@[i as int]));
            return ParseOutcome::NotNumeric;
        }
        i = i + 1;
    }
    assert(all_dec_digits(s@));
    let mut v: u64 = 0;
    let mut j: usize = 0;
    while j < n
        invariant
            0 < n == s@.len(),
            0 <= j <= n,
            all_dec_digits(s@),
            v == dec_value(s@.take(j as int)),
        decreases n - j,
    {
        let c = s.get_char(j);
        let u = c as u32;
        let d = (u - '0' as u32) as u64;
        proof {
            assert(s@.take(j + 1).drop_last() =~= s@.take(j as int));
            assert(s@.take(j + 1).last() == s@[j as int]);
        }
        if v > (u64::MAX - d) / 10 {
            proof {
                let t = s@.take(j + 1);
                assert(dec_value(t) == 10 * v + d);
                assert(u64::MAX - d == 10 * ((u64::MAX - d) / 10) + (u64::MAX - d) % 10) by {
                    vstd::arithmetic::div_mod::lemma_fundamental_div_mod(
                        u64::MAX - d,
                        10,
                    );
                }
                assert(dec_value(t) > u64::MAX);
                lemma_dec_value_take_ge(s@, j + 1);
            }
            return ParseOutcome::TooLarge;
        }
        proof {
            assert(u64::MAX - d == 10 * ((u64::MAX - d) / 10) + (u64::MAX - d) % 10) by {
                vstd::arithmetic::div_mod::lemma_fundamental_div_mod(u64::MAX - d, 10);
            }
            assert(10 * v + d <= u64::MAX);
        }
        v = v * 10 + d;
        j = j + 1;
    }
    proof {
        assert(s@.take(n as int) =~= s@);
    }
    ParseOutcome::Parsed(v)
}

/// Parses a hex digit string (no prefix, either case), telling a malformed
/// string apart from a value that is too large.
pub fn parse_hex(s: &str) -> (r: ParseOutcome)
    ensures
        r == spec_parse_hex(s@),
{
    let n = s.unicode_len();
    if n == 0 {
        return ParseOutcome::NotNumeric;
    }
    let mut i: usize = 0;
    while i < n
        invariant
            0 < n == s@.len(),
            0 <= i <= n,
            forall|t: int| 0 <= t < i ==> is_hex_digit(#[trigger] s@[t]),
        decreases n - i,
    {
        let c = s.get_char(i);
        let u = c as u32;
        let dec = '0' as u32 <= u && u <= '9' as u32;
        let low = 'a' as u32 <= u && u <= 'f' as u32;
        let upp = 'A' as u32 <= u && u <= 'F' as u32;
        if !dec && !low && !upp {
            assert(!is_hex_digit(s@[i as int]));
            return ParseOutcome::NotNumeric;
        }
        i = i + 1;
    }
    assert(all_hex_digits(s@));
    let mut v: u64 = 0;
    let mut j: usize = 0;
    while j < n
        invariant
            0 < n == s@.len(),
            0 <= j <= n,
            all_hex_digits(s@),
            v == hex_value(s@.take(j as int)),
        decreases n - j,
    {
        let c = s.get_char(j);
        let u = c as u32;
        let d: u64;
        if '0' as u32 <= u && u <= '9' as u32 {
            d = (u - '0' as u32) as u64;
        } else if 'a' as u32 <= u && u <= 'f' as u32 {
            d = (u - 'a' as u32 + 10) as u64;
        } else {
            assert('A' as u32 <= u && u <= 'F' as u32);
            d = (u - 'A' as u32 + 10) as u64;
        }
        proof {
            assert(s@.take(j + 1).drop_last() =~= s@.take(j as int));
            assert(s@.take(j + 1).last() == s@[j as int]);
            assert(d == hex_digit_val(s@[j as int]));
        }
        if v > (u64::MAX - d) / 16 {
            proof {
                let t = s@.take(j + 1);
                assert(hex_value(t) == 16 * v + d);
                assert(u64::MAX - d == 16 * ((u64::MAX - d) / 16) + (u64::MAX - d) % 16) by {
                    vstd::arithmetic::div_mod::lemma_fundamental_div_mod(
                        u64::MAX - d,
                        16,
                    );
                }
                assert(hex_value(t) > u64::MAX);
                lemma_hex_value_take_ge(s@, j + 1);
            }
            return ParseOutcome::TooLarge;
        }
        proof {
            assert(u64::MAX - d == 16 * ((u64::MAX - d) / 16) + (u64::MAX - d) % 16) by {
                vstd::arithmetic::div_mod::lemma_fundamental_div_mod(u64::MAX - d, 16);
            }
            assert(16 * v + d <= u64::MAX);
        }
        v = v * 16 + d;
        j = j + 1;
    }
    proof {
        assert(s@.take(n as int) =~= s@);
    }
    ParseOutcome::Parsed(v)
}

/// The decimal digit string of a value reads back as that value (round trip),
/// and is a nonempty all-digit string.
pub proof fn lemma_dec_round_trip(n: nat)
    ensures
        dec_string_of(n).len() > 0,
        all_dec_digits(dec_string_of(n)),
        dec_value(dec_string_of(n)) == n,
    decreases n,
{
    if n < 10 {
        let w = dec_string_of(n);
        assert(w.len() == 1);
        assert(w.drop_last() =~= Seq::<char>::empty());
        assert(dec_value(w.drop_last()) == 0);
        assert(dec_value(w) == 10 * dec_value(w.drop_last()) + dec_digit_val(w.last()));
        assert(w.last() == digit_char(n));
        assert(dec_digit_val(digit_char(n)) == n);
    } else {
        lemma_dec_round_trip(n / 10);
        let p = dec_string_of(n / 10);
        let w = dec_string_of(n);
        assert(w == p + seq![digit_char(n % 10)]);
        assert(w.drop_last() =~= p);
        assert(w.last() == digit_char(n % 10));
        assert(dec_value(w) == 10 * (n / 10) + n % 10);
        assert(n == 10 * (n / 10) + n % 10) by {
            vstd::arithmetic::div_mod::lemma_fundamental_div_mod(n as int, 10);
        }
        assert forall|i: int| 0 <= i < w.len() implies is_dec_digit(#[trigger] w[i]) by {
            if i < p.len() {
                assert(w[i] == p[i]);
            }
        }
    }
}

/// The hex digit string of a value reads back as that value (round trip),
/// and is a nonempty all-hex-digit string.
pub proof fn lemma_hex_round_trip(n: nat)
    ensures
        hex_string_of(n).len() > 0,
        all_hex_digits(hex_string_of(n)),
        hex_value(hex_string_of(n)) == n,
    decreases n,
{
    if n < 16 {
        let w = hex_string_of(n);
        assert(w.len() == 1);
        assert(w.drop_last() =~= Seq::<char>::empty());
        assert(hex_value(w.drop_last()) == 0);
        assert(hex_value(w) == 16 * hex_value(w.drop_last()) + hex_digit_val(w.last()));
        assert(w.last() == digit_char(n));
        assert(hex_digit_val(digit_char(n)) == n);
    } else {
        lemma_hex_round_trip(n / 16);
        let p = hex_string_of(n / 16);
        let w = hex_string_of(n);
        assert(w == p + seq![digit_char(n % 16)]);
        assert(w.drop_last() =~= p);
        assert(w.last() == digit_char(n % 16));
        assert(hex_value(w) == 16 * (n / 16) + n % 16);
        assert(n == 16 * (n / 16) + n % 16) by {
            vstd::arithmetic::div_mod::lemma_fundamental_div_mod(n as int, 16);
        }
        assert forall|i: int| 0 <= i < w.len() implies is_hex_digit(#[trigger] w[i]) by {
            if i < p.len() {
                assert(w[i] == p[i]);
            }
        }
    }
}

} // verus!
