//! Unsigned integers written as text: reading decimal and hexadecimal, and the
//! eight-digit hexadecimal names of unnamed hashes.

use vstd::prelude::*;

verus! {

/// The value of `c` as a digit of base `radix`: `0`-`9`, then `a`-`z` or `A`-`Z`
/// for ten and up.
pub open spec fn digit_value(c: char, radix: nat) -> Option<nat> {
    let v: int = if '0' <= c <= '9' {
        c as int - '0' as int
    } else if 'a' <= c <= 'z' {
        c as int - 'a' as int + 10
    } else if 'A' <= c <= 'Z' {
        c as int - 'A' as int + 10
    } else {
        36
    };
    if v < radix {
        Some(v as nat)
    } else {
        None
    }
}

/// Every character of `s` is a digit of base `radix`.
pub open spec fn all_digits(s: Seq<char>, radix: nat) -> bool {
    forall|i: int| 0 <= i < s.len() ==> digit_value(#[trigger] s[i], radix) is Some
}

/// The number that the digits `s` of base `radix` write, most significant first.
pub open spec fn digits_value(s: Seq<char>, radix: nat) -> nat
    decreases s.len(),
{
    if s.len() == 0 {
        0
    } else {
        digits_value(s.drop_last(), radix) * radix + match digit_value(s.last(), radix) {
            Some(d) => d,
            None => 0,
        }
    }
}

/// What reading `s` as an unsigned 64-bit integer of base `radix` gives: an
/// optional `+`, then at least one digit, and a value that fits; `None` otherwise.
pub open spec fn parse_unsigned(s: Seq<char>, radix: nat) -> Option<u64> {
    let digits = if s.len() > 0 && s[0] == '+' {
        s.drop_first()
    } else {
        s
    };
    if digits.len() > 0 && all_digits(digits, radix) && digits_value(digits, radix) <= u64::MAX {
        Some(digits_value(digits, radix) as u64)
    } else {
        None
    }
}

/// The text of the error that `u64::from_str_radix` gives for `s` in base `radix`.
pub uninterp spec fn radix_error_text(s: Seq<char>, radix: u32) -> Seq<char>;

/// The text of the error that `str::parse::<u64>` gives for `s`.
pub uninterp spec fn decimal_error_text(s: Seq<char>) -> Seq<char>;

/// Calls `u64::from_str_radix`. Its documentation says that it accepts an
/// optional `+` followed by at least one digit of the radix (`0`-`9`, `a`-`z`,
/// `A`-`Z`) whose value fits, and gives an error otherwise; the contract says so.
/// The error is turned into its text by `to_string`; that text is named by
/// `radix_error_text`, since the documentation gives the kinds of error but not
/// their wording.
#[verifier::external_body]
pub(crate) fn u64_from_str_radix(s: &str, radix: u32) -> (r: Result<u64, String>)
    requires
        2 <= radix <= 36,
    ensures
        match r {
            Ok(v) => parse_unsigned(s@, radix as nat) == Some(v),
            Err(e) => parse_unsigned(s@, radix as nat) is None && e@ == radix_error_text(s@, radix),
        },
{
    u64::from_str_radix(s, radix).map_err(|err| err.to_string())
}

/// Calls `str::parse::<u64>`. Its documentation says that it reads decimal
/// digits as `u64::from_str_radix` does with radix 10; the contract says so. The
/// text of the error, made by `to_string`, is named by `decimal_error_text`.
#[verifier::external_body]
pub(crate) fn parse_u64(s: &str) -> (r: Result<u64, String>)
    ensures
        match r {
            Ok(v) => parse_unsigned(s@, 10) == Some(v),
            Err(e) => parse_unsigned(s@, 10) is None && e@ == decimal_error_text(s@),
        },
{
    s.parse::<u64>().map_err(|err| err.to_string())
}

/// The lower-case hexadecimal digits, in order.
pub open spec fn hex_alphabet() -> Seq<char> {
    seq!['0', '1', '2', '3', '4', '5', '6', '7', '8', '9', 'a', 'b', 'c', 'd', 'e', 'f']
}

/// The last `n` lower-case hexadecimal digits of `x`, padded with zeros.
pub open spec fn hex_digits(x: nat, n: nat) -> Seq<char>
    decreases n,
{
    if n == 0 {
        Seq::empty()
    } else {
        hex_digits(x / 16, (n - 1) as nat).push(hex_alphabet()[(x % 16) as int])
    }
}

/// `h` as eight lower-case hexadecimal digits, as `{:08x}` writes a `u32`.
pub open spec fn hex8(h: u32) -> Seq<char> {
    hex_digits(h as nat, 8)
}

/// Appends the last `n` hexadecimal digits of `x` to `out`.
fn push_hex_digits(out: &mut String, x: u32, n: u32)
    ensures
        final(out)@ == old(out)@ + hex_digits(x as nat, n as nat),
    decreases n,
{
    if n > 0 {
        push_hex_digits(out, x / 16, n - 1);
        let alphabet = "0123456789abcdef";
        proof {
            reveal_strlit("0123456789abcdef");
            assert(alphabet@ == hex_alphabet());
        }
        let d = (x % 16) as usize;
        let digit = alphabet.substring_char(d, d + 1);
        assert(digit@ == seq![hex_alphabet()[d as int]]);
        out.append(digit);
    }
}

/// Writes `h` as eight lower-case hexadecimal digits, as `{:08x}` does.
pub fn format_hex8(h: u32) -> (s: String)
    ensures
        s@ == hex8(h),
{
    let mut out = String::new();
    push_hex_digits(&mut out, h, 8);
    out
}

/// The upper-case hexadecimal digits, in order.
pub open spec fn upper_hex_alphabet() -> Seq<char> {
    seq!['0', '1', '2', '3', '4', '5', '6', '7', '8', '9', 'A', 'B', 'C', 'D', 'E', 'F']
}

/// The digit for `d`, upper-case or lower-case.
pub open spec fn digit_char(d: int, upper: bool) -> char {
    if upper {
        upper_hex_alphabet()[d]
    } else {
        hex_alphabet()[d]
    }
}

/// The digits that write `n` in base `radix` (at most sixteen), without leading
/// zeros and with `0` for zero, as `to_string`, `{:x}` and `{:X}` write numbers.
pub open spec fn written_digits(n: nat, radix: nat, upper: bool) -> Seq<char>
    decreases n,
{
    if radix < 2 || n < radix {
        seq![digit_char((n % radix) as int, upper)]
    } else {
        proof {
            vstd::arithmetic::div_mod::lemma_div_decreases(n as int, radix as int);
        }
        written_digits(n / radix, radix, upper).push(digit_char((n % radix) as int, upper))
    }
}

proof fn lemma_digit_char_value(d: int, radix: nat, upper: bool)
    requires
        0 <= d < radix <= 16,
    ensures
        digit_value(digit_char(d, upper), radix) == Some(d as nat),
{
    let a = hex_alphabet();
    let b = upper_hex_alphabet();
    assert(a[0] == '0' && a[1] == '1' && a[2] == '2' && a[3] == '3' && a[4] == '4');
    assert(a[5] == '5' && a[6] == '6' && a[7] == '7' && a[8] == '8' && a[9] == '9');
    assert(a[10] == 'a' && a[11] == 'b' && a[12] == 'c' && a[13] == 'd' && a[14] == 'e');
    assert(a[15] == 'f');
    assert(b[0] == '0' && b[1] == '1' && b[2] == '2' && b[3] == '3' && b[4] == '4');
    assert(b[5] == '5' && b[6] == '6' && b[7] == '7' && b[8] == '8' && b[9] == '9');
    assert(b[10] == 'A' && b[11] == 'B' && b[12] == 'C' && b[13] == 'D' && b[14] == 'E');
    assert(b[15] == 'F');
}

/// The written digits of `n` are digits of the base, and read back as `n`.
pub(crate) proof fn lemma_written_digits_value(n: nat, radix: nat, upper: bool)
    requires
        2 <= radix <= 16,
    ensures
        written_digits(n, radix, upper).len() > 0,
        all_digits(written_digits(n, radix, upper), radix),
        digits_value(written_digits(n, radix, upper), radix) == n,
    decreases n,
{
    let w = written_digits(n, radix, upper);
    vstd::arithmetic::div_mod::lemma_fundamental_div_mod(n as int, radix as int);
    lemma_digit_char_value((n % radix) as int, radix, upper);
    if n < radix {
        assert(w.drop_last() == Seq::<char>::empty());
        assert(n % radix == n) by {
            vstd::arithmetic::div_mod::lemma_small_mod(n, radix);
        }
        assert forall|i: int| 0 <= i < w.len() implies digit_value(#[trigger] w[i], radix) is Some by {
            assert(i == 0);
        }
        assert(w.last() == digit_char((n % radix) as int, upper));
        assert(digits_value(w.drop_last(), radix) == 0);
        assert(0 * radix == 0);
        assert(digits_value(w, radix) == 0 * radix + n % radix);
    } else {
        vstd::arithmetic::div_mod::lemma_div_decreases(n as int, radix as int);
        lemma_written_digits_value(n / radix, radix, upper);
        let p = written_digits(n / radix, radix, upper);
        assert(w.drop_last() == p);
        assert forall|i: int| 0 <= i < w.len() implies digit_value(#[trigger] w[i], radix) is Some by {
            if i < w.len() - 1 {
                assert(w[i] == p[i]);
            }
        }
        assert(w.last() == digit_char((n % radix) as int, upper));
        assert(digits_value(w, radix) == (n / radix) * radix + n % radix);
        assert((n / radix) * radix == radix * (n / radix)) by (nonlinear_arith);
    }
}

/// `16` to the power `n`.
pub open spec fn pow16(n: nat) -> nat
    decreases n,
{
    if n == 0 {
        1
    } else {
        16 * pow16((n - 1) as nat)
    }
}

pub(crate) proof fn lemma_pow16_positive(n: nat)
    ensures
        pow16(n) > 0,
    decreases n,
{
    if n > 0 {
        lemma_pow16_positive((n - 1) as nat);
    }
}

pub(crate) proof fn lemma_hex_digit_value(d: int)
    requires
        0 <= d < 16,
    ensures
        digit_value(hex_alphabet()[d], 16) == Some(d as nat),
{
    let a = hex_alphabet();
    assert(a[0] == '0' && a[1] == '1' && a[2] == '2' && a[3] == '3' && a[4] == '4');
    assert(a[5] == '5' && a[6] == '6' && a[7] == '7' && a[8] == '8' && a[9] == '9');
    assert(a[10] == 'a' && a[11] == 'b' && a[12] == 'c' && a[13] == 'd' && a[14] == 'e');
    assert(a[15] == 'f');
}

proof fn lemma_mod_split(x: nat, p: nat)
    requires
        p > 0,
    ensures
        ((x / 16) % p) * 16 + x % 16 == x % (16 * p),
{
    assert(((x / 16) % p) * 16 + x % 16 == x % (16 * p)) by (nonlinear_arith)
        requires
            p > 0,
    {
        let q = x / 16;
        let r = x % 16;
        assert(x == 16 * q + r);
        let a = q / p;
        let b = q % p;
        assert(q == p * a + b);
        assert(x == (16 * p) * a + (16 * b + r));
        assert(0 <= 16 * b + r < 16 * p);
        vstd::arithmetic::div_mod::lemma_fundamental_div_mod_converse(
            x as int,
            (16 * p) as int,
            a as int,
            (16 * b + r) as int,
        );
    }
}

pub(crate) proof fn lemma_hex_digits_value(x: nat, n: nat)
    ensures
        hex_digits(x, n).len() == n,
        all_digits(hex_digits(x, n), 16),
        digits_value(hex_digits(x, n), 16) == x % pow16(n),
    decreases n,
{
    if n > 0 {
        let s = hex_digits(x, n);
        lemma_hex_digits_value(x / 16, (n - 1) as nat);
        lemma_hex_digit_value((x % 16) as int);
        assert(s.drop_last() == hex_digits(x / 16, (n - 1) as nat));
        assert forall|i: int| 0 <= i < s.len() implies digit_value(#[trigger] s[i], 16) is Some by {
            if i < s.len() - 1 {
                assert(s[i] == s.drop_last()[i]);
            }
        }
        lemma_pow16_positive((n - 1) as nat);
        lemma_mod_split(x, pow16((n - 1) as nat));
    } else {
        assert(x % 1 == 0);
    }
}

/// Reading the eight hexadecimal digits that name a hash gives the hash back.
pub proof fn law_hex8_reads_back(h: u32)
    ensures
        hex8(h).len() == 8,
        parse_unsigned(hex8(h), 16) == Some(h as u64),
{
    lemma_hex_digits_value(h as nat, 8);
    assert(pow16(8) == 0x1_0000_0000) by {
        reveal_with_fuel(pow16, 9);
    }
    let s = hex8(h);
    assert(s[0] != '+') by {
        lemma_hex_digit_value(0);
        assert(digit_value(s[0], 16) is Some);
    }
}

/// `c` is a decimal digit or a lower-case letter from `a` to `f`.
pub open spec fn lower_hex_char(c: char) -> bool {
    ('0' <= c && c <= '9') || ('a' <= c && c <= 'f')
}

proof fn lemma_hex_digits_lower(x: nat, n: nat)
    ensures
        forall|i: int| 0 <= i < hex_digits(x, n).len() ==> lower_hex_char(#[trigger] hex_digits(x, n)[i]),
    decreases n,
{
    if n > 0 {
        let s = hex_digits(x, n);
        lemma_hex_digits_lower(x / 16, (n - 1) as nat);
        let a = hex_alphabet();
        assert(a[0] == '0' && a[1] == '1' && a[2] == '2' && a[3] == '3' && a[4] == '4');
        assert(a[5] == '5' && a[6] == '6' && a[7] == '7' && a[8] == '8' && a[9] == '9');
        assert(a[10] == 'a' && a[11] == 'b' && a[12] == 'c' && a[13] == 'd' && a[14] == 'e');
        assert(a[15] == 'f');
        assert(s.drop_last() == hex_digits(x / 16, (n - 1) as nat));
        assert forall|i: int| 0 <= i < s.len() implies lower_hex_char(#[trigger] s[i]) by {
            if i < s.len() - 1 {
                assert(s[i] == s.drop_last()[i]);
            }
        }
    }
}

/// The name of a hash is written with digits and lower-case letters only.
pub proof fn law_hex8_lower_case(h: u32)
    ensures
        forall|i: int| 0 <= i < hex8(h).len() ==> lower_hex_char(#[trigger] hex8(h)[i]),
{
    lemma_hex_digits_lower(h as nat, 8);
}

} // verus!
