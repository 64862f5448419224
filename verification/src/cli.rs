//! Values given on the command line of the save converter.

use vstd::prelude::*;

use crate::number::{
    decimal_error_text, digit_value, hex_digits, lemma_written_digits_value, written_digits, lemma_hex_digit_value, radix_error_text, lemma_hex_digits_value, parse_u64, parse_unsigned, pow16,
    u64_from_str_radix,
};

verus! {

/// `s` begins with `0x`.
pub open spec fn has_hex_prefix(s: Seq<char>) -> bool {
    s.len() >= 2 && s[0] == '0' && s[1] == 'x'
}

/// The Steam ID that `s` writes: hexadecimal after a `0x` prefix, decimal otherwise.
pub open spec fn steamid_value(s: Seq<char>) -> Option<u64> {
    if has_hex_prefix(s) {
        parse_unsigned(s.skip(2), 16)
    } else {
        parse_unsigned(s, 10)
    }
}

/// The reason that reading `s` as a Steam ID fails: the error text of the
/// integer reading that it goes to.
pub open spec fn steamid_error_text(s: Seq<char>) -> Seq<char> {
    if has_hex_prefix(s) {
        radix_error_text(s.skip(2), 16)
    } else {
        decimal_error_text(s)
    }
}

/// Reads a Steam ID: hexadecimal after a `0x` prefix, decimal otherwise. The error
/// holds the reason that integer parsing gave.
pub fn parse_steamid(value: &str) -> (r: Result<u64, String>)
    ensures
        match r {
            Ok(v) => steamid_value(value@) == Some(v),
            Err(e) => steamid_value(value@) is None && e@ == steamid_error_text(value@),
        },
{
    let n = value.unicode_len();
    if n >= 2 && value.get_char(0) == '0' && value.get_char(1) == 'x' {
        let hex = value.substring_char(2, n);
        assert(hex@ == value@.skip(2));
        u64_from_str_radix(hex, 16)
    } else {
        parse_u64(value)
    }
}

/// `0x` followed by the sixteen hexadecimal digits of a number reads as that
/// number.
pub proof fn law_hex_steamid_reads_back(v: u64)
    ensures
        steamid_value(seq!['0', 'x'] + hex_digits(v as nat, 16)) == Some(v),
{
    let digits = hex_digits(v as nat, 16);
    let s = seq!['0', 'x'] + digits;
    lemma_hex_digits_value(v as nat, 16);
    assert(pow16(16) == 0x1_0000_0000_0000_0000) by {
        reveal_with_fuel(pow16, 17);
    }
    assert(s.skip(2) == digits);
    lemma_hex_digit_value(0);
    assert(digits[0] != '+') by {
        assert(crate::number::digit_value(digits[0], 16) is Some);
    }
}

/// A number written in decimal, or after `0x` in lower-case or upper-case
/// hexadecimal, reads as that number.
pub proof fn law_steamid_reads_written_numbers(n: u64)
    ensures
        steamid_value(written_digits(n as nat, 10, false)) == Some(n),
        steamid_value(seq!['0', 'x'] + written_digits(n as nat, 16, false)) == Some(n),
        steamid_value(seq!['0', 'x'] + written_digits(n as nat, 16, true)) == Some(n),
{
    let d = written_digits(n as nat, 10, false);
    lemma_written_digits_value(n as nat, 10, false);
    assert(digit_value(d[0], 10) is Some);
    if d.len() >= 2 {
        assert(digit_value(d[1], 10) is Some);
    }
    lemma_written_digits_value(n as nat, 16, false);
    lemma_written_digits_value(n as nat, 16, true);
    let l = written_digits(n as nat, 16, false);
    let u = written_digits(n as nat, 16, true);
    assert((seq!['0', 'x'] + l).skip(2) == l);
    assert((seq!['0', 'x'] + u).skip(2) == u);
    assert(digit_value(l[0], 16) is Some);
    assert(digit_value(u[0], 16) is Some);
}

/// `c` is a decimal digit.
pub open spec fn decimal_char(c: char) -> bool {
    '0' <= c && c <= '9'
}

/// `c` is a hexadecimal digit, in either case.
pub open spec fn hex_char(c: char) -> bool {
    ('0' <= c && c <= '9') || ('a' <= c && c <= 'f') || ('A' <= c && c <= 'F')
}

/// `s` without one leading `+`.
pub open spec fn unsigned_digits(s: Seq<char>) -> Seq<char> {
    if s.len() > 0 && s[0] == '+' {
        s.drop_first()
    } else {
        s
    }
}

/// A text that reads as a Steam ID is, after an optional `+`, a non-empty run of
/// hexadecimal digits behind `0x`, or else of decimal digits: nothing else, such
/// as white space, signs or separators, is accepted.
pub proof fn law_steamid_holds_only_digits(s: Seq<char>)
    ensures
        steamid_value(s) is Some ==> if has_hex_prefix(s) {
            &&& unsigned_digits(s.skip(2)).len() > 0
            &&& forall|i: int|
                0 <= i < unsigned_digits(s.skip(2)).len() ==> hex_char(
                    #[trigger] unsigned_digits(s.skip(2))[i],
                )
        } else {
            &&& unsigned_digits(s).len() > 0
            &&& forall|i: int|
                0 <= i < unsigned_digits(s).len() ==> decimal_char(#[trigger] unsigned_digits(s)[i])
        },
{
    if steamid_value(s) is Some {
        if has_hex_prefix(s) {
            let d = unsigned_digits(s.skip(2));
            assert forall|i: int| 0 <= i < d.len() implies hex_char(#[trigger] d[i]) by {
                assert(digit_value(d[i], 16) is Some);
            }
        } else {
            let d = unsigned_digits(s);
            assert forall|i: int| 0 <= i < d.len() implies decimal_char(#[trigger] d[i]) by {
                assert(digit_value(d[i], 10) is Some);
            }
        }
    }
}

/// The text of the error for a missing save file name.
pub open spec fn missing_file_name_message() -> Seq<char> {
    "--file-name is required"@
}

/// The save file to convert, which the command line must name.
pub fn required_file_name(file_name: Option<&str>) -> (r: Result<String, String>)
    ensures
        match file_name {
            Some(f) => r matches Ok(s) && s@ == f@,
            None => r matches Err(e) && e@ == missing_file_name_message(),
        },
{
    match file_name {
        Some(f) => Ok(f.to_owned()),
        None => Err("--file-name is required".to_owned()),
    }
}

/// The prefix of the error for a Steam ID that cannot be read.
pub open spec fn invalid_steamid_prefix() -> Seq<char> {
    "invalid --steamid: "@
}

/// The Steam ID to write into the converted save, if the command line gives one.
/// One that cannot be read is an error that says so, followed by the reason that
/// `parse_steamid` gave.
pub fn steam_id_option(steamid: Option<&str>) -> (r: Result<Option<u64>, String>)
    ensures
        match steamid {
            None => r == Ok::<Option<u64>, String>(None),
            Some(t) => match steamid_value(t@) {
                Some(v) => r == Ok::<Option<u64>, String>(Some(v)),
                None => r matches Err(e) && e@ == invalid_steamid_prefix() + steamid_error_text(
                    t@,
                ),
            },
        },
{
    match steamid {
        None => Ok(None),
        Some(t) => match parse_steamid(t) {
            Ok(v) => Ok(Some(v)),
            Err(err) => {
                let msg = "invalid --steamid: ".to_owned().concat(err.as_str());
                Err(msg)
            },
        },
    }
}

} // verus!
