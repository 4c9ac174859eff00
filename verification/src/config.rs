//! Run configuration: byte order, input mode and output switches.

use vstd::prelude::*;
use vstd::string::*;

verus! {

/// Byte order in which instruction words are read.
#[derive(Clone, Copy, Debug, PartialEq, Eq, Structural)]
pub enum Endian {
    Little,
    Big,
}

/// Everything a run is parameterised by.
#[derive(Clone, Debug)]
pub struct Config {
    /// Image file to investigate.
    pub rompath: String,
    /// Directory holding the objects to look for.
    pub objects_dir: String,
    /// Byte order of every word read.
    pub endian: Endian,
    /// Treat the image as a plain binary blob instead of a cartridge ROM.
    pub binary: bool,
    /// Address of the first word of a binary blob.
    pub vram: Option<u32>,
    /// File offset at which a binary blob starts, used by the layout listing.
    pub rom_start: Option<u32>,
    /// Use the name lists of the well-known system library.
    pub libultra: bool,
    /// Emit the layout listing in its machine-readable form.
    pub splat_output: bool,
    /// Talk more.
    pub verbosity: bool,
    /// Try to tell apart objects that fit at the same place.
    pub disambiguate: bool,
}

/// The message `str_to_endian` fails with.
pub open spec fn unknown_endian_message() -> Seq<char> {
    "Not a known endian?"@
}

/// Reads a byte order from its name: `"little"` or `"big"`, nothing else.
pub fn str_to_endian(value: &str) -> (r: Result<Endian, String>)
    ensures
        value@ == "little"@ ==> r == Ok::<Endian, String>(Endian::Little),
        value@ == "big"@ ==> r == Ok::<Endian, String>(Endian::Big),
        value@ != "little"@ && value@ != "big"@ ==> r is Err && r->Err_0@
            == unknown_endian_message(),
{
    proof {
        reveal_strlit("little");
        reveal_strlit("big");
        assert("little"@.len() != "big"@.len());
    }
    let given = String::from_str(value);
    if given == String::from_str("little") {
        Ok(Endian::Little)
    } else if given == String::from_str("big") {
        Ok(Endian::Big)
    } else {
        Err(String::from_str("Not a known endian?"))
    }
}

/// The value of a hexadecimal digit, of either case.
pub open spec fn hex_digit_value(c: char) -> Option<nat> {
    if '0' <= c <= '9' {
        Some((c as int - '0' as int) as nat)
    } else if 'a' <= c <= 'f' {
        Some((c as int - 'a' as int + 10) as nat)
    } else if 'A' <= c <= 'F' {
        Some((c as int - 'A' as int + 10) as nat)
    } else {
        None
    }
}

/// Whether `digits` holds hexadecimal digits only.
pub open spec fn all_hex_digits(digits: Seq<char>) -> bool {
    forall|i: int| 0 <= i < digits.len() ==> hex_digit_value(#[trigger] digits[i]) is Some
}

/// The number that the hexadecimal digits `digits` write.
pub open spec fn hex_value(digits: Seq<char>) -> nat
    decreases digits.len(),
{
    if digits.len() == 0 {
        0
    } else {
        16 * hex_value(digits.drop_last()) + hex_digit_value(digits.last()).unwrap_or(0)
    }
}

/// The digits of a number as it is written: all of it, but for one leading
/// plus sign.
pub open spec fn digits_of(src: Seq<char>) -> Seq<char> {
    if src.len() > 0 && src[0] == '+' {
        src.skip(1)
    } else {
        src
    }
}

/// The number that `src` writes in hexadecimal, if it writes one that 32 bits
/// hold: `src` is one or more hexadecimal digits, or a plus sign and such
/// digits.
pub open spec fn parsed_hex(src: Seq<char>) -> Option<u32> {
    let digits = digits_of(src);
    if digits.len() > 0 && all_hex_digits(digits) && hex_value(digits) <= u32::MAX {
        Some(hex_value(digits) as u32)
    } else {
        None
    }
}

/// The message `from_hex_str` fails with.
pub open spec fn invalid_hex_message() -> Seq<char> {
    "Invalid hex number specified"@
}

/// A number only grows as digits are appended.
proof fn lemma_hex_value_grows(digits: Seq<char>, n: int)
    requires
        0 <= n <= digits.len(),
    ensures
        hex_value(digits.take(n)) <= hex_value(digits),
    decreases digits.len() - n,
{
    if n < digits.len() {
        lemma_hex_value_grows(digits, n + 1);
        assert(digits.take(n + 1).drop_last() == digits.take(n));
    } else {
        assert(digits.take(n) == digits);
    }
}

/// Reads the value of one hexadecimal digit.
fn hex_digit(c: char) -> (d: Option<u32>)
    ensures
        match hex_digit_value(c) {
            Some(v) => d == Some(v as u32) && v < 16,
            None => d is None,
        },
{
    if '0' <= c && c <= '9' {
        Some(c as u32 - '0' as u32)
    } else if 'a' <= c && c <= 'f' {
        Some(c as u32 - 'a' as u32 + 10)
    } else if 'A' <= c && c <= 'F' {
        Some(c as u32 - 'A' as u32 + 10)
    } else {
        None
    }
}

/// Reads a 32-bit number written in hexadecimal, without a prefix.
pub fn from_hex_str(src: &str) -> (r: Result<u32, String>)
    ensures
        match parsed_hex(src@) {
            Some(n) => r == Ok::<u32, String>(n),
            None => r is Err && r->Err_0@ == invalid_hex_message(),
        },
{
    let len: usize = src.unicode_len();
    let first: usize = if len > 0 && src.get_char(0) == '+' {
        1
    } else {
        0
    };
    let ghost digits = digits_of(src@);
    if first == len {
        return Err(String::from_str("Invalid hex number specified"));
    }
    let mut value: u64 = 0;
    let mut i: usize = first;
    assert(digits.take(0) == Seq::<char>::empty());
    while i < len
        invariant
            first <= i <= len,
            len == src@.len(),
            digits == src@.skip(first as int),
            digits == digits_of(src@),
            all_hex_digits(digits.take(i - first)),
            value == hex_value(digits.take(i - first)),
            value <= u32::MAX,
        decreases len - i,
    {
        let c = src.get_char(i);
        let ghost before = digits.take(i - first);
        let ghost after = digits.take(i - first + 1);
        proof {
            assert(after.drop_last() == before);
            assert(after.last() == c);
            assert(digits[i - first] == c);
        }
        match hex_digit(c) {
            Some(d) => {
                value = value * 16 + d as u64;
                assert forall|n: int| 0 <= n < after.len() implies hex_digit_value(
                    #[trigger] after[n],
                ) is Some by {
                    if n < before.len() {
                        assert(after[n] == before[n]);
                    }
                }
                if value > 0xFFFF_FFFF {
                    proof {
                        lemma_hex_value_grows(digits, i - first + 1);
                    }
                    return Err(String::from_str("Invalid hex number specified"));
                }
            },
            None => {
                return Err(String::from_str("Invalid hex number specified"));
            },
        }
        i = i + 1;
    }
    assert(digits.take(len - first) == digits);
    Ok(value as u32)
}

} // verus!
