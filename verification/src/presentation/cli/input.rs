//! Parsing of the values typed on the command line: hex byte strings (via
//! the `hex` crate), small numbers, and case-insensitive keywords.

use vstd::prelude::*;

use vstd::string::{StringExecFns, StringSliceAdditionalSpecFns};

verus! {

/// The UTF-8 bytes of a text.
pub open spec fn text_bytes(s: Seq<char>) -> Seq<u8> {
    vstd::utf8::encode_utf8(s)
}

// ============================================================================
// Hex strings
// ============================================================================

/// Why a hex string could not be decoded.
#[derive(Debug, Clone, Copy, PartialEq, Eq)]
pub enum HexError {
    /// Byte `c` at `index` is not a hex digit.
    InvalidHexCharacter { c: char, index: usize },
    /// The string has an odd number of digits.
    OddLength,
    /// The string does not fit the requested length.
    InvalidStringLength,
}

/// `b` is a hex digit: `0-9`, `a-f` or `A-F`.
pub open spec fn is_hex_digit(b: u8) -> bool {
    (0x30 <= b <= 0x39) || (0x61 <= b <= 0x66) || (0x41 <= b <= 0x46)
}

/// The value of the hex digit `b`.
pub open spec fn hex_digit_value(b: u8) -> u8 {
    if 0x30 <= b <= 0x39 {
        (b - 0x30) as u8
    } else if 0x61 <= b <= 0x66 {
        (b - 0x61 + 10) as u8
    } else {
        (b - 0x41 + 10) as u8
    }
}

/// The bytes spelled by an even-length string of hex digits, two digits per
/// byte, high nibble first.
pub open spec fn hex_decoded(data: Seq<u8>) -> Seq<u8> {
    Seq::new(
        data.len() / 2,
        |i: int| (hex_digit_value(data[2 * i]) * 16 + hex_digit_value(data[2 * i + 1])) as u8,
    )
}

/// Every byte of `data` is a hex digit.
pub open spec fn all_hex(data: Seq<u8>) -> bool {
    forall|i: int| 0 <= i < data.len() ==> #[trigger] is_hex_digit(data[i])
}

/// What `hex::decode` gives back: the bytes, or the failure.
pub type HexResult = Result<Vec<u8>, HexError>;

/// The text the `hex` crate gives for an invalid character `c` at `index`.
pub uninterp spec fn hex_invalid_char_text(c: char, index: usize) -> Seq<char>;

/// The failure for the first byte of `data` that is not a hex digit.
pub open spec fn invalid_char_failure(f: HexError, data: Seq<u8>) -> bool {
    f matches HexError::InvalidHexCharacter { c, index } && index < data.len()
        && !is_hex_digit(data[index as int]) && c == data[index as int] as char && (forall|j: int|
        0 <= j < index ==> #[trigger] is_hex_digit(data[j]))
}

/// `hex::decode` of `data`: an odd length is `OddLength`; otherwise the first
/// byte that is not a hex digit is `InvalidHexCharacter` with that byte and
/// its position; otherwise the decoded bytes.
#[verifier::external_body]
fn decode_hex(data: &[u8]) -> (r: HexResult)
    ensures
        data@.len() % 2 == 1 ==> r matches Err(HexError::OddLength),
        data@.len() % 2 == 0 && all_hex(data@) ==> r is Ok && r->Ok_0@ == hex_decoded(data@),
        data@.len() % 2 == 0 && !all_hex(data@) ==> r is Err && invalid_char_failure(r->Err_0, data@),
{
    match hex::decode(data) {
        Ok(v) => Ok(v),
        Err(hex::FromHexError::InvalidHexCharacter { c, index }) => Err(
            HexError::InvalidHexCharacter { c, index },
        ),
        Err(hex::FromHexError::OddLength) => Err(HexError::OddLength),
        Err(hex::FromHexError::InvalidStringLength) => Err(HexError::InvalidStringLength),
    }
}

/// The text of the `hex` crate's error for `error` (the `Display` of
/// `hex::FromHexError`): "Odd number of digits", "Invalid string length",
/// or, for an invalid character, the text named `hex_invalid_char_text`.
#[verifier::external_body]
fn hex_error_text(error: HexError) -> (t: String)
    ensures
        error == HexError::OddLength ==> t@ == "Odd number of digits"@,
        error == HexError::InvalidStringLength ==> t@ == "Invalid string length"@,
        error matches HexError::InvalidHexCharacter { c, index } ==> t@ == hex_invalid_char_text(
            c,
            index,
        ),
{
    let e = match error {
        HexError::InvalidHexCharacter { c, index } => hex::FromHexError::InvalidHexCharacter { c, index },
        HexError::OddLength => hex::FromHexError::OddLength,
        HexError::InvalidStringLength => hex::FromHexError::InvalidStringLength,
    };
    e.to_string()
}

/// `s` with every occurrence of `pat` removed, scanning from the front
/// (non-overlapping occurrences).
pub open spec fn removed(s: Seq<u8>, pat: Seq<u8>) -> Seq<u8>
    decreases s.len(),
{
    if s.len() == 0 {
        s
    } else if pat.len() > 0 && s.len() >= pat.len() && s.take(pat.len() as int) == pat {
        removed(s.skip(pat.len() as int), pat)
    } else {
        seq![s[0]] + removed(s.skip(1), pat)
    }
}

/// `s[i..i + pat.len()]` is `pat`.
fn matches_at(s: &[u8], i: usize, pat: &[u8]) -> (b: bool)
    requires
        i <= s@.len(),
    ensures
        b == (s@.len() - i >= pat@.len() && s@.skip(i as int).take(pat@.len() as int) == pat@),
{
    if s.len() - i < pat.len() {
        return false;
    }
    let mut k: usize = 0;
    while k < pat.len()
        invariant
            i + pat@.len() <= s@.len(),
            s@.len() <= usize::MAX,
            k <= pat@.len(),
            forall|j: int| 0 <= j < k ==> s@[i + j] == pat@[j],
        decreases pat@.len() - k,
    {
        if s[i + k] != pat[k] {
            assert(s@.skip(i as int).take(pat@.len() as int)[k as int] != pat@[k as int]);
            return false;
        }
        k = k + 1;
    }
    assert(s@.skip(i as int).take(pat@.len() as int) =~= pat@);
    true
}

/// Remove every occurrence of `pat` from `s` (as `str::replace(pat, "")` does).
pub fn remove_all(s: &[u8], pat: &[u8]) -> (r: Vec<u8>)
    ensures
        r@ == removed(s@, pat@),
{
    let mut out: Vec<u8> = Vec::new();
    let mut i: usize = 0;
    assert(s@.skip(0) =~= s@);
    assert(out@ + removed(s@, pat@) =~= removed(s@, pat@));
    while i < s.len()
        invariant
            i <= s@.len(),
            out@ + removed(s@.skip(i as int), pat@) == removed(s@, pat@),
        decreases s@.len() - i,
    {
        let ghost rest = s@.skip(i as int);
        if pat.len() > 0 && matches_at(s, i, pat) {
            assert(rest.skip(pat@.len() as int) =~= s@.skip(i + pat@.len()));
            i = i + pat.len();
        } else {
            assert(rest.skip(1) =~= s@.skip(i + 1));
            assert(out@.push(s@[i as int]) + removed(s@.skip(i + 1), pat@) =~= out@ + (seq![
                rest[0],
            ] + removed(rest.skip(1), pat@)));
            out.push(s[i]);
            i = i + 1;
        }
    }
    assert(s@.skip(i as int) =~= Seq::<u8>::empty());
    assert(out@ + Seq::<u8>::empty() =~= out@);
    out
}

/// The bytes of a hex string typed by the user, with every `"0x"` removed
/// and, when `drop_spaces`, every space removed.
pub open spec fn cleaned_hex(s: Seq<u8>, drop_spaces: bool) -> Seq<u8> {
    if drop_spaces {
        removed(removed(s, seq![0x30u8, 0x78u8]), seq![0x20u8])
    } else {
        removed(s, seq![0x30u8, 0x78u8])
    }
}

/// Decode a hex string typed by the user: every `"0x"` is removed (and
/// every space, when `drop_spaces`), then the rest is decoded by the `hex`
/// crate. On failure, the `hex` crate's error text.
pub fn parse_hex_bytes(s: &str, drop_spaces: bool) -> (r: Result<Vec<u8>, String>)
    ensures
        ({
            let c = cleaned_hex(text_bytes(s@), drop_spaces);
            &&& (c.len() % 2 == 0 && all_hex(c)) <==> r is Ok
            &&& r matches Ok(v) ==> v@ == hex_decoded(c)
            &&& c.len() % 2 == 1 ==> r is Err && r->Err_0@ == "Odd number of digits"@
            &&& c.len() % 2 == 0 && !all_hex(c) ==> r is Err && exists|i: int|
                0 <= i < c.len() && !is_hex_digit(c[i]) && (forall|j: int|
                    0 <= j < i ==> #[trigger] is_hex_digit(c[j])) && r->Err_0@
                    == hex_invalid_char_text(#[trigger] c[i] as char, i as usize)
        }),
{
    let bytes = s.as_bytes();
    let no_prefix = remove_all(bytes, "0x".as_bytes());
    proof {
        reveal_strlit("0x");
        vstd::string::is_ascii_spec_bytes("0x");
        assert(vstd::string::is_ascii("0x"));
        assert("0x".spec_bytes() =~= seq![0x30u8, 0x78u8]);
    }
    let cleaned = if drop_spaces {
        let r = remove_all(no_prefix.as_slice(), " ".as_bytes());
        proof {
            reveal_strlit(" ");
            vstd::string::is_ascii_spec_bytes(" ");
            assert(vstd::string::is_ascii(" "));
            assert(" ".spec_bytes() =~= seq![0x20u8]);
        }
        r
    } else {
        no_prefix
    };
    match decode_hex(cleaned.as_slice()) {
        Ok(v) => Ok(v),
        Err(e) => Err(hex_error_text(e)),
    }
}

/// `prefix` followed by `rest`.
pub fn joined(prefix: &str, rest: &str) -> (r: String)
    ensures
        r@ == prefix@ + rest@,
{
    prefix.to_string().concat(rest)
}

// ============================================================================
// Numbers and keywords
// ============================================================================

/// The value of `b` as a digit in `radix` (letters in either case stand for 10..35).
pub open spec fn digit_value(b: u8, radix: u32) -> Option<nat> {
    let v: int = if 0x30 <= b <= 0x39 {
        b - 0x30
    } else if 0x61 <= b <= 0x7A {
        b - 0x61 + 10
    } else if 0x41 <= b <= 0x5A {
        b - 0x41 + 10
    } else {
        radix as int
    };
    if v < radix {
        Some(v as nat)
    } else {
        None
    }
}

/// The number spelled by the digits `d` in `radix`, most significant first
/// (`None` when one is not a digit).
pub open spec fn digits_value(d: Seq<u8>, radix: u32) -> Option<nat>
    decreases d.len(),
{
    if d.len() == 0 {
        Some(0)
    } else {
        match (digits_value(d.drop_last(), radix), digit_value(d.last(), radix)) {
            (Some(v), Some(x)) => Some(v * (radix as nat) + x),
            _ => None,
        }
    }
}

/// The `u8` that `s` spells in `radix`, as `u8::from_str_radix` reads it:
/// an optional `+`, then at least one digit, and a value that fits.
pub open spec fn parsed_u8(s: Seq<u8>, radix: u32) -> Option<u8> {
    let digits = if s.len() > 0 && s[0] == 0x2Bu8 {
        s.skip(1)
    } else {
        s
    };
    if digits.len() == 0 {
        None
    } else {
        match digits_value(digits, radix) {
            Some(v) => if v <= 255 {
                Some(v as u8)
            } else {
                None
            },
            None => None,
        }
    }
}

/// The value of the digit `b` in `radix`, if it is one.
fn digit(b: u8, radix: u32) -> (r: Option<u32>)
    requires
        2 <= radix <= 36,
    ensures
        r matches Some(x) ==> digit_value(b, radix) == Some(x as nat),
        r is None ==> digit_value(b, radix) is None,
{
    let v: u32 = if 0x30 <= b && b <= 0x39 {
        (b - 0x30) as u32
    } else if 0x61 <= b && b <= 0x7A {
        (b - 0x61 + 10) as u32
    } else if 0x41 <= b && b <= 0x5A {
        (b - 0x41 + 10) as u32
    } else {
        radix
    };
    if v < radix {
        Some(v)
    } else {
        None
    }
}

/// Parse a `u8` written in `radix` (an optional `+`, then digits).
pub fn parse_u8_radix(s: &[u8], radix: u32) -> (r: Option<u8>)
    requires
        2 <= radix <= 36,
    ensures
        r == parsed_u8(s@, radix),
{
    let start: usize = if s.len() > 0 && s[0] == 0x2B {
        1
    } else {
        0
    };
    let ghost digits = s@.skip(start as int);
    assert(s@.skip(0) =~= s@);
    if s.len() - start == 0 {
        return None;
    }
    let mut value: u32 = 0;
    let mut too_big = false;
    let mut i: usize = start;
    let ghost mut tv: nat = 0;
    while i < s.len()
        invariant
            2 <= radix <= 36,
            start <= i <= s@.len(),
            digits == s@.skip(start as int),
            digits == (if s@.len() > 0 && s@[0] == 0x2Bu8 {
                s@.skip(1)
            } else {
                s@
            }),
            digits.len() > 0,
            digits_value(digits.take(i - start), radix) == Some(tv),
            !too_big ==> value == tv && value <= 255,
            too_big ==> tv > 255,
        decreases s@.len() - i,
    {
        assert(digits.take(i + 1 - start).drop_last() =~= digits.take(i - start));
        assert(digits.take(i + 1 - start).last() == s@[i as int]);
        match digit(s[i], radix) {
            Some(x) => {
                proof {
                    assert(tv * radix + x >= tv) by (nonlinear_arith)
                        requires
                            radix >= 2,
                    ;
                    tv = tv * (radix as nat) + (x as nat);
                }
                if !too_big {
                    assert(value * radix <= 255 * 36) by (nonlinear_arith)
                        requires
                            value <= 255,
                            radix <= 36,
                    ;
                    let next = value * radix + x;
                    if next > 255 {
                        too_big = true;
                    } else {
                        value = next;
                    }
                }
            },
            None => {
                proof {
                    assert(digits_value(digits.take(i + 1 - start), radix) is None);
                    lemma_digits_none_extends(digits, radix, i + 1 - start);
                    assert(digits.take(digits.len() as int) =~= digits);
                }
                return None;
            },
        }
        i = i + 1;
    }
    assert(digits.take(i - start) =~= digits);
    if too_big {
        None
    } else {
        Some(value as u8)
    }
}

/// Once a prefix of the digits is invalid, so is every longer prefix.
proof fn lemma_digits_none_extends(d: Seq<u8>, radix: u32, k: int)
    requires
        0 <= k <= d.len(),
        digits_value(d.take(k), radix) is None,
    ensures
        digits_value(d.take(d.len() as int), radix) is None,
    decreases d.len() - k,
{
    if k < d.len() {
        assert(d.take(k + 1).drop_last() =~= d.take(k));
        lemma_digits_none_extends(d, radix, k + 1);
    }
}

/// Whether `s` and `t` hold the same bytes.
pub fn bytes_equal(s: &[u8], t: &[u8]) -> (b: bool)
    ensures
        b == (s@ == t@),
{
    if s.len() != t.len() {
        return false;
    }
    let mut i: usize = 0;
    while i < s.len()
        invariant
            s@.len() == t@.len(),
            i <= s@.len(),
            forall|j: int| 0 <= j < i ==> s@[j] == t@[j],
        decreases s@.len() - i,
    {
        if s[i] != t[i] {
            return false;
        }
        i = i + 1;
    }
    assert(s@ =~= t@);
    true
}

/// `b` in lower case, for ASCII letters.
pub open spec fn ascii_lower(b: u8) -> u8 {
    if 0x41 <= b <= 0x5A {
        (b + 32) as u8
    } else {
        b
    }
}

/// `s` is `lower` once its ASCII letters are lower-cased.
pub open spec fn eq_ignoring_case(s: Seq<u8>, lower: Seq<u8>) -> bool {
    s.len() == lower.len() && forall|i: int| 0 <= i < s.len() ==> #[trigger] ascii_lower(s[i]) == lower[i]
}

/// Whether `s` is `lower` once its ASCII letters are lower-cased.
pub fn equals_ignoring_case(s: &[u8], lower: &[u8]) -> (b: bool)
    ensures
        b == eq_ignoring_case(s@, lower@),
{
    if s.len() != lower.len() {
        return false;
    }
    let mut i: usize = 0;
    while i < s.len()
        invariant
            s@.len() == lower@.len(),
            i <= s@.len(),
            forall|j: int| 0 <= j < i ==> #[trigger] ascii_lower(s@[j]) == lower@[j],
        decreases s@.len() - i,
    {
        let b = s[i];
        let l = if 0x41 <= b && b <= 0x5A {
            b + 32
        } else {
            b
        };
        if l != lower[i] {
            assert(ascii_lower(s@[i as int]) != lower@[i as int]);
            return false;
        }
        i = i + 1;
    }
    true
}

} // verus!
