//! Configuration parsing: whole numbers and color gradients.
//!
//! A gradient is written as semicolon-separated `#RRGGBB` entries; the
//! numeric options are plain decimal integers, some of which must be
//! positive. Every function here reports, for every possible input, either
//! the parsed value or the exact reason the input was rejected.

use vstd::prelude::*;

verus! {

use crate::gradient::Rgb;
use vstd::string::StringSliceAdditionalSpecFns;

/// Why a configuration value was rejected.
#[derive(Clone, Copy, PartialEq, Eq, Debug)]
pub enum ParseError {
    /// The input held no characters at all.
    Empty,
    /// A character was not a decimal digit (one leading plus sign aside),
    /// or nothing followed the sign.
    InvalidDigit,
    /// The number does not fit the target type.
    Overflow,
    /// The value parsed but must be at least one.
    Zero,
    /// A gradient entry does not start with `#`.
    ColorFormat,
    /// A gradient entry's digits after the `#` are not exactly six
    /// hexadecimals.
    ColorHex,
}

impl ParseError {
    /// A short description of the rejection, for error reports.
    pub fn describe(&self) -> (m: &'static str)
        ensures
            m@.len() > 0,
    {
        proof {
            reveal_strlit("empty value");
            reveal_strlit("invalid digit");
            reveal_strlit("number out of range");
            reveal_strlit("expected to be > 0");
            reveal_strlit("unsupported color format");
            reveal_strlit("hex color parsing error");
        }
        match self {
            ParseError::Empty => "empty value",
            ParseError::InvalidDigit => "invalid digit",
            ParseError::Overflow => "number out of range",
            ParseError::Zero => "expected to be > 0",
            ParseError::ColorFormat => "unsupported color format",
            ParseError::ColorHex => "hex color parsing error",
        }
    }
}

/// Whether `b` is the byte of a decimal digit.
pub open spec fn is_digit(b: u8) -> bool {
    48 <= b <= 57
}

/// The value of a decimal digit byte.
pub open spec fn digit_val(b: u8) -> int {
    b - 48
}

/// Whether every byte of `s` is a decimal digit.
pub open spec fn all_digits(s: Seq<u8>) -> bool {
    forall|k: int| 0 <= k < s.len() ==> is_digit(s[k])
}

/// The number a sequence of decimal digit bytes names.
pub open spec fn digits_value(s: Seq<u8>) -> int
    decreases s.len(),
{
    if s.len() == 0 {
        0
    } else {
        digits_value(s.drop_last()) * 10 + digit_val(s.last())
    }
}

/// The digits of a written number: one leading plus sign, if present, is
/// not part of them.
pub open spec fn sign_stripped(s: Seq<u8>) -> Seq<u8> {
    if s.len() > 0 && s[0] == 43 {
        s.drop_first()
    } else {
        s
    }
}

/// What parsing an unsigned decimal number from the bytes `s` yields:
/// the named value when `s` is one optional plus sign followed by one or
/// more decimal digits and the value fits a `usize`; otherwise the reason
/// it is rejected.
pub open spec fn unsigned_of(s: Seq<u8>) -> Result<usize, ParseError> {
    let d = sign_stripped(s);
    if s.len() == 0 {
        Err(ParseError::Empty)
    } else if d.len() == 0 {
        Err(ParseError::InvalidDigit)
    } else if !all_digits(d) {
        Err(ParseError::InvalidDigit)
    } else if digits_value(d) > usize::MAX {
        Err(ParseError::Overflow)
    } else {
        Ok(digits_value(d) as usize)
    }
}

/// A digit sequence names a non-negative number.
proof fn lemma_digits_value_nonneg(s: Seq<u8>)
    requires
        all_digits(s),
    ensures
        digits_value(s) >= 0,
    decreases s.len(),
{
    if s.len() > 0 {
        assert(all_digits(s.drop_last()));
        lemma_digits_value_nonneg(s.drop_last());
    }
}

/// Reading further digits never shrinks the number: the value of a prefix
/// is at most the value of the whole digit sequence.
proof fn lemma_digits_value_grows(s: Seq<u8>, i: int)
    requires
        all_digits(s),
        0 <= i <= s.len(),
    ensures
        digits_value(s.subrange(0, i)) <= digits_value(s),
    decreases s.len() - i,
{
    if i == s.len() {
        assert(s.subrange(0, i) =~= s);
    } else {
        lemma_digits_value_grows(s, i + 1);
        let p = s.subrange(0, i);
        let p1 = s.subrange(0, i + 1);
        assert(p1.drop_last() =~= p);
        assert(all_digits(p));
        lemma_digits_value_nonneg(p);
    }
}

/// Parses an unsigned decimal number, as the numeric configuration options
/// write one: an optional plus sign, then decimal digits. Returns exactly
/// `unsigned_of` of the input's bytes — the value if the input is
/// well-formed and in range, the reason it is rejected otherwise.
pub fn parse_unsigned(input: &str) -> (r: Result<usize, ParseError>)
    ensures
        r == unsigned_of(input.spec_bytes()),
{
    let ghost s = input.spec_bytes();
    let bytes = input.as_bytes();
    let n = bytes.len();
    if n == 0 {
        return Err(ParseError::Empty);
    }
    let start: usize = if bytes[0] == 43 {
        1
    } else {
        0
    };
    let ghost d = sign_stripped(s);
    proof {
        assert(d =~= s.subrange(start as int, n as int));
    }
    if start == n {
        return Err(ParseError::InvalidDigit);
    }
    let mut i: usize = start;
    while i < n
        invariant
            start <= i <= n,
            start < n,
            n == bytes@.len(),
            bytes@ == s,
            s == input.spec_bytes(),
            d == sign_stripped(s),
            d == s.subrange(start as int, n as int),
            forall|k: int| start <= k < i ==> is_digit(s[k]),
        decreases n - i,
    {
        let b = bytes[i];
        if b < 48 || b > 57 {
            proof {
                assert(d[i - start] == s[i as int]);
                assert(!all_digits(d));
            }
            return Err(ParseError::InvalidDigit);
        }
        i = i + 1;
    }
    proof {
        assert forall|k: int| 0 <= k < d.len() implies is_digit(d[k]) by {
            assert(d[k] == s[k + start]);
        }
    }
    let mut acc: u128 = 0;
    let mut j: usize = start;
    while j < n
        invariant
            start <= j <= n,
            start < n,
            n == bytes@.len(),
            bytes@ == s,
            s == input.spec_bytes(),
            d == sign_stripped(s),
            d == s.subrange(start as int, n as int),
            all_digits(d),
            acc <= usize::MAX,
            acc == digits_value(d.subrange(0, j - start)),
        decreases n - j,
    {
        let b = bytes[j];
        proof {
            assert(d[j - start] == s[j as int]);
        }
        let next: u128 = acc * 10 + ((b - 48) as u128);
        proof {
            let p = d.subrange(0, j - start);
            let p1 = d.subrange(0, j + 1 - start);
            assert(p1.drop_last() =~= p);
            assert(p1.last() == d[j - start]);
            assert(next == digits_value(p1));
        }
        if next > usize::MAX as u128 {
            proof {
                lemma_digits_value_grows(d, j + 1 - start);
            }
            return Err(ParseError::Overflow);
        }
        acc = next;
        j = j + 1;
    }
    proof {
        assert(d.subrange(0, n - start) =~= d);
    }
    Ok(acc as usize)
}

/// What parsing a positive count (the detail level, the frame rate) from
/// the bytes `s` yields: an unsigned number that must not be zero.
pub open spec fn positive_of(s: Seq<u8>) -> Result<usize, ParseError> {
    match unsigned_of(s) {
        Ok(v) => if v == 0 {
            Err(ParseError::Zero)
        } else {
            Ok(v)
        },
        Err(e) => Err(e),
    }
}

/// Parses the fractal detail level: a decimal count of octaves, at least
/// one. Returns exactly `positive_of` of the input's bytes; in particular
/// zero is rejected, so every accepted level meets the noise engine's
/// precondition.
pub fn parse_detail(input: &str) -> (r: Result<usize, ParseError>)
    ensures
        r == positive_of(input.spec_bytes()),
        r matches Ok(v) ==> v >= 1,
{
    match parse_unsigned(input) {
        Ok(v) => if v == 0 {
            Err(ParseError::Zero)
        } else {
            Ok(v)
        },
        Err(e) => Err(e),
    }
}

/// Parses the target frame rate: a decimal number of frames per second,
/// at least one. Returns exactly `positive_of` of the input's bytes, so
/// the frame-time budget `10^6 / fps` never divides by zero.
pub fn parse_fps(input: &str) -> (r: Result<usize, ParseError>)
    ensures
        r == positive_of(input.spec_bytes()),
        r matches Ok(v) ==> v >= 1,
{
    match parse_unsigned(input) {
        Ok(v) => if v == 0 {
            Err(ParseError::Zero)
        } else {
            Ok(v)
        },
        Err(e) => Err(e),
    }
}

/// Whether `b` is the byte of a hexadecimal digit.
pub open spec fn is_hex_digit(b: u8) -> bool {
    (48 <= b <= 57) || (65 <= b <= 70) || (97 <= b <= 102)
}

/// The value of a hexadecimal digit byte, either case.
pub open spec fn hex_digit_val(b: u8) -> int {
    if 48 <= b <= 57 {
        b - 48
    } else if 65 <= b <= 70 {
        b - 55
    } else {
        b - 87
    }
}

/// Whether every byte of `s` is a hexadecimal digit.
pub open spec fn all_hex(s: Seq<u8>) -> bool {
    forall|k: int| 0 <= k < s.len() ==> is_hex_digit(s[k])
}

/// The number a sequence of hexadecimal digit bytes names.
pub open spec fn hex_value(s: Seq<u8>) -> int
    decreases s.len(),
{
    if s.len() == 0 {
        0
    } else {
        hex_value(s.drop_last()) * 16 + hex_digit_val(s.last())
    }
}

/// One more than the largest number `k` hexadecimal digits can name:
/// `16^k`.
spec fn hex_cap(k: nat) -> int
    decreases k,
{
    if k == 0 {
        1
    } else {
        16 * hex_cap((k - 1) as nat)
    }
}

/// Digit capacities are at least one.
proof fn lemma_hex_cap_pos(k: nat)
    ensures
        hex_cap(k) >= 1,
    decreases k,
{
    if k > 0 {
        lemma_hex_cap_pos((k - 1) as nat);
    }
}

/// More digits can name more: the capacity grows with the digit count.
proof fn lemma_hex_cap_mono(j: nat, k: nat)
    requires
        j <= k,
    ensures
        hex_cap(j) <= hex_cap(k),
    decreases k,
{
    if j < k {
        lemma_hex_cap_mono(j, (k - 1) as nat);
        lemma_hex_cap_pos((k - 1) as nat);
    }
}

/// The red, green and blue channels packed into the low 24 bits of `n`.
pub open spec fn rgb_of(n: u32) -> Rgb {
    (((n >> 16) & 0xff) as u8, ((n >> 8) & 0xff) as u8, (n & 0xff) as u8)
}

/// What one gradient entry (the bytes between two semicolons) yields: the
/// color written `#RRGGBB` — a `#` followed by exactly six hexadecimal
/// digits — or the reason the entry is rejected: a missing leading `#`,
/// or digits that are not six hexadecimals.
pub open spec fn color_of(p: Seq<u8>) -> Result<Rgb, ParseError> {
    if p.len() == 0 || p[0] != 35 {
        Err(ParseError::ColorFormat)
    } else {
        let d = p.drop_first();
        if d.len() != 6 {
            Err(ParseError::ColorHex)
        } else if !all_hex(d) {
            Err(ParseError::ColorHex)
        } else {
            Ok(rgb_of(hex_value(d) as u32))
        }
    }
}

/// Parses one gradient entry, the bytes `start` up to `end`: exactly
/// `color_of` of those bytes.
fn parse_color(bytes: &[u8], start: usize, end: usize) -> (r: Result<Rgb, ParseError>)
    requires
        start <= end <= bytes@.len(),
    ensures
        r == color_of(bytes@.subrange(start as int, end as int)),
{
    let ghost p = bytes@.subrange(start as int, end as int);
    proof {
        assert(p.len() == end - start);
        if end > start {
            assert(p[0] == bytes@[start as int]);
        }
    }
    if end == start || bytes[start] != 35 {
        return Err(ParseError::ColorFormat);
    }
    let ghost d = p.drop_first();
    proof {
        assert(d =~= bytes@.subrange(start + 1, end as int));
    }
    if end - start != 7 {
        proof {
            assert(d.len() != 6);
        }
        return Err(ParseError::ColorHex);
    }
    let mut acc: u64 = 0;
    let mut i: usize = start + 1;
    while i < end
        invariant
            start + 1 <= i <= end <= bytes@.len(),
            end - start == 7,
            p == bytes@.subrange(start as int, end as int),
            p.len() == end - start,
            p[0] == 35,
            d == p.drop_first(),
            d == bytes@.subrange(start + 1, end as int),
            all_hex(d.subrange(0, i - start - 1)),
            acc == hex_value(d.subrange(0, i - start - 1)),
            acc < hex_cap((i - start - 1) as nat),
        decreases end - i,
    {
        let b = bytes[i];
        proof {
            assert(d[i - start - 1] == bytes@[i as int]);
            lemma_hex_cap_mono((i - start - 1) as nat, 6);
            assert(hex_cap(6) == 0x1000000) by {
                reveal_with_fuel(hex_cap, 7);
            }
        }
        let v: u64 = if 48 <= b && b <= 57 {
            (b - 48) as u64
        } else if 65 <= b && b <= 70 {
            (b - 55) as u64
        } else if 97 <= b && b <= 102 {
            (b - 87) as u64
        } else {
            proof {
                assert(!all_hex(d));
            }
            return Err(ParseError::ColorHex);
        };
        let next: u64 = acc * 16 + v;
        proof {
            let q = d.subrange(0, i - start - 1);
            let q1 = d.subrange(0, i - start);
            assert(q1.drop_last() =~= q);
            assert(q1.last() == d[i - start - 1]);
            assert(next == hex_value(q1));
            assert(hex_cap((i - start) as nat) == 16 * hex_cap((i - start - 1) as nat));
        }
        acc = next;
        i = i + 1;
    }
    proof {
        assert(d.subrange(0, end - start - 1) =~= d);
        assert(hex_cap(6) == 0x1000000) by {
            reveal_with_fuel(hex_cap, 7);
        }
    }
    let n = acc as u32;
    proof {
        assert((n >> 16) & 0xff <= 0xff && (n >> 8) & 0xff <= 0xff && n & 0xff <= 0xff)
            by (bit_vector);
    }
    let r8 = ((n >> 16) & 0xff) as u8;
    let g8 = ((n >> 8) & 0xff) as u8;
    let b8 = (n & 0xff) as u8;
    Ok((r8, g8, b8))
}

/// The position of the first semicolon in `s`, or `s.len()` if there is
/// none.
pub open spec fn first_semi(s: Seq<u8>) -> int
    decreases s.len(),
{
    if s.len() == 0 {
        0
    } else if s[0] == 59 {
        0
    } else {
        1 + first_semi(s.drop_first())
    }
}

/// `first_semi` finds the first semicolon: it is in bounds, it points at a
/// semicolon unless there is none, and nothing before it is one.
proof fn lemma_first_semi(s: Seq<u8>)
    ensures
        0 <= first_semi(s) <= s.len(),
        first_semi(s) < s.len() ==> s[first_semi(s)] == 59,
        forall|k: int| 0 <= k < first_semi(s) ==> s[k] != 59,
    decreases s.len(),
{
    if s.len() > 0 && s[0] != 59 {
        lemma_first_semi(s.drop_first());
        assert forall|k: int| 0 <= k < first_semi(s) implies s[k] != 59 by {
            if k > 0 {
                assert(s.drop_first()[k - 1] == s[k]);
            }
        }
        if first_semi(s) < s.len() {
            assert(s.drop_first()[first_semi(s) - 1] == s[first_semi(s)]);
        }
    }
}

/// The entries of a gradient string: the bytes split at every semicolon.
/// A string without semicolons is one entry; every semicolon separates two,
/// so there is always at least one entry.
pub open spec fn semi_split(s: Seq<u8>) -> Seq<Seq<u8>>
    decreases s.len(),
{
    let j = first_semi(s);
    if j < 0 || j >= s.len() {
        seq![s]
    } else {
        seq![s.subrange(0, j)] + semi_split(s.subrange(j + 1, s.len() as int))
    }
}

/// What a sequence of gradient entries yields: the colors of all of them
/// in order, or the first rejection.
pub open spec fn colors_of(ps: Seq<Seq<u8>>) -> Result<Seq<Rgb>, ParseError>
    decreases ps.len(),
{
    if ps.len() == 0 {
        Ok(Seq::empty())
    } else {
        match color_of(ps[0]) {
            Err(e) => Err(e),
            Ok(c) => match colors_of(ps.drop_first()) {
                Err(e) => Err(e),
                Ok(rest) => Ok(seq![c] + rest),
            },
        }
    }
}

/// What parsing a whole gradient string yields: the colors of its
/// semicolon-separated entries, or the first rejection among them.
pub open spec fn gradient_of(s: Seq<u8>) -> Result<Seq<Rgb>, ParseError> {
    colors_of(semi_split(s))
}

/// Parses a gradient: semicolon-separated `#RRGGBB` entries. Returns
/// exactly `gradient_of` of the input's bytes; an accepted gradient always
/// holds at least one color, so the mapper's non-empty precondition is met
/// by construction.
pub fn parse_gradient(input: &str) -> (r: Result<Vec<Rgb>, ParseError>)
    ensures
        match r {
            Ok(v) => gradient_of(input.spec_bytes()) == Ok::<Seq<Rgb>, ParseError>(v@)
                && v@.len() >= 1,
            Err(e) => gradient_of(input.spec_bytes()) == Err::<Seq<Rgb>, ParseError>(e),
        },
{
    let ghost s = input.spec_bytes();
    let bytes = input.as_bytes();
    let n = bytes.len();
    let mut out: Vec<Rgb> = Vec::new();
    let mut start: usize = 0;
    proof {
        assert(s.subrange(0, n as int) =~= s);
    }
    loop
        invariant
            0 <= start <= n,
            n == bytes@.len(),
            bytes@ == s,
            s == input.spec_bytes(),
            match colors_of(semi_split(s.subrange(start as int, n as int))) {
                Ok(rest) => gradient_of(s) == Ok::<Seq<Rgb>, ParseError>(out@ + rest),
                Err(e) => gradient_of(s) == Err::<Seq<Rgb>, ParseError>(e),
            },
        decreases n - start,
    {
        let ghost suffix = s.subrange(start as int, n as int);
        let ghost pieces = semi_split(suffix);
        let mut end: usize = start;
        while end < n && bytes[end] != 59
            invariant
                start <= end <= n,
                n == bytes@.len(),
                bytes@ == s,
                forall|k: int| start <= k < end ==> s[k] != 59,
            decreases n - end,
        {
            end = end + 1;
        }
        let ghost piece = s.subrange(start as int, end as int);
        proof {
            lemma_first_semi(suffix);
            assert forall|k: int| 0 <= k < end - start implies suffix[k] != 59 by {
                assert(suffix[k] == s[k + start]);
            }
            if end < n {
                assert(suffix[end - start] == s[end as int]);
            }
            assert(first_semi(suffix) == end - start);
            if end == n {
                assert(piece =~= suffix);
                assert(pieces == seq![suffix]);
            } else {
                assert(suffix.subrange(0, end - start) =~= piece);
                assert(suffix.subrange(end - start + 1, suffix.len() as int) =~= s.subrange(
                    end + 1,
                    n as int,
                ));
                assert(pieces == seq![piece] + semi_split(s.subrange(end + 1, n as int)));
            }
            assert(pieces.len() >= 1);
            assert(pieces[0] == piece);
        }
        let ghost out0 = out@;
        let c = match parse_color(bytes, start, end) {
            Ok(c) => c,
            Err(e) => {
                proof {
                    assert(color_of(pieces[0]) == Err::<Rgb, ParseError>(e));
                    assert(colors_of(pieces) == Err::<Seq<Rgb>, ParseError>(e));
                }
                return Err(e);
            },
        };
        out.push(c);
        if end == n {
            proof {
                assert(color_of(pieces[0]) == Ok::<Rgb, ParseError>(c));
                assert(pieces.drop_first() =~= Seq::<Seq<u8>>::empty());
                assert(colors_of(Seq::<Seq<u8>>::empty()) == Ok::<Seq<Rgb>, ParseError>(
                    Seq::<Rgb>::empty(),
                ));
                assert(colors_of(pieces) == Ok::<Seq<Rgb>, ParseError>(
                    seq![c] + Seq::<Rgb>::empty(),
                ));
                assert(out0 + (seq![c] + Seq::<Rgb>::empty()) =~= out@);
            }
            return Ok(out);
        }
        proof {
            let tail = s.subrange(end + 1, n as int);
            assert(pieces.drop_first() =~= semi_split(tail));
            match colors_of(semi_split(tail)) {
                Ok(rest) => {
                    assert(colors_of(pieces) == Ok::<Seq<Rgb>, ParseError>(seq![c] + rest));
                    assert(out0 + (seq![c] + rest) =~= out@ + rest);
                },
                Err(_) => {},
            }
        }
        start = end + 1;
    }
}

} // verus!
