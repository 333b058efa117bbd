//! The hex-float codec and the hex spelling of folder names.
//!
//! A float field stores the raw IEEE-754 bit pattern of a single-precision
//! number as `&` and eight hex digits. This library carries such a number
//! as its bit pattern, a `u32`: the pattern is what is stored and what
//! round-trips, and a caller turns it into a float where it needs one.

use vstd::prelude::*;
use crate::text::{
    ascii, ascii_bytes, bytes_eq, is_digit, is_hex_digit, lemma_run_end, opt_view, run_end,
    run_start, scan_back, scan_run, ByteClass, AMPERSAND, COMMA, DOT, MINUS, PLUS,
};
use vstd::slice::slice_subrange;
use vstd::utf8::valid_utf8;

verus! {

/// Why a token is no number.
#[derive(Clone, Copy, PartialEq, Eq, Structural, Debug)]
pub enum CodecError {
    /// The token is hex-prefixed, but what follows the prefix is not one to
    /// eight significant hex digits.
    InvalidHex,
    /// The token is neither hex-prefixed nor a decimal number.
    InvalidNumber,
}

/// A number as a document spells it.
#[derive(PartialEq, Eq, Debug)]
pub enum FloatRepr {
    /// The bit pattern of a single-precision float, from a hex token.
    Bits(u32),
    /// The text of a decimal number, with `.` as the decimal point.
    Decimal(Vec<u8>),
}

/// A number as a document spells it, as a mathematical value.
pub enum FloatReprView {
    Bits(u32),
    Decimal(Seq<u8>),
}

impl View for FloatRepr {
    type V = FloatReprView;

    open spec fn view(&self) -> FloatReprView {
        match self {
            FloatRepr::Bits(b) => FloatReprView::Bits(*b),
            FloatRepr::Decimal(t) => FloatReprView::Decimal(t@),
        }
    }
}

/// The value of one hex digit.
pub open spec fn hex_digit_value(b: u8) -> nat {
    if is_digit(b) {
        (b - 48) as nat
    } else if 97 <= b && b <= 102 {
        (b - 87) as nat
    } else {
        (b - 55) as nat
    }
}

/// The value of a string of hex digits, most significant first.
pub open spec fn hex_value(s: Seq<u8>) -> nat
    decreases s.len(),
{
    if s.len() == 0 {
        0
    } else {
        16 * hex_value(s.drop_last()) + hex_digit_value(s.last())
    }
}

/// Whether `s` holds hex digits only.
pub open spec fn all_hex(s: Seq<u8>) -> bool {
    forall|i: int| 0 <= i < s.len() ==> is_hex_digit(#[trigger] s[i])
}

/// The 32-bit number that `s` spells in base 16: an optional `+`, then at
/// least one hex digit, of a value that fits.
pub open spec fn parse_hex(s: Seq<u8>) -> Option<u32> {
    let d = if s.len() > 0 && s[0] == PLUS {
        s.subrange(1, s.len() as int)
    } else {
        s
    };
    if d.len() > 0 && all_hex(d) && hex_value(d) <= u32::MAX {
        Some(hex_value(d) as u32)
    } else {
        None
    }
}

/// `s` without the whitespace at its two ends.
pub open spec fn trimmed(s: Seq<u8>) -> Seq<u8> {
    let a = run_end(s, 0, ByteClass::Space);
    if a >= s.len() {
        Seq::<u8>::empty()
    } else {
        s.subrange(a, run_start(s, s.len() as int, ByteClass::Space))
    }
}

/// Where the repetitions of `0x` that start at `i` end.
pub open spec fn skip_zero_x(s: Seq<u8>, i: int) -> int
    decreases s.len() - i,
{
    if 0 <= i && i + 2 <= s.len() && s[i] == 48 && s[i + 1] == 120 {
        skip_zero_x(s, i + 2)
    } else {
        i
    }
}

/// What is left of a trimmed token after its `&` and `0x` prefixes.
pub open spec fn hex_payload(t: Seq<u8>) -> Seq<u8> {
    let a = run_end(t, 0, ByteClass::Is(AMPERSAND));
    t.subrange(skip_zero_x(t, a), t.len() as int)
}

/// The bit pattern that a hex token spells.
pub open spec fn hex_to_bits(token: Seq<u8>) -> Result<u32, CodecError> {
    match parse_hex(hex_payload(trimmed(token))) {
        Some(v) => Ok(v),
        None => Err(CodecError::InvalidHex),
    }
}

/// The lowercase digit of a value below 16.
pub open spec fn lower_hex(d: nat) -> u8 {
    if d < 10 {
        (48 + d) as u8
    } else {
        (87 + d) as u8
    }
}

/// The uppercase digit of a value below 16.
pub open spec fn upper_hex(d: nat) -> u8 {
    if d < 10 {
        (48 + d) as u8
    } else {
        (55 + d) as u8
    }
}

/// The last `n` lowercase hex digits of `v`, most significant first.
pub open spec fn hex_digits(v: nat, n: nat) -> Seq<u8>
    decreases n,
{
    if n == 0 {
        Seq::<u8>::empty()
    } else {
        hex_digits(v / 16, (n - 1) as nat).push(lower_hex(v % 16))
    }
}

/// The token of a bit pattern: `&` and eight lowercase hex digits.
pub open spec fn bits_to_hex(bits: u32) -> Seq<u8> {
    seq![AMPERSAND] + hex_digits(bits as nat, 8)
}

/// 16 to the power of `n`.
pub open spec fn pow16(n: nat) -> nat
    decreases n,
{
    if n == 0 {
        1
    } else {
        16 * pow16((n - 1) as nat)
    }
}

/// The digits of a number are as many as asked for, and are hex digits:
/// no whitespace, no `x`, no `&`, no `+`.
pub proof fn lemma_hex_digits(v: nat, n: nat)
    ensures
        hex_digits(v, n).len() == n,
        all_hex(hex_digits(v, n)),
        forall|i: int| 0 <= i < n ==> !ByteClass::Space.has(#[trigger] hex_digits(v, n)[i]),
        forall|i: int| 0 <= i < n ==> #[trigger] hex_digits(v, n)[i] != 120,
        forall|i: int| 0 <= i < n ==> #[trigger] hex_digits(v, n)[i] != AMPERSAND,
        forall|i: int| 0 <= i < n ==> #[trigger] hex_digits(v, n)[i] != PLUS,
    decreases n,
{
    if n > 0 {
        lemma_hex_digits(v / 16, (n - 1) as nat);
    }
}

/// Reading back the `n` digits of a number below `16^n` gives the number.
pub proof fn lemma_hex_value_of_digits(v: nat, n: nat)
    requires
        v < pow16(n),
    ensures
        hex_value(hex_digits(v, n)) == v,
    decreases n,
{
    if n > 0 {
        let s = hex_digits(v, n);
        lemma_hex_value_of_digits(v / 16, (n - 1) as nat);
        assert(s.drop_last() =~= hex_digits(v / 16, (n - 1) as nat));
    }
}

/// The value of a digit string grows with every digit appended.
pub proof fn lemma_hex_value_prefix(s: Seq<u8>, k: int)
    requires
        0 <= k <= s.len(),
    ensures
        hex_value(s.subrange(0, k)) <= hex_value(s),
    decreases s.len() - k,
{
    if k < s.len() {
        lemma_hex_value_prefix(s, k + 1);
        let t = s.subrange(0, k + 1);
        assert(t.drop_last() =~= s.subrange(0, k));
    } else {
        assert(s.subrange(0, k) =~= s);
    }
}

/// Hex-float round trip: the token written for a bit pattern reads back as
/// that very pattern. This holds of every pattern, so of every finite
/// float's.
pub proof fn lemma_hex_round_trip(bits: u32)
    ensures
        hex_to_bits(bits_to_hex(bits)) == Ok::<u32, CodecError>(bits),
{
    let d = hex_digits(bits as nat, 8);
    let t = bits_to_hex(bits);
    lemma_hex_digits(bits as nat, 8);
    assert forall|i: int| 1 <= i < 9 implies t[i] == d[i - 1] by {}
    // Nothing is trimmed.
    assert(trimmed(t) =~= t);
    // One ampersand is dropped, and no `0x` follows it.
    assert(run_end(t, 1, ByteClass::Is(AMPERSAND)) == 1);
    assert(hex_payload(t) =~= d);
    // The eight digits spell the pattern.
    reveal_with_fuel(pow16, 9);
    lemma_hex_value_of_digits(bits as nat, 8);
}

/// Whether `b` is a hex digit as a token is written with: `0`-`9` or
/// `a`-`f`.
pub open spec fn is_lower_hex(b: u8) -> bool {
    is_digit(b) || (97 <= b && b <= 102)
}

/// Whether `t` is a token as it is written: `&` and eight lowercase hex
/// digits.
pub open spec fn is_written_token(t: Seq<u8>) -> bool {
    t.len() == 9 && t[0] == AMPERSAND && forall|i: int| 1 <= i < 9 ==> is_lower_hex(#[trigger] t[i])
}

/// The digits of the value of lowercase digits are those digits, and the
/// value is below `16` to the power of their number.
pub proof fn lemma_digits_of_value(d: Seq<u8>)
    requires
        forall|i: int| 0 <= i < d.len() ==> is_lower_hex(#[trigger] d[i]),
    ensures
        hex_digits(hex_value(d), d.len()) == d,
        hex_value(d) < pow16(d.len()),
    decreases d.len(),
{
    if d.len() > 0 {
        let p = d.drop_last();
        assert forall|i: int| 0 <= i < p.len() implies is_lower_hex(#[trigger] p[i]) by {}
        lemma_digits_of_value(p);
        let v = hex_value(d);
        assert(hex_digits(v, d.len()) == hex_digits(v / 16, (d.len() - 1) as nat).push(
            lower_hex(v % 16),
        ));
    }
}

/// Hex-float round trip, the other way: a token as it is written decodes
/// to a bit pattern that is written as that very token.
pub proof fn lemma_token_round_trip(t: Seq<u8>)
    requires
        is_written_token(t),
    ensures
        hex_to_bits(t) is Ok,
        bits_to_hex(hex_to_bits(t).unwrap()) == t,
{
    let d = t.subrange(1, 9);
    assert forall|i: int| 0 <= i < d.len() implies is_lower_hex(#[trigger] d[i]) by {}
    assert(all_hex(d)) by {
        assert forall|i: int| 0 <= i < d.len() implies is_hex_digit(#[trigger] d[i]) by {}
    }
    // Nothing is trimmed.
    assert(trimmed(t) =~= t);
    // One ampersand is dropped, and no `0x` follows it.
    assert(run_end(t, 1, ByteClass::Is(AMPERSAND)) == 1);
    // The digits spell a pattern that is written with the same digits.
    lemma_digits_of_value(d);
    reveal_with_fuel(pow16, 9);
}

/// Reads the number that `s` spells in base 16.
pub fn parse_hex_u32(s: &[u8]) -> (r: Option<u32>)
    ensures
        r == parse_hex(s@),
{
    let n = s.len();
    let start: usize = if n > 0 && s[0] == PLUS {
        1
    } else {
        0
    };
    let ghost d = if s@.len() > 0 && s@[0] == PLUS {
        s@.subrange(1, s@.len() as int)
    } else {
        s@
    };
    if start >= n {
        return None;
    }
    let mut acc: u64 = 0;
    let mut i: usize = start;
    while i < n
        invariant
            n == s@.len(),
            start <= i <= n,
            d == (if s@.len() > 0 && s@[0] == PLUS {
                s@.subrange(1, s@.len() as int)
            } else {
                s@
            }),
            d =~= s@.subrange(start as int, n as int),
            all_hex(d.subrange(0, i - start)),
            acc == hex_value(d.subrange(0, i - start)),
            acc <= u32::MAX,
        decreases n - i,
    {
        let b = s[i];
        let ghost pre = d.subrange(0, i - start);
        let ghost cur = d.subrange(0, i - start + 1);
        proof {
            assert(cur.drop_last() =~= pre);
            assert(cur.last() == b);
        }
        let v: u64 = if 48 <= b && b <= 57 {
            (b - 48) as u64
        } else if 97 <= b && b <= 102 {
            (b - 87) as u64
        } else if 65 <= b && b <= 70 {
            (b - 55) as u64
        } else {
            return None;
        };
        let next: u64 = acc * 16 + v;
        if next > 0xffff_ffff {
            proof {
                lemma_hex_value_prefix(d, i - start + 1);
            }
            return None;
        }
        assert(all_hex(cur)) by {
            assert forall|k: int| 0 <= k < cur.len() implies is_hex_digit(#[trigger] cur[k]) by {}
        }
        acc = next;
        i = i + 1;
    }
    assert(d.subrange(0, n - start) =~= d);
    Some(acc as u32)
}

/// Borrows `s` without the whitespace at its two ends.
pub fn trim(s: &[u8]) -> (r: &[u8])
    ensures
        r@ == trimmed(s@),
{
    let a = scan_run(s, 0, ByteClass::Space);
    if a >= s.len() {
        let r = slice_subrange(s, 0, 0);
        r
    } else {
        let b = scan_back(s, s.len(), ByteClass::Space);
        proof {
            lemma_run_end(s@, 0, ByteClass::Space);
            crate::text::lemma_run_start(s@, s@.len() as int, ByteClass::Space);
        }
        slice_subrange(s, a, b)
    }
}

/// Decodes a hex token into the bit pattern of the float it stands for.
///
/// Whitespace around the token is dropped, then any `&` and any `0x` in
/// front of it. What is left must be one or more hex digits, after an
/// optional `+`, of a value that fits 32 bits.
pub fn hex_to_float(token: &[u8]) -> (r: Result<u32, CodecError>)
    ensures
        r == hex_to_bits(token@),
{
    let t = trim(token);
    let n = t.len();
    let a = scan_run(t, 0, ByteClass::Is(AMPERSAND));
    let mut i: usize = a;
    while i < n && n - i >= 2 && t[i] == 48 && t[i + 1] == 120
        invariant
            n == t@.len(),
            a <= i <= n,
            skip_zero_x(t@, a as int) == skip_zero_x(t@, i as int),
        decreases n - i,
    {
        i = i + 2;
    }
    match parse_hex_u32(slice_subrange(t, i, n)) {
        Some(v) => Ok(v),
        None => Err(CodecError::InvalidHex),
    }
}

fn push_hex_digits(r: &mut Vec<u8>, v: u32, n: u8)
    ensures
        final(r)@ == old(r)@ + hex_digits(v as nat, n as nat),
    decreases n,
{
    if n > 0 {
        push_hex_digits(r, v / 16, n - 1);
        let d: u8 = (v % 16) as u8;
        let c: u8 = if d < 10 {
            48 + d
        } else {
            87 + d
        };
        r.push(c);
    }
}

/// Encodes the bit pattern of a float as `&` and eight lowercase hex
/// digits, padded with zeros.
pub fn float_to_hex(bits: u32) -> (r: Vec<u8>)
    ensures
        r@ == bits_to_hex(bits),
{
    let mut r: Vec<u8> = Vec::new();
    r.push(AMPERSAND);
    push_hex_digits(&mut r, bits, 8);
    r
}

/// `s` with every comma replaced by a dot.
pub open spec fn with_dots(s: Seq<u8>) -> Seq<u8> {
    Seq::new(s.len(), |i: int| if s[i] == COMMA { DOT } else { s[i] })
}

/// `s` with every capital letter replaced by its small one.
pub open spec fn lowered(s: Seq<u8>) -> Seq<u8> {
    Seq::new(s.len(), |i: int| if 65 <= s[i] && s[i] <= 90 { (s[i] + 32) as u8 } else { s[i] })
}

/// Replaces every capital letter of `s` by its small one.
pub fn to_lower(s: &[u8]) -> (r: Vec<u8>)
    ensures
        r@ == lowered(s@),
{
    let mut r: Vec<u8> = Vec::new();
    let mut i: usize = 0;
    while i < s.len()
        invariant
            i <= s@.len(),
            r@ == lowered(s@.subrange(0, i as int)),
        decreases s@.len() - i,
    {
        let b = s[i];
        r.push(if 65 <= b && b <= 90 { b + 32 } else { b });
        i = i + 1;
    }
    r
}

/// Whether `t` ends, from `b` on, in an exponent: `e` or `E`, an optional
/// sign, and at least one digit.
pub open spec fn is_exponent(t: Seq<u8>, b: int) -> bool {
    0 <= b < t.len() && (t[b] == 101 || t[b] == 69) && {
        let c = if b + 1 < t.len() && (t[b + 1] == PLUS || t[b + 1] == MINUS) {
            b + 2
        } else {
            b + 1
        };
        let d = run_end(t, c, ByteClass::Digit);
        c < d && d == t.len()
    }
}

/// Whether `t` is an unsigned decimal number: digits with at most one dot
/// among them, at least one digit before or after it, and an optional
/// exponent.
pub open spec fn is_number(t: Seq<u8>) -> bool {
    let a = run_end(t, 0, ByteClass::Digit);
    let dotted = a < t.len() && t[a] == DOT;
    let b = if dotted {
        run_end(t, a + 1, ByteClass::Digit)
    } else {
        a
    };
    let digits = if dotted {
        b - 1
    } else {
        a
    };
    digits > 0 && (b == t.len() || is_exponent(t, b))
}

/// Whether `s` is a decimal float literal as the standard library reads
/// one: an optional sign, then `inf`, `infinity` or `nan` in any case, or a
/// number.
pub open spec fn is_float_literal(s: Seq<u8>) -> bool {
    let i = if s.len() > 0 && (s[0] == PLUS || s[0] == MINUS) {
        1int
    } else {
        0int
    };
    let body = s.subrange(i, s.len() as int);
    let low = lowered(body);
    low == ascii_bytes("inf"@) || low == ascii_bytes("infinity"@) || low == ascii_bytes("nan"@)
        || is_number(body)
}

/// Whether a trimmed token is hex-prefixed.
pub open spec fn is_hex_token(t: Seq<u8>) -> bool {
    (t.len() >= 1 && t[0] == AMPERSAND) || (t.len() >= 2 && t[0] == 48 && t[1] == 120)
}

/// What a value token stands for: a bit pattern if it is hex-prefixed,
/// else a decimal number, in which a comma may stand for the dot.
pub open spec fn value_auto(token: Seq<u8>) -> Result<FloatReprView, CodecError> {
    let t = trimmed(token);
    if is_hex_token(t) {
        match hex_to_bits(t) {
            Ok(v) => Ok(FloatReprView::Bits(v)),
            Err(e) => Err(e),
        }
    } else if is_float_literal(with_dots(t)) {
        Ok(FloatReprView::Decimal(with_dots(t)))
    } else {
        Err(CodecError::InvalidNumber)
    }
}

/// A decoded value, as mathematical values.
pub open spec fn repr_view(r: Result<FloatRepr, CodecError>) -> Result<FloatReprView, CodecError> {
    match r {
        Ok(v) => Ok(v@),
        Err(e) => Err(e),
    }
}

fn check_exponent(t: &[u8], b: usize) -> (r: bool)
    ensures
        r == is_exponent(t@, b as int),
{
    let n = t.len();
    if !(b < n && (t[b] == 101 || t[b] == 69)) {
        return false;
    }
    let c: usize = if b + 1 < n && (t[b + 1] == PLUS || t[b + 1] == MINUS) {
        b + 2
    } else {
        b + 1
    };
    let d = scan_run(t, c, ByteClass::Digit);
    c < d && d == n
}

fn check_number(t: &[u8]) -> (r: bool)
    ensures
        r == is_number(t@),
{
    let n = t.len();
    let a = scan_run(t, 0, ByteClass::Digit);
    if a < n && t[a] == DOT {
        let b = scan_run(t, a + 1, ByteClass::Digit);
        b - 1 > 0 && (b == n || check_exponent(t, b))
    } else {
        a > 0 && (a == n || check_exponent(t, a))
    }
}

/// Tells whether `s` is a decimal float literal.
pub fn check_float_literal(s: &[u8]) -> (r: bool)
    ensures
        r == is_float_literal(s@),
{
    let n = s.len();
    let i: usize = if n > 0 && (s[0] == PLUS || s[0] == MINUS) {
        1
    } else {
        0
    };
    let body = slice_subrange(s, i, n);
    let low = to_lower(body);
    proof {
        reveal_strlit("inf");
        reveal_strlit("infinity");
        reveal_strlit("nan");
    }
    bytes_eq(low.as_slice(), ascii("inf")) || bytes_eq(low.as_slice(), ascii("infinity"))
        || bytes_eq(low.as_slice(), ascii("nan")) || check_number(body)
}

/// Decodes a value token, whichever way it is written.
///
/// A token that starts, after trimming, with `&` or `0x` is a hex token
/// and is decoded as such. Any other token must be a decimal float
/// literal; a comma in it is read as the decimal point.
pub fn parse_value_auto(token: &[u8]) -> (r: Result<FloatRepr, CodecError>)
    ensures
        repr_view(r) == value_auto(token@),
{
    let t = trim(token);
    let n = t.len();
    if (n >= 1 && t[0] == AMPERSAND) || (n >= 2 && t[0] == 48 && t[1] == 120) {
        return match hex_to_float(t) {
            Ok(v) => Ok(FloatRepr::Bits(v)),
            Err(e) => Err(e),
        };
    }
    let mut u: Vec<u8> = Vec::new();
    let mut k: usize = 0;
    while k < n
        invariant
            n == t@.len(),
            k <= n,
            u@ == with_dots(t@.subrange(0, k as int)),
        decreases n - k,
    {
        let b = t[k];
        u.push(if b == COMMA { DOT } else { b });
        k = k + 1;
    }
    assert(t@.subrange(0, k as int) =~= t@);
    if check_float_literal(u.as_slice()) {
        Ok(FloatRepr::Decimal(u))
    } else {
        Err(CodecError::InvalidNumber)
    }
}

/// The hex digits of `s`, in their order.
pub open spec fn hex_only(s: Seq<u8>) -> Seq<u8>
    decreases s.len(),
{
    if s.len() == 0 {
        Seq::<u8>::empty()
    } else if is_hex_digit(s.last()) {
        hex_only(s.drop_last()).push(s.last())
    } else {
        hex_only(s.drop_last())
    }
}

/// The bytes that pairs of hex digits spell.
pub open spec fn hex_pairs(d: Seq<u8>) -> Seq<u8> {
    Seq::new(
        d.len() / 2,
        |i: int| (16 * hex_digit_value(d[2 * i]) + hex_digit_value(d[2 * i + 1])) as u8,
    )
}

/// The name that a hex-spelled folder name stands for: the bytes spelled
/// by its hex digits, two by two, where they are an even number, at least
/// two, and spell well-formed UTF-8.
pub open spec fn folder_name(hex: Seq<u8>) -> Option<Seq<u8>> {
    let d = hex_only(hex);
    if d.len() == 0 || d.len() % 2 != 0 {
        None
    } else if valid_utf8(hex_pairs(d)) {
        Some(hex_pairs(d))
    } else {
        None
    }
}

/// The uppercase hex spelling of `text`, two digits per byte.
pub open spec fn hex_text(text: Seq<u8>) -> Seq<u8> {
    Seq::new(
        2 * text.len(),
        |k: int|
            if k % 2 == 0 {
                upper_hex((text[k / 2] / 16) as nat)
            } else {
                upper_hex((text[k / 2] % 16) as nat)
            },
    )
}

/// `core::str::from_utf8`, asked only whether it accepts: the answer is
/// yes exactly for well-formed UTF-8.
#[verifier::external_body]
fn is_utf8(bytes: &[u8]) -> (r: bool)
    ensures
        r == valid_utf8(bytes@),
{
    core::str::from_utf8(bytes).is_ok()
}

fn nibble(b: u8) -> (v: u8)
    requires
        is_hex_digit(b),
    ensures
        v == hex_digit_value(b),
        v < 16,
{
    if 48 <= b && b <= 57 {
        b - 48
    } else if 97 <= b && b <= 102 {
        b - 87
    } else {
        b - 55
    }
}

/// A string of hex digits is its own selection of hex digits.
pub proof fn lemma_hex_only_all(s: Seq<u8>)
    requires
        all_hex(s),
    ensures
        hex_only(s) == s,
    decreases s.len(),
{
    if s.len() > 0 {
        assert forall|i: int| 0 <= i < s.drop_last().len() implies is_hex_digit(
            #[trigger] s.drop_last()[i],
        ) by {}
        lemma_hex_only_all(s.drop_last());
    }
}

/// The hex digits of a text are hex digits, and no more than the text
/// has bytes.
pub proof fn lemma_hex_only_hex(s: Seq<u8>)
    ensures
        all_hex(hex_only(s)),
        hex_only(s).len() <= s.len(),
    decreases s.len(),
{
    if s.len() > 0 {
        lemma_hex_only_hex(s.drop_last());
    }
}

/// Decodes a folder name spelled in hex into the name it stands for.
///
/// Bytes that are no hex digit are passed over. `None` is returned when no
/// digit is left, when their number is odd, or when the bytes they spell
/// are not well-formed UTF-8.
pub fn decode_hex_folder_name(hex: &[u8]) -> (r: Option<Vec<u8>>)
    ensures
        opt_view(r) == folder_name(hex@),
{
    let mut d: Vec<u8> = Vec::new();
    let mut i: usize = 0;
    while i < hex.len()
        invariant
            i <= hex@.len(),
            d@ == hex_only(hex@.subrange(0, i as int)),
        decreases hex@.len() - i,
    {
        let b = hex[i];
        let ghost pre = hex@.subrange(0, i as int);
        let ghost cur = hex@.subrange(0, i + 1);
        assert(cur.drop_last() =~= pre);
        if ByteClass::HexDigit.contains(b) {
            d.push(b);
        }
        i = i + 1;
    }
    assert(hex@.subrange(0, i as int) =~= hex@);
    proof {
        lemma_hex_only_hex(hex@);
    }
    let n = d.len();
    if n == 0 || n % 2 != 0 {
        return None;
    }
    let mut out: Vec<u8> = Vec::new();
    let mut k: usize = 0;
    while k < n / 2
        invariant
            n == d@.len(),
            n % 2 == 0,
            k <= n / 2,
            all_hex(d@),
            out@ == hex_pairs(d@).subrange(0, k as int),
        decreases n / 2 - k,
    {
        let hi = nibble(d[2 * k]);
        let lo = nibble(d[2 * k + 1]);
        out.push(hi * 16 + lo);
        k = k + 1;
    }
    assert(hex_pairs(d@).subrange(0, k as int) =~= hex_pairs(d@));
    if is_utf8(out.as_slice()) {
        Some(out)
    } else {
        None
    }
}

/// Spells `text` in uppercase hex, two digits per byte.
pub fn text_to_hex(text: &[u8]) -> (r: Vec<u8>)
    ensures
        r@ == hex_text(text@),
{
    let mut r: Vec<u8> = Vec::new();
    let mut i: usize = 0;
    while i < text.len()
        invariant
            i <= text@.len(),
            r@ == hex_text(text@.subrange(0, i as int)),
        decreases text@.len() - i,
    {
        let b = text[i];
        let hi: u8 = b / 16;
        let lo: u8 = b % 16;
        r.push(if hi < 10 { 48 + hi } else { 55 + hi });
        r.push(if lo < 10 { 48 + lo } else { 55 + lo });
        i = i + 1;
    }
    r
}

/// A name that is spelled in hex and decoded again is the name itself,
/// provided it is not empty and is well-formed UTF-8.
pub proof fn lemma_folder_name_round_trip(text: Seq<u8>)
    requires
        text.len() > 0,
        valid_utf8(text),
    ensures
        folder_name(hex_text(text)) == Some(text),
{
    let h = hex_text(text);
    lemma_hex_only_all(h);
    assert forall|i: int| 0 <= i < text.len() implies hex_pairs(h)[i] == text[i] by {}
    assert(hex_pairs(h) =~= text);
}

} // verus!
