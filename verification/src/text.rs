//! Byte-level scanning primitives shared by every reader and editor.
//!
//! A document is a sequence of bytes. The structural characters of the
//! notation are ASCII, so a byte scan never mistakes part of a multi-byte
//! character for one of them.

use vstd::prelude::*;
use vstd::string::*;

verus! {

// The bytes that the notation is written with.
pub const TAB: u8 = 9;
pub const LINE_FEED: u8 = 10;
pub const CARRIAGE_RETURN: u8 = 13;
pub const BLANK: u8 = 32;
pub const QUOTE: u8 = 34;
pub const AMPERSAND: u8 = 38;
pub const PLUS: u8 = 43;
pub const COMMA: u8 = 44;
pub const MINUS: u8 = 45;
pub const DOT: u8 = 46;
pub const SLASH: u8 = 47;
pub const COLON: u8 = 58;
pub const BRACKET_OPEN: u8 = 91;
pub const BRACKET_CLOSE: u8 = 93;
pub const UNDERSCORE: u8 = 95;
pub const BRACE_OPEN: u8 = 123;
pub const PIPE: u8 = 124;
pub const BRACE_CLOSE: u8 = 125;

/// The bytes of an ASCII string, one per character.
pub open spec fn ascii_bytes(s: Seq<char>) -> Seq<u8> {
    Seq::new(s.len(), |i: int| s[i] as u8)
}

/// The bytes of a key that is written as a string.
pub open spec fn k(s: Seq<char>) -> Seq<u8> {
    ascii_bytes(s)
}

/// Bytes that may be missing, as a mathematical value.
pub open spec fn opt_view(r: Option<Vec<u8>>) -> Option<Seq<u8>> {
    match r {
        Some(v) => Some(v@),
        None => None,
    }
}

/// A list of byte strings, as a mathematical value.
pub open spec fn list_view(v: Seq<Vec<u8>>) -> Seq<Seq<u8>> {
    Seq::new(v.len(), |i: int| v[i]@)
}

/// Borrows the bytes of an ASCII string.
pub fn ascii(s: &str) -> (r: &[u8])
    requires
        is_ascii(s),
    ensures
        r@ == ascii_bytes(s@),
{
    broadcast use is_ascii_spec_bytes;

    let b = s.as_bytes();
    b
}

/// The bytes of a key that is written as a string.
pub fn key(s: &str) -> (r: Vec<u8>)
    ensures
        r@ == ascii_bytes(s@),
{
    let n = s.unicode_len();
    let mut r: Vec<u8> = Vec::new();
    let mut i: usize = 0;
    while i < n
        invariant
            n == s@.len(),
            i <= n,
            r@ == ascii_bytes(s@.subrange(0, i as int)),
        decreases n - i,
    {
        let c = s.get_char(i);
        r.push(c as u8);
        i = i + 1;
    }
    r
}

/// A copy of `v`.
pub fn clone_bytes(v: &Vec<u8>) -> (r: Vec<u8>)
    ensures
        r@ == v@,
{
    let r = copy_range(v.as_slice(), 0, v.len());
    r
}

/// Whitespace: blank, tab, line feed, vertical tab, form feed, carriage return.
pub open spec fn is_space(b: u8) -> bool {
    b == BLANK || (TAB <= b && b <= CARRIAGE_RETURN)
}

/// `0`-`9`.
pub open spec fn is_digit(b: u8) -> bool {
    48 <= b && b <= 57
}

/// `0`-`9`, `a`-`f`, `A`-`F`.
pub open spec fn is_hex_digit(b: u8) -> bool {
    is_digit(b) || (65 <= b && b <= 70) || (97 <= b && b <= 102)
}

/// `a`-`z`, `A`-`Z`.
pub open spec fn is_alpha(b: u8) -> bool {
    (65 <= b && b <= 90) || (97 <= b && b <= 122)
}

/// The characters a unit id is made of: letters, digits, `.` and `_`.
pub open spec fn is_ident(b: u8) -> bool {
    is_digit(b) || is_alpha(b) || b == DOT || b == UNDERSCORE
}

/// A line feed or a carriage return.
pub open spec fn is_line_break(b: u8) -> bool {
    b == LINE_FEED || b == CARRIAGE_RETURN
}

/// Whether `b` is a letter, a digit or an underscore: a byte that keys
/// and class names are made of.
pub open spec fn is_word_byte(b: u8) -> bool {
    is_digit(b) || is_alpha(b) || b == UNDERSCORE
}

/// Whether a word can start at `q`: no letter, digit or underscore stands
/// directly before it. A key or a class name is matched only where it
/// starts a word, so that it is never found inside a longer name.
pub open spec fn starts_word(s: Seq<u8>, q: int) -> bool {
    !(0 < q <= s.len() && is_word_byte(s[q - 1]))
}

/// Whether a word can end at `p`: no letter, digit or underscore stands
/// there.
pub open spec fn ends_word(s: Seq<u8>, p: int) -> bool {
    !(0 <= p < s.len() && is_word_byte(s[p]))
}

/// Tells whether `b` is a letter, a digit or an underscore.
pub fn word_byte(b: u8) -> (r: bool)
    ensures
        r == is_word_byte(b),
{
    (48 <= b && b <= 57) || (65 <= b && b <= 90) || (97 <= b && b <= 122) || b == 95
}

/// Tells whether a word can start at `q`.
pub fn word_starts_at(s: &[u8], q: usize) -> (r: bool)
    requires
        q <= s@.len(),
    ensures
        r == starts_word(s@, q as int),
{
    !(q > 0 && word_byte(s[q - 1]))
}

/// Tells whether a word can end at `p`.
pub fn word_ends_at(s: &[u8], p: usize) -> (r: bool)
    ensures
        r == ends_word(s@, p as int),
{
    !(p < s.len() && word_byte(s[p]))
}

/// A set of bytes that a scan may run over.
#[derive(Clone, Copy, PartialEq, Eq, Structural, Debug)]
pub enum ByteClass {
    /// Whitespace.
    Space,
    /// Whitespace other than the line feed.
    Indent,
    /// Anything but whitespace.
    Word,
    /// `0`-`9`.
    Digit,
    /// `0`-`9`, `a`-`f`, `A`-`F`.
    HexDigit,
    /// Letters, digits, `.` and `_`.
    Ident,
    /// Letters, digits, `.`, `_`, `/` and `-`.
    Name,
    /// The characters of a plain decimal number: digits, `.` and `-`.
    Decimal,
    /// Anything but a line break or a closing brace: what an unquoted value
    /// is written with.
    Plain,
    /// Anything but a line break or a double quote: what stands between
    /// the quotes of a quoted value.
    Quotable,
    /// Anything but a blank, a line break or a closing brace.
    Token,
    /// The byte given, and no other.
    Is(u8),
    /// Any byte but the one given.
    Not(u8),
}

impl ByteClass {
    /// Whether `b` belongs to the class.
    pub open spec fn has(self, b: u8) -> bool {
        match self {
            ByteClass::Space => is_space(b),
            ByteClass::Indent => is_space(b) && b != LINE_FEED,
            ByteClass::Word => !is_space(b),
            ByteClass::Digit => is_digit(b),
            ByteClass::HexDigit => is_hex_digit(b),
            ByteClass::Ident => is_ident(b),
            ByteClass::Name => is_ident(b) || b == SLASH || b == MINUS,
            ByteClass::Decimal => is_digit(b) || b == DOT || b == MINUS,
            ByteClass::Plain => !is_line_break(b) && b != BRACE_CLOSE,
            ByteClass::Quotable => !is_line_break(b) && b != QUOTE,
            ByteClass::Token => b != BLANK && !is_line_break(b) && b != BRACE_CLOSE,
            ByteClass::Is(x) => b == x,
            ByteClass::Not(x) => b != x,
        }
    }

    /// Tells whether `b` belongs to the class.
    pub fn contains(self, b: u8) -> (r: bool)
        ensures
            r == self.has(b),
    {
        let space = b == BLANK || (TAB <= b && b <= CARRIAGE_RETURN);
        let digit = 48 <= b && b <= 57;
        let alpha = (65 <= b && b <= 90) || (97 <= b && b <= 122);
        let brk = b == LINE_FEED || b == CARRIAGE_RETURN;
        match self {
            ByteClass::Space => space,
            ByteClass::Indent => space && b != LINE_FEED,
            ByteClass::Word => !space,
            ByteClass::Digit => digit,
            ByteClass::HexDigit => digit || (65 <= b && b <= 70) || (97 <= b && b <= 102),
            ByteClass::Ident => digit || alpha || b == DOT || b == UNDERSCORE,
            ByteClass::Name => digit || alpha || b == DOT || b == UNDERSCORE || b == SLASH || b
                == MINUS,
            ByteClass::Decimal => digit || b == DOT || b == MINUS,
            ByteClass::Plain => !brk && b != BRACE_CLOSE,
            ByteClass::Quotable => !brk && b != QUOTE,
            ByteClass::Token => b != BLANK && !brk && b != BRACE_CLOSE,
            ByteClass::Is(x) => b == x,
            ByteClass::Not(x) => b != x,
        }
    }
}

/// Where the longest run of bytes of class `c` that starts at `i` ends.
pub open spec fn run_end(s: Seq<u8>, i: int, c: ByteClass) -> int
    decreases s.len() - i,
{
    if 0 <= i < s.len() && c.has(s[i]) {
        run_end(s, i + 1, c)
    } else {
        i
    }
}

/// The run `[i, run_end)` lies inside `s`, holds only bytes of the class,
/// and cannot be extended.
pub proof fn lemma_run_end(s: Seq<u8>, i: int, c: ByteClass)
    requires
        0 <= i <= s.len(),
    ensures
        i <= run_end(s, i, c) <= s.len(),
        forall|k: int| i <= k < run_end(s, i, c) ==> c.has(#[trigger] s[k]),
        run_end(s, i, c) < s.len() ==> !c.has(s[run_end(s, i, c)]),
    decreases s.len() - i,
{
    if i < s.len() && c.has(s[i]) {
        lemma_run_end(s, i + 1, c);
    }
}

/// A run that cannot be extended is the longest one.
pub proof fn lemma_run_end_is(s: Seq<u8>, i: int, c: ByteClass, j: int)
    requires
        0 <= i <= j <= s.len(),
        forall|k: int| i <= k < j ==> c.has(#[trigger] s[k]),
        j < s.len() ==> !c.has(s[j]),
    ensures
        run_end(s, i, c) == j,
    decreases j - i,
{
    if i < j {
        lemma_run_end_is(s, i + 1, c, j);
    }
}

/// Scans the longest run of class `c` from `i`.
pub fn scan_run(s: &[u8], i: usize, c: ByteClass) -> (j: usize)
    requires
        i <= s@.len(),
    ensures
        j == run_end(s@, i as int, c),
        i <= j <= s@.len(),
{
    let mut j: usize = i;
    while j < s.len() && c.contains(s[j])
        invariant
            i <= j <= s@.len(),
            forall|k: int| i <= k < j ==> c.has(#[trigger] s@[k]),
        decreases s@.len() - j,
    {
        j = j + 1;
    }
    proof {
        lemma_run_end_is(s@, i as int, c, j as int);
    }
    j
}

/// Where the longest run of bytes of class `c` that ends at `j` starts.
pub open spec fn run_start(s: Seq<u8>, j: int, c: ByteClass) -> int
    decreases j,
{
    if 0 < j <= s.len() && c.has(s[j - 1]) {
        run_start(s, j - 1, c)
    } else {
        j
    }
}

/// The run `[run_start, j)` lies inside `s`, holds only bytes of the
/// class, and cannot be extended to the front.
pub proof fn lemma_run_start(s: Seq<u8>, j: int, c: ByteClass)
    requires
        0 <= j <= s.len(),
    ensures
        0 <= run_start(s, j, c) <= j,
        forall|k: int| run_start(s, j, c) <= k < j ==> c.has(#[trigger] s[k]),
        run_start(s, j, c) > 0 ==> !c.has(s[run_start(s, j, c) - 1]),
    decreases j,
{
    if 0 < j && c.has(s[j - 1]) {
        lemma_run_start(s, j - 1, c);
    }
}

/// Where the line that starts at `i` ends: at its line feed, or at the end
/// of the document.
pub open spec fn line_end(doc: Seq<u8>, i: int) -> int {
    run_end(doc, i, ByteClass::Not(LINE_FEED))
}

/// Whether `line`, after the whitespace in front of it, starts with `pat`.
pub open spec fn line_starts(line: Seq<u8>, pat: Seq<u8>) -> bool {
    has_prefix_at(line, run_end(line, 0, ByteClass::Space), pat)
}

/// A stretch `[i, j)` of bytes of the class that cannot be extended to the
/// front is the run that ends at `j`.
pub proof fn lemma_run_start_is(s: Seq<u8>, j: int, c: ByteClass, i: int)
    requires
        0 <= i <= j <= s.len(),
        forall|k: int| i <= k < j ==> c.has(#[trigger] s[k]),
        i > 0 ==> !c.has(s[i - 1]),
    ensures
        run_start(s, j, c) == i,
    decreases j - i,
{
    if i < j {
        lemma_run_start_is(s, j - 1, c, i);
    }
}

/// Scans back over the longest run of class `c` that ends at `j`.
pub fn scan_back(s: &[u8], j: usize, c: ByteClass) -> (i: usize)
    requires
        j <= s@.len(),
    ensures
        i == run_start(s@, j as int, c),
        i <= j,
{
    let mut i: usize = j;
    while i > 0 && c.contains(s[i - 1])
        invariant
            i <= j <= s@.len(),
            run_start(s@, j as int, c) == run_start(s@, i as int, c),
        decreases i,
    {
        i = i - 1;
    }
    i
}

/// The last position before `j` at which `b` stands in `s`, or -1.
pub open spec fn last_index(s: Seq<u8>, j: int, b: u8) -> int
    decreases j,
{
    if j <= 0 || j > s.len() {
        -1
    } else if s[j - 1] == b {
        j - 1
    } else {
        last_index(s, j - 1, b)
    }
}

/// The last index is an index of `b`, and no `b` stands behind it.
pub proof fn lemma_last_index(s: Seq<u8>, j: int, b: u8)
    requires
        0 <= j <= s.len(),
    ensures
        -1 <= last_index(s, j, b) < j,
        last_index(s, j, b) >= 0 ==> s[last_index(s, j, b)] == b,
        forall|k: int| last_index(s, j, b) < k < j ==> #[trigger] s[k] != b,
    decreases j,
{
    if j > 0 && s[j - 1] != b {
        lemma_last_index(s, j - 1, b);
    }
}

/// Finds the last `b` before `j`.
pub fn find_last(s: &[u8], j: usize, b: u8) -> (r: Option<usize>)
    requires
        j <= s@.len(),
    ensures
        match r {
            Some(k) => last_index(s@, j as int, b) == k && k < j,
            None => last_index(s@, j as int, b) == -1,
        },
{
    let mut i: usize = j;
    while i > 0
        invariant
            i <= j <= s@.len(),
            last_index(s@, j as int, b) == last_index(s@, i as int, b),
        decreases i,
    {
        if s[i - 1] == b {
            return Some(i - 1);
        }
        i = i - 1;
    }
    None
}

/// Whether two byte strings are the same.
pub fn bytes_eq(a: &[u8], b: &[u8]) -> (r: bool)
    ensures
        r == (a@ == b@),
{
    if a.len() != b.len() {
        return false;
    }
    let r = starts_with_at(a, 0, b);
    proof {
        assert(a@.subrange(0, a@.len() as int) =~= a@);
    }
    r
}

/// Whether `pat` stands in `s` at offset `i`.
pub open spec fn has_prefix_at(s: Seq<u8>, i: int, pat: Seq<u8>) -> bool {
    0 <= i && i + pat.len() <= s.len() && s.subrange(i, i + pat.len()) == pat
}

/// Tells whether `pat` stands in `s` at offset `i`.
pub fn starts_with_at(s: &[u8], i: usize, pat: &[u8]) -> (r: bool)
    ensures
        r == has_prefix_at(s@, i as int, pat@),
{
    if i > s.len() || pat.len() > s.len() - i {
        return false;
    }
    let mut k: usize = 0;
    while k < pat.len()
        invariant
            i + pat@.len() <= s@.len() <= usize::MAX,
            k <= pat@.len(),
            forall|m: int| 0 <= m < k ==> s@[i + m] == pat@[m],
        decreases pat@.len() - k,
    {
        if s[i + k] != pat[k] {
            return false;
        }
        k = k + 1;
    }
    assert(s@.subrange(i as int, i + pat@.len()) =~= pat@);
    true
}

/// The first position in `[from, to)` at which `pred` holds, or `to`.
pub open spec fn first_hit(pred: spec_fn(int) -> bool, from: int, to: int) -> int
    decreases to - from,
{
    if from >= to {
        to
    } else if pred(from) {
        from
    } else {
        first_hit(pred, from + 1, to)
    }
}

/// The first hit lies in the range, is a hit unless it is the end of the
/// range, and no hit stands before it.
pub proof fn lemma_first_hit(pred: spec_fn(int) -> bool, from: int, to: int)
    requires
        from <= to,
    ensures
        from <= first_hit(pred, from, to) <= to,
        first_hit(pred, from, to) < to ==> pred(first_hit(pred, from, to)),
        forall|q: int| from <= q < first_hit(pred, from, to) ==> !#[trigger] pred(q),
    decreases to - from,
{
    if from < to && !pred(from) {
        lemma_first_hit(pred, from + 1, to);
    }
}

/// A position before which `pred` never holds, and which is a hit or the
/// end of the range, is the first hit.
pub proof fn lemma_first_hit_is(pred: spec_fn(int) -> bool, from: int, to: int, p: int)
    requires
        from <= p <= to,
        forall|q: int| from <= q < p ==> !#[trigger] pred(q),
        p < to ==> pred(p),
    ensures
        first_hit(pred, from, to) == p,
    decreases p - from,
{
    if from < p {
        lemma_first_hit_is(pred, from + 1, to, p);
    }
}

/// `s` with the bytes of `[a, b)` replaced by `new`.
pub open spec fn splice(s: Seq<u8>, a: int, b: int, new: Seq<u8>) -> Seq<u8> {
    s.subrange(0, a) + new + s.subrange(b, s.len() as int)
}

/// Appends `s` to `v`.
pub fn append(v: &mut Vec<u8>, s: &[u8])
    ensures
        final(v)@ == old(v)@ + s@,
{
    let mut k: usize = 0;
    while k < s.len()
        invariant
            k <= s@.len(),
            v@ == old(v)@ + s@.subrange(0, k as int),
        decreases s@.len() - k,
    {
        v.push(s[k]);
        k = k + 1;
    }
}

/// Copies `s[a..b]` into a vector of its own.
pub fn copy_range(s: &[u8], a: usize, b: usize) -> (r: Vec<u8>)
    requires
        a <= b <= s@.len(),
    ensures
        r@ == s@.subrange(a as int, b as int),
{
    let mut r: Vec<u8> = Vec::new();
    let mut k: usize = a;
    while k < b
        invariant
            a <= k <= b <= s@.len(),
            r@ == s@.subrange(a as int, k as int),
        decreases b - k,
    {
        r.push(s[k]);
        k = k + 1;
    }
    r
}

/// Replaces the bytes of `[a, b)` by `new`; every other byte stays.
pub fn splice_bytes(s: &[u8], a: usize, b: usize, new: &[u8]) -> (r: Vec<u8>)
    requires
        a <= b <= s@.len(),
    ensures
        r@ == splice(s@, a as int, b as int, new@),
{
    let mut r: Vec<u8> = copy_range(s, 0, a);
    append(&mut r, new);
    let tail = copy_range(s, b, s.len());
    append(&mut r, tail.as_slice());
    r
}

} // verus!
