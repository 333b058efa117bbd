//! Field matching: where, in the body of a unit, a field `key: value`
//! stands, and where its value begins and ends.
//!
//! A field is its key, an index in square brackets if it belongs to an
//! array, a colon with any whitespace around it, and a value. What counts
//! as the value depends on what is asked for; that is the field's `Shape`.

use vstd::prelude::*;
use crate::text::{
    first_hit, has_prefix_at, is_line_break, is_space, is_word_byte, lemma_first_hit,
    lemma_first_hit_is, lemma_run_end, lemma_run_start, run_end, run_start, scan_back, scan_run,
    starts_with_at, starts_word, word_byte, word_starts_at, ByteClass, AMPERSAND, BRACE_CLOSE,
    BRACKET_CLOSE, BRACKET_OPEN, COLON, LINE_FEED, MINUS, QUOTE,
};

verus! {

/// What a field's value is taken to be.
#[derive(Clone, Copy, PartialEq, Eq, Structural, Debug)]
pub enum Shape {
    /// The value as an editor replaces it. Where a double quote opens it
    /// and another one follows in its line, it runs from the first quote
    /// through the next. Otherwise it runs to the end of the line or to a
    /// closing brace, whichever comes first, without the whitespace at its
    /// end: a brace that closes the unit in the field's line is no part of
    /// the value.
    Value,
    /// Everything up to the next blank, the end of the line or a closing
    /// brace, whichever comes first.
    Token,
    /// Everything up to the next whitespace.
    Word,
    /// A run of letters, digits, dots and underscores.
    Ident,
    /// A run of letters, digits, dots, underscores, slashes and hyphens.
    Name,
    /// A text in double quotes; the value is what stands between them.
    Quoted,
    /// A text from a double quote to the last double quote of its line;
    /// the value is what stands between them.
    QuotedLine,
    /// A run of decimal digits.
    Digits,
    /// A run of decimal digits, after a minus sign or without one.
    Signed,
    /// A run of digits, dots and minus signs.
    Decimal,
    /// `&` and a run of hex digits; the value is the digits.
    Hex,
    /// `&` and a run of hex digits, or a run of digits, dots and minus
    /// signs; the value includes the `&`.
    Number,
}

/// A field found in a block. All offsets are into the block.
pub struct Hit {
    /// Where the key starts.
    pub at: int,
    /// The digits of the index, for a field of an array; empty otherwise.
    pub index: (int, int),
    /// The value.
    pub value: (int, int),
    /// One past the last byte of the field.
    pub end: int,
}

/// A field found in a block, in machine integers.
#[derive(Clone, Copy, Debug)]
pub struct HitPos {
    pub at: usize,
    pub index: (usize, usize),
    pub value: (usize, usize),
    pub end: usize,
}

impl View for HitPos {
    type V = Hit;

    open spec fn view(&self) -> Hit {
        Hit {
            at: self.at as int,
            index: (self.index.0 as int, self.index.1 as int),
            value: (self.value.0 as int, self.value.1 as int),
            end: self.end as int,
        }
    }
}

/// A field that was found or not, in mathematical integers.
pub open spec fn hit_view(r: Option<HitPos>) -> Option<Hit> {
    match r {
        Some(h) => Some(h@),
        None => None,
    }
}

/// Where the key that starts at `q` ends, index included, and where its
/// index digits stand. A key starts only where a word can start: the text
/// of the key inside a longer key is no key.
pub open spec fn key_end(block: Seq<u8>, key: Seq<u8>, indexed: bool, q: int) -> Option<
    ((int, int), int),
> {
    if !has_prefix_at(block, q, key) || !starts_word(block, q) {
        None
    } else {
        let k = q + key.len();
        if !indexed {
            Some(((k, k), k))
        } else if !(k < block.len() && block[k] == BRACKET_OPEN) {
            None
        } else {
            let d = run_end(block, k + 1, ByteClass::Digit);
            if k + 1 < d && d < block.len() && block[d] == BRACKET_CLOSE {
                Some(((k + 1, d), d + 1))
            } else {
                None
            }
        }
    }
}

/// Where the value of the field whose key starts at `q` begins: after the
/// colon and the whitespace around it.
pub open spec fn value_start(block: Seq<u8>, key: Seq<u8>, indexed: bool, q: int) -> Option<
    ((int, int), int),
> {
    match key_end(block, key, indexed, q) {
        None => None,
        Some((index, k)) => {
            let c = run_end(block, k, ByteClass::Space);
            if c < block.len() && block[c] == COLON {
                Some((index, run_end(block, c + 1, ByteClass::Space)))
            } else {
                None
            }
        },
    }
}

/// The value of shape `shape` that starts at `v`, and where the field ends.
pub open spec fn value_span(block: Seq<u8>, v: int, shape: Shape) -> Option<((int, int), int)> {
    match shape {
        Shape::Value => {
            let c = run_end(block, v + 1, ByteClass::Quotable);
            if 0 <= v < block.len() && block[v] == QUOTE && c < block.len() && block[c] == QUOTE {
                Some(((v, c + 1), c + 1))
            } else {
                let t = run_start(block, run_end(block, v, ByteClass::Plain), ByteClass::Space);
                if 0 <= v < t {
                    Some(((v, t), t))
                } else {
                    None
                }
            }
        },
        Shape::Token => run_span(block, v, ByteClass::Token),
        Shape::Word => run_span(block, v, ByteClass::Word),
        Shape::Ident => run_span(block, v, ByteClass::Ident),
        Shape::Name => run_span(block, v, ByteClass::Name),
        Shape::Digits => run_span(block, v, ByteClass::Digit),
        Shape::Signed => {
            let d0 = if 0 <= v < block.len() && block[v] == MINUS {
                v + 1
            } else {
                v
            };
            let d = run_end(block, d0, ByteClass::Digit);
            if 0 <= v && d0 < d {
                Some(((v, d), d))
            } else {
                None
            }
        },
        Shape::Decimal => run_span(block, v, ByteClass::Decimal),
        Shape::Quoted => {
            if 0 <= v < block.len() && block[v] == QUOTE {
                let c = run_end(block, v + 1, ByteClass::Not(QUOTE));
                if c < block.len() {
                    Some(((v + 1, c), c + 1))
                } else {
                    None
                }
            } else {
                None
            }
        },
        Shape::QuotedLine => {
            if 0 <= v < block.len() && block[v] == QUOTE {
                let e = run_end(block, v + 1, ByteClass::Not(LINE_FEED));
                let c = crate::text::last_index(block, e, QUOTE);
                if v < c {
                    Some(((v + 1, c), c + 1))
                } else {
                    None
                }
            } else {
                None
            }
        },
        Shape::Hex => {
            match hex_span(block, v) {
                Some(h) => Some(((v + 1, h), h)),
                None => None,
            }
        },
        Shape::Number => {
            match hex_span(block, v) {
                Some(h) => Some(((v, h), h)),
                None => run_span(block, v, ByteClass::Decimal),
            }
        },
    }
}

/// The run of class `c` at `v`, if it is not empty.
pub open spec fn run_span(block: Seq<u8>, v: int, c: ByteClass) -> Option<((int, int), int)> {
    let e = run_end(block, v, c);
    if 0 <= v < e {
        Some(((v, e), e))
    } else {
        None
    }
}

/// Where the hex token `&` and digits that starts at `v` ends.
pub open spec fn hex_span(block: Seq<u8>, v: int) -> Option<int> {
    if 0 <= v < block.len() && block[v] == AMPERSAND {
        let h = run_end(block, v + 1, ByteClass::HexDigit);
        if v + 1 < h {
            Some(h)
        } else {
            None
        }
    } else {
        None
    }
}

/// The field of key `key` and shape `shape` that starts at `q`. A field
/// starts only where a word can start: behind a letter, a digit or an
/// underscore the text of the key is the end of a longer key, and no
/// field of key `key`.
pub open spec fn hit_at(block: Seq<u8>, key: Seq<u8>, indexed: bool, shape: Shape, q: int) -> Option<
    Hit,
> {
    if !starts_word(block, q) {
        None
    } else {
        match value_start(block, key, indexed, q) {
            None => None,
            Some((index, v)) => match value_span(block, v, shape) {
                None => None,
                Some((value, end)) => Some(Hit { at: q, index, value, end }),
            },
        }
    }
}

/// Whether a field of key `key` and shape `shape` starts at a position.
pub open spec fn hit_pred(block: Seq<u8>, key: Seq<u8>, indexed: bool, shape: Shape) -> spec_fn(
    int,
) -> bool {
    |q: int| hit_at(block, key, indexed, shape, q) is Some
}

/// The first field of key `key` and shape `shape` that starts at `from` or
/// later.
pub open spec fn next_hit(
    block: Seq<u8>,
    key: Seq<u8>,
    indexed: bool,
    shape: Shape,
    from: int,
) -> Option<Hit> {
    let q = first_hit(hit_pred(block, key, indexed, shape), from, block.len() as int);
    if q >= block.len() {
        None
    } else {
        hit_at(block, key, indexed, shape, q)
    }
}

/// The parts of a field stand in order inside the block, and the field is
/// not empty.
pub proof fn lemma_hit_at(block: Seq<u8>, key: Seq<u8>, indexed: bool, shape: Shape, q: int)
    requires
        hit_at(block, key, indexed, shape, q) is Some,
    ensures
        ({
            let h = hit_at(block, key, indexed, shape, q).unwrap();
            &&& h.at == q
            &&& 0 <= q
            &&& q + key.len() <= h.index.0 <= h.index.1 < h.value.0 <= h.value.1 <= h.end
                <= block.len()
            &&& q < h.end
            &&& shape != Shape::Quoted && shape != Shape::QuotedLine ==> h.value.0 < h.value.1
            &&& starts_word(block, q)
        }),
{
    let (index, k) = key_end(block, key, indexed, q).unwrap();
    if indexed {
        lemma_run_end(block, q + key.len() + 1, ByteClass::Digit);
    }
    let c = run_end(block, k, ByteClass::Space);
    lemma_run_end(block, k, ByteClass::Space);
    let v = run_end(block, c + 1, ByteClass::Space);
    lemma_run_end(block, c + 1, ByteClass::Space);
    lemma_run_end(block, v, ByteClass::Plain);
    lemma_run_start(block, run_end(block, v, ByteClass::Plain), ByteClass::Space);
    lemma_run_end(block, v, ByteClass::Token);
    lemma_run_end(block, v, ByteClass::Word);
    lemma_run_end(block, v, ByteClass::Ident);
    lemma_run_end(block, v, ByteClass::Name);
    lemma_run_end(block, v, ByteClass::Digit);
    lemma_run_end(block, v, ByteClass::Decimal);
    if v < block.len() {
        lemma_run_end(block, v + 1, ByteClass::Not(LINE_FEED));
        crate::text::lemma_last_index(
            block,
            run_end(block, v + 1, ByteClass::Not(LINE_FEED)),
            QUOTE,
        );
        lemma_run_end(block, v + 1, ByteClass::Not(QUOTE));
        lemma_run_end(block, v + 1, ByteClass::Quotable);
        lemma_run_end(block, v + 1, ByteClass::HexDigit);
        lemma_run_end(block, v + 1, ByteClass::Digit);
    }
}

/// Where a byte stands that is neither whitespace nor a closing brace, a
/// value that an editor replaces starts.
pub proof fn lemma_value_exists(block: Seq<u8>, v: int)
    requires
        0 <= v < block.len(),
        !is_space(block[v]),
        block[v] != BRACE_CLOSE,
    ensures
        value_span(block, v, Shape::Value) is Some,
{
    let e = run_end(block, v, ByteClass::Plain);
    lemma_run_end(block, v, ByteClass::Plain);
    lemma_run_start(block, e, ByteClass::Space);
}

/// What a value that an editor replaces is like. It starts at `v` with a
/// byte that is no closing brace, and holds no line break. One that a quote opens and closes holds no other quote. Any
/// other holds no closing brace, does not end with whitespace, and is
/// followed by whitespace, a closing brace or the block's end.
pub proof fn lemma_value_span(block: Seq<u8>, v: int)
    requires
        value_span(block, v, Shape::Value) is Some,
    ensures
        ({
            let ((a, b), end) = value_span(block, v, Shape::Value).unwrap();
            let e = run_end(block, v, ByteClass::Plain);
            &&& a == v && b == end && 0 <= v < b <= block.len()
            &&& block[v] != BRACE_CLOSE
            &&& forall|k: int| v <= k < b ==> !is_line_break(#[trigger] block[k])
            &&& forall|k: int| v < k < b - 1 ==> block[v] == QUOTE ==> #[trigger] block[k] != QUOTE
            &&& block[v] == QUOTE && block[b - 1] == QUOTE && v + 1 < b || {
                &&& b == run_start(block, e, ByteClass::Space)
                &&& b <= e <= block.len()
                &&& !is_space(block[b - 1])
                &&& forall|k: int| v <= k < e ==> ByteClass::Plain.has(#[trigger] block[k])
                &&& forall|k: int| b <= k < e ==> is_space(#[trigger] block[k])
                &&& e < block.len() ==> !ByteClass::Plain.has(block[e])
            }
        }),
{
    let c = run_end(block, v + 1, ByteClass::Quotable);
    let e = run_end(block, v, ByteClass::Plain);
    if 0 <= v <= block.len() {
        lemma_run_end(block, v, ByteClass::Plain);
        lemma_run_start(block, e, ByteClass::Space);
    }
    if 0 <= v < block.len() {
        lemma_run_end(block, v + 1, ByteClass::Quotable);
    }
    if !(block[v] == QUOTE && c < block.len() && block[c] == QUOTE) {
        if block[v] == QUOTE && c < block.len() {
            assert(e <= c);
        }
    }
}

/// The first field from `from` on starts at `from` or later, and no field
/// starts between `from` and it.
pub proof fn lemma_next_hit(
    block: Seq<u8>,
    key: Seq<u8>,
    indexed: bool,
    shape: Shape,
    from: int,
)
    requires
        0 <= from,
    ensures
        match next_hit(block, key, indexed, shape, from) {
            Some(h) => {
                &&& from <= h.at < h.end <= block.len()
                &&& h.at + key.len() <= h.index.0 <= h.index.1 < h.value.0 <= h.value.1 <= h.end
                &&& shape != Shape::Quoted && shape != Shape::QuotedLine ==> h.value.0
                    < h.value.1
                &&& hit_at(block, key, indexed, shape, h.at) == Some(h)
                &&& forall|r: int| from <= r < h.at ==> hit_at(block, key, indexed, shape, r) is None
            },
            None => forall|r: int|
                from <= r < block.len() ==> hit_at(block, key, indexed, shape, r) is None,
        },
{
    let pred = hit_pred(block, key, indexed, shape);
    let n = block.len() as int;
    if from <= n {
        lemma_first_hit(pred, from, n);
        let q = first_hit(pred, from, n);
        if q < n {
            lemma_hit_at(block, key, indexed, shape, q);
        }
        assert forall|r: int| from <= r < q implies hit_at(block, key, indexed, shape, r) is None by {
            assert(!pred(r));
        }
    }
}

fn match_key(block: &[u8], key: &[u8], indexed: bool, q: usize) -> (r: Option<
    ((usize, usize), usize),
>)
    ensures
        match r {
            Some(((a, b), k)) => key_end(block@, key@, indexed, q as int) == Some(
                ((a as int, b as int), k as int),
            ) && k <= block@.len(),
            None => key_end(block@, key@, indexed, q as int) is None,
        },
{
    let n = block.len();
    if !starts_with_at(block, q, key) || !word_starts_at(block, q) {
        return None;
    }
    let k = q + key.len();
    if !indexed {
        return Some(((k, k), k));
    }
    if !(k < n && block[k] == BRACKET_OPEN) {
        return None;
    }
    let d = scan_run(block, k + 1, ByteClass::Digit);
    if k + 1 < d && d < n && block[d] == BRACKET_CLOSE {
        Some(((k + 1, d), d + 1))
    } else {
        None
    }
}

fn match_run(block: &[u8], v: usize, c: ByteClass) -> (r: Option<((usize, usize), usize)>)
    requires
        v <= block@.len(),
    ensures
        match r {
            Some(((a, b), e)) => run_span(block@, v as int, c) == Some(
                ((a as int, b as int), e as int),
            ) && e <= block@.len(),
            None => run_span(block@, v as int, c) is None,
        },
{
    let e = scan_run(block, v, c);
    if v < e {
        Some(((v, e), e))
    } else {
        None
    }
}

fn match_hex(block: &[u8], v: usize) -> (r: Option<usize>)
    requires
        v <= block@.len(),
    ensures
        match r {
            Some(h) => hex_span(block@, v as int) == Some(h as int) && v < h <= block@.len(),
            None => hex_span(block@, v as int) is None,
        },
{
    let n = block.len();
    if v < n && block[v] == AMPERSAND {
        let h = scan_run(block, v + 1, ByteClass::HexDigit);
        if v + 1 < h {
            Some(h)
        } else {
            None
        }
    } else {
        None
    }
}

fn match_value(block: &[u8], v: usize, shape: Shape) -> (r: Option<((usize, usize), usize)>)
    requires
        v <= block@.len(),
    ensures
        match r {
            Some(((a, b), e)) => value_span(block@, v as int, shape) == Some(
                ((a as int, b as int), e as int),
            ),
            None => value_span(block@, v as int, shape) is None,
        },
{
    let n = block.len();
    match shape {
        Shape::Value => {
            if v < n && block[v] == QUOTE {
                let c = scan_run(block, v + 1, ByteClass::Quotable);
                if c < n && block[c] == QUOTE {
                    return Some(((v, c + 1), c + 1));
                }
            }
            let e = scan_run(block, v, ByteClass::Plain);
            let t = scan_back(block, e, ByteClass::Space);
            if v < t {
                Some(((v, t), t))
            } else {
                None
            }
        },
        Shape::Token => match_run(block, v, ByteClass::Token),
        Shape::Word => match_run(block, v, ByteClass::Word),
        Shape::Ident => match_run(block, v, ByteClass::Ident),
        Shape::Name => match_run(block, v, ByteClass::Name),
        Shape::Digits => match_run(block, v, ByteClass::Digit),
        Shape::Signed => {
            let d0: usize = if v < n && block[v] == MINUS {
                v + 1
            } else {
                v
            };
            let d = scan_run(block, d0, ByteClass::Digit);
            if d0 < d {
                Some(((v, d), d))
            } else {
                None
            }
        },
        Shape::Decimal => match_run(block, v, ByteClass::Decimal),
        Shape::Quoted => {
            if v < n && block[v] == QUOTE {
                let c = scan_run(block, v + 1, ByteClass::Not(QUOTE));
                if c < n {
                    Some(((v + 1, c), c + 1))
                } else {
                    None
                }
            } else {
                None
            }
        },
        Shape::QuotedLine => {
            if v < n && block[v] == QUOTE {
                let e = scan_run(block, v + 1, ByteClass::Not(LINE_FEED));
                match crate::text::find_last(block, e, QUOTE) {
                    Some(c) => if v < c {
                        Some(((v + 1, c), c + 1))
                    } else {
                        None
                    },
                    None => None,
                }
            } else {
                None
            }
        },
        Shape::Hex => match match_hex(block, v) {
            Some(h) => Some(((v + 1, h), h)),
            None => None,
        },
        Shape::Number => match match_hex(block, v) {
            Some(h) => Some(((v, h), h)),
            None => match_run(block, v, ByteClass::Decimal),
        },
    }
}

/// Tests whether a field of key `key` and shape `shape` starts at `q`.
pub fn match_hit(block: &[u8], key: &[u8], indexed: bool, shape: Shape, q: usize) -> (r: Option<
    HitPos,
>)
    ensures
        hit_view(r) == hit_at(block@, key@, indexed, shape, q as int),
{
    let n = block.len();
    match match_key(block, key, indexed, q) {
        None => None,
        Some((index, k)) => {
            let c = scan_run(block, k, ByteClass::Space);
            if c < n && block[c] == COLON {
                let v = scan_run(block, c + 1, ByteClass::Space);
                match match_value(block, v, shape) {
                    None => None,
                    Some((value, end)) => Some(HitPos { at: q, index, value, end }),
                }
            } else {
                None
            }
        },
    }
}

/// Finds the first field of key `key` and shape `shape` that starts at
/// `from` or later.
pub fn find_hit(block: &[u8], key: &[u8], indexed: bool, shape: Shape, from: usize) -> (r: Option<
    HitPos,
>)
    ensures
        hit_view(r) == next_hit(block@, key@, indexed, shape, from as int),
{
    let ghost pred = hit_pred(block@, key@, indexed, shape);
    let n = block.len();
    let mut q: usize = from;
    while q < n
        invariant
            n == block@.len(),
            from <= q,
            pred == hit_pred(block@, key@, indexed, shape),
            forall|r: int| from <= r < q ==> !#[trigger] pred(r),
        decreases n - q,
    {
        match match_hit(block, key, indexed, shape, q) {
            Some(h) => {
                proof {
                    lemma_first_hit_is(pred, from as int, n as int, q as int);
                }
                return Some(h);
            },
            None => {
            },
        }
        q = q + 1;
    }
    proof {
        if from <= n {
            lemma_first_hit_is(pred, from as int, n as int, n as int);
        }
    }
    None
}

/// Where a field has to stand to count.
#[derive(Clone, Copy, PartialEq, Eq, Structural, Debug)]
pub enum Place {
    /// At the start of its line, after whitespace at most.
    LineStart,
    /// At the start of a word: where a letter, digit or underscore meets a
    /// byte that is none.
    WordStart,
}

/// Whether only whitespace stands between the start of its line and `q`.
pub open spec fn leads_line(block: Seq<u8>, q: int) -> bool {
    let p = run_start(block, q, ByteClass::Indent);
    p <= 0 || block[p - 1] == LINE_FEED
}

/// Whether a word starts or ends at `q`.
pub open spec fn at_word_edge(block: Seq<u8>, q: int) -> bool {
    (0 < q <= block.len() && is_word_byte(block[q - 1])) != (0 <= q < block.len() && is_word_byte(
        block[q],
    ))
}

/// Whether `q` is a place of kind `place`.
pub open spec fn is_placed(block: Seq<u8>, q: int, place: Place) -> bool {
    match place {
        Place::LineStart => leads_line(block, q),
        Place::WordStart => at_word_edge(block, q),
    }
}

/// Whether a field of key `key` and shape `shape` starts at a position
/// of kind `place`.
pub open spec fn placed_pred(block: Seq<u8>, key: Seq<u8>, shape: Shape, place: Place) -> spec_fn(
    int,
) -> bool {
    |q: int| hit_at(block, key, false, shape, q) is Some && is_placed(block, q, place)
}

/// The first field of key `key` and shape `shape` that stands at a place
/// of kind `place`.
pub open spec fn next_placed_hit(block: Seq<u8>, key: Seq<u8>, shape: Shape, place: Place) -> Option<
    Hit,
> {
    let q = first_hit(placed_pred(block, key, shape, place), 0, block.len() as int);
    if q >= block.len() {
        None
    } else {
        hit_at(block, key, false, shape, q)
    }
}

fn check_place(block: &[u8], q: usize, place: Place) -> (r: bool)
    requires
        q < block@.len(),
    ensures
        r == is_placed(block@, q as int, place),
{
    match place {
        Place::LineStart => {
            let p = scan_back(block, q, ByteClass::Indent);
            p == 0 || block[p - 1] == LINE_FEED
        },
        Place::WordStart => {
            let before = q > 0 && word_byte(block[q - 1]);
            let here = word_byte(block[q]);
            before != here
        },
    }
}

/// Finds the first field of key `key` and shape `shape` that stands at a
/// place of kind `place`.
pub fn find_placed_hit(block: &[u8], key: &[u8], shape: Shape, place: Place) -> (r: Option<HitPos>)
    ensures
        hit_view(r) == next_placed_hit(block@, key@, shape, place),
        r is Some ==> r.unwrap().value.0 <= r.unwrap().value.1 <= block@.len(),
{
    let ghost pred = placed_pred(block@, key@, shape, place);
    let n = block.len();
    let mut q: usize = 0;
    while q < n
        invariant
            n == block@.len(),
            pred == placed_pred(block@, key@, shape, place),
            forall|r: int| 0 <= r < q ==> !#[trigger] pred(r),
        decreases n - q,
    {
        match match_hit(block, key, false, shape, q) {
            Some(h) => {
                if check_place(block, q, place) {
                    proof {
                        lemma_first_hit_is(pred, 0, n as int, q as int);
                        lemma_hit_at(block@, key@, false, shape, q as int);
                    }
                    return Some(h);
                }
            },
            None => {
            },
        }
        q = q + 1;
    }
    proof {
        lemma_first_hit_is(pred, 0, n as int, n as int);
    }
    None
}

} // verus!
