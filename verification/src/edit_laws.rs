//! What holds of every edit: why setting a field twice is the same as
//! setting it once.

use vstd::prelude::*;
use crate::edit::{country_suffix, edit, field_span, frame, plate_key, trim_quotes, EditError};
use crate::field::{
    hit_at, lemma_hit_at, lemma_next_hit, lemma_value_exists, lemma_value_span, next_hit,
    value_span, value_start, Hit, Shape,
};
use crate::locate::{
    block_close, block_start, header_end, header_pred, lemma_header_end, lemma_locate, locate,
    NotFound,
};
use crate::text::{
    has_prefix_at, is_line_break, is_space, last_index, lemma_first_hit_is, lemma_last_index,
    lemma_run_end, lemma_run_end_is, lemma_run_start, lemma_run_start_is, run_end, run_start,
    splice, ByteClass,
    BRACE_CLOSE, BRACE_OPEN, PIPE, QUOTE,
};

verus! {

/// Whether `x` and `y` hold the same bytes before `m`.
pub open spec fn same_before(x: Seq<u8>, y: Seq<u8>, m: int) -> bool {
    0 <= m <= x.len() && m <= y.len() && forall|k: int| 0 <= k < m ==> x[k] == y[k]
}

/// Whether `y` holds from `from + d` on what `x` holds from `from` on.
pub open spec fn same_behind(x: Seq<u8>, y: Seq<u8>, from: int, d: int) -> bool {
    0 <= from <= x.len() && 0 <= from + d && y.len() == x.len() + d && forall|k: int|
        from <= k < x.len() ==> y[k + d] == x[k]
}

/// Whether `s` holds no brace in `[i, j)`.
pub open spec fn no_brace(s: Seq<u8>, i: int, j: int) -> bool {
    forall|k: int| i <= k < j ==> s[k] != BRACE_OPEN && s[k] != BRACE_CLOSE
}

/// A run that ends before `m` is the same run in a sequence that holds the
/// same bytes before `m`.
pub proof fn lemma_run_agrees(x: Seq<u8>, y: Seq<u8>, i: int, c: ByteClass, m: int)
    requires
        same_before(x, y, m),
        0 <= i <= m,
        run_end(x, i, c) < m,
    ensures
        run_end(y, i, c) == run_end(x, i, c),
{
    lemma_run_end(x, i, c);
    let j = run_end(x, i, c);
    assert forall|k: int| i <= k < j implies c.has(#[trigger] y[k]) by {}
    lemma_run_end_is(y, i, c, j);
}

/// A run that reaches `m` stops there in a sequence that holds the same
/// bytes before `m` and, at `m`, a byte that is not of the class.
pub proof fn lemma_run_stops(x: Seq<u8>, y: Seq<u8>, i: int, c: ByteClass, m: int)
    requires
        same_before(x, y, m),
        0 <= i <= m,
        run_end(x, i, c) >= m,
        m < y.len(),
        !c.has(y[m]),
    ensures
        run_end(y, i, c) == m,
{
    lemma_run_end(x, i, c);
    assert forall|k: int| i <= k < m implies c.has(#[trigger] y[k]) by {}
    lemma_run_end_is(y, i, c, m);
}

/// A run ends at or before any byte that is not of its class.
pub proof fn lemma_run_bounded(x: Seq<u8>, i: int, c: ByteClass, j: int)
    requires
        0 <= i <= j < x.len(),
        !c.has(x[j]),
    ensures
        run_end(x, i, c) <= j,
{
    lemma_run_end(x, i, c);
}

/// A prefix that stands before `m` stands there in a sequence that holds
/// the same bytes before `m`.
pub proof fn lemma_prefix_agrees(x: Seq<u8>, y: Seq<u8>, i: int, pat: Seq<u8>, m: int)
    requires
        same_before(x, y, m),
        has_prefix_at(x, i, pat),
        i + pat.len() <= m,
    ensures
        has_prefix_at(y, i, pat),
{
    assert(y.subrange(i, i + pat.len()) =~= x.subrange(i, i + pat.len()));
}

/// An opening that ends before `m` is an opening in a sequence that holds
/// the same bytes before `m`.
pub proof fn lemma_header_agrees(
    x: Seq<u8>,
    y: Seq<u8>,
    class: Seq<u8>,
    id: Seq<u8>,
    q: int,
    m: int,
)
    requires
        same_before(x, y, m),
        header_end(x, class, id, q) is Some,
        header_end(x, class, id, q).unwrap() <= m,
    ensures
        header_end(y, class, id, q) == header_end(x, class, id, q),
{
    lemma_header_end(x, class, id, q);
    let p = q + class.len();
    lemma_run_end(x, p, ByteClass::Space);
    let a = run_end(x, p, ByteClass::Space);
    lemma_run_end(x, a + 1, ByteClass::Space);
    let b = run_end(x, a + 1, ByteClass::Space);
    lemma_run_end(x, b + id.len(), ByteClass::Space);
    lemma_prefix_agrees(x, y, q, class, m);
    lemma_run_agrees(x, y, p, ByteClass::Space, m);
    lemma_run_agrees(x, y, a + 1, ByteClass::Space, m);
    lemma_prefix_agrees(x, y, b, id, m);
    lemma_run_agrees(x, y, b + id.len(), ByteClass::Space, m);
}

/// Whether `s` holds no opening brace.
pub open spec fn no_open_brace(s: Seq<u8>) -> bool {
    forall|k: int| 0 <= k < s.len() ==> s[k] != BRACE_OPEN
}

/// In an opening whose class and id hold no brace, the brace that ends it
/// is the only one.
pub proof fn lemma_header_brace(x: Seq<u8>, class: Seq<u8>, id: Seq<u8>, q: int, k: int)
    requires
        header_end(x, class, id, q) is Some,
        q <= k < header_end(x, class, id, q).unwrap() - 1,
        no_open_brace(class),
        no_open_brace(id),
    ensures
        x[k] != BRACE_OPEN,
{
    lemma_header_end(x, class, id, q);
    let p = q + class.len();
    lemma_run_end(x, p, ByteClass::Space);
    let a = run_end(x, p, ByteClass::Space);
    lemma_run_end(x, a + 1, ByteClass::Space);
    let b = run_end(x, a + 1, ByteClass::Space);
    lemma_run_end(x, b + id.len(), ByteClass::Space);
    if k < p {
        assert(x.subrange(q, p)[k - q] == x[k]);
    } else if b <= k < b + id.len() {
        assert(x.subrange(b, b + id.len())[k - b] == x[k]);
    }
}

/// Counting braces over a stretch that holds none changes nothing.
pub proof fn lemma_close_skips(x: Seq<u8>, i: int, j: int, depth: nat)
    requires
        0 <= i <= j <= x.len(),
        no_brace(x, i, j),
    ensures
        block_close(x, i, depth) == block_close(x, j, depth),
    decreases j - i,
{
    if i < j {
        lemma_close_skips(x, i + 1, j, depth);
    }
}

/// Counting braces behind a shift gives the shifted end.
pub proof fn lemma_close_shifts(x: Seq<u8>, y: Seq<u8>, from: int, d: int, j: int, depth: nat)
    requires
        same_behind(x, y, from, d),
        from <= j,
        depth >= 1,
    ensures
        block_close(x, j, depth) >= 0 ==> block_close(y, j + d, depth) == block_close(x, j, depth)
            + d,
        block_close(x, j, depth) < 0 ==> block_close(y, j + d, depth) < 0,
    decreases x.len() - j,
{
    if j < x.len() {
        assert(y[j + d] == x[j]);
        if x[j] == BRACE_OPEN {
            lemma_close_shifts(x, y, from, d, j + 1, depth + 1);
        } else if x[j] == BRACE_CLOSE {
            if depth > 1 {
                lemma_close_shifts(x, y, from, d, j + 1, (depth - 1) as nat);
            }
        } else {
            lemma_close_shifts(x, y, from, d, j + 1, depth);
        }
    }
}

/// Counting braces up to `m`, in two sequences that hold the same bytes
/// before `m`, arrives at `m` with the same number of braces open, unless
/// the body is closed before.
pub proof fn lemma_close_agrees(x: Seq<u8>, y: Seq<u8>, i: int, m: int, depth: nat) -> (open: nat)
    requires
        same_before(x, y, m),
        0 <= i <= m,
        depth >= 1,
        block_close(x, i, depth) > m,
    ensures
        open >= 1,
        block_close(x, i, depth) == block_close(x, m, open),
        block_close(y, i, depth) == block_close(y, m, open),
    decreases m - i,
{
    if i == m {
        depth
    } else {
        if x[i] == BRACE_OPEN {
            lemma_close_agrees(x, y, i + 1, m, depth + 1)
        } else if x[i] == BRACE_CLOSE {
            if depth > 1 {
                lemma_close_agrees(x, y, i + 1, m, (depth - 1) as nat)
            } else {
                // The body would be closed at `i`, before `m`.
                depth
            }
        } else {
            lemma_close_agrees(x, y, i + 1, m, depth)
        }
    }
}

/// Whether `v` stays in its line and holds no brace.
pub open spec fn is_one_line(v: Seq<u8>) -> bool {
    forall|k: int|
        0 <= k < v.len() ==> {
            &&& !is_line_break(#[trigger] v[k])
            &&& v[k] != BRACE_OPEN
            &&& v[k] != BRACE_CLOSE
        }
}

/// Whether the value `value` can be set over the value `old` of field
/// `key` any number of times with the same outcome.
///
/// Over a value that stands in no quotes, the new value must be there,
/// and must neither start with whitespace or a quote nor end with
/// whitespace: it would not be read back as it was written. Over a quoted
/// value the new value must hold no quote, which would close it early;
/// and over a license plate without a country suffix it must hold no
/// `|`, which would be read back as a suffix.
#[verifier::opaque]
pub open spec fn can_be_set_again(key: Seq<u8>, old: Seq<u8>, value: Seq<u8>) -> bool {
    if old.len() > 0 && old[0] == QUOTE {
        &&& forall|k: int| 0 <= k < value.len() ==> value[k] != QUOTE
        &&& key == plate_key() && country_suffix(old).len() == 0 ==> forall|k: int|
            0 <= k < value.len() ==> value[k] != PIPE
    } else {
        &&& value.len() > 0
        &&& !is_space(value[0])
        &&& value[0] != QUOTE
        &&& !is_space(value.last())
    }
}

/// Whether `t` reads back as one value: it is free of line breaks and
/// braces, is not empty and is not led by whitespace; where a quote opens
/// it, a quote closes it and no other stands between them; where none
/// does, it does not end with whitespace.
pub open spec fn is_inline(t: Seq<u8>) -> bool {
    &&& t.len() > 0
    &&& !is_space(t[0])
    &&& forall|k: int|
        0 <= k < t.len() ==> {
            &&& !is_line_break(#[trigger] t[k])
            &&& t[k] != BRACE_OPEN
            &&& t[k] != BRACE_CLOSE
        }
    &&& if t[0] == QUOTE {
        &&& t.len() >= 2
        &&& t.last() == QUOTE
        &&& forall|k: int| 0 < k < t.len() - 1 ==> #[trigger] t[k] != QUOTE
    } else {
        !is_space(t.last())
    }
}

/// What a country suffix is like: empty, or a `|` followed by bytes of the
/// old value that are neither `|` nor, at the end, a quote. Where the old
/// value holds no quote between its first and its last byte, the suffix
/// holds none.
pub proof fn lemma_country_suffix(old: Seq<u8>)
    ensures
        ({
            let sfx = country_suffix(old);
            &&& sfx.len() > 0 ==> sfx[0] == PIPE && sfx.last() != QUOTE
            &&& forall|k: int| 1 <= k < sfx.len() ==> #[trigger] sfx[k] != PIPE
            &&& forall|k: int|
                0 <= k < sfx.len() ==> exists|j: int| 0 <= j < old.len() && old[j] == #[trigger] sfx[k]
            &&& (forall|j: int| 0 < j < old.len() - 1 ==> #[trigger] old[j] != QUOTE) ==> forall|
                k: int,
            | 0 <= k < sfx.len() ==> #[trigger] sfx[k] != QUOTE
        }),
{
    let a = run_end(old, 0, ByteClass::Is(QUOTE));
    lemma_run_end(old, 0, ByteClass::Is(QUOTE));
    if a < old.len() {
        let b = run_start(old, old.len() as int, ByteClass::Is(QUOTE));
        lemma_run_start(old, old.len() as int, ByteClass::Is(QUOTE));
        assert(b > a);
        let inner = old.subrange(a, b);
        let k0 = last_index(inner, inner.len() as int, PIPE);
        lemma_last_index(inner, inner.len() as int, PIPE);
        let sfx = country_suffix(old);
        if k0 >= 0 {
            assert forall|k: int| 1 <= k < sfx.len() implies #[trigger] sfx[k] != PIPE by {
                assert(sfx[k] == inner[k0 + k]);
            }
            assert forall|k: int| 0 <= k < sfx.len() implies exists|j: int|
                0 <= j < old.len() && old[j] == #[trigger] sfx[k] by {}
            if forall|j: int| 0 < j < old.len() - 1 ==> #[trigger] old[j] != QUOTE {
                assert forall|k: int| 0 <= k < sfx.len() implies #[trigger] sfx[k] != QUOTE by {
                    assert(sfx[k] == old[a + k0 + k]);
                }
            }
        }
    }
}

/// Framing a value that can be set again gives a text that stays in its
/// line, and framing the same value over that text gives the text again.
pub proof fn lemma_frame_again(key: Seq<u8>, old: Seq<u8>, value: Seq<u8>)
    requires
        is_one_line(value),
        can_be_set_again(key, old, value),
        old.len() > 0,
        !is_space(old[0]),
        forall|k: int|
            0 <= k < old.len() ==> !is_line_break(#[trigger] old[k]) && old[k] != BRACE_OPEN
                && old[k] != BRACE_CLOSE,
        old[0] == QUOTE ==> forall|k: int| 0 < k < old.len() - 1 ==> #[trigger] old[k] != QUOTE,
    ensures
        is_inline(frame(key, old, value)),
        frame(key, frame(key, old, value), value) == frame(key, old, value),
{
    reveal(can_be_set_again);
    let text = frame(key, old, value);
    if old[0] == QUOTE {
        let sfx = if key == plate_key() {
            country_suffix(old)
        } else {
            Seq::<u8>::empty()
        };
        lemma_country_suffix(old);
        let mid = value + sfx;
        assert(text =~= seq![QUOTE] + mid + seq![QUOTE]);
        let n = text.len() as int;
        assert forall|k: int| 1 <= k < n - 1 implies #[trigger] text[k] == mid[k - 1] by {}
        assert forall|k: int| 0 < k < n - 1 implies #[trigger] text[k] != QUOTE by {
            if k - 1 < value.len() {
                assert(mid[k - 1] == value[k - 1]);
            } else {
                assert(mid[k - 1] == sfx[k - 1 - value.len()]);
            }
        }
        assert forall|k: int| 0 <= k < text.len() implies {
            &&& !is_line_break(#[trigger] text[k])
            &&& text[k] != BRACE_OPEN
            &&& text[k] != BRACE_CLOSE
        } by {
            if value.len() < k < n - 1 {
                // A byte of the suffix is a byte of the old value.
                let m = k - 1 - value.len();
                assert(exists|j: int| 0 <= j < old.len() && old[j] == sfx[m]);
            }
        }
        if key == plate_key() {
            lemma_plate_again(value, sfx);
        }
    }
}

/// A plate that is written with the text `value` and the suffix `sfx`
/// has, between its quotes, that text and that suffix, and its suffix is
/// `sfx`.
proof fn lemma_plate_again(value: Seq<u8>, sfx: Seq<u8>)
    requires
        value.len() > 0 ==> value[0] != QUOTE,
        sfx.len() > 0 ==> sfx[0] == PIPE && sfx.last() != QUOTE,
        forall|k: int| 1 <= k < sfx.len() ==> #[trigger] sfx[k] != PIPE,
        sfx.len() == 0 ==> {
            &&& value.len() > 0 ==> value.last() != QUOTE
            &&& forall|k: int| 0 <= k < value.len() ==> value[k] != PIPE
        },
    ensures
        country_suffix(seq![QUOTE] + (value + sfx) + seq![QUOTE]) == sfx,
{
    let mid = value + sfx;
    let text = seq![QUOTE] + mid + seq![QUOTE];
    let n = text.len() as int;
    assert(text[n - 1] == QUOTE);
    assert forall|k: int| 1 <= k < n - 1 implies #[trigger] text[k] == mid[k - 1] by {}
    if mid.len() == 0 {
        // Two quotes and nothing between them.
        lemma_run_end_is(text, 0, ByteClass::Is(QUOTE), 2);
    } else {
        assert(mid[0] != QUOTE);
        assert(mid.last() != QUOTE) by {
            if sfx.len() == 0 {
                assert(mid =~= value);
            }
        }
        assert(text[n - 2] == mid.last());
        lemma_run_end_is(text, 0, ByteClass::Is(QUOTE), 1);
        assert(run_start(text, n, ByteClass::Is(QUOTE)) == n - 1) by {
            assert(run_start(text, n - 1, ByteClass::Is(QUOTE)) == n - 1);
        }
        assert(trim_quotes(text) =~= mid);
        // The last pipe is that of the suffix, if there is one.
        lemma_last_index(mid, mid.len() as int, PIPE);
        let k1 = last_index(mid, mid.len() as int, PIPE);
        if sfx.len() > 0 {
            assert(mid[value.len() as int] == sfx[0]);
            assert(k1 >= value.len());
            assert(k1 == value.len());
        } else {
            assert(k1 < 0);
        }
    }
}

/// In a block in which the value of the first field `key` gave way to a
/// text that reads back as one value, the first field `key` stands where
/// it stood, and its value is that text. A value that a quote opened
/// gives way to a text that a quote opens.
pub proof fn lemma_field_after_splice(block: Seq<u8>, key: Seq<u8>, text: Seq<u8>)
    requires
        next_hit(block, key, false, Shape::Value, 0) is Some,
        is_inline(text),
        block[next_hit(block, key, false, Shape::Value, 0).unwrap().value.0] == QUOTE ==> text[0]
            == QUOTE,
    ensures
        ({
            let h = next_hit(block, key, false, Shape::Value, 0).unwrap();
            let out = splice(block, h.value.0, h.value.1, text);
            next_hit(out, key, false, Shape::Value, 0) == Some(
                Hit {
                    at: h.at,
                    index: h.index,
                    value: (h.value.0, h.value.0 + text.len()),
                    end: h.value.0 + text.len(),
                },
            )
        }),
{
    let h = next_hit(block, key, false, Shape::Value, 0).unwrap();
    lemma_next_hit(block, key, false, Shape::Value, 0);
    lemma_hit_at(block, key, false, Shape::Value, h.at);
    let q = h.at;
    let a = h.value.0;
    let b = h.value.1;
    let k = q + key.len();
    let c = run_end(block, k, ByteClass::Space);
    lemma_run_end(block, k, ByteClass::Space);
    lemma_run_end(block, c + 1, ByteClass::Space);
    lemma_value_span(block, a);

    let out = splice(block, a, b, text);
    let n = text.len() as int;
    assert forall|i: int| 0 <= i < n implies out[a + i] == text[i] by {}

    // The field stands at `q` in the new block.
    assert(hit_at(out, key, false, Shape::Value, q) == Some(
        Hit { at: q, index: h.index, value: (a, a + n), end: a + n },
    )) by {
        lemma_prefix_agrees(block, out, q, key, a);
        lemma_run_agrees(block, out, k, ByteClass::Space, a);
        lemma_run_stops(block, out, c + 1, ByteClass::Space, a);
        lemma_value_after_splice(block, a, b, text);
    }

    // No field stands before `q` in the new block.
    let pred = crate::field::hit_pred(out, key, false, Shape::Value);
    assert forall|r: int| 0 <= r < q implies !#[trigger] pred(r) by {
        if hit_at(out, key, false, Shape::Value, r) is Some {
            lemma_field_before_splice(block, out, key, r, c, a);
        }
    }
    lemma_first_hit_is(pred, 0, out.len() as int, q);
}

/// A field that stands in `out` with its colon before `c` stands in
/// `block` too, where the two hold the same bytes before `a`, a colon at
/// `c`, and at `a` the start of a value.
proof fn lemma_field_before_splice(
    block: Seq<u8>,
    out: Seq<u8>,
    key: Seq<u8>,
    r: int,
    c: int,
    a: int,
)
    requires
        same_before(block, out, a),
        0 <= r,
        r + key.len() <= c < a < block.len(),
        a < out.len(),
        block[c] == crate::text::COLON,
        !is_space(out[a]),
        !is_space(block[a]),
        value_span(block, a, Shape::Value) is Some,
        hit_at(out, key, false, Shape::Value, r) is Some,
    ensures
        hit_at(block, key, false, Shape::Value, r) is Some,
{
    lemma_hit_at(out, key, false, Shape::Value, r);
    let k2 = r + key.len();
    let c2 = run_end(out, k2, ByteClass::Space);
    lemma_run_end(out, k2, ByteClass::Space);
    lemma_run_bounded(out, k2, ByteClass::Space, c);
    let v2 = run_end(out, c2 + 1, ByteClass::Space);
    lemma_run_end(out, c2 + 1, ByteClass::Space);
    lemma_run_bounded(out, c2 + 1, ByteClass::Space, a);
    lemma_value_span(out, v2);
    lemma_prefix_agrees(out, block, r, key, a);
    lemma_run_agrees(out, block, k2, ByteClass::Space, a);
    if v2 < a {
        lemma_run_agrees(out, block, c2 + 1, ByteClass::Space, a);
        lemma_value_exists(block, v2);
    } else {
        lemma_run_stops(out, block, c2 + 1, ByteClass::Space, a);
    }
}

/// A text that reads back as one value is the value that starts where it
/// was written over another.
proof fn lemma_value_after_splice(block: Seq<u8>, a: int, b: int, text: Seq<u8>)
    requires
        value_span(block, a, Shape::Value) == Some(((a, b), b)),
        is_inline(text),
        block[a] == QUOTE ==> text[0] == QUOTE,
    ensures
        value_span(splice(block, a, b, text), a, Shape::Value) == Some(
            ((a, a + text.len()), a + text.len()),
        ),
{
    lemma_value_span(block, a);
    let out = splice(block, a, b, text);
    let n = text.len() as int;
    assert forall|i: int| 0 <= i < n implies out[a + i] == text[i] by {}
    if text[0] == QUOTE {
        assert forall|i: int| a + 1 <= i < a + n - 1 implies ByteClass::Quotable.has(
            #[trigger] out[i],
        ) by {
            assert(out[i] == text[i - a]);
        }
        assert(out[a + n - 1] == text[n - 1]);
        lemma_run_end_is(out, a + 1, ByteClass::Quotable, a + n - 1);
    } else {
        let e = run_end(block, a, ByteClass::Plain);
        let d = n - (b - a);
        assert forall|i: int| b <= i < block.len() implies out[i + d] == block[i] by {}
        assert forall|i: int| a <= i < e + d implies ByteClass::Plain.has(#[trigger] out[i]) by {
            if i < a + n {
                assert(out[i] == text[i - a]);
            } else {
                assert(out[i] == block[i - d]);
            }
        }
        lemma_run_end_is(out, a, ByteClass::Plain, e + d);
        assert forall|i: int| a + n <= i < e + d implies ByteClass::Space.has(#[trigger] out[i]) by {
            assert(out[i] == block[i - d]);
        }
        assert(out[a + n - 1] == text[n - 1]);
        lemma_run_start_is(out, e + d, ByteClass::Space, a + n);
    }
}

/// The value of the first field `key` of the unit `class : id`, as an
/// editor replaces it; the empty text where there is no such field.
pub open spec fn field_value(doc: Seq<u8>, class: Seq<u8>, id: Seq<u8>, key: Seq<u8>) -> Seq<u8> {
    match locate(doc, class, id) {
        Ok((s, e)) => match field_span(doc.subrange(s, e), key, Shape::Value) {
            Some((a, b)) => doc.subrange(s + a, s + b),
            None => Seq::<u8>::empty(),
        },
        Err(_) => Seq::<u8>::empty(),
    }
}

/// Whether the first field `key` of the unit `class : id` stands in the
/// unit's body, behind the opening brace, and has a value without braces.
pub open spec fn field_in_body(doc: Seq<u8>, class: Seq<u8>, id: Seq<u8>, key: Seq<u8>) -> bool {
    match locate(doc, class, id) {
        Ok((s, e)) => match field_span(doc.subrange(s, e), key, Shape::Value) {
            Some((a, b)) => header_end(doc, class, id, s).unwrap() <= s + a && no_brace(
                doc,
                s + a,
                s + b,
            ),
            None => false,
        },
        Err(_) => false,
    }
}

/// Whether `t` holds no brace.
pub open spec fn brace_free(t: Seq<u8>) -> bool {
    forall|k: int| 0 <= k < t.len() ==> t[k] != BRACE_OPEN && t[k] != BRACE_CLOSE
}

/// A unit opens where it opened after a stretch of its body gave way to
/// another text.
pub proof fn lemma_start_after_splice(
    doc: Seq<u8>,
    class: Seq<u8>,
    id: Seq<u8>,
    a: int,
    b: int,
    text: Seq<u8>,
)
    requires
        locate(doc, class, id) is Ok,
        no_open_brace(class),
        no_open_brace(id),
        header_end(doc, class, id, locate(doc, class, id).unwrap().0).unwrap() <= a <= b
            <= doc.len(),
    ensures
        ({
            let s = locate(doc, class, id).unwrap().0;
            let out = splice(doc, a, b, text);
            &&& block_start(out, class, id) == s
            &&& header_end(out, class, id, s) == header_end(doc, class, id, s)
        }),
{
    lemma_locate(doc, class, id);
    let (s, e) = locate(doc, class, id).unwrap();
    let hend = header_end(doc, class, id, s).unwrap();
    let out = splice(doc, a, b, text);
    lemma_header_agrees(doc, out, class, id, s, a);
    let pred = header_pred(out, class, id);
    assert forall|q: int| 0 <= q < s implies !#[trigger] pred(q) by {
        if header_end(out, class, id, q) is Some {
            let h2 = header_end(out, class, id, q).unwrap();
            if h2 <= a {
                lemma_header_agrees(out, doc, class, id, q, a);
            } else {
                lemma_header_end(doc, class, id, s);
                lemma_header_brace(out, class, id, q, hend - 1);
            }
        }
    }
    lemma_header_end(out, class, id, s);
    lemma_first_hit_is(pred, 0, out.len() as int, s);
}

/// The braces of a body close where they closed, moved by the change of
/// length, after a stretch without braces gave way to a text without
/// braces.
pub proof fn lemma_close_after_splice(doc: Seq<u8>, from: int, a: int, b: int, text: Seq<u8>)
    requires
        0 <= from <= a <= b <= doc.len(),
        block_close(doc, from, 1) > b,
        no_brace(doc, a, b),
        brace_free(text),
    ensures
        block_close(splice(doc, a, b, text), from, 1) == block_close(doc, from, 1) + text.len() - (b
            - a),
{
    let out = splice(doc, a, b, text);
    let n = text.len() as int;
    let d = n - (b - a);
    let open = lemma_close_agrees(doc, out, from, a, 1);
    assert forall|k: int| a <= k < a + n implies out[k] != BRACE_OPEN && out[k] != BRACE_CLOSE by {}
    lemma_close_skips(doc, a, b, open);
    lemma_close_skips(out, a, a + n, open);
    lemma_close_shifts(doc, out, b, d, b, open);
}

/// A unit is located where it was, its end moved by the change of length,
/// after a stretch of its body without braces gave way to a text without
/// braces.
pub proof fn lemma_locate_after_splice(
    doc: Seq<u8>,
    class: Seq<u8>,
    id: Seq<u8>,
    a: int,
    b: int,
    text: Seq<u8>,
)
    requires
        locate(doc, class, id) is Ok,
        no_open_brace(class),
        no_open_brace(id),
        header_end(doc, class, id, locate(doc, class, id).unwrap().0).unwrap() <= a <= b
            < locate(doc, class, id).unwrap().1,
        no_brace(doc, a, b),
        brace_free(text),
    ensures
        ({
            let (s, e) = locate(doc, class, id).unwrap();
            locate(splice(doc, a, b, text), class, id) == Ok::<(int, int), NotFound>(
                (s, e + text.len() - (b - a)),
            )
        }),
{
    lemma_locate(doc, class, id);
    let (s, e) = locate(doc, class, id).unwrap();
    let hend = header_end(doc, class, id, s).unwrap();
    lemma_start_after_splice(doc, class, id, a, b, text);
    lemma_close_after_splice(doc, hend, a, b, text);
}

/// What holds of the old value of a field that stands in the body of its
/// unit and holds no brace.
pub proof fn lemma_value_in_body(doc: Seq<u8>, class: Seq<u8>, id: Seq<u8>, key: Seq<u8>)
    requires
        field_in_body(doc, class, id, key),
    ensures
        ({
            let (s, e) = locate(doc, class, id).unwrap();
            let block = doc.subrange(s, e);
            let h = next_hit(block, key, false, Shape::Value, 0).unwrap();
            let old = block.subrange(h.value.0, h.value.1);
            &&& 0 <= s < e <= doc.len()
            &&& next_hit(block, key, false, Shape::Value, 0) is Some
            &&& header_end(doc, class, id, s).unwrap() <= s + h.value.0
            &&& 0 < h.value.0 < h.value.1 < block.len()
            &&& old.len() > 0
            &&& !is_space(old[0])
            &&& forall|k: int|
                0 <= k < old.len() ==> !is_line_break(#[trigger] old[k]) && old[k] != BRACE_OPEN
                    && old[k] != BRACE_CLOSE
            &&& old[0] == QUOTE ==> forall|k: int|
                0 < k < old.len() - 1 ==> #[trigger] old[k] != QUOTE
            &&& old[0] == block[h.value.0]
        }),
{
    lemma_locate(doc, class, id);
    let (s, e) = locate(doc, class, id).unwrap();
    let block = doc.subrange(s, e);
    let h = next_hit(block, key, false, Shape::Value, 0).unwrap();
    lemma_next_hit(block, key, false, Shape::Value, 0);
    lemma_hit_at(block, key, false, Shape::Value, h.at);
    let a = h.value.0;
    let b = h.value.1;
    let old = block.subrange(a, b);
    let c = run_end(block, h.at + key.len(), ByteClass::Space);
    lemma_run_end(block, h.at + key.len(), ByteClass::Space);
    lemma_run_end(block, c + 1, ByteClass::Space);
    lemma_value_span(block, a);
    assert(b < block.len()) by {
        assert(block[block.len() - 1] == doc[e - 1]);
        if b == block.len() {
            assert(doc[s + (b - 1)] == block[b - 1]);
        }
    }
    assert forall|k: int| 0 <= k < old.len() implies !is_line_break(#[trigger] old[k]) && old[k]
        != BRACE_OPEN && old[k] != BRACE_CLOSE by {
        assert(old[k] == block[a + k] && block[a + k] == doc[s + a + k]);
    }
    if old[0] == QUOTE {
        assert forall|k: int| 0 < k < old.len() - 1 implies #[trigger] old[k] != QUOTE by {
            assert(old[k] == block[a + k]);
        }
    }
}

/// Replacing a stretch of a block, inside its document, is replacing it
/// in the block.
pub proof fn lemma_splice_in_block(doc: Seq<u8>, s: int, e: int, a: int, b: int, text: Seq<u8>)
    requires
        0 <= s <= s + a <= s + b <= e <= doc.len(),
    ensures
        splice(doc, s + a, s + b, text).subrange(s, e + text.len() - (b - a)) == splice(
            doc.subrange(s, e),
            a,
            b,
            text,
        ),
        splice(doc, s + a, s + b, text).subrange(s + a, s + a + text.len()) == text,
        splice(doc, s + a, s + b, text).len() == doc.len() + text.len() - (b - a),
{
}

/// An edit changes nothing where the field already holds the text that
/// the edit would write.
pub proof fn lemma_edit_keeps(
    doc: Seq<u8>,
    class: Seq<u8>,
    id: Seq<u8>,
    key: Seq<u8>,
    value: Seq<u8>,
    text: Seq<u8>,
)
    requires
        locate(doc, class, id) is Ok,
        ({
            let (s, e) = locate(doc, class, id).unwrap();
            &&& 0 <= s <= e <= doc.len()
            &&& match field_span(doc.subrange(s, e), key, Shape::Value) {
                Some((a, b)) => 0 <= a <= b <= e - s && doc.subrange(s + a, s + b) == text,
                None => false,
            }
        }),
        frame(key, text, value) == text,
    ensures
        edit(doc, class, id, key, value) == Ok::<Seq<u8>, EditError>(doc),
{
    let (s, e) = locate(doc, class, id).unwrap();
    let block = doc.subrange(s, e);
    let (a, b) = field_span(block, key, Shape::Value).unwrap();
    assert(block.subrange(a, b) =~= doc.subrange(s + a, s + b));
    assert(splice(doc, s + a, s + b, text) =~= doc);
}

/// Idempotence: an edit that is made a second time, with the same value,
/// changes nothing any more.
///
/// This holds where the value stays in its line, holds no brace and can
/// be set again over the field's value, where the class and the id hold
/// no opening brace, and where the field stands in the body of its unit
/// with a value that holds no brace. It does not hold without: a value
/// with a line break or a brace, or one that ends with a blank, gives a
/// document in which the second edit finds another value, another field,
/// another unit, or none.
pub proof fn lemma_edit_idempotent(
    doc: Seq<u8>,
    class: Seq<u8>,
    id: Seq<u8>,
    key: Seq<u8>,
    value: Seq<u8>,
)
    requires
        edit(doc, class, id, key, value) is Ok,
        is_one_line(value),
        can_be_set_again(key, field_value(doc, class, id, key), value),
        no_open_brace(class),
        no_open_brace(id),
        field_in_body(doc, class, id, key),
    ensures
        edit(edit(doc, class, id, key, value).unwrap(), class, id, key, value) == edit(
            doc,
            class,
            id,
            key,
            value,
        ),
{
    lemma_value_in_body(doc, class, id, key);
    let (s, e) = locate(doc, class, id).unwrap();
    let block = doc.subrange(s, e);
    let h = next_hit(block, key, false, Shape::Value, 0).unwrap();
    let old = block.subrange(h.value.0, h.value.1);
    assert(old == field_value(doc, class, id, key));
    lemma_frame_again(key, old, value);
    lemma_edit_settles(doc, class, id, key, value, frame(key, old, value));
}

/// After an edit that writes the text `text`, the same edit writes that
/// text over itself.
proof fn lemma_edit_settles(
    doc: Seq<u8>,
    class: Seq<u8>,
    id: Seq<u8>,
    key: Seq<u8>,
    value: Seq<u8>,
    text: Seq<u8>,
)
    requires
        locate(doc, class, id) is Ok,
        no_open_brace(class),
        no_open_brace(id),
        is_inline(text),
        frame(key, text, value) == text,
        ({
            let (s, e) = locate(doc, class, id).unwrap();
            let block = doc.subrange(s, e);
            &&& 0 <= s < e <= doc.len()
            &&& match next_hit(block, key, false, Shape::Value, 0) {
                Some(h) => {
                    &&& header_end(doc, class, id, s).unwrap() <= s + h.value.0
                    &&& 0 < h.value.0 < h.value.1 < block.len()
                    &&& no_brace(doc, s + h.value.0, s + h.value.1)
                    &&& text == frame(key, block.subrange(h.value.0, h.value.1), value)
                },
                None => false,
            }
        }),
    ensures
        edit(doc, class, id, key, value) is Ok,
        edit(edit(doc, class, id, key, value).unwrap(), class, id, key, value) == edit(
            doc,
            class,
            id,
            key,
            value,
        ),
{
    let (s, e) = locate(doc, class, id).unwrap();
    let block = doc.subrange(s, e);
    let h = next_hit(block, key, false, Shape::Value, 0).unwrap();
    let a = h.value.0;
    let b = h.value.1;
    let n = text.len() as int;
    let out = splice(doc, s + a, s + b, text);
    let e2 = e + n - (b - a);
    assert(locate(out, class, id) == Ok::<(int, int), NotFound>((s, e2))) by {
        lemma_locate_after_splice(doc, class, id, s + a, s + b, text);
    }
    assert(field_span(out.subrange(s, e2), key, Shape::Value) == Some((a, a + n))) by {
        lemma_splice_in_block(doc, s, e, a, b, text);
        lemma_field_after_splice(block, key, text);
    }
    assert(out.subrange(s + a, s + a + n) == text && out.len() == doc.len() + n - (b - a)) by {
        lemma_splice_in_block(doc, s, e, a, b, text);
    }
    lemma_edit_keeps(out, class, id, key, value, text);
}

/// A field whose value starts with a digit is a field of digits.
pub proof fn lemma_digits_are_a_line(block: Seq<u8>, key: Seq<u8>, r: int)
    requires
        hit_at(block, key, false, Shape::Digits, r) is Some,
    ensures
        hit_at(block, key, false, Shape::Value, r) is Some,
{
    lemma_hit_at(block, key, false, Shape::Digits, r);
    let v = value_start(block, key, false, r).unwrap().1;
    lemma_run_end(block, v, ByteClass::Digit);
    lemma_value_exists(block, v);
}

/// In a block in which the value of the first field `key` gave way to
/// digits, the first field `key` of digits stands where that field stood,
/// and its value is those digits.
pub proof fn lemma_digits_after_splice(block: Seq<u8>, key: Seq<u8>, digits: Seq<u8>)
    requires
        next_hit(block, key, false, Shape::Value, 0) is Some,
        block[next_hit(block, key, false, Shape::Value, 0).unwrap().value.0] != QUOTE,
        digits.len() > 0,
        crate::extract::all_digits(digits),
    ensures
        ({
            let h = next_hit(block, key, false, Shape::Value, 0).unwrap();
            let out = splice(block, h.value.0, h.value.1, digits);
            crate::extract::field_text(out, key, Shape::Digits) == Some(digits)
        }),
{
    let h = next_hit(block, key, false, Shape::Value, 0).unwrap();
    let a = h.value.0;
    let n = digits.len() as int;
    let out = splice(block, a, h.value.1, digits);
    assert(is_inline(digits)) by {
        assert forall|k: int| 0 <= k < digits.len() implies {
            &&& !is_line_break(#[trigger] digits[k])
            &&& digits[k] != BRACE_OPEN
            &&& digits[k] != BRACE_CLOSE
        } by {}
        assert(ByteClass::Digit.has(digits[0]) && ByteClass::Digit.has(digits.last()));
    }
    lemma_field_after_splice(block, key, digits);
    let line = next_hit(out, key, false, Shape::Value, 0).unwrap();
    lemma_next_hit(out, key, false, Shape::Value, 0);
    let q = line.at;
    lemma_hit_at(out, key, false, Shape::Value, q);
    lemma_next_hit(block, key, false, Shape::Value, 0);
    lemma_hit_at(block, key, false, Shape::Value, h.at);
    lemma_value_span(block, a);
    assert forall|i: int| a <= i < a + n implies ByteClass::Digit.has(#[trigger] out[i]) by {}
    assert(a + n < out.len() ==> !ByteClass::Digit.has(out[a + n])) by {
        if a + n < out.len() {
            assert(out[a + n] == block[h.value.1]);
        }
    }
    lemma_run_end_is(out, a, ByteClass::Digit, a + n);
    assert(hit_at(out, key, false, Shape::Digits, q) == Some(
        Hit { at: q, index: line.index, value: (a, a + n), end: a + n },
    ));
    let pred = crate::field::hit_pred(out, key, false, Shape::Digits);
    assert forall|r: int| 0 <= r < q implies !#[trigger] pred(r) by {
        if hit_at(out, key, false, Shape::Digits, r) is Some {
            lemma_digits_are_a_line(out, key, r);
        }
    }
    lemma_first_hit_is(pred, 0, out.len() as int, q);
}

/// What is written is what is read: after a field that held no quoted
/// text is set to the decimal digits of a number, the field reads as that
/// number.
pub proof fn lemma_edit_then_read(
    doc: Seq<u8>,
    class: Seq<u8>,
    id: Seq<u8>,
    key: Seq<u8>,
    number: nat,
)
    requires
        number <= i64::MAX,
        edit(doc, class, id, key, crate::vehicle_editor::digits_of(number)) is Ok,
        no_open_brace(class),
        no_open_brace(id),
        field_in_body(doc, class, id, key),
        ({
            let (s, e) = locate(doc, class, id).unwrap();
            let (a, b) = field_span(doc.subrange(s, e), key, Shape::Value).unwrap();
            doc[s + a] != QUOTE
        }),
    ensures
        ({
            let out = edit(doc, class, id, key, crate::vehicle_editor::digits_of(number)).unwrap();
            &&& locate(out, class, id) is Ok
            &&& crate::extract::int_field(
                out.subrange(locate(out, class, id).unwrap().0, locate(out, class, id).unwrap().1),
                key,
            ) == Some(number as i64)
        }),
{
    let value = crate::vehicle_editor::digits_of(number);
    crate::vehicle_editor::lemma_digits_round_trip(number);
    lemma_value_in_body(doc, class, id, key);
    let (s, e) = locate(doc, class, id).unwrap();
    let block = doc.subrange(s, e);
    let h = next_hit(block, key, false, Shape::Value, 0).unwrap();
    let a = h.value.0;
    let b = h.value.1;
    let out = splice(doc, s + a, s + b, value);
    let e2 = e + value.len() - (b - a);
    assert(locate(out, class, id) == Ok::<(int, int), NotFound>((s, e2))) by {
        assert(brace_free(value)) by {
            assert forall|k: int| 0 <= k < value.len() implies value[k] != BRACE_OPEN && value[k]
                != BRACE_CLOSE by {}
        }
        lemma_locate_after_splice(doc, class, id, s + a, s + b, value);
    }
    assert(crate::extract::field_text(out.subrange(s, e2), key, Shape::Digits) == Some(value)) by {
        lemma_splice_in_block(doc, s, e, a, b, value);
        lemma_digits_after_splice(block, key, value);
    }
}

} // verus!
