//! What stands behind an edit moves with it: a unit behind the value that
//! gave way is the same unit, moved by the change of length, and the
//! text that was written opens no unit of its own where neither the key
//! nor that text spells the unit's class.

use vstd::prelude::*;
use crate::edit::edit;
use crate::edit_laws::{
    brace_free, can_be_set_again, field_in_body, field_value, is_one_line, lemma_close_shifts,
    lemma_frame_again, lemma_value_in_body, no_brace, no_open_brace, same_behind,
};
use crate::field::{lemma_hit_at, lemma_next_hit, lemma_value_span, next_hit, Shape};
use crate::locate::{lemma_locate, locate};
use crate::resolve::{kw_player, player_vehicle};
use crate::resolve_laws::{
    edit_site, lemma_edit_site, lemma_player_edit_settles, lemma_unit_stood_before,
};
use crate::vehicle_editor::player_edit;
use crate::text::{
    has_prefix_at, is_space, is_word_byte, lemma_first_hit, lemma_first_hit_is, lemma_run_end,
    run_end, splice, starts_word, ByteClass, BRACE_OPEN, COLON, QUOTE,
};
use crate::units::{lemma_unit_at, next_unit, unit_at, unit_header, unit_pred, Unit};

verus! {

/// The unit `u`, moved by `d` bytes.
pub open spec fn moved(u: Unit, d: int) -> Unit {
    Unit {
        id: (u.id.0 + d, u.id.1 + d),
        body: (u.body.0 + d, u.body.1 + d),
        span: (u.span.0 + d, u.span.1 + d),
    }
}

/// Whether `class` is a word: letters, digits and underscores, and not
/// empty.
pub open spec fn is_a_word(class: Seq<u8>) -> bool {
    &&& class.len() > 0
    &&& forall|k: int| 0 <= k < class.len() ==> is_word_byte(#[trigger] class[k])
}

/// Whether `key` ends with `class`.
pub open spec fn ends_with(key: Seq<u8>, class: Seq<u8>) -> bool {
    key.len() >= class.len() && key.subrange(key.len() - class.len(), key.len() as int) == class
}

/// Whether `class` stands somewhere in `t`.
pub open spec fn spells(t: Seq<u8>, class: Seq<u8>) -> bool {
    exists|i: int| has_prefix_at(t, i, class)
}

/// Whether `[a, b)` is the value of a field of `doc` whose key `key`
/// starts at `q` and whose colon stands at `c`, and `text` a text to take
/// its place: neither holds a brace, and what follows the value cannot go
/// on a word that the text ends with.
pub open spec fn is_value_site(
    doc: Seq<u8>,
    key: Seq<u8>,
    q: int,
    c: int,
    a: int,
    b: int,
    text: Seq<u8>,
) -> bool {
    &&& 0 <= q
    &&& key.len() > 0
    &&& !is_space(key.last())
    &&& q + key.len() <= c < a < b <= doc.len()
    &&& has_prefix_at(doc, q, key)
    &&& starts_word(doc, q)
    &&& forall|k: int| q + key.len() <= k < c ==> is_space(#[trigger] doc[k])
    &&& doc[c] == COLON
    &&& forall|k: int| c < k < a ==> is_space(#[trigger] doc[k])
    &&& no_brace(doc, a, b)
    &&& text.len() > 0
    &&& brace_free(text)
    &&& b == doc.len() || !is_word_byte(doc[b]) || (doc[b - 1] == QUOTE && text.last() == QUOTE)
}

/// A run behind a shift ends at the shifted place.
pub proof fn lemma_run_shifts(x: Seq<u8>, y: Seq<u8>, from: int, d: int, j: int, c: ByteClass)
    requires
        same_behind(x, y, from, d),
        from <= j <= x.len(),
    ensures
        run_end(y, j + d, c) == run_end(x, j, c) + d,
    decreases x.len() - j,
{
    if j < x.len() {
        assert(y[j + d] == x[j]);
        if c.has(x[j]) {
            lemma_run_shifts(x, y, from, d, j + 1, c);
        }
    }
}

/// A unit behind a shift is a unit at the shifted place, where a word can
/// start there.
pub proof fn lemma_unit_shifts(x: Seq<u8>, y: Seq<u8>, class: Seq<u8>, from: int, d: int, q: int)
    requires
        same_behind(x, y, from, d),
        from <= q,
        unit_at(x, class, q) is Some,
        starts_word(y, q + d),
    ensures
        unit_at(y, class, q + d) == Some(moved(unit_at(x, class, q).unwrap(), d)),
{
    lemma_unit_at(x, class, q);
    let p = q + class.len();
    let a1 = run_end(x, p, ByteClass::Space);
    lemma_run_end(x, p, ByteClass::Space);
    let b1 = run_end(x, a1 + 1, ByteClass::Space);
    lemma_run_end(x, a1 + 1, ByteClass::Space);
    let i1 = run_end(x, b1, ByteClass::Ident);
    lemma_run_end(x, b1, ByteClass::Ident);
    let c1 = run_end(x, i1, ByteClass::Space);
    lemma_run_end(x, i1, ByteClass::Space);
    assert(y.subrange(q + d, p + d) =~= x.subrange(q, p)) by {
        assert forall|k: int| q <= k < p implies #[trigger] x[k] == y[k + d] by {}
    }
    lemma_run_shifts(x, y, from, d, p, ByteClass::Space);
    assert(y[a1 + d] == x[a1]);
    lemma_run_shifts(x, y, from, d, a1 + 1, ByteClass::Space);
    lemma_run_shifts(x, y, from, d, b1, ByteClass::Ident);
    lemma_run_shifts(x, y, from, d, i1, ByteClass::Space);
    assert(y[c1 + d] == x[c1]);
    lemma_close_shifts(x, y, from, d, c1 + 1, 1);
}

/// What the opening of a unit is made of: the class, whitespace, a
/// colon, whitespace, an id, whitespace, and the brace.
pub proof fn lemma_unit_header_parts(x: Seq<u8>, class: Seq<u8>, q: int)
    requires
        unit_header(x, class, q) is Some,
    ensures
        ({
            let p = q + class.len();
            let a1 = run_end(x, p, ByteClass::Space);
            let b1 = run_end(x, a1 + 1, ByteClass::Space);
            let i1 = run_end(x, b1, ByteClass::Ident);
            let c1 = unit_header(x, class, q).unwrap().1 - 1;
            &&& 0 <= q <= p <= a1 < b1 < i1 <= c1 < x.len()
            &&& starts_word(x, q)
            &&& forall|k: int| q <= k < p ==> #[trigger] x[k] == class[k - q]
            &&& forall|k: int| p <= k < a1 ==> is_space(#[trigger] x[k])
            &&& x[a1] == COLON
            &&& forall|k: int| a1 < k < b1 ==> is_space(#[trigger] x[k])
            &&& forall|k: int| b1 <= k < i1 ==> ByteClass::Ident.has(#[trigger] x[k])
            &&& forall|k: int| i1 <= k < c1 ==> is_space(#[trigger] x[k])
            &&& x[c1] == BRACE_OPEN
        }),
{
    let p = q + class.len();
    let a1 = run_end(x, p, ByteClass::Space);
    lemma_run_end(x, p, ByteClass::Space);
    let b1 = run_end(x, a1 + 1, ByteClass::Space);
    lemma_run_end(x, a1 + 1, ByteClass::Space);
    let i1 = run_end(x, b1, ByteClass::Ident);
    lemma_run_end(x, b1, ByteClass::Ident);
    lemma_run_end(x, i1, ByteClass::Space);
    assert forall|k: int| q <= k < p implies #[trigger] x[k] == class[k - q] by {
        assert(x.subrange(q, p)[k - q] == x[k]);
    }
}

/// No opening of a unit of class `class` starts before the end of a text
/// that took the place of a field's value and ends behind the start of
/// that text, where neither the key ends with the class nor the text
/// holds it.
pub proof fn lemma_no_opening_over_site(
    doc: Seq<u8>,
    class: Seq<u8>,
    key: Seq<u8>,
    qf: int,
    c: int,
    a: int,
    b: int,
    text: Seq<u8>,
    q: int,
)
    requires
        is_value_site(doc, key, qf, c, a, b, text),
        is_a_word(class),
        !ends_with(key, class),
        !spells(text, class),
        q < a + text.len(),
        unit_header(splice(doc, a, b, text), class, q) is Some,
    ensures
        unit_header(splice(doc, a, b, text), class, q).unwrap().1 <= a,
{
    let out = splice(doc, a, b, text);
    let n = text.len() as int;
    let body2 = unit_header(out, class, q).unwrap().1;
    if body2 > a {
        lemma_unit_header_parts(out, class, q);
        let p = q + class.len();
        let a1 = run_end(out, p, ByteClass::Space);
        let b1 = run_end(out, a1 + 1, ByteClass::Space);
        let i1 = run_end(out, b1, ByteClass::Ident);
        let c1 = body2 - 1;
        assert forall|k: int| 0 <= k < a implies out[k] == doc[k] by {}
        assert forall|k: int| 0 <= k < n implies out[a + k] == text[k] by {}
        assert(out[q] == class[0]);
        assert(is_word_byte(class[0]));
        assert(out[p - 1] == class[class.len() - 1]);
        assert(is_word_byte(class[class.len() - 1]));
        if q >= a {
            lemma_word_in_text(doc, class, a, b, text, q);
        } else if q >= c {
            // A colon, or whitespace, where the class would start.
            assert(out[q] == doc[q]);
        } else {
            // The colon of the field is the colon of the opening.
            assert(out[c] == doc[c]);
            assert(c1 >= a) by {}
            if c < p {
                assert(out[c] == class[c - q]);
                assert(is_word_byte(class[c - q]));
            }
            assert(c == a1);
            let e2 = qf + key.len();
            assert(doc.subrange(qf, e2)[key.len() - 1] == doc[e2 - 1]);
            if p < e2 {
                assert(out[e2 - 1] == doc[e2 - 1]);
                assert(is_space(out[e2 - 1]));
            } else if p > e2 {
                assert(out[p - 1] == doc[p - 1]);
                assert(is_space(doc[p - 1]));
            } else if class.len() <= key.len() {
                assert(key.subrange(key.len() - class.len(), key.len() as int) =~= class) by {
                    assert forall|k: int| 0 <= k < class.len() implies key[key.len() - class.len()
                        + k] == #[trigger] class[k] by {
                        assert(doc.subrange(qf, e2)[key.len() - class.len() + k] == doc[q + k]);
                        assert(out[q + k] == doc[q + k]);
                    }
                }
            } else {
                assert(out[qf - 1] == class[qf - 1 - q]);
                assert(is_word_byte(class[qf - 1 - q]));
                assert(out[qf - 1] == doc[qf - 1]);
            }
        }
    }
}

/// The class of a unit does not start inside a text that does not hold
/// it, nor go on behind that text where what follows cannot go on a word.
proof fn lemma_word_in_text(doc: Seq<u8>, class: Seq<u8>, a: int, b: int, text: Seq<u8>, q: int)
    requires
        0 <= a <= b <= doc.len(),
        text.len() > 0,
        b == doc.len() || !is_word_byte(doc[b]) || text.last() == QUOTE,
        is_a_word(class),
        !spells(text, class),
        a <= q < a + text.len(),
    ensures
        !has_prefix_at(splice(doc, a, b, text), q, class),
{
    let out = splice(doc, a, b, text);
    let n = text.len() as int;
    let p = q + class.len();
    if has_prefix_at(out, q, class) {
        assert forall|k: int| 0 <= k < n implies out[a + k] == text[k] by {}
        assert forall|k: int| q <= k < p implies #[trigger] out[k] == class[k - q] by {
            assert(out.subrange(q, p)[k - q] == out[k]);
        }
        if p <= a + n {
            assert(text.subrange(q - a, p - a) =~= out.subrange(q, p));
            assert(has_prefix_at(text, q - a, class));
        } else {
            assert(out[a + n - 1] == class[a + n - 1 - q]);
            assert(is_word_byte(class[a + n - 1 - q]));
            assert(out[a + n] == class[a + n - q]);
            assert(is_word_byte(class[a + n - q]));
            assert(out[a + n] == doc[b]);
        }
    }
}

/// The first unit of a class that stands behind a field's value is the
/// first unit of that class, moved by the change of length, after the
/// value gave way to a text, where neither the key ends with the class
/// nor the text holds it.
pub proof fn lemma_first_unit_behind_site(
    doc: Seq<u8>,
    class: Seq<u8>,
    key: Seq<u8>,
    qf: int,
    c: int,
    a: int,
    b: int,
    text: Seq<u8>,
)
    requires
        is_value_site(doc, key, qf, c, a, b, text),
        is_a_word(class),
        !ends_with(key, class),
        !spells(text, class),
        next_unit(doc, class, 0) is Some,
        b < next_unit(doc, class, 0).unwrap().span.0,
    ensures
        next_unit(splice(doc, a, b, text), class, 0) == Some(
            moved(next_unit(doc, class, 0).unwrap(), text.len() - (b - a)),
        ),
{
    let pred = unit_pred(doc, class);
    lemma_first_hit(pred, 0, doc.len() as int);
    let u = next_unit(doc, class, 0).unwrap();
    let p0 = u.span.0;
    lemma_unit_at(doc, class, p0);
    let out = splice(doc, a, b, text);
    let n = text.len() as int;
    let d = n - (b - a);
    assert(same_behind(doc, out, b, d));
    assert(same_behind(out, doc, a + n, -d)) by {
        assert forall|k: int| a + n <= k < out.len() implies doc[k + (-d)] == out[k] by {
            assert(out[(k - d) + d] == doc[k - d]);
        }
    }
    assert(unit_at(out, class, p0 + d) == Some(moved(u, d))) by {
        crate::units::lemma_unit_opening_starts_word(doc, class, p0);
        assert(out[(p0 - 1) + d] == doc[p0 - 1]);
        lemma_unit_shifts(doc, out, class, b, d, p0);
    }
    let pout = unit_pred(out, class);
    assert forall|q: int| 0 <= q < p0 + d implies !#[trigger] pout(q) by {
        if unit_at(out, class, q) is Some {
            if q >= a + n {
                lemma_unit_behind_stood(doc, class, a, b, text, q);
                assert(pred(q - d));
            } else {
                lemma_no_opening_over_site(doc, class, key, qf, c, a, b, text, q);
                lemma_unit_stood_before(doc, class, a, b, text, q);
                lemma_unit_at(out, class, q);
                assert(q < a);
                assert(pred(q));
            }
        }
    }
    lemma_first_hit_is(pout, 0, out.len() as int, p0 + d);
}

/// A unit that stands behind a text that took the place of another stood
/// behind that other text.
proof fn lemma_unit_behind_stood(doc: Seq<u8>, class: Seq<u8>, a: int, b: int, text: Seq<u8>, q: int)
    requires
        0 <= a < b <= doc.len(),
        text.len() > 0,
        b == doc.len() || !is_word_byte(doc[b]) || (doc[b - 1] == QUOTE && text.last() == QUOTE),
        is_a_word(class),
        a + text.len() <= q,
        unit_at(splice(doc, a, b, text), class, q) is Some,
    ensures
        unit_at(doc, class, q - (text.len() - (b - a))) is Some,
{
    let out = splice(doc, a, b, text);
    let n = text.len() as int;
    let d = n - (b - a);
    assert(same_behind(out, doc, a + n, -d)) by {
        assert forall|k: int| a + n <= k < out.len() implies doc[k + (-d)] == out[k] by {}
    }
    lemma_unit_header_parts(out, class, q);
    assert(out[q] == class[0]);
    assert(starts_word(doc, q - d)) by {
        if q == a + n {
            assert(out[a + n] == doc[b]);
            assert(out[a + n - 1] == text[n - 1]);
        } else {
            assert(out[q - 1] == doc[q - 1 - d]);
        }
    }
    lemma_unit_shifts(out, doc, class, a + n, -d, q);
}

/// The class of the player unit is a word.
pub proof fn lemma_player_is_a_word()
    ensures
        is_a_word(kw_player()),
{
    reveal_strlit("player");
    let w = kw_player();
    assert(w.len() == 6);
    assert forall|k: int| 0 <= k < w.len() implies is_word_byte(#[trigger] w[k]) by {
        assert(w[0] == 112 && w[1] == 108 && w[2] == 97 && w[3] == 121 && w[4] == 101 && w[5]
            == 114);
    }
}

/// What an edit writes it writes over the value of a field: the key
/// starts at the first offset given and its colon stands at the second.
pub proof fn lemma_edit_is_value_site(
    doc: Seq<u8>,
    class: Seq<u8>,
    id: Seq<u8>,
    key: Seq<u8>,
    value: Seq<u8>,
) -> (r: (int, int))
    requires
        edit(doc, class, id, key, value) is Ok,
        is_one_line(value),
        can_be_set_again(key, field_value(doc, class, id, key), value),
        field_in_body(doc, class, id, key),
        key.len() > 0,
        !is_space(key.last()),
    ensures
        ({
            let (a, b, text) = edit_site(doc, class, id, key, value);
            is_value_site(doc, key, r.0, r.1, a, b, text)
        }),
{
    lemma_edit_site(doc, class, id, key, value);
    lemma_value_in_body(doc, class, id, key);
    lemma_locate(doc, class, id);
    let (s, e) = locate(doc, class, id).unwrap();
    let block = doc.subrange(s, e);
    let h = next_hit(block, key, false, Shape::Value, 0).unwrap();
    lemma_next_hit(block, key, false, Shape::Value, 0);
    lemma_hit_at(block, key, false, Shape::Value, h.at);
    let kq = h.at + key.len();
    let cb = run_end(block, kq, ByteClass::Space);
    lemma_run_end(block, kq, ByteClass::Space);
    let vb = run_end(block, cb + 1, ByteClass::Space);
    lemma_run_end(block, cb + 1, ByteClass::Space);
    lemma_value_span(block, vb);
    let (a, b, text) = edit_site(doc, class, id, key, value);
    let old = block.subrange(h.value.0, h.value.1);
    let qf = s + h.at;
    let c = s + cb;
    assert forall|k: int| 0 <= k < block.len() implies #[trigger] block[k] == doc[s + k] by {}
    assert(has_prefix_at(doc, qf, key)) by {
        assert(doc.subrange(qf, qf + key.len()) =~= block.subrange(h.at, kq));
    }
    assert(starts_word(doc, qf)) by {
        if h.at > 0 {
            assert(block[h.at - 1] == doc[s + (h.at - 1)]);
        }
    }
    assert forall|k: int| qf + key.len() <= k < c implies is_space(#[trigger] doc[k]) by {
        assert(block[k - s] == doc[s + (k - s)]);
    }
    assert forall|k: int| c < k < a implies is_space(#[trigger] doc[k]) by {
        assert(block[k - s] == doc[s + (k - s)]);
    }
    assert(doc[c] == COLON) by {
        assert(block[cb] == doc[s + cb]);
    }
    assert(text.len() > 0 && (old[0] == QUOTE ==> text.last() == QUOTE)) by {
        assert(old =~= field_value(doc, class, id, key));
        lemma_frame_again(key, old, value);
    }
    assert(b == doc.len() || !is_word_byte(doc[b]) || (doc[b - 1] == QUOTE && text.last()
        == QUOTE)) by {
        assert(block[h.value.1] == doc[s + h.value.1]);
        assert(block[h.value.1 - 1] == doc[s + (h.value.1 - 1)]);
        assert(old[0] == block[h.value.0]);
    }
    (qf, c)
}

/// Whether the unit `class : id` stands before the first player unit of
/// the document.
pub open spec fn stands_before_player(doc: Seq<u8>, class: Seq<u8>, id: Seq<u8>) -> bool {
    match (next_unit(doc, kw_player(), 0), locate(doc, class, id)) {
        (Some(u), Ok((_, e))) => e <= u.span.0,
        _ => false,
    }
}

/// What the player names under `slot`, as an edit resolves it, is what
/// it was after the value of a field before the player's unit gave way to
/// a text, where neither the key ends with `player` nor the text holds
/// that word.
pub proof fn lemma_player_vehicle_behind_site(
    doc: Seq<u8>,
    key: Seq<u8>,
    qf: int,
    c: int,
    a: int,
    b: int,
    text: Seq<u8>,
    slot: Seq<u8>,
)
    requires
        is_value_site(doc, key, qf, c, a, b, text),
        !ends_with(key, kw_player()),
        !spells(text, kw_player()),
        next_unit(doc, kw_player(), 0) is Some,
        b < next_unit(doc, kw_player(), 0).unwrap().span.0,
    ensures
        player_vehicle(splice(doc, a, b, text), slot) == player_vehicle(doc, slot),
{
    let out = splice(doc, a, b, text);
    let d = text.len() - (b - a);
    let u = next_unit(doc, kw_player(), 0).unwrap();
    assert(next_unit(out, kw_player(), 0) == Some(moved(u, d))) by {
        lemma_player_is_a_word();
        lemma_first_unit_behind_site(doc, kw_player(), key, qf, c, a, b, text);
    }
    assert(out.subrange(u.span.0 + d, u.span.1 + d) =~= doc.subrange(u.span.0, u.span.1)) by {
        lemma_first_hit(unit_pred(doc, kw_player()), 0, doc.len() as int);
        lemma_unit_at(doc, kw_player(), u.span.0);
    }
}

/// An edit of a unit that stands before the player's unit changes
/// nothing by which an edit resolves the player's vehicles, where
/// neither the key ends with `player` nor the text that is written holds
/// that word: what the player names under `slot` is what it was.
pub proof fn lemma_edit_before_player_keeps_vehicle(
    doc: Seq<u8>,
    class: Seq<u8>,
    id: Seq<u8>,
    key: Seq<u8>,
    value: Seq<u8>,
    slot: Seq<u8>,
)
    requires
        edit(doc, class, id, key, value) is Ok,
        is_one_line(value),
        can_be_set_again(key, field_value(doc, class, id, key), value),
        field_in_body(doc, class, id, key),
        stands_before_player(doc, class, id),
        key.len() > 0,
        !is_space(key.last()),
        !ends_with(key, kw_player()),
        !spells(edit_site(doc, class, id, key, value).2, kw_player()),
    ensures
        player_vehicle(edit(doc, class, id, key, value).unwrap(), slot) == player_vehicle(doc, slot),
{
    let (qf, c) = lemma_edit_is_value_site(doc, class, id, key, value);
    lemma_edit_site(doc, class, id, key, value);
    let (a, b, text) = edit_site(doc, class, id, key, value);
    lemma_player_vehicle_behind_site(doc, key, qf, c, a, b, text, slot);
}

/// Idempotence of an edit of the player's vehicle whose unit stands
/// before the player's unit: made a second time, with the same value, it
/// changes nothing any more.
///
/// This holds where an edit of the vehicle's unit is idempotent, where
/// the class holds no opening brace, and where neither the key ends with
/// the word `player` nor the text that is written holds it. It does not
/// hold without the last: a field `player: x y` that is set to `p`, with
/// a block `{ }` in the next line, makes the text of an opening
/// `player : p {`, and the second edit takes that text for the player's
/// unit.
pub proof fn lemma_player_edit_idempotent_before(
    doc: Seq<u8>,
    class: Seq<u8>,
    slot: Seq<u8>,
    field: Seq<u8>,
    value: Seq<u8>,
)
    requires
        player_edit(doc, class, slot, field, value) is Ok,
        is_one_line(value),
        no_open_brace(class),
        field.len() > 0,
        !is_space(field.last()),
        !ends_with(field, kw_player()),
        ({
            let id = player_vehicle(doc, slot).unwrap();
            &&& can_be_set_again(field, field_value(doc, class, id, field), value)
            &&& field_in_body(doc, class, id, field)
            &&& stands_before_player(doc, class, id)
            &&& !spells(edit_site(doc, class, id, field, value).2, kw_player())
        }),
    ensures
        player_edit(player_edit(doc, class, slot, field, value).unwrap(), class, slot, field, value)
            == player_edit(doc, class, slot, field, value),
{
    let id = player_vehicle(doc, slot).unwrap();
    lemma_edit_before_player_keeps_vehicle(doc, class, id, field, value, slot);
    lemma_player_edit_settles(doc, class, slot, field, value);
}

} // verus!
