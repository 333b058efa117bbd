//! What an edit of the player's vehicle leaves as it was: the units that
//! stand before the edited value, and so the references that lead to the
//! vehicle.

use vstd::prelude::*;
use crate::edit::{edit, field_span, frame, EditError};
use crate::edit_laws::{
    brace_free, can_be_set_again, field_in_body, field_value, is_one_line, lemma_close_after_splice,
    lemma_edit_idempotent, lemma_frame_again, lemma_prefix_agrees, lemma_run_agrees,
    lemma_start_after_splice, lemma_value_in_body, no_brace, no_open_brace, same_before,
};
use crate::extract::field_text;
use crate::field::{lemma_hit_at, lemma_next_hit, next_hit, Shape};
use crate::locate::{block_close, header_end, lemma_block_close, lemma_locate, locate};
use crate::resolve::{
    kw_economy, kw_player, kw_trailer, kw_truck, player_id, player_reference, player_vehicle,
    player_vehicles,
};
use crate::text::{
    lemma_first_hit, lemma_first_hit_is, lemma_run_end, run_end, splice, ByteClass, BRACE_CLOSE,
    BRACE_OPEN,
};
use crate::units::{lemma_unit_at, next_unit, unit_at, unit_header, unit_pred};
use crate::vehicle_editor::player_edit;

verus! {

/// A body that is closed before `m` is closed at the same place in a
/// sequence that holds the same bytes before `m`.
pub proof fn lemma_close_before(x: Seq<u8>, y: Seq<u8>, i: int, m: int, depth: nat)
    requires
        same_before(x, y, m),
        0 <= i,
        depth >= 1,
        0 <= block_close(x, i, depth) <= m,
    ensures
        block_close(y, i, depth) == block_close(x, i, depth),
    decreases x.len() - i,
{
    lemma_block_close(x, i, depth);
    if i < x.len() {
        if x[i] == BRACE_OPEN {
            lemma_close_before(x, y, i + 1, m, depth + 1);
        } else if x[i] == BRACE_CLOSE {
            if depth > 1 {
                lemma_close_before(x, y, i + 1, m, (depth - 1) as nat);
            }
        } else {
            lemma_close_before(x, y, i + 1, m, depth);
        }
    }
}

/// A unit that ends before a stretch of the document is located where it
/// was after that stretch gave way to another text.
pub proof fn lemma_locate_before_splice(
    doc: Seq<u8>,
    class: Seq<u8>,
    id: Seq<u8>,
    a: int,
    b: int,
    text: Seq<u8>,
)
    requires
        locate(doc, class, id) is Ok,
        no_open_brace(class),
        no_open_brace(id),
        locate(doc, class, id).unwrap().1 <= a <= b <= doc.len(),
    ensures
        locate(splice(doc, a, b, text), class, id) == locate(doc, class, id),
{
    lemma_locate(doc, class, id);
    let (s, e) = locate(doc, class, id).unwrap();
    let hend = header_end(doc, class, id, s).unwrap();
    let out = splice(doc, a, b, text);
    lemma_start_after_splice(doc, class, id, a, b, text);
    assert(same_before(doc, out, a));
    lemma_close_before(doc, out, hend, a, 1);
}

/// An opening of a unit that ends before `m` is an opening in a sequence
/// that holds the same bytes before `m`.
pub proof fn lemma_unit_header_agrees(x: Seq<u8>, y: Seq<u8>, class: Seq<u8>, q: int, m: int)
    requires
        same_before(x, y, m),
        unit_header(x, class, q) is Some,
        unit_header(x, class, q).unwrap().1 <= m,
    ensures
        unit_header(y, class, q) == unit_header(x, class, q),
{
    let p = q + class.len();
    lemma_run_end(x, p, ByteClass::Space);
    let a = run_end(x, p, ByteClass::Space);
    lemma_run_end(x, a + 1, ByteClass::Space);
    let b = run_end(x, a + 1, ByteClass::Space);
    lemma_run_end(x, b, ByteClass::Ident);
    let i = run_end(x, b, ByteClass::Ident);
    lemma_run_end(x, i, ByteClass::Space);
    lemma_prefix_agrees(x, y, q, class, m);
    lemma_run_agrees(x, y, p, ByteClass::Space, m);
    lemma_run_agrees(x, y, a + 1, ByteClass::Space, m);
    lemma_run_agrees(x, y, b, ByteClass::Ident, m);
    lemma_run_agrees(x, y, i, ByteClass::Space, m);
}

/// In the opening of a unit whose class holds no brace, the brace that
/// ends it is the only one.
pub proof fn lemma_unit_header_brace(x: Seq<u8>, class: Seq<u8>, q: int, k: int)
    requires
        unit_header(x, class, q) is Some,
        q <= k < unit_header(x, class, q).unwrap().1 - 1,
        no_open_brace(class),
    ensures
        x[k] != BRACE_OPEN,
{
    let p = q + class.len();
    lemma_run_end(x, p, ByteClass::Space);
    let a = run_end(x, p, ByteClass::Space);
    lemma_run_end(x, a + 1, ByteClass::Space);
    let b = run_end(x, a + 1, ByteClass::Space);
    lemma_run_end(x, b, ByteClass::Ident);
    let i = run_end(x, b, ByteClass::Ident);
    lemma_run_end(x, i, ByteClass::Space);
    if k < p {
        assert(x.subrange(q, p)[k - q] == x[k]);
    }
}

/// A unit that stands in the document after a stretch of it, which held
/// no brace, gave way to a text that holds none, stood there before,
/// where its opening ends before the stretch.
pub proof fn lemma_unit_stood_before(
    doc: Seq<u8>,
    class: Seq<u8>,
    a: int,
    b: int,
    text: Seq<u8>,
    q: int,
)
    requires
        0 <= a <= b <= doc.len(),
        no_brace(doc, a, b),
        brace_free(text),
        unit_at(splice(doc, a, b, text), class, q) is Some,
        unit_header(splice(doc, a, b, text), class, q).unwrap().1 <= a,
    ensures
        unit_at(doc, class, q) is Some,
{
    let out = splice(doc, a, b, text);
    let n = text.len() as int;
    assert(same_before(out, doc, a));
    lemma_unit_at(out, class, q);
    let body2 = unit_header(out, class, q).unwrap().1;
    let e2 = block_close(out, body2, 1);
    lemma_unit_header_agrees(out, doc, class, q, a);
    lemma_block_close(out, body2, 1);
    if e2 <= a {
        lemma_close_before(out, doc, body2, a, 1);
    } else {
        assert(e2 - 1 >= a + n) by {
            if e2 - 1 < a + n {
                assert(out[e2 - 1] == text[e2 - 1 - a]);
            }
        }
        let old = doc.subrange(a, b);
        assert(no_brace(out, a, a + n)) by {
            assert forall|k: int| a <= k < a + n implies out[k] != BRACE_OPEN && out[k]
                != BRACE_CLOSE by {
                assert(out[k] == text[k - a]);
            }
        }
        assert(brace_free(old)) by {
            assert forall|k: int| 0 <= k < old.len() implies old[k] != BRACE_OPEN && old[k]
                != BRACE_CLOSE by {
                assert(old[k] == doc[a + k]);
            }
        }
        lemma_close_after_splice(out, body2, a, a + n, old);
        assert(splice(out, a, a + n, old) =~= doc);
    }
}

/// The first unit of a class that ends before a stretch of the document
/// is the first unit of that class after the stretch, which held no
/// brace, gave way to a text that holds none.
pub proof fn lemma_unit_before_splice(doc: Seq<u8>, class: Seq<u8>, a: int, b: int, text: Seq<u8>)
    requires
        next_unit(doc, class, 0) is Some,
        next_unit(doc, class, 0).unwrap().span.1 <= a <= b <= doc.len(),
        no_open_brace(class),
        no_brace(doc, a, b),
        brace_free(text),
    ensures
        next_unit(splice(doc, a, b, text), class, 0) == next_unit(doc, class, 0),
{
    let pred = unit_pred(doc, class);
    lemma_first_hit(pred, 0, doc.len() as int);
    let u = next_unit(doc, class, 0).unwrap();
    let p0 = u.span.0;
    lemma_unit_at(doc, class, p0);
    let out = splice(doc, a, b, text);
    assert(same_before(doc, out, a));
    assert(unit_at(out, class, p0) == Some(u)) by {
        lemma_unit_header_agrees(doc, out, class, p0, a);
        lemma_close_before(doc, out, u.body.0, a, 1);
    }
    let pout = unit_pred(out, class);
    assert forall|q: int| 0 <= q < p0 implies !#[trigger] pout(q) by {
        if unit_at(out, class, q) is Some {
            assert(!pred(q));
            if unit_header(out, class, q).unwrap().1 <= a {
                lemma_unit_stood_before(doc, class, a, b, text, q);
            } else {
                // The opening would hold the brace that opens the first unit.
                assert(out[u.body.0 - 1] == doc[u.body.0 - 1]);
                lemma_unit_opening(doc, class, p0);
                lemma_unit_header_brace(out, class, q, u.body.0 - 1);
            }
        }
    }
    lemma_first_hit_is(pout, 0, out.len() as int, p0);
}

/// The body of a unit starts behind an opening brace.
pub proof fn lemma_unit_opening(doc: Seq<u8>, class: Seq<u8>, p: int)
    requires
        unit_at(doc, class, p) is Some,
    ensures
        doc[unit_at(doc, class, p).unwrap().body.0 - 1] == BRACE_OPEN,
{
}

/// An id that is read from a field holds no brace.
pub proof fn lemma_id_has_no_brace(block: Seq<u8>, key: Seq<u8>)
    requires
        field_text(block, key, Shape::Ident) is Some,
    ensures
        no_open_brace(field_text(block, key, Shape::Ident).unwrap()),
{
    lemma_next_hit(block, key, false, Shape::Ident, 0);
    let h = next_hit(block, key, false, Shape::Ident, 0).unwrap();
    lemma_hit_at(block, key, false, Shape::Ident, h.at);
    lemma_run_end(block, h.value.0, ByteClass::Ident);
    let t = field_text(block, key, Shape::Ident).unwrap();
    assert forall|k: int| 0 <= k < t.len() implies t[k] != BRACE_OPEN by {
        assert(t[k] == block[h.value.0 + k]);
    }
}

/// The classes of the economy unit and of the player unit hold no brace.
pub proof fn lemma_classes_have_no_brace()
    ensures
        no_open_brace(kw_economy()),
        no_open_brace(kw_player()),
{
    reveal_strlit("economy");
    reveal_strlit("player");
}

/// Whether the economy unit, and the unit of the player that it names,
/// end before `a`.
pub open spec fn resolution_ends_before(doc: Seq<u8>, a: int) -> bool {
    match (next_unit(doc, kw_economy(), 0), player_id(doc)) {
        (Some(u), Some(pid)) => match locate(doc, kw_player(), pid) {
            Ok((_, pe)) => u.span.1 <= a && pe <= a,
            Err(_) => false,
        },
        _ => false,
    }
}

/// The economy unit names the player that it named after a stretch
/// behind it, which held no brace, gave way to a text that holds none.
pub proof fn lemma_player_id_before_splice(doc: Seq<u8>, a: int, b: int, text: Seq<u8>)
    requires
        next_unit(doc, kw_economy(), 0) is Some,
        next_unit(doc, kw_economy(), 0).unwrap().span.1 <= a <= b <= doc.len(),
        no_brace(doc, a, b),
        brace_free(text),
    ensures
        player_id(splice(doc, a, b, text)) == player_id(doc),
{
    lemma_classes_have_no_brace();
    let u = next_unit(doc, kw_economy(), 0).unwrap();
    let out = splice(doc, a, b, text);
    lemma_unit_before_splice(doc, kw_economy(), a, b, text);
    lemma_first_hit(unit_pred(doc, kw_economy()), 0, doc.len() as int);
    lemma_unit_at(doc, kw_economy(), u.span.0);
    assert(out.subrange(u.span.0, u.span.1) =~= doc.subrange(u.span.0, u.span.1));
}

/// What player `pid` names under `slot` is what it was after a stretch
/// behind the player's unit gave way to another text.
pub proof fn lemma_player_reference_before_splice(
    doc: Seq<u8>,
    pid: Seq<u8>,
    a: int,
    b: int,
    text: Seq<u8>,
    slot: Seq<u8>,
)
    requires
        locate(doc, kw_player(), pid) is Ok,
        locate(doc, kw_player(), pid).unwrap().1 <= a <= b <= doc.len(),
        no_open_brace(pid),
    ensures
        locate(splice(doc, a, b, text), kw_player(), pid) == locate(doc, kw_player(), pid),
        player_reference(splice(doc, a, b, text), pid, slot) == player_reference(doc, pid, slot),
{
    lemma_classes_have_no_brace();
    let out = splice(doc, a, b, text);
    lemma_locate(doc, kw_player(), pid);
    let (ps, pe) = locate(doc, kw_player(), pid).unwrap();
    lemma_locate_before_splice(doc, kw_player(), pid, a, b, text);
    assert(out.subrange(ps, pe) =~= doc.subrange(ps, pe));
}

/// The truck and the trailer of the player, as a reader resolves them,
/// are what they were after a stretch behind the economy unit and the
/// player's unit, which held no brace, gave way to a text that holds
/// none.
pub proof fn lemma_player_vehicles_before_splice(doc: Seq<u8>, a: int, b: int, text: Seq<u8>)
    requires
        resolution_ends_before(doc, a),
        a <= b <= doc.len(),
        no_brace(doc, a, b),
        brace_free(text),
    ensures
        player_vehicles(splice(doc, a, b, text)) == player_vehicles(doc),
{
    let u = next_unit(doc, kw_economy(), 0).unwrap();
    let out = splice(doc, a, b, text);
    let pid = player_id(doc).unwrap();
    assert(player_id(out) == Some(pid)) by {
        lemma_player_id_before_splice(doc, a, b, text);
    }
    assert(no_open_brace(pid)) by {
        lemma_id_has_no_brace(doc.subrange(u.span.0, u.span.1), kw_player());
    }
    lemma_player_reference_before_splice(doc, pid, a, b, text, kw_truck());
    lemma_player_reference_before_splice(doc, pid, a, b, text, kw_trailer());
}

/// Whether the unit `class : id` stands behind the first player unit of
/// the document, from which an edit resolves the player's vehicles.
pub open spec fn stands_behind_player(doc: Seq<u8>, class: Seq<u8>, id: Seq<u8>) -> bool {
    match (next_unit(doc, kw_player(), 0), locate(doc, class, id)) {
        (Some(u), Ok((s, _))) => u.span.1 <= s,
        _ => false,
    }
}

/// What the player names under `slot`, as an edit resolves it, is what
/// it was after a stretch behind the player's unit, which held no brace,
/// gave way to a text that holds none.
pub proof fn lemma_player_vehicle_before_splice(
    doc: Seq<u8>,
    a: int,
    b: int,
    text: Seq<u8>,
    slot: Seq<u8>,
)
    requires
        next_unit(doc, kw_player(), 0) is Some,
        next_unit(doc, kw_player(), 0).unwrap().span.1 <= a <= b <= doc.len(),
        no_brace(doc, a, b),
        brace_free(text),
    ensures
        player_vehicle(splice(doc, a, b, text), slot) == player_vehicle(doc, slot),
{
    lemma_classes_have_no_brace();
    let u = next_unit(doc, kw_player(), 0).unwrap();
    let out = splice(doc, a, b, text);
    lemma_unit_before_splice(doc, kw_player(), a, b, text);
    lemma_first_hit(unit_pred(doc, kw_player()), 0, doc.len() as int);
    lemma_unit_at(doc, kw_player(), u.span.0);
    assert(out.subrange(u.span.0, u.span.1) =~= doc.subrange(u.span.0, u.span.1));
}

/// What an edit writes: the span of the value that gives way, inside the
/// document, and the text that takes its place.
pub open spec fn edit_site(
    doc: Seq<u8>,
    class: Seq<u8>,
    id: Seq<u8>,
    key: Seq<u8>,
    value: Seq<u8>,
) -> (int, int, Seq<u8>) {
    let (s, e) = locate(doc, class, id).unwrap();
    let block = doc.subrange(s, e);
    let (a, b) = field_span(block, key, Shape::Value).unwrap();
    (s + a, s + b, frame(key, block.subrange(a, b), value))
}

/// An edit whose value can be set again replaces a stretch of the unit's
/// body that holds no brace by a text that holds none.
pub proof fn lemma_edit_site(
    doc: Seq<u8>,
    class: Seq<u8>,
    id: Seq<u8>,
    key: Seq<u8>,
    value: Seq<u8>,
)
    requires
        edit(doc, class, id, key, value) is Ok,
        is_one_line(value),
        can_be_set_again(key, field_value(doc, class, id, key), value),
        field_in_body(doc, class, id, key),
    ensures
        ({
            let (a, b, text) = edit_site(doc, class, id, key, value);
            let (s, e) = locate(doc, class, id).unwrap();
            &&& s < a <= b < e <= doc.len()
            &&& no_brace(doc, a, b)
            &&& brace_free(text)
            &&& edit(doc, class, id, key, value) == Ok::<Seq<u8>, EditError>(splice(doc, a, b, text))
        }),
{
    lemma_value_in_body(doc, class, id, key);
    lemma_locate(doc, class, id);
    let (s, e) = locate(doc, class, id).unwrap();
    let block = doc.subrange(s, e);
    let (a, b) = field_span(block, key, Shape::Value).unwrap();
    let old = block.subrange(a, b);
    assert(old =~= doc.subrange(s + a, s + b));
    lemma_frame_again(key, old, value);
}

/// An edit of a unit that stands behind the player's unit changes nothing
/// by which an edit resolves the player's vehicles: what the player names
/// under `slot` is what it was.
pub proof fn lemma_edit_keeps_player_vehicle(
    doc: Seq<u8>,
    class: Seq<u8>,
    id: Seq<u8>,
    key: Seq<u8>,
    value: Seq<u8>,
    slot: Seq<u8>,
)
    requires
        edit(doc, class, id, key, value) is Ok,
        is_one_line(value),
        can_be_set_again(key, field_value(doc, class, id, key), value),
        field_in_body(doc, class, id, key),
        stands_behind_player(doc, class, id),
    ensures
        player_vehicle(edit(doc, class, id, key, value).unwrap(), slot) == player_vehicle(doc, slot),
{
    lemma_edit_site(doc, class, id, key, value);
    let (a, b, text) = edit_site(doc, class, id, key, value);
    lemma_player_vehicle_before_splice(doc, a, b, text, slot);
}

/// An edit of a unit that stands behind the economy unit and the unit of
/// the player that it names changes nothing by which a reader resolves
/// the player's vehicles: the truck and the trailer are what they were.
pub proof fn lemma_edit_keeps_player_vehicles(
    doc: Seq<u8>,
    class: Seq<u8>,
    id: Seq<u8>,
    key: Seq<u8>,
    value: Seq<u8>,
)
    requires
        edit(doc, class, id, key, value) is Ok,
        is_one_line(value),
        can_be_set_again(key, field_value(doc, class, id, key), value),
        field_in_body(doc, class, id, key),
        resolution_ends_before(doc, locate(doc, class, id).unwrap().0),
    ensures
        player_vehicles(edit(doc, class, id, key, value).unwrap()) == player_vehicles(doc),
{
    lemma_edit_site(doc, class, id, key, value);
    let (a, b, text) = edit_site(doc, class, id, key, value);
    lemma_player_vehicles_before_splice(doc, a, b, text);
}

/// An edit of the player's vehicle is local: it is the edit of the unit
/// that the player names, and the new document differs from the old one
/// in a single stretch, which is the span of the old value of the field
/// inside that unit. What stands before that span and what stands after
/// it is carried over byte for byte.
pub proof fn lemma_player_edit_is_local(
    doc: Seq<u8>,
    class: Seq<u8>,
    slot: Seq<u8>,
    field: Seq<u8>,
    value: Seq<u8>,
)
    requires
        player_edit(doc, class, slot, field, value) is Ok,
    ensures
        ({
            let id = player_vehicle(doc, slot).unwrap();
            let out = player_edit(doc, class, slot, field, value).unwrap();
            let (s, e) = locate(doc, class, id).unwrap();
            let (a, b) = field_span(doc.subrange(s, e), field, Shape::Value).unwrap();
            let text = frame(field, doc.subrange(s + a, s + b), value);
            &&& player_vehicle(doc, slot) is Ok
            &&& out == edit(doc, class, id, field, value).unwrap()
            &&& 0 <= s < s + a < s + b <= e <= doc.len()
            &&& out.len() == doc.len() - (b - a) + text.len()
            &&& forall|i: int| 0 <= i < s + a ==> out[i] == doc[i]
            &&& forall|i: int| 0 <= i < text.len() ==> out[s + a + i] == text[i]
            &&& forall|i: int| s + b <= i < doc.len() ==> out[i - (b - a) + text.len()] == doc[i]
        }),
{
    let id = player_vehicle(doc, slot).unwrap();
    crate::edit::lemma_edit_is_local(doc, class, id, field, value);
}

/// A second edit of the player's vehicle, with the same value, changes
/// nothing where the first one left the player naming the same vehicle
/// and an edit of the vehicle's unit is idempotent.
pub proof fn lemma_player_edit_settles(
    doc: Seq<u8>,
    class: Seq<u8>,
    slot: Seq<u8>,
    field: Seq<u8>,
    value: Seq<u8>,
)
    requires
        player_edit(doc, class, slot, field, value) is Ok,
        is_one_line(value),
        no_open_brace(class),
        ({
            let id = player_vehicle(doc, slot).unwrap();
            &&& can_be_set_again(field, field_value(doc, class, id, field), value)
            &&& field_in_body(doc, class, id, field)
            &&& player_vehicle(edit(doc, class, id, field, value).unwrap(), slot) == player_vehicle(
                doc,
                slot,
            )
        }),
    ensures
        player_edit(player_edit(doc, class, slot, field, value).unwrap(), class, slot, field, value)
            == player_edit(doc, class, slot, field, value),
{
    let id = player_vehicle(doc, slot).unwrap();
    // The id was read from a field of the player's unit.
    let u = next_unit(doc, kw_player(), 0).unwrap();
    lemma_id_has_no_brace(doc.subrange(u.span.0, u.span.1), slot);
    lemma_edit_idempotent(doc, class, id, field, value);
}

/// Idempotence of an edit of the player's vehicle: made a second time,
/// with the same value, it changes nothing any more, though the vehicle
/// is resolved anew.
///
/// This holds where an edit of the vehicle's unit is idempotent, where
/// the class holds no opening brace, and where the vehicle's unit stands
/// behind the player's unit, as it does in a save that the game wrote.
/// It does not hold without the last: in a unit that stands before the
/// player's unit, a value can complete the text of an opening
/// `player : id {`, and the second edit then takes that text for the
/// player's unit.
pub proof fn lemma_player_edit_idempotent(
    doc: Seq<u8>,
    class: Seq<u8>,
    slot: Seq<u8>,
    field: Seq<u8>,
    value: Seq<u8>,
)
    requires
        player_edit(doc, class, slot, field, value) is Ok,
        is_one_line(value),
        no_open_brace(class),
        ({
            let id = player_vehicle(doc, slot).unwrap();
            &&& can_be_set_again(field, field_value(doc, class, id, field), value)
            &&& field_in_body(doc, class, id, field)
            &&& stands_behind_player(doc, class, id)
        }),
    ensures
        player_edit(player_edit(doc, class, slot, field, value).unwrap(), class, slot, field, value)
            == player_edit(doc, class, slot, field, value),
{
    let id = player_vehicle(doc, slot).unwrap();
    lemma_edit_keeps_player_vehicle(doc, class, id, field, value, slot);
    lemma_player_edit_settles(doc, class, slot, field, value);
}

} // verus!
