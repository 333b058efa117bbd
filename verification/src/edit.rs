//! The attribute editor: replaces the value of one field inside a located
//! unit and leaves every other byte of the document as it was.

use vstd::prelude::*;
use crate::field::{find_hit, lemma_next_hit, next_hit, Shape};
use crate::locate::{lemma_locate, locate, locate_block, NotFound};
use crate::text::{
    append, ascii, ascii_bytes, bytes_eq, find_last, last_index, lemma_run_end, lemma_run_start,
    run_end, run_start, scan_back, scan_run, splice, splice_bytes, ByteClass, PIPE, QUOTE,
};
use vstd::slice::slice_subrange;

verus! {

/// Why an edit was not made.
#[derive(Clone, Copy, PartialEq, Eq, Structural, Debug)]
pub enum EditError {
    /// The unit itself could not be located.
    Block(NotFound),
    /// The unit holds no such field; nothing is appended in its place.
    FieldNotFound,
}

/// The span of the value of the first field `key` of `block`, a value
/// being what `shape` says.
pub open spec fn field_span(block: Seq<u8>, key: Seq<u8>, shape: Shape) -> Option<(int, int)> {
    match next_hit(block, key, false, shape, 0) {
        Some(h) => Some(h.value),
        None => None,
    }
}

/// The bytes of a license plate field's key.
pub open spec fn plate_key() -> Seq<u8> {
    ascii_bytes("license_plate"@)
}

/// `v` without the double quotes at its two ends.
pub open spec fn trim_quotes(v: Seq<u8>) -> Seq<u8> {
    let a = run_end(v, 0, ByteClass::Is(QUOTE));
    if a >= v.len() {
        Seq::<u8>::empty()
    } else {
        v.subrange(a, run_start(v, v.len() as int, ByteClass::Is(QUOTE)))
    }
}

/// What follows a plate's text inside its quotes: the last `|` and the
/// country code after it, or nothing.
pub open spec fn country_suffix(old: Seq<u8>) -> Seq<u8> {
    let inner = trim_quotes(old);
    let k = last_index(inner, inner.len() as int, PIPE);
    if k < 0 {
        Seq::<u8>::empty()
    } else {
        inner.subrange(k, inner.len() as int)
    }
}

/// The text that replaces the value `old` of field `key` when the field is
/// set to `new`. A value that stood in double quotes is quoted again, and a
/// license plate keeps its country suffix; any other value is replaced by
/// `new` as it is.
pub open spec fn frame(key: Seq<u8>, old: Seq<u8>, new: Seq<u8>) -> Seq<u8> {
    if old.len() > 0 && old[0] == QUOTE {
        if key == plate_key() {
            seq![QUOTE] + new + country_suffix(old) + seq![QUOTE]
        } else {
            seq![QUOTE] + new + seq![QUOTE]
        }
    } else {
        new
    }
}

/// The document after field `key` of unit `class : id` is set to `value`.
///
/// The field is the first one of that key inside the unit's span. Its
/// value is what `Shape::Value` says: a quoted text with its quotes, or
/// what stands before the end of the line or a closing brace, without the
/// whitespace at its end.
pub open spec fn edit(
    doc: Seq<u8>,
    class: Seq<u8>,
    id: Seq<u8>,
    key: Seq<u8>,
    value: Seq<u8>,
) -> Result<Seq<u8>, EditError> {
    match locate(doc, class, id) {
        Err(e) => Err(EditError::Block(e)),
        Ok((s, e)) => {
            let block = doc.subrange(s, e);
            match field_span(block, key, Shape::Value) {
                None => Err(EditError::FieldNotFound),
                Some((a, b)) => Ok(
                    splice(doc, s + a, s + b, frame(key, block.subrange(a, b), value)),
                ),
            }
        },
    }
}

/// An edited document, read as a sequence of bytes.
pub open spec fn edit_view(r: Result<Vec<u8>, EditError>) -> Result<Seq<u8>, EditError> {
    match r {
        Ok(d) => Ok(d@),
        Err(e) => Err(e),
    }
}

/// A field's value is not empty and lies inside the block.
pub proof fn lemma_field_span(block: Seq<u8>, key: Seq<u8>, shape: Shape)
    requires
        field_span(block, key, shape) is Some,
    ensures
        ({
            let (a, b) = field_span(block, key, shape).unwrap();
            &&& key.len() < a <= b <= block.len()
            &&& shape != Shape::Quoted && shape != Shape::QuotedLine ==> a < b
        }),
{
    lemma_next_hit(block, key, false, shape, 0);
    let h = next_hit(block, key, false, shape, 0).unwrap();
    crate::field::lemma_hit_at(block, key, false, shape, h.at);
}

/// An edit is local: the new document differs from the old one in a
/// single stretch, which lies inside the unit's span and is exactly the
/// span of the edited field's old value. What stands before that span and
/// what stands after it is carried over byte for byte.
pub proof fn lemma_edit_is_local(
    doc: Seq<u8>,
    class: Seq<u8>,
    id: Seq<u8>,
    key: Seq<u8>,
    value: Seq<u8>,
)
    requires
        edit(doc, class, id, key, value) is Ok,
    ensures
        ({
            let out = edit(doc, class, id, key, value).unwrap();
            let (s, e) = locate(doc, class, id).unwrap();
            let (a, b) = field_span(doc.subrange(s, e), key, Shape::Value).unwrap();
            let text = frame(key, doc.subrange(s + a, s + b), value);
            &&& 0 <= s < s + a < s + b <= e <= doc.len()
            &&& out.len() == doc.len() - (b - a) + text.len()
            &&& forall|i: int| 0 <= i < s + a ==> out[i] == doc[i]
            &&& forall|i: int| 0 <= i < text.len() ==> out[s + a + i] == text[i]
            &&& forall|i: int| s + b <= i < doc.len() ==> out[i - (b - a) + text.len()] == doc[i]
        }),
{
    lemma_locate(doc, class, id);
    let (s, e) = locate(doc, class, id).unwrap();
    let block = doc.subrange(s, e);
    lemma_field_span(block, key, Shape::Value);
    let (a, b) = field_span(block, key, Shape::Value).unwrap();
    assert(block.subrange(a, b) =~= doc.subrange(s + a, s + b));
}

/// Finds the value of the first field `key` of `block`.
pub fn find_field(block: &[u8], key: &[u8], shape: Shape) -> (r: Option<(usize, usize)>)
    ensures
        match r {
            Some((a, b)) => field_span(block@, key@, shape) == Some((a as int, b as int)),
            None => field_span(block@, key@, shape) is None,
        },
{
    match find_hit(block, key, false, shape, 0) {
        Some(h) => Some(h.value),
        None => None,
    }
}

/// Builds the text that replaces `old`.
pub fn frame_value(key: &[u8], old: &[u8], new: &[u8]) -> (r: Vec<u8>)
    ensures
        r@ == frame(key@, old@, new@),
{
    let mut r: Vec<u8> = Vec::new();
    if old.len() > 0 && old[0] == QUOTE {
        r.push(QUOTE);
        append(&mut r, new);
        proof {
            reveal_strlit("license_plate");
        }
        if bytes_eq(key, ascii("license_plate")) {
            let a = scan_run(old, 0, ByteClass::Is(QUOTE));
            if a < old.len() {
                let b = scan_back(old, old.len(), ByteClass::Is(QUOTE));
                proof {
                    lemma_run_start(old@, old@.len() as int, ByteClass::Is(QUOTE));
                    lemma_run_end(old@, 0, ByteClass::Is(QUOTE));
                }
                let inner = slice_subrange(old, a, b);
                match find_last(inner, inner.len(), PIPE) {
                    Some(k) => {
                        append(&mut r, slice_subrange(inner, k, inner.len()));
                    },
                    None => {
                    },
                }
            }
            r.push(QUOTE);
        } else {
            r.push(QUOTE);
        }
    } else {
        append(&mut r, new);
    }
    r
}

/// Sets the field `field_key` of the unit `unit_class : unit_id` to
/// `new_value` and returns the new document.
///
/// The unit is located by its braces; inside its span the first field of
/// that key is found, and its value is replaced: a quoted text with its
/// quotes, or what stands before the end of the line or a closing brace,
/// without the whitespace at its end. A key counts only where it starts a
/// word. The result differs from `doc` in that value alone. A missing unit
/// or field is an error: a field is never added.
pub fn edit_field(
    doc: &[u8],
    unit_class: &[u8],
    unit_id: &[u8],
    field_key: &[u8],
    new_value: &[u8],
) -> (r: Result<Vec<u8>, EditError>)
    ensures
        edit_view(r) == edit(doc@, unit_class@, unit_id@, field_key@, new_value@),
{
    match locate_block(doc, unit_class, unit_id) {
        Err(e) => Err(EditError::Block(e)),
        Ok((s, e)) => {
            proof {
                lemma_locate(doc@, unit_class@, unit_id@);
            }
            let block = slice_subrange(doc, s, e);
            match find_field(block, field_key, Shape::Value) {
                None => Err(EditError::FieldNotFound),
                Some((a, b)) => {
                    proof {
                        lemma_field_span(block@, field_key@, Shape::Value);
                    }
                    let text = frame_value(field_key, slice_subrange(block, a, b), new_value);
                    Ok(splice_bytes(doc, s + a, s + b, text.as_slice()))
                },
            }
        },
    }
}

} // verus!
