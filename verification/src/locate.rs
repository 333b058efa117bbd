//! The block locator: finds the span of a unit `class : id { ... }` and
//! bounds it by counting braces, so that sub-blocks inside the body do not
//! end it early.

use vstd::prelude::*;
use crate::text::{
    first_hit, has_prefix_at, lemma_first_hit, lemma_first_hit_is, lemma_run_end, run_end, scan_run,
    starts_with_at, starts_word, word_starts_at, ByteClass, BRACE_CLOSE, BRACE_OPEN, COLON,
};

verus! {

/// Why a unit could not be located.
#[derive(Clone, Copy, PartialEq, Eq, Structural, Debug)]
pub enum NotFound {
    /// No opening `class : id {` stands in the document.
    Missing,
    /// The opening was found, but its braces never balance.
    Unbalanced,
}

/// Where the opening `class : id {` that starts at `p` ends (one past the
/// brace), if one starts there. Whitespace around the colon and before the
/// brace is free. The class keyword starts a word: the end of a longer
/// class name opens no unit of class `class`.
pub open spec fn header_end(doc: Seq<u8>, class: Seq<u8>, id: Seq<u8>, p: int) -> Option<int> {
    if !has_prefix_at(doc, p, class) || !starts_word(doc, p) {
        None
    } else {
        let a = run_end(doc, p + class.len(), ByteClass::Space);
        if !(a < doc.len() && doc[a] == COLON) {
            None
        } else {
            let b = run_end(doc, a + 1, ByteClass::Space);
            if !has_prefix_at(doc, b, id) {
                None
            } else {
                let c = run_end(doc, b + id.len(), ByteClass::Space);
                if c < doc.len() && doc[c] == BRACE_OPEN {
                    Some(c + 1)
                } else {
                    None
                }
            }
        }
    }
}

/// Whether an opening `class : id {` starts at a position.
pub open spec fn header_pred(doc: Seq<u8>, class: Seq<u8>, id: Seq<u8>) -> spec_fn(int) -> bool {
    |p: int| header_end(doc, class, id, p) is Some
}

/// The offset of the first opening `class : id {`, or the document's
/// length if there is none.
pub open spec fn block_start(doc: Seq<u8>, class: Seq<u8>, id: Seq<u8>) -> int {
    first_hit(header_pred(doc, class, id), 0, doc.len() as int)
}

/// One past the brace that closes a body entered at `i` with `depth` braces
/// open, or -1 if the document ends first.
pub open spec fn block_close(doc: Seq<u8>, i: int, depth: nat) -> int
    decreases doc.len() - i,
{
    if i < 0 || i >= doc.len() {
        -1
    } else if doc[i] == BRACE_OPEN {
        block_close(doc, i + 1, depth + 1)
    } else if doc[i] == BRACE_CLOSE {
        if depth <= 1 {
            i + 1
        } else {
            block_close(doc, i + 1, (depth - 1) as nat)
        }
    } else {
        block_close(doc, i + 1, depth)
    }
}

/// The span `[start, end)` of the unit `class : id`: from the first byte of
/// the class keyword to one past the brace that closes the body.
pub open spec fn locate(doc: Seq<u8>, class: Seq<u8>, id: Seq<u8>) -> Result<(int, int), NotFound> {
    let p = block_start(doc, class, id);
    if p >= doc.len() {
        Err(NotFound::Missing)
    } else {
        let e = block_close(doc, header_end(doc, class, id, p).unwrap(), 1);
        if e < 0 {
            Err(NotFound::Unbalanced)
        } else {
            Ok((p, e))
        }
    }
}

/// A span of machine integers, read as mathematical ones.
pub open spec fn span_view(r: Result<(usize, usize), NotFound>) -> Result<(int, int), NotFound> {
    match r {
        Ok((s, e)) => Ok((s as int, e as int)),
        Err(x) => Err(x),
    }
}

/// An opening that matches ends inside the document, after where it began.
pub proof fn lemma_header_end(doc: Seq<u8>, class: Seq<u8>, id: Seq<u8>, p: int)
    requires
        header_end(doc, class, id, p) is Some,
    ensures
        0 <= p,
        p + class.len() + id.len() + 2 <= header_end(doc, class, id, p).unwrap() <= doc.len(),
        doc[header_end(doc, class, id, p).unwrap() - 1] == BRACE_OPEN,
{
    let a = run_end(doc, p + class.len(), ByteClass::Space);
    lemma_run_end(doc, p + class.len(), ByteClass::Space);
    let b = run_end(doc, a + 1, ByteClass::Space);
    lemma_run_end(doc, a + 1, ByteClass::Space);
    lemma_run_end(doc, b + id.len(), ByteClass::Space);
}

/// A closing brace that is found lies after the scan's start and inside the
/// document.
pub proof fn lemma_block_close(doc: Seq<u8>, i: int, depth: nat)
    requires
        0 <= i,
        block_close(doc, i, depth) >= 0,
    ensures
        i < block_close(doc, i, depth) <= doc.len(),
        doc[block_close(doc, i, depth) - 1] == BRACE_CLOSE,
    decreases doc.len() - i,
{
    if i < doc.len() {
        if doc[i] == BRACE_OPEN {
            lemma_block_close(doc, i + 1, depth + 1);
        } else if doc[i] == BRACE_CLOSE {
            if depth > 1 {
                lemma_block_close(doc, i + 1, (depth - 1) as nat);
            }
        } else {
            lemma_block_close(doc, i + 1, depth);
        }
    }
}

/// A located span starts at an opening, ends with a closing brace, and
/// lies inside the document.
pub proof fn lemma_locate(doc: Seq<u8>, class: Seq<u8>, id: Seq<u8>)
    requires
        locate(doc, class, id) is Ok,
    ensures
        ({
            let (s, e) = locate(doc, class, id).unwrap();
            &&& 0 <= s < e <= doc.len()
            &&& header_end(doc, class, id, s) is Some
            &&& header_end(doc, class, id, s).unwrap() < e
            &&& e == block_close(doc, header_end(doc, class, id, s).unwrap(), 1)
            &&& doc[e - 1] == BRACE_CLOSE
            &&& forall|q: int| 0 <= q < s ==> header_end(doc, class, id, q) is None
        }),
{
    let pred = header_pred(doc, class, id);
    lemma_first_hit(pred, 0, doc.len() as int);
    let s = block_start(doc, class, id);
    lemma_header_end(doc, class, id, s);
    lemma_block_close(doc, header_end(doc, class, id, s).unwrap(), 1);
    assert forall|q: int| 0 <= q < s implies header_end(doc, class, id, q) is None by {
        assert(!pred(q));
    }
}

/// Tests whether an opening `class : id {` starts at `p`.
pub fn match_header(doc: &[u8], class: &[u8], id: &[u8], p: usize) -> (r: Option<usize>)
    ensures
        match r {
            Some(e) => header_end(doc@, class@, id@, p as int) == Some(e as int),
            None => header_end(doc@, class@, id@, p as int) is None,
        },
{
    let n = doc.len();
    if !starts_with_at(doc, p, class) || !word_starts_at(doc, p) {
        return None;
    }
    let a = scan_run(doc, p + class.len(), ByteClass::Space);
    if !(a < n && doc[a] == COLON) {
        return None;
    }
    let b = scan_run(doc, a + 1, ByteClass::Space);
    if !starts_with_at(doc, b, id) {
        return None;
    }
    let c = scan_run(doc, b + id.len(), ByteClass::Space);
    if c < n && doc[c] == BRACE_OPEN {
        Some(c + 1)
    } else {
        None
    }
}

/// Finds the brace that closes a body entered at `from`.
pub fn find_close(doc: &[u8], from: usize) -> (r: Option<usize>)
    requires
        from <= doc@.len(),
    ensures
        match r {
            Some(e) => block_close(doc@, from as int, 1) == e,
            None => block_close(doc@, from as int, 1) < 0,
        },
{
    let n = doc.len();
    // Braces open beyond the one that entered the body.
    let mut inner: usize = 0;
    let mut i: usize = from;
    while i < n
        invariant
            n == doc@.len(),
            from <= i <= doc@.len(),
            inner <= i - from,
            block_close(doc@, from as int, 1) == block_close(doc@, i as int, (inner + 1) as nat),
        decreases doc@.len() - i,
    {
        let b = doc[i];
        if b == BRACE_OPEN {
            inner = inner + 1;
        } else if b == BRACE_CLOSE {
            if inner == 0 {
                return Some(i + 1);
            }
            inner = inner - 1;
        }
        i = i + 1;
    }
    None
}

/// Locates the unit `unit_class : unit_id { ... }`.
///
/// The span starts at the first byte of the class keyword of the first
/// opening in the document and ends one past the brace that closes its
/// body; braces inside the body are counted, so a nested sub-block does not
/// end the span. The unit is `Missing` when no opening stands in the
/// document and `Unbalanced` when the first opening is never closed.
pub fn locate_block(doc: &[u8], unit_class: &[u8], unit_id: &[u8]) -> (r: Result<
    (usize, usize),
    NotFound,
>)
    ensures
        span_view(r) == locate(doc@, unit_class@, unit_id@),
{
    let ghost pred = header_pred(doc@, unit_class@, unit_id@);
    let mut p: usize = 0;
    while p < doc.len()
        invariant
            p <= doc@.len(),
            pred == header_pred(doc@, unit_class@, unit_id@),
            forall|q: int| 0 <= q < p ==> !#[trigger] pred(q),
        decreases doc@.len() - p,
    {
        match match_header(doc, unit_class, unit_id, p) {
            Some(body) => {
                proof {
                    lemma_first_hit_is(pred, 0, doc@.len() as int, p as int);
                    lemma_header_end(doc@, unit_class@, unit_id@, p as int);
                }
                return match find_close(doc, body) {
                    Some(e) => Ok((p, e)),
                    None => Err(NotFound::Unbalanced),
                };
            },
            None => {
            },
        }
        p = p + 1;
    }
    proof {
        lemma_first_hit_is(pred, 0, doc@.len() as int, p as int);
    }
    Err(NotFound::Missing)
}

} // verus!
