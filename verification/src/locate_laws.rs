//! What holds of every located span: its braces balance, and it is the
//! span that a sweep over the units of its class lists for it.

use vstd::prelude::*;
use crate::locate::{
    block_close, header_end, header_pred, lemma_block_close, lemma_locate, locate, NotFound,
};
use crate::text::{lemma_first_hit_is, lemma_run_end, run_end, ByteClass};
use crate::units::{lemma_unit_at, unit_at, unit_header};
use crate::text::{BRACE_CLOSE, BRACE_OPEN};

verus! {

/// How many more braces are opened than closed in `[i, j)`.
pub open spec fn brace_balance(doc: Seq<u8>, i: int, j: int) -> int
    decreases j - i,
{
    if j <= i || j > doc.len() || i < 0 {
        0
    } else if doc[j - 1] == BRACE_OPEN {
        brace_balance(doc, i, j - 1) + 1
    } else if doc[j - 1] == BRACE_CLOSE {
        brace_balance(doc, i, j - 1) - 1
    } else {
        brace_balance(doc, i, j - 1)
    }
}

/// The balance of a stretch is that of its first byte and of the rest.
proof fn lemma_balance_front(doc: Seq<u8>, i: int, j: int)
    requires
        0 <= i < j <= doc.len(),
    ensures
        brace_balance(doc, i, j) == brace_balance(doc, i + 1, j) + (if doc[i] == BRACE_OPEN {
            1int
        } else if doc[i] == BRACE_CLOSE {
            -1int
        } else {
            0int
        }),
    decreases j - i,
{
    if i + 1 < j {
        lemma_balance_front(doc, i, j - 1);
        assert(brace_balance(doc, i + 1, j) == brace_balance(doc, i + 1, j - 1) + (if doc[j - 1]
            == BRACE_OPEN {
            1int
        } else if doc[j - 1] == BRACE_CLOSE {
            -1int
        } else {
            0int
        }));
    } else {
        assert(brace_balance(doc, i, i) == 0);
    }
}

/// The brace at which a count of braces ends is the first at which as
/// many braces are closed as were open: the count balances there, and
/// nowhere before.
pub proof fn lemma_close_balances(doc: Seq<u8>, i: int, depth: nat)
    requires
        0 <= i,
        depth >= 1,
        block_close(doc, i, depth) >= 0,
    ensures
        brace_balance(doc, i, block_close(doc, i, depth)) == -depth,
        forall|m: int|
            i <= m < block_close(doc, i, depth) ==> #[trigger] brace_balance(doc, i, m) > -depth,
    decreases doc.len() - i,
{
    lemma_block_close(doc, i, depth);
    let e = block_close(doc, i, depth);
    if doc[i] == BRACE_CLOSE && depth == 1 {
        assert(brace_balance(doc, i, i) == 0);
    } else {
        let next: nat = if doc[i] == BRACE_OPEN {
            depth + 1
        } else if doc[i] == BRACE_CLOSE {
            (depth - 1) as nat
        } else {
            depth
        };
        lemma_close_balances(doc, i + 1, next);
        lemma_balance_front(doc, i, e);
        assert forall|m: int| i <= m < e implies #[trigger] brace_balance(doc, i, m) > -depth by {
            if m > i {
                lemma_balance_front(doc, i, m);
            }
        }
    }
}

/// The span of a located unit ends with the brace that matches the one
/// its body was opened with: in the body, as many braces are opened as
/// are closed, and at no point before its end more are closed than
/// opened. A brace that closes a sub-block therefore never ends the span.
pub proof fn lemma_span_is_balanced(doc: Seq<u8>, class: Seq<u8>, id: Seq<u8>)
    requires
        locate(doc, class, id) is Ok,
    ensures
        ({
            let (s, e) = locate(doc, class, id).unwrap();
            let body = header_end(doc, class, id, s).unwrap();
            &&& doc[body - 1] == BRACE_OPEN
            &&& doc[e - 1] == BRACE_CLOSE
            &&& brace_balance(doc, body, e - 1) == 0
            &&& forall|m: int| body <= m < e ==> #[trigger] brace_balance(doc, body, m) >= 0
        }),
{
    lemma_locate(doc, class, id);
    let (s, e) = locate(doc, class, id).unwrap();
    let body = header_end(doc, class, id, s).unwrap();
    crate::locate::lemma_header_end(doc, class, id, s);
    lemma_close_balances(doc, body, 1);
}

/// A unit that a sweep finds at `p` opens there for its own id.
pub proof fn lemma_unit_opens(doc: Seq<u8>, class: Seq<u8>, p: int)
    requires
        unit_header(doc, class, p) is Some,
    ensures
        ({
            let (id, body) = unit_header(doc, class, p).unwrap();
            header_end(doc, class, doc.subrange(id.0, id.1), p) == Some(body)
        }),
{
    let a = run_end(doc, p + class.len(), ByteClass::Space);
    lemma_run_end(doc, p + class.len(), ByteClass::Space);
    let b = run_end(doc, a + 1, ByteClass::Space);
    lemma_run_end(doc, a + 1, ByteClass::Space);
    let i = run_end(doc, b, ByteClass::Ident);
    lemma_run_end(doc, b, ByteClass::Ident);
    lemma_run_end(doc, i, ByteClass::Space);
}

/// The sweep and the locator agree: a unit that a sweep finds is the unit
/// that is located for its class and id, with the same span, unless an
/// opening for that id stands earlier in the document.
pub proof fn lemma_listed_unit_is_located(doc: Seq<u8>, class: Seq<u8>, p: int)
    requires
        unit_at(doc, class, p) is Some,
        ({
            let u = unit_at(doc, class, p).unwrap();
            forall|q: int|
                0 <= q < p ==> header_end(doc, class, doc.subrange(u.id.0, u.id.1), q) is None
        }),
    ensures
        ({
            let u = unit_at(doc, class, p).unwrap();
            locate(doc, class, doc.subrange(u.id.0, u.id.1)) == Ok::<(int, int), NotFound>(u.span)
        }),
{
    let u = unit_at(doc, class, p).unwrap();
    let id = doc.subrange(u.id.0, u.id.1);
    lemma_unit_at(doc, class, p);
    lemma_unit_opens(doc, class, p);
    let pred = header_pred(doc, class, id);
    assert forall|q: int| 0 <= q < p implies !#[trigger] pred(q) by {}
    lemma_first_hit_is(pred, 0, doc.len() as int, p);
}

} // verus!
