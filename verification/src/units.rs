//! The sweep over the units of one class, and the side table that gives a
//! vehicle its brand and model.

use vstd::prelude::*;
use crate::extract::{array_items, extract_ref_array, extract_string, item_texts};
use crate::field::Shape;
use crate::locate::{block_close, find_close, lemma_block_close};
use crate::text::{
    ascii, ascii_bytes, bytes_eq, copy_range, first_hit, has_prefix_at, lemma_first_hit_is,
    lemma_run_end, list_view, run_end, scan_run, starts_with_at, starts_word, word_starts_at,
    ByteClass, BRACE_OPEN, COLON, DOT, SLASH,
};
use vstd::slice::slice_subrange;

verus! {

/// A unit `class : id { body }` found in a document. All offsets are into
/// the document.
pub struct Unit {
    /// The id.
    pub id: (int, int),
    /// What stands between the braces.
    pub body: (int, int),
    /// The whole unit, from the class keyword to the closing brace.
    pub span: (int, int),
}

/// A unit found in a document, in machine integers.
#[derive(Clone, Copy, Debug)]
pub struct UnitPos {
    pub id: (usize, usize),
    pub body: (usize, usize),
    pub span: (usize, usize),
}

impl View for UnitPos {
    type V = Unit;

    open spec fn view(&self) -> Unit {
        Unit {
            id: (self.id.0 as int, self.id.1 as int),
            body: (self.body.0 as int, self.body.1 as int),
            span: (self.span.0 as int, self.span.1 as int),
        }
    }
}

/// The opening `class : id {` that starts at `p`, whatever the id: where
/// the id stands and where the body begins. An id is a run of letters,
/// digits, dots and underscores. The class keyword starts a word.
pub open spec fn unit_header(doc: Seq<u8>, class: Seq<u8>, p: int) -> Option<((int, int), int)> {
    if !has_prefix_at(doc, p, class) || !starts_word(doc, p) {
        None
    } else {
        let a = run_end(doc, p + class.len(), ByteClass::Space);
        if !(a < doc.len() && doc[a] == COLON) {
            None
        } else {
            let b = run_end(doc, a + 1, ByteClass::Space);
            let i = run_end(doc, b, ByteClass::Ident);
            let c = run_end(doc, i, ByteClass::Space);
            if b < i && c < doc.len() && doc[c] == BRACE_OPEN {
                Some(((b, i), c + 1))
            } else {
                None
            }
        }
    }
}

/// The unit of class `class` that starts at `p`: an opening whose braces
/// balance.
pub open spec fn unit_at(doc: Seq<u8>, class: Seq<u8>, p: int) -> Option<Unit> {
    match unit_header(doc, class, p) {
        None => None,
        Some((id, body)) => {
            let e = block_close(doc, body, 1);
            if e < 0 {
                None
            } else {
                Some(Unit { id, body: (body, e - 1), span: (p, e) })
            }
        },
    }
}

/// Whether a unit of class `class` starts at a position.
pub open spec fn unit_pred(doc: Seq<u8>, class: Seq<u8>) -> spec_fn(int) -> bool {
    |p: int| unit_at(doc, class, p) is Some
}

/// The first unit of class `class` that starts at `from` or later.
pub open spec fn next_unit(doc: Seq<u8>, class: Seq<u8>, from: int) -> Option<Unit> {
    let p = first_hit(unit_pred(doc, class), from, doc.len() as int);
    if p >= doc.len() {
        None
    } else {
        unit_at(doc, class, p)
    }
}

/// The units of class `class` from `from` on, after those in `acc`. The
/// search for the next unit goes on behind the end of the last.
pub open spec fn collect_units(doc: Seq<u8>, class: Seq<u8>, from: int, acc: Seq<Unit>) -> Seq<
    Unit,
>
    decreases doc.len() - from,
{
    match next_unit(doc, class, from) {
        None => acc,
        Some(u) => if from < u.span.1 <= doc.len() {
            collect_units(doc, class, u.span.1, acc.push(u))
        } else {
            acc
        },
    }
}

/// The units of class `class`, in the order in which they stand.
pub open spec fn units(doc: Seq<u8>, class: Seq<u8>) -> Seq<Unit> {
    collect_units(doc, class, 0, Seq::<Unit>::empty())
}

/// The parts of a unit stand in order inside the document.
pub proof fn lemma_unit_at(doc: Seq<u8>, class: Seq<u8>, p: int)
    requires
        unit_at(doc, class, p) is Some,
    ensures
        ({
            let u = unit_at(doc, class, p).unwrap();
            &&& u.span.0 == p
            &&& 0 <= p < u.id.0 < u.id.1 < u.body.0 <= u.body.1 < u.span.1 <= doc.len()
        }),
{
    let a = run_end(doc, p + class.len(), ByteClass::Space);
    lemma_run_end(doc, p + class.len(), ByteClass::Space);
    let b = run_end(doc, a + 1, ByteClass::Space);
    lemma_run_end(doc, a + 1, ByteClass::Space);
    let i = run_end(doc, b, ByteClass::Ident);
    lemma_run_end(doc, b, ByteClass::Ident);
    lemma_run_end(doc, i, ByteClass::Space);
    let (id, body) = unit_header(doc, class, p).unwrap();
    lemma_block_close(doc, body, 1);
}

/// A unit starts where a word can start.
pub proof fn lemma_unit_opening_starts_word(doc: Seq<u8>, class: Seq<u8>, p: int)
    requires
        unit_at(doc, class, p) is Some,
    ensures
        starts_word(doc, p),
{
}

/// Whether the parts of each of `us` stand in order inside a document
/// of `n` bytes.
pub open spec fn units_inside(us: Seq<Unit>, n: int) -> bool {
    forall|k: int|
        0 <= k < us.len() ==> {
            let u = #[trigger] us[k];
            0 <= u.span.0 < u.id.0 < u.id.1 < u.body.0 <= u.body.1 < u.span.1 <= n
        }
}

/// Units, in mathematical integers.
pub open spec fn units_view(v: Seq<UnitPos>) -> Seq<Unit> {
    Seq::new(v.len(), |i: int| v[i]@)
}

fn match_unit(doc: &[u8], class: &[u8], p: usize) -> (r: Option<UnitPos>)
    ensures
        match r {
            Some(u) => unit_at(doc@, class@, p as int) == Some(u@),
            None => unit_at(doc@, class@, p as int) is None,
        },
{
    let n = doc.len();
    if !starts_with_at(doc, p, class) || !word_starts_at(doc, p) {
        return None;
    }
    let a = scan_run(doc, p + class.len(), ByteClass::Space);
    if !(a < n && doc[a] == COLON) {
        return None;
    }
    let b = scan_run(doc, a + 1, ByteClass::Space);
    let i = scan_run(doc, b, ByteClass::Ident);
    let c = scan_run(doc, i, ByteClass::Space);
    if !(b < i && c < n && doc[c] == BRACE_OPEN) {
        return None;
    }
    match find_close(doc, c + 1) {
        Some(e) => {
            proof {
                lemma_block_close(doc@, c + 1, 1);
            }
            Some(UnitPos { id: (b, i), body: (c + 1, e - 1), span: (p, e) })
        },
        None => None,
    }
}

/// Finds the first unit of class `class` that starts at `from` or later.
pub fn find_unit(doc: &[u8], class: &[u8], from: usize) -> (r: Option<UnitPos>)
    requires
        from <= doc@.len(),
    ensures
        match r {
            Some(u) => next_unit(doc@, class@, from as int) == Some(u@) && from <= u.span.0
                < u.id.0 < u.id.1 < u.body.0 <= u.body.1 < u.span.1 <= doc@.len(),
            None => next_unit(doc@, class@, from as int) is None,
        },
{
    let ghost pred = unit_pred(doc@, class@);
    let n = doc.len();
    let mut p: usize = from;
    while p < n
        invariant
            n == doc@.len(),
            from <= p,
            pred == unit_pred(doc@, class@),
            forall|q: int| from <= q < p ==> !#[trigger] pred(q),
        decreases n - p,
    {
        match match_unit(doc, class, p) {
            Some(u) => {
                proof {
                    lemma_first_hit_is(pred, from as int, n as int, p as int);
                    lemma_unit_at(doc@, class@, p as int);
                }
                return Some(u);
            },
            None => {
                p = p + 1;
            },
        }
    }
    proof {
        lemma_first_hit_is(pred, from as int, n as int, n as int);
    }
    None
}

/// Finds the units of class `class`.
pub fn find_units(doc: &[u8], class: &[u8]) -> (r: Vec<UnitPos>)
    ensures
        units_view(r@) == units(doc@, class@),
        units_inside(units_view(r@), doc@.len() as int),
{
    let ghost pred = unit_pred(doc@, class@);
    let n = doc.len();
    let mut out: Vec<UnitPos> = Vec::new();
    let mut from: usize = 0;
    let mut p: usize = 0;
    assert(units_view(out@) =~= Seq::<Unit>::empty());
    while p < n
        invariant
            n == doc@.len(),
            from <= p <= n,
            pred == unit_pred(doc@, class@),
            forall|q: int| from <= q < p ==> !#[trigger] pred(q),
            units(doc@, class@) == collect_units(doc@, class@, from as int, units_view(out@)),
            units_inside(units_view(out@), n as int),
        decreases n - p,
    {
        match match_unit(doc, class, p) {
            Some(u) => {
                proof {
                    lemma_first_hit_is(pred, from as int, n as int, p as int);
                    lemma_unit_at(doc@, class@, p as int);
                }
                let ghost before = units_view(out@);
                out.push(u);
                proof {
                    assert(units_view(out@) =~= before.push(u@));
                    assert forall|k: int| 0 <= k < units_view(out@).len() implies {
                        let w = #[trigger] units_view(out@)[k];
                        0 <= w.span.0 < w.id.0 < w.id.1 < w.body.0 <= w.body.1 < w.span.1 <= n
                    } by {}
                }
                from = u.span.1;
                p = u.span.1;
            },
            None => {
                p = p + 1;
            },
        }
    }
    proof {
        lemma_first_hit_is(pred, from as int, n as int, n as int);
    }
    out
}

/// Where the `k`-th slash-separated segment of `path` from `i` on starts,
/// or -1 if there are not that many.
pub open spec fn segment_start(path: Seq<u8>, i: int, k: nat) -> int
    decreases k,
{
    if k == 0 {
        i
    } else {
        let j = run_end(path, i, ByteClass::Not(SLASH));
        if j >= path.len() {
            -1
        } else {
            segment_start(path, j + 1, (k - 1) as nat)
        }
    }
}

/// The brand and the model that a data path names: its fifth segment,
/// split at its first dot. A path of fewer segments names none.
pub open spec fn brand_model(path: Seq<u8>) -> Option<(Seq<u8>, Seq<u8>)> {
    let s = segment_start(path, 0, 4);
    if s < 0 {
        None
    } else {
        let e = run_end(path, s, ByteClass::Not(SLASH));
        let d = run_end(path, s, ByteClass::Not(DOT));
        if d < e {
            Some((path.subrange(s, d), path.subrange(d + 1, e)))
        } else {
            Some((path.subrange(s, e), Seq::<u8>::empty()))
        }
    }
}

/// A brand and a model, as mathematical values.
pub open spec fn pair_view(r: Option<(Vec<u8>, Vec<u8>)>) -> Option<(Seq<u8>, Seq<u8>)> {
    match r {
        Some((a, b)) => Some((a@, b@)),
        None => None,
    }
}

/// Reads the brand and the model out of a data path.
pub fn split_data_path(path: &[u8]) -> (r: Option<(Vec<u8>, Vec<u8>)>)
    ensures
        pair_view(r) == brand_model(path@),
{
    let n = path.len();
    let mut i: usize = 0;
    let mut k: u8 = 4;
    while k > 0
        invariant
            n == path@.len(),
            i <= n,
            k <= 4,
            segment_start(path@, 0, 4) == segment_start(path@, i as int, k as nat),
        decreases k,
    {
        let j = scan_run(path, i, ByteClass::Not(SLASH));
        if j >= n {
            return None;
        }
        i = j + 1;
        k = k - 1;
    }
    let e = scan_run(path, i, ByteClass::Not(SLASH));
    let d = scan_run(path, i, ByteClass::Not(DOT));
    if d < e {
        Some((copy_range(path, i, d), copy_range(path, d + 1, e)))
    } else {
        let m: Vec<u8> = Vec::new();
        Some((copy_range(path, i, e), m))
    }
}

/// An accessory unit and the data path it holds.
#[derive(Debug)]
pub struct Accessory {
    pub id: Vec<u8>,
    pub data_path: Vec<u8>,
}

/// An accessory, as a mathematical value.
pub struct AccessoryView {
    pub id: Seq<u8>,
    pub data_path: Seq<u8>,
}

impl View for Accessory {
    type V = AccessoryView;

    open spec fn view(&self) -> AccessoryView {
        AccessoryView { id: self.id@, data_path: self.data_path@ }
    }
}

/// The class of the units that hold a data path.
pub open spec fn kw_accessory() -> Seq<u8> {
    ascii_bytes("vehicle_accessory"@)
}

/// The key of the field that holds the data path.
pub open spec fn kw_data_path() -> Seq<u8> {
    ascii_bytes("data_path"@)
}

/// The key of the array in which a unit lists its accessories.
pub open spec fn kw_accessories() -> Seq<u8> {
    ascii_bytes("accessories"@)
}

/// The accessories among `us` that hold a data path, in that order.
pub open spec fn accessories_of(doc: Seq<u8>, us: Seq<Unit>) -> Seq<AccessoryView>
    decreases us.len(),
{
    if us.len() == 0 {
        Seq::<AccessoryView>::empty()
    } else {
        let rest = accessories_of(doc, us.drop_last());
        let u = us.last();
        match crate::extract::field_text(
            doc.subrange(u.body.0, u.body.1),
            kw_data_path(),
            Shape::Quoted,
        ) {
            Some(p) => rest.push(
                AccessoryView { id: doc.subrange(u.id.0, u.id.1), data_path: p },
            ),
            None => rest,
        }
    }
}

/// The side table of a document: each accessory unit that holds a data
/// path, with that path.
pub open spec fn accessory_table(doc: Seq<u8>) -> Seq<AccessoryView> {
    accessories_of(doc, units(doc, kw_accessory()))
}

/// A side table, as a mathematical value.
pub open spec fn table_view(v: Seq<Accessory>) -> Seq<AccessoryView> {
    Seq::new(v.len(), |i: int| v[i]@)
}

/// Builds the side table of a document.
pub fn read_accessories(doc: &[u8]) -> (r: Vec<Accessory>)
    ensures
        table_view(r@) == accessory_table(doc@),
{
    proof {
        reveal_strlit("vehicle_accessory");
        reveal_strlit("data_path");
    }
    let key = ascii("data_path");
    let us = find_units(doc, ascii("vehicle_accessory"));
    let mut out: Vec<Accessory> = Vec::new();
    let mut i: usize = 0;
    while i < us.len()
        invariant
            i <= us@.len(),
            key@ == kw_data_path(),
            units_inside(units_view(us@), doc@.len() as int),
            table_view(out@) == accessories_of(doc@, units_view(us@).subrange(0, i as int)),
        decreases us@.len() - i,
    {
        let u = us[i];
        proof {
            let cur = units_view(us@).subrange(0, i + 1);
            assert(cur.drop_last() =~= units_view(us@).subrange(0, i as int));
            assert(cur.last() == u@);
        }
        let ghost before = table_view(out@);
        match extract_string(slice_subrange(doc, u.body.0, u.body.1), key) {
            Some(p) => {
                let acc = Accessory { id: copy_range(doc, u.id.0, u.id.1), data_path: p };
                out.push(acc);
                assert(table_view(out@) =~= before.push(
                    AccessoryView {
                        id: doc@.subrange(u@.id.0, u@.id.1),
                        data_path: p@,
                    },
                ));
            },
            None => {},
        }
        i = i + 1;
    }
    assert(units_view(us@).subrange(0, i as int) =~= units_view(us@));
    out
}

/// The data path of accessory `id`: that of the last entry of that id.
pub open spec fn data_path_of(table: Seq<AccessoryView>, id: Seq<u8>) -> Option<Seq<u8>>
    decreases table.len(),
{
    if table.len() == 0 {
        None
    } else if table.last().id == id {
        Some(table.last().data_path)
    } else {
        data_path_of(table.drop_last(), id)
    }
}

/// The brand and the model that the first of the accessories `refs` from
/// `i` on gives whose data path names one; two empty texts if none does.
pub open spec fn first_brand(table: Seq<AccessoryView>, refs: Seq<Seq<u8>>, i: int) -> (
    Seq<u8>,
    Seq<u8>,
)
    decreases refs.len() - i,
{
    if i < 0 || i >= refs.len() {
        (Seq::<u8>::empty(), Seq::<u8>::empty())
    } else {
        match data_path_of(table, refs[i]) {
            Some(p) => match brand_model(p) {
                Some(bm) => bm,
                None => first_brand(table, refs, i + 1),
            },
            None => first_brand(table, refs, i + 1),
        }
    }
}

fn find_data_path<'a>(table: &'a Vec<Accessory>, id: &[u8]) -> (r: Option<&'a Vec<u8>>)
    ensures
        match r {
            Some(p) => data_path_of(table_view(table@), id@) == Some(p@),
            None => data_path_of(table_view(table@), id@) is None,
        },
{
    let mut i: usize = table.len();
    assert(table_view(table@).subrange(0, i as int) =~= table_view(table@));
    while i > 0
        invariant
            i <= table@.len(),
            data_path_of(table_view(table@), id@) == data_path_of(
                table_view(table@).subrange(0, i as int),
                id@,
            ),
        decreases i,
    {
        proof {
            let cur = table_view(table@).subrange(0, i as int);
            assert(cur.drop_last() =~= table_view(table@).subrange(0, i - 1));
        }
        if bytes_eq(table[i - 1].id.as_slice(), id) {
            return Some(&table[i - 1].data_path);
        }
        i = i - 1;
    }
    None
}

/// Resolves the brand and the model of a vehicle from the accessories it
/// lists.
pub fn resolve_brand(table: &Vec<Accessory>, refs: &Vec<Vec<u8>>) -> (r: (Vec<u8>, Vec<u8>))
    ensures
        (r.0@, r.1@) == first_brand(table_view(table@), list_view(refs@), 0),
{
    let mut i: usize = 0;
    while i < refs.len()
        invariant
            i <= refs@.len(),
            first_brand(table_view(table@), list_view(refs@), 0) == first_brand(
                table_view(table@),
                list_view(refs@),
                i as int,
            ),
        decreases refs@.len() - i,
    {
        match find_data_path(table, refs[i].as_slice()) {
            Some(p) => match split_data_path(p.as_slice()) {
                Some(bm) => {
                    return bm;
                },
                None => {},
            },
            None => {},
        }
        i = i + 1;
    }
    let a: Vec<u8> = Vec::new();
    let b: Vec<u8> = Vec::new();
    (a, b)
}

/// One unit of a class, with the brand and model that its accessories
/// give it.
#[derive(Debug)]
pub struct UnitRecord {
    pub unit_id: Vec<u8>,
    /// The span of the unit in the document.
    pub start: usize,
    pub end: usize,
    /// Where the unit's body lies: what stands between its braces.
    pub body_start: usize,
    pub body_end: usize,
    pub brand: Vec<u8>,
    pub model: Vec<u8>,
}

/// A record, as a mathematical value.
pub struct UnitRecordView {
    pub unit_id: Seq<u8>,
    pub span: (int, int),
    pub body: (int, int),
    pub brand: Seq<u8>,
    pub model: Seq<u8>,
}

impl View for UnitRecord {
    type V = UnitRecordView;

    open spec fn view(&self) -> UnitRecordView {
        UnitRecordView {
            unit_id: self.unit_id@,
            span: (self.start as int, self.end as int),
            body: (self.body_start as int, self.body_end as int),
            brand: self.brand@,
            model: self.model@,
        }
    }
}

/// The accessories that a unit lists, in index order.
pub open spec fn accessory_refs(doc: Seq<u8>, u: Unit) -> Seq<Seq<u8>> {
    let body = doc.subrange(u.body.0, u.body.1);
    item_texts(body, array_items(body, kw_accessories(), Shape::Word))
}

/// The record of unit `u`.
pub open spec fn record_of(doc: Seq<u8>, table: Seq<AccessoryView>, u: Unit) -> UnitRecordView {
    let bm = first_brand(table, accessory_refs(doc, u), 0);
    UnitRecordView {
        unit_id: doc.subrange(u.id.0, u.id.1),
        span: u.span,
        body: u.body,
        brand: bm.0,
        model: bm.1,
    }
}

/// One record for each unit of class `class`, in the order in which the
/// units stand.
pub open spec fn unit_records(doc: Seq<u8>, class: Seq<u8>) -> Seq<UnitRecordView> {
    let us = units(doc, class);
    let table = accessory_table(doc);
    Seq::new(us.len(), |i: int| record_of(doc, table, us[i]))
}

/// Records, as mathematical values.
pub open spec fn records_view(v: Seq<UnitRecord>) -> Seq<UnitRecordView> {
    Seq::new(v.len(), |i: int| v[i]@)
}

/// Every record lies inside the document.
pub open spec fn records_inside(v: Seq<UnitRecord>, n: int) -> bool {
    forall|i: int|
        0 <= i < v.len() ==> {
            let r = #[trigger] v[i];
            r.start < r.body_start <= r.body_end < r.end <= n
        }
}

/// Lists the units of class `class` of a document.
///
/// Each unit is bounded by counting braces. Its brand and model come from
/// the accessories it lists under `accessories[n]`: the first of them, in
/// index order, whose unit holds a data path of at least five segments
/// gives, in the fifth, the brand before the first dot and the model
/// after it. A unit without such an accessory has an empty brand and
/// model.
pub fn parse_units_of_class(doc: &[u8], class: &[u8]) -> (r: Vec<UnitRecord>)
    ensures
        records_view(r@) == unit_records(doc@, class@),
        records_inside(r@, doc@.len() as int),
{
    proof {
        reveal_strlit("accessories");
    }
    let key = ascii("accessories");
    let table = read_accessories(doc);
    let us = find_units(doc, class);
    let mut out: Vec<UnitRecord> = Vec::new();
    let mut i: usize = 0;
    while i < us.len()
        invariant
            i <= us@.len(),
            key@ == kw_accessories(),
            units_inside(units_view(us@), doc@.len() as int),
            units_view(us@) == units(doc@, class@),
            table_view(table@) == accessory_table(doc@),
            out@.len() == i,
            forall|k: int|
                0 <= k < i ==> (#[trigger] out@[k])@ == record_of(
                    doc@,
                    accessory_table(doc@),
                    units_view(us@)[k],
                ),
            records_inside(out@, doc@.len() as int),
        decreases us@.len() - i,
    {
        let u = us[i];
        assert(units_view(us@)[i as int] == u@);
        let refs = extract_ref_array(slice_subrange(doc, u.body.0, u.body.1), key);
        let (brand, model) = resolve_brand(&table, &refs);
        out.push(
            UnitRecord {
                unit_id: copy_range(doc, u.id.0, u.id.1),
                start: u.span.0,
                end: u.span.1,
                body_start: u.body.0,
                body_end: u.body.1,
                brand,
                model,
            },
        );
        i = i + 1;
    }
    out
}

} // verus!
