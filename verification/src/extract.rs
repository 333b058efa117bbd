//! The field extractor: reads values out of the body of a unit.
//!
//! Every reader takes the text of a block and a key. A field that is not
//! there is reported as `None` or as an empty list, never as an error: the
//! caller decides whether it can do without the value.

use vstd::prelude::*;
use crate::field::{find_hit, lemma_hit_at, lemma_next_hit, next_hit, Hit, Shape};
use crate::hex_float::{
    check_float_literal, hex_to_bits, hex_to_float, is_float_literal, parse_value_auto, value_auto,
    FloatRepr, FloatReprView,
};
use crate::text::{append, ascii, ascii_bytes, copy_range, is_digit, list_view, opt_view};
use vstd::slice::slice_subrange;

verus! {

/// The value of the first field `key` of shape `shape`.
pub open spec fn field_text(block: Seq<u8>, key: Seq<u8>, shape: Shape) -> Option<Seq<u8>> {
    match next_hit(block, key, false, shape, 0) {
        Some(h) => Some(block.subrange(h.value.0, h.value.1)),
        None => None,
    }
}

/// Reads the value of the first field `key` of shape `shape`.
pub fn read_field(block: &[u8], key: &[u8], shape: Shape) -> (r: Option<Vec<u8>>)
    ensures
        opt_view(r) == field_text(block@, key@, shape),
{
    match find_hit(block, key, false, shape, 0) {
        Some(h) => {
            proof {
                lemma_next_hit(block@, key@, false, shape, 0);
            }
            Some(copy_range(block, h.value.0, h.value.1))
        },
        None => None,
    }
}

/// The text of the first field `key: "text"`, without its quotes.
pub fn extract_string(block: &[u8], key: &[u8]) -> (r: Option<Vec<u8>>)
    ensures
        opt_view(r) == field_text(block@, key@, Shape::Quoted),
{
    read_field(block, key, Shape::Quoted)
}

/// The hex digits of the first field `key: &digits`, without the `&`.
pub fn extract_raw(block: &[u8], key: &[u8]) -> (r: Option<Vec<u8>>)
    ensures
        opt_view(r) == field_text(block@, key@, Shape::Hex),
{
    read_field(block, key, Shape::Hex)
}

/// The value of a string of decimal digits.
pub open spec fn dec_value(s: Seq<u8>) -> nat
    decreases s.len(),
{
    if s.len() == 0 {
        0
    } else {
        10 * dec_value(s.drop_last()) + (s.last() - 48) as nat
    }
}

/// Whether `s` holds decimal digits only.
pub open spec fn all_digits(s: Seq<u8>) -> bool {
    forall|i: int| 0 <= i < s.len() ==> is_digit(#[trigger] s[i])
}

/// The value of a digit string never shrinks when digits are appended.
pub proof fn lemma_dec_value_prefix(s: Seq<u8>, k: int)
    requires
        0 <= k <= s.len(),
        all_digits(s),
    ensures
        dec_value(s.subrange(0, k)) <= dec_value(s),
    decreases s.len() - k,
{
    if k < s.len() {
        lemma_dec_value_prefix(s, k + 1);
        let t = s.subrange(0, k + 1);
        assert(t.drop_last() =~= s.subrange(0, k));
        assert(t.last() == s[k]);
    } else {
        assert(s.subrange(0, k) =~= s);
    }
}

/// The value of a digit string, or `limit` if the value is larger.
pub open spec fn dec_value_capped(s: Seq<u8>, limit: nat) -> nat {
    if dec_value(s) <= limit {
        dec_value(s)
    } else {
        limit
    }
}

/// Reads a string of decimal digits, stopping at `limit`.
pub fn read_digits(s: &[u8], limit: u64) -> (r: (u64, bool))
    requires
        all_digits(s@),
    ensures
        r.1 == (dec_value(s@) <= limit),
        r.0 == dec_value_capped(s@, limit as nat),
{
    let n = s.len();
    let mut acc: u64 = 0;
    let mut i: usize = 0;
    while i < n
        invariant
            n == s@.len(),
            i <= n,
            all_digits(s@),
            acc == dec_value(s@.subrange(0, i as int)),
            acc <= limit,
        decreases n - i,
    {
        let ghost pre = s@.subrange(0, i as int);
        let ghost cur = s@.subrange(0, i + 1);
        proof {
            assert(cur.drop_last() =~= pre);
            assert(cur.last() == s@[i as int]);
            assert(is_digit(s@[i as int]));
        }
        let d: u64 = (s[i] - 48) as u64;
        if limit < d || acc > (limit - d) / 10 {
            proof {
                lemma_dec_value_prefix(s@, i + 1);
            }
            return (limit, false);
        }
        acc = acc * 10 + d;
        i = i + 1;
    }
    assert(s@.subrange(0, i as int) =~= s@);
    (acc, true)
}

/// The number that the first field `key: digits` holds, if it fits.
pub open spec fn int_field(block: Seq<u8>, key: Seq<u8>) -> Option<i64> {
    match field_text(block, key, Shape::Digits) {
        Some(t) => if dec_value(t) <= i64::MAX {
            Some(dec_value(t) as i64)
        } else {
            None
        },
        None => None,
    }
}

/// The number of the first field `key: digits`. A number too large for 64
/// bits with a sign is not read.
pub fn extract_i64(block: &[u8], key: &[u8]) -> (r: Option<i64>)
    ensures
        r == int_field(block@, key@),
{
    match find_hit(block, key, false, Shape::Digits, 0) {
        Some(h) => {
            proof {
                lemma_next_hit(block@, key@, false, Shape::Digits, 0);
                lemma_digits_hit(block@, key@, false, h@);
            }
            let (v, fits) = read_digits(slice_subrange(block, h.value.0, h.value.1), 0x7fff_ffff_ffff_ffff);
            if fits {
                Some(v as i64)
            } else {
                None
            }
        },
        None => None,
    }
}

/// The value of a field of digits holds digits only.
pub proof fn lemma_digits_hit(block: Seq<u8>, key: Seq<u8>, indexed: bool, h: Hit)
    requires
        crate::field::hit_at(block, key, indexed, Shape::Digits, h.at) == Some(h),
    ensures
        all_digits(block.subrange(h.value.0, h.value.1)),
{
    lemma_hit_at(block, key, indexed, Shape::Digits, h.at);
    crate::text::lemma_run_end(block, h.value.0, crate::text::ByteClass::Digit);
    let t = block.subrange(h.value.0, h.value.1);
    assert forall|i: int| 0 <= i < t.len() implies is_digit(#[trigger] t[i]) by {
        assert(t[i] == block[h.value.0 + i]);
    }
}

/// The index digits of a field of an array are digits.
pub proof fn lemma_index_digits(block: Seq<u8>, key: Seq<u8>, shape: Shape, h: Hit)
    requires
        crate::field::hit_at(block, key, true, shape, h.at) == Some(h),
    ensures
        all_digits(block.subrange(h.index.0, h.index.1)),
{
    lemma_hit_at(block, key, true, shape, h.at);
    crate::text::lemma_run_end(block, h.at + key.len() + 1, crate::text::ByteClass::Digit);
    let t = block.subrange(h.index.0, h.index.1);
    assert forall|i: int| 0 <= i < t.len() implies is_digit(#[trigger] t[i]) by {
        assert(t[i] == block[h.index.0 + i]);
    }
}

/// The decimal text of the first field `key: number`, where that text is a
/// float literal.
pub open spec fn decimal_field(block: Seq<u8>, key: Seq<u8>) -> Option<Seq<u8>> {
    match field_text(block, key, Shape::Decimal) {
        Some(t) => if is_float_literal(t) {
            Some(t)
        } else {
            None
        },
        None => None,
    }
}

/// The decimal number of the first field `key: number`, as its text.
///
/// The value is the run of digits, dots and minus signs after the colon.
/// It is returned where it is a float literal, which the caller can then
/// convert without failure; a run such as `1.2.3` is not read.
pub fn extract_f32(block: &[u8], key: &[u8]) -> (r: Option<Vec<u8>>)
    ensures
        opt_view(r) == decimal_field(block@, key@),
{
    match read_field(block, key, Shape::Decimal) {
        Some(t) => if check_float_literal(t.as_slice()) {
            Some(t)
        } else {
            None
        },
        None => None,
    }
}

/// A number that was found or not, as a mathematical value.
pub open spec fn number_view(r: Option<FloatRepr>) -> Option<FloatReprView> {
    match r {
        Some(v) => Some(v@),
        None => None,
    }
}

/// What a value token stands for, if anything.
pub open spec fn token_number(t: Seq<u8>) -> Option<FloatReprView> {
    match value_auto(t) {
        Ok(v) => Some(v),
        Err(_) => None,
    }
}

/// The number of the first field `key: value` whose value is a hex token
/// or a decimal run.
pub open spec fn number_field(block: Seq<u8>, key: Seq<u8>) -> Option<FloatReprView> {
    match field_text(block, key, Shape::Number) {
        Some(t) => token_number(t),
        None => None,
    }
}

fn read_number(token: &[u8]) -> (r: Option<FloatRepr>)
    ensures
        number_view(r) == token_number(token@),
{
    match parse_value_auto(token) {
        Ok(v) => Some(v),
        Err(_) => None,
    }
}

/// The number of the first field `key`, written in hex or in decimal.
pub fn extract_number(block: &[u8], key: &[u8]) -> (r: Option<FloatRepr>)
    ensures
        number_view(r) == number_field(block@, key@),
{
    match read_field(block, key, Shape::Number) {
        Some(t) => read_number(t.as_slice()),
        None => None,
    }
}

/// A number that a document splits over two fields: `key` holds its whole
/// part as a decimal, `key_float_part` the rest as a hex float. The number
/// is the sum of the two, a missing part counting as zero.
#[derive(Debug)]
pub struct CombinedFloat {
    /// The text of the decimal part.
    pub base: Option<Vec<u8>>,
    /// The bit pattern of the hex part.
    pub part: Option<u32>,
}

/// The two parts of a split number, as mathematical values.
pub struct CombinedFloatView {
    pub base: Option<Seq<u8>>,
    pub part: Option<u32>,
}

impl View for CombinedFloat {
    type V = CombinedFloatView;

    open spec fn view(&self) -> CombinedFloatView {
        CombinedFloatView { base: opt_view(self.base), part: self.part }
    }
}

/// The key of the hex part of a split number.
pub open spec fn float_part_key(key: Seq<u8>) -> Seq<u8> {
    key + ascii_bytes("_float_part"@)
}

/// The bit pattern of the first field `key: &digits`, if the digits fit.
pub open spec fn bits_field(block: Seq<u8>, key: Seq<u8>) -> Option<u32> {
    match field_text(block, key, Shape::Hex) {
        Some(t) => match hex_to_bits(t) {
            Ok(v) => Some(v),
            Err(_) => None,
        },
        None => None,
    }
}

/// The two parts of the split number `key` of `block`.
pub open spec fn combined_field(block: Seq<u8>, key: Seq<u8>) -> CombinedFloatView {
    CombinedFloatView {
        base: decimal_field(block, key),
        part: bits_field(block, float_part_key(key)),
    }
}

/// The two parts of the split number `key`.
pub fn extract_combined_float(block: &[u8], key: &[u8]) -> (r: CombinedFloat)
    ensures
        r@ == combined_field(block@, key@),
{
    let base = extract_f32(block, key);
    let mut part_key: Vec<u8> = Vec::new();
    append(&mut part_key, key);
    proof {
        reveal_strlit("_float_part");
    }
    append(&mut part_key, ascii("_float_part"));
    assert(part_key@ =~= float_part_key(key@));
    let part = match extract_raw(block, part_key.as_slice()) {
        Some(t) => match hex_to_float(t.as_slice()) {
            Ok(v) => Some(v),
            Err(_) => None,
        },
        None => None,
    };
    CombinedFloat { base, part }
}

/// A field of an array: its index and where its value stands.
pub struct Item {
    pub index: nat,
    pub value: (int, int),
}

/// A field of an array, in machine integers.
#[derive(Clone, Copy, Debug)]
pub struct ItemPos {
    pub index: u64,
    pub value: (usize, usize),
}

impl View for ItemPos {
    type V = Item;

    open spec fn view(&self) -> Item {
        Item { index: self.index as nat, value: (self.value.0 as int, self.value.1 as int) }
    }
}

/// The largest index that is told apart; a larger one counts as this one.
pub open spec fn index_limit() -> nat {
    u64::MAX as nat
}

/// The field at `h`, as a field of an array.
pub open spec fn item_of(block: Seq<u8>, h: Hit) -> Item {
    Item {
        index: dec_value_capped(block.subrange(h.index.0, h.index.1), index_limit()),
        value: h.value,
    }
}

/// The fields `key[n]` from `from` on, in the order in which they stand,
/// after those in `acc`.
pub open spec fn collect_items(
    block: Seq<u8>,
    key: Seq<u8>,
    shape: Shape,
    from: int,
    acc: Seq<Item>,
) -> Seq<Item>
    decreases block.len() - from,
{
    match next_hit(block, key, true, shape, from) {
        None => acc,
        Some(h) => if from <= h.at < h.end <= block.len() {
            collect_items(block, key, shape, h.end, acc.push(item_of(block, h)))
        } else {
            acc
        },
    }
}

/// Where `it` goes in a list ordered by index: behind the last item whose
/// index is not larger.
pub open spec fn place(items: Seq<Item>, it: Item) -> int
    decreases items.len(),
{
    if items.len() == 0 {
        0
    } else if items.last().index <= it.index {
        items.len() as int
    } else {
        place(items.drop_last(), it)
    }
}

/// `items` in the order of their indices; items of one index keep the
/// order in which they stand.
pub open spec fn by_index(items: Seq<Item>) -> Seq<Item>
    decreases items.len(),
{
    if items.len() == 0 {
        Seq::<Item>::empty()
    } else {
        let rest = by_index(items.drop_last());
        rest.insert(place(rest, items.last()), items.last())
    }
}

/// The fields `key[n]` of `block`, in the order of their indices.
pub open spec fn array_items(block: Seq<u8>, key: Seq<u8>, shape: Shape) -> Seq<Item> {
    by_index(collect_items(block, key, shape, 0, Seq::<Item>::empty()))
}

/// Whether the indices of `items` never fall.
pub open spec fn is_ordered(items: Seq<Item>) -> bool {
    forall|i: int, j: int| 0 <= i <= j < items.len() ==> items[i].index <= items[j].index
}

/// The place of an item lies in the list, behind every item of an index
/// that is not larger and before every item of a larger one.
pub proof fn lemma_place(items: Seq<Item>, it: Item)
    ensures
        0 <= place(items, it) <= items.len(),
        forall|k: int| place(items, it) <= k < items.len() ==> (#[trigger] items[k]).index > it.index,
        place(items, it) > 0 ==> items[place(items, it) - 1].index <= it.index,
    decreases items.len(),
{
    if items.len() > 0 && items.last().index > it.index {
        let rest = items.drop_last();
        lemma_place(rest, it);
        assert forall|k: int| place(items, it) <= k < items.len() implies (#[trigger] items[k]).index
            > it.index by {
            if k < rest.len() {
                assert(rest[k] == items[k]);
            }
        }
        if place(items, it) > 0 {
            assert(rest[place(items, it) - 1] == items[place(items, it) - 1]);
        }
    }
}

/// Ordering by index gives a list that is ordered by index, of the same
/// length.
pub proof fn lemma_by_index(items: Seq<Item>)
    ensures
        by_index(items).len() == items.len(),
        is_ordered(by_index(items)),
    decreases items.len(),
{
    if items.len() > 0 {
        let rest = by_index(items.drop_last());
        let it = items.last();
        lemma_by_index(items.drop_last());
        lemma_place(rest, it);
        let p = place(rest, it);
        let out = rest.insert(p, it);
        assert forall|i: int, j: int| 0 <= i <= j < out.len() implies out[i].index
            <= out[j].index by {
            if i < p && j < p {
                assert(out[i] == rest[i] && out[j] == rest[j]);
            } else if i < p && j == p {
                assert(out[i] == rest[i]);
                assert(rest[i].index <= rest[p - 1].index);
            } else if i == p && j > p {
                assert(out[j] == rest[j - 1]);
            } else if i > p {
                assert(out[i] == rest[i - 1] && out[j] == rest[j - 1]);
            }
        }
    }
}

/// Fields of an array, in mathematical integers.
pub open spec fn items_view(v: Seq<ItemPos>) -> Seq<Item> {
    Seq::new(v.len(), |i: int| v[i]@)
}

/// Whether the values of `items` lie inside a text of `n` bytes.
pub open spec fn items_inside(items: Seq<Item>, n: int) -> bool {
    forall|i: int| 0 <= i < items.len() ==> 0 <= (#[trigger] items[i]).value.0 <= items[i].value.1 <= n
}

proof fn lemma_insert_inside(items: Seq<Item>, p: int, it: Item, n: int)
    requires
        items_inside(items, n),
        0 <= p <= items.len(),
        0 <= it.value.0 <= it.value.1 <= n,
    ensures
        items_inside(items.insert(p, it), n),
{
    let out = items.insert(p, it);
    assert forall|i: int| 0 <= i < out.len() implies 0 <= (#[trigger] out[i]).value.0
        <= out[i].value.1 <= n by {
        if i < p {
            assert(out[i] == items[i]);
        } else if i > p {
            assert(out[i] == items[i - 1]);
        }
    }
}

/// Collects the fields `key[n]` of `block` and orders them by index.
pub fn find_items(block: &[u8], key: &[u8], shape: Shape) -> (r: Vec<ItemPos>)
    ensures
        items_view(r@) == array_items(block@, key@, shape),
        items_inside(items_view(r@), block@.len() as int),
{
    let n = block.len();
    let mut out: Vec<ItemPos> = Vec::new();
    let ghost mut acc: Seq<Item> = Seq::<Item>::empty();
    let mut from: usize = 0;
    assert(items_view(out@) =~= by_index(acc));
    loop
        invariant
            n == block@.len(),
            from <= n,
            collect_items(block@, key@, shape, 0, Seq::<Item>::empty()) == collect_items(
                block@,
                key@,
                shape,
                from as int,
                acc,
            ),
            items_view(out@) == by_index(acc),
            items_inside(items_view(out@), n as int),
        decreases n - from,
    {
        match find_hit(block, key, true, shape, from) {
            None => {
                return out;
            },
            Some(h) => {
                proof {
                    lemma_next_hit(block@, key@, true, shape, from as int);
                    lemma_hit_at(block@, key@, true, shape, h.at as int);
                    lemma_index_digits(block@, key@, shape, h@);
                }
                let (index, _fits) = read_digits(
                    slice_subrange(block, h.index.0, h.index.1),
                    0xffff_ffff_ffff_ffff,
                );
                let it = ItemPos { index, value: h.value };
                assert(it@ == item_of(block@, h@));
                // Find the place from the back.
                let mut p: usize = out.len();
                assert(items_view(out@).subrange(0, p as int) =~= items_view(out@));
                while p > 0 && out[p - 1].index > index
                    invariant
                        p <= out@.len(),
                        it.index == index,
                        place(items_view(out@), it@) == place(
                            items_view(out@).subrange(0, p as int),
                            it@,
                        ),
                    decreases p,
                {
                    proof {
                        let cur = items_view(out@).subrange(0, p as int);
                        assert(cur.len() == p);
                        assert(cur.last() == items_view(out@)[p - 1]);
                        assert(items_view(out@)[p - 1] == out@[p - 1]@);
                        assert(cur.last().index > it@.index);
                        assert(cur.drop_last() =~= items_view(out@).subrange(0, p - 1));
                        assert(place(cur, it@) == place(cur.drop_last(), it@));
                    }
                    p = p - 1;
                }
                proof {
                    let cur = items_view(out@).subrange(0, p as int);
                    if p > 0 {
                        assert(cur.last() == out@[p - 1]@);
                    }
                    assert(place(cur, it@) == p);
                    assert(items_view(out@).subrange(0, out@.len() as int) =~= items_view(out@));
                    lemma_insert_inside(items_view(out@), p as int, it@, n as int);
                }
                let ghost before = items_view(out@);
                out.insert(p, it);
                proof {
                    assert(items_view(out@) =~= before.insert(p as int, it@));
                    let next = acc.push(it@);
                    assert(next.drop_last() =~= acc);
                    assert(next.last() == it@);
                    acc = next;
                }
                from = h.end;
            },
        }
    }
}

/// The numbers that the fields at `items` hold, in that order; a field
/// whose value is no number is passed over.
pub open spec fn item_numbers(block: Seq<u8>, items: Seq<Item>) -> Seq<FloatReprView>
    decreases items.len(),
{
    if items.len() == 0 {
        Seq::<FloatReprView>::empty()
    } else {
        let rest = item_numbers(block, items.drop_last());
        let it = items.last();
        match token_number(block.subrange(it.value.0, it.value.1)) {
            Some(v) => rest.push(v),
            None => rest,
        }
    }
}

/// A list of numbers, as mathematical values.
pub open spec fn numbers_view(v: Seq<FloatRepr>) -> Seq<FloatReprView> {
    Seq::new(v.len(), |i: int| v[i]@)
}

/// The numbers of the array `key`, in index order.
pub open spec fn number_array(block: Seq<u8>, key: Seq<u8>) -> Seq<FloatReprView> {
    item_numbers(block, array_items(block, key, Shape::Number))
}

/// The numbers of the fields `key[0]`, `key[1]`, ..., in the order of
/// their indices, whichever indices are there. Each value is a hex token
/// or a decimal run; one that is no number is passed over.
pub fn extract_array(block: &[u8], key: &[u8]) -> (r: Vec<FloatRepr>)
    ensures
        numbers_view(r@) == number_array(block@, key@),
{
    let items = find_items(block, key, Shape::Number);
    let mut out: Vec<FloatRepr> = Vec::new();
    let mut i: usize = 0;
    while i < items.len()
        invariant
            i <= items@.len(),
            items_inside(items_view(items@), block@.len() as int),
            numbers_view(out@) == item_numbers(block@, items_view(items@).subrange(0, i as int)),
        decreases items@.len() - i,
    {
        let it = items[i];
        proof {
            let cur = items_view(items@).subrange(0, i + 1);
            assert(cur.drop_last() =~= items_view(items@).subrange(0, i as int));
            assert(cur.last() == it@);
        }
        match read_number(slice_subrange(block, it.value.0, it.value.1)) {
            Some(v) => {
                out.push(v);
            },
            None => {},
        }
        i = i + 1;
    }
    assert(items_view(items@).subrange(0, i as int) =~= items_view(items@));
    out
}

/// The texts that stand at `items`, in that order.
pub open spec fn item_texts(block: Seq<u8>, items: Seq<Item>) -> Seq<Seq<u8>> {
    Seq::new(items.len(), |i: int| block.subrange(items[i].value.0, items[i].value.1))
}

fn read_items(block: &[u8], key: &[u8], shape: Shape) -> (r: Vec<Vec<u8>>)
    ensures
        list_view(r@) == item_texts(block@, array_items(block@, key@, shape)),
{
    let items = find_items(block, key, shape);
    let mut out: Vec<Vec<u8>> = Vec::new();
    let mut i: usize = 0;
    while i < items.len()
        invariant
            i <= items@.len(),
            items_inside(items_view(items@), block@.len() as int),
            out@.len() == i,
            forall|k: int| 0 <= k < i ==> (#[trigger] out@[k])@ == block@.subrange(
                items@[k]@.value.0,
                items@[k]@.value.1,
            ),
        decreases items@.len() - i,
    {
        let it = items[i];
        assert(items_view(items@)[i as int] == it@);
        out.push(copy_range(block, it.value.0, it.value.1));
        i = i + 1;
    }
    out
}

/// The texts of the fields `key[n]: "text"`, in the order of their
/// indices, without their quotes.
pub fn extract_string_array(block: &[u8], key: &[u8]) -> (r: Vec<Vec<u8>>)
    ensures
        list_view(r@) == item_texts(block@, array_items(block@, key@, Shape::Quoted)),
{
    read_items(block, key, Shape::Quoted)
}

/// The words of the fields `key[n]: word`, in the order of their indices.
/// This is how a unit lists the ids of other units.
pub fn extract_ref_array(block: &[u8], key: &[u8]) -> (r: Vec<Vec<u8>>)
    ensures
        list_view(r@) == item_texts(block@, array_items(block@, key@, Shape::Word)),
{
    read_items(block, key, Shape::Word)
}

} // verus!
