//! The figures of a save: money, experience and skills, read and set.
//!
//! A save states some figures twice: once in the unit that owns them, in
//! a line of its own, and once in the summary, under a key that starts
//! with `info_`. A reader prefers the first and falls back on the second.

use vstd::prelude::*;
use crate::config::{number_of, parse_digits};
use crate::extract::{dec_value, extract_i64, int_field, lemma_digits_hit, read_digits};
use crate::field::{
    find_hit, find_placed_hit, hit_at, lemma_hit_at, lemma_next_hit, next_hit, next_placed_hit,
    placed_pred, Hit, HitPos, Place, Shape,
};
use crate::text::{copy_range, first_hit, k, key, lemma_first_hit, splice, splice_bytes, MINUS};
use crate::vehicle_editor::{decimal_text, i64_to_decimal};
use vstd::slice::slice_subrange;

verus! {

/// Why a figure was not set.
#[derive(Clone, Copy, PartialEq, Eq, Structural, Debug)]
pub enum SaveEditError {
    /// The save holds no such field.
    FieldNotFound,
}

/// The figures of a save.
#[derive(Clone, Copy, PartialEq, Eq, Debug)]
pub struct SaveGameData {
    pub money: Option<i64>,
    pub xp: Option<i64>,
    pub recruitments: Option<i64>,
    pub dealers: Option<i64>,
    pub visited_cities: Option<i64>,
}

/// A field found at a place has its parts in order.
pub proof fn lemma_placed_hit(block: Seq<u8>, key: Seq<u8>, shape: Shape, place: Place)
    requires
        next_placed_hit(block, key, shape, place) is Some,
    ensures
        ({
            let h = next_placed_hit(block, key, shape, place).unwrap();
            &&& hit_at(block, key, false, shape, h.at) == Some(h)
            &&& 0 <= h.at < h.value.0 <= h.value.1 <= h.end <= block.len()
        }),
{
    let pred = placed_pred(block, key, shape, place);
    lemma_first_hit(pred, 0, block.len() as int);
    let q = first_hit(pred, 0, block.len() as int);
    lemma_hit_at(block, key, false, shape, q);
}

/// The number of the first field `key: digits` that leads its line.
pub open spec fn leading_number(doc: Seq<u8>, key: Seq<u8>) -> Option<i64> {
    match next_placed_hit(doc, key, Shape::Digits, Place::LineStart) {
        Some(h) => number_of(doc.subrange(h.value.0, h.value.1)),
        None => None,
    }
}

/// The figure that stands under `main` in a line of its own or, failing
/// that, under `info` anywhere.
pub open spec fn figure(doc: Seq<u8>, main: Seq<u8>, info: Seq<u8>) -> Option<i64> {
    match leading_number(doc, main) {
        Some(v) => Some(v),
        None => int_field(doc, info),
    }
}

fn read_leading_number(doc: &[u8], k: &[u8]) -> (r: Option<i64>)
    ensures
        r == leading_number(doc@, k@),
{
    match find_placed_hit(doc, k, Shape::Digits, Place::LineStart) {
        Some(h) => {
            proof {
                lemma_placed_hit(doc@, k@, Shape::Digits, Place::LineStart);
                lemma_digits_hit(doc@, k@, false, h@);
            }
            parse_digits(slice_subrange(doc, h.value.0, h.value.1))
        },
        None => None,
    }
}

fn read_figure(doc: &[u8], main: &[u8], info: &[u8]) -> (r: Option<i64>)
    ensures
        r == figure(doc@, main@, info@),
{
    match read_leading_number(doc, main) {
        Some(v) => Some(v),
        None => extract_i64(doc, info),
    }
}

/// Reads the figures of a save.
pub fn read_all_save_data(doc: &[u8]) -> (r: SaveGameData)
    ensures
        r.money == figure(doc@, k("money_account"@), k("info_money_account"@)),
        r.xp == figure(doc@, k("experience_points"@), k("info_players_experience"@)),
        r.recruitments == int_field(doc@, k("info_unlocked_recruitments"@)),
        r.dealers == int_field(doc@, k("info_unlocked_dealers"@)),
        r.visited_cities == int_field(doc@, k("info_visited_cities"@)),
{
    SaveGameData {
        money: read_figure(
            doc,
            key("money_account").as_slice(),
            key("info_money_account").as_slice(),
        ),
        xp: read_figure(
            doc,
            key("experience_points").as_slice(),
            key("info_players_experience").as_slice(),
        ),
        recruitments: extract_i64(doc, key("info_unlocked_recruitments").as_slice()),
        dealers: extract_i64(doc, key("info_unlocked_dealers").as_slice()),
        visited_cities: extract_i64(doc, key("info_visited_cities").as_slice()),
    }
}

/// The figure, or zero where there is none.
pub open spec fn or_zero(v: Option<i64>) -> i64 {
    match v {
        Some(x) => x,
        None => 0,
    }
}

/// The money of a save; zero where the save states none.
pub fn read_money(doc: &[u8]) -> (r: i64)
    ensures
        r == or_zero(figure(doc@, k("money_account"@), k("info_money_account"@))),
{
    match read_figure(doc, key("money_account").as_slice(), key("info_money_account").as_slice()) {
        Some(v) => v,
        None => 0,
    }
}

/// The experience points of a save; zero where the save states none.
pub fn read_xp(doc: &[u8]) -> (r: i64)
    ensures
        r == or_zero(figure(doc@, k("experience_points"@), k("info_players_experience"@))),
{
    match read_figure(
        doc,
        key("experience_points").as_slice(),
        key("info_players_experience").as_slice(),
    ) {
        Some(v) => v,
        None => 0,
    }
}

/// The number that `t` spells: digits, after a minus sign or without.
pub open spec fn signed_number_of(t: Seq<u8>) -> Option<i64> {
    if t.len() > 0 && t[0] == MINUS {
        let v = dec_value(t.subrange(1, t.len() as int));
        if v <= 0x8000_0000_0000_0000 {
            Some((-v) as i64)
        } else {
            None
        }
    } else {
        number_of(t)
    }
}

/// The number of the first field `key: number` that leads its line.
pub open spec fn leading_signed(text: Seq<u8>, key: Seq<u8>) -> Option<i64> {
    match next_placed_hit(text, key, Shape::Signed, Place::LineStart) {
        Some(h) => signed_number_of(text.subrange(h.value.0, h.value.1)),
        None => None,
    }
}

/// Reads the number of the first field `key: number` that stands at the
/// start of its line; the number may be negative.
pub fn extract_value(text: &[u8], k: &[u8]) -> (r: Option<i64>)
    ensures
        r == leading_signed(text@, k@),
{
    match find_placed_hit(text, k, Shape::Signed, Place::LineStart) {
        Some(h) => {
            proof {
                lemma_placed_hit(text@, k@, Shape::Signed, Place::LineStart);
                let v = h@.value.0;
                crate::text::lemma_run_end(text@, v, crate::text::ByteClass::Digit);
                if v < text@.len() {
                    crate::text::lemma_run_end(text@, v + 1, crate::text::ByteClass::Digit);
                }
            }
            let t = slice_subrange(text, h.value.0, h.value.1);
            let ghost d0: int = if text@[h.value.0 as int] == MINUS {
                h.value.0 + 1
            } else {
                h.value.0 as int
            };
            proof {
                let digits = text@.subrange(d0, h.value.1 as int);
                assert forall|i: int| 0 <= i < digits.len() implies crate::text::is_digit(
                    #[trigger] digits[i],
                ) by {}
            }
            if t[0] == MINUS {
                let digits = slice_subrange(t, 1, t.len());
                let (v, fits) = read_digits(digits, 0x8000_0000_0000_0000);
                if !fits {
                    None
                } else if v == 0x8000_0000_0000_0000 {
                    Some(-0x8000_0000_0000_0000)
                } else {
                    Some(-(v as i64))
                }
            } else {
                parse_digits(t)
            }
        },
        None => None,
    }
}

/// `doc` with the value of the field at `hit` set to `value`, or `doc`
/// itself where there is no such field.
pub open spec fn set_number(doc: Seq<u8>, hit: Option<Hit>, value: int) -> Seq<u8> {
    match hit {
        Some(h) => splice(doc, h.value.0, h.value.1, decimal_text(value)),
        None => doc,
    }
}

fn write_number(doc: &[u8], hit: Option<HitPos>, value: i64) -> (r: Vec<u8>)
    requires
        hit is Some ==> hit.unwrap().value.0 <= hit.unwrap().value.1 <= doc@.len(),
    ensures
        r@ == set_number(doc@, crate::field::hit_view(hit), value as int),
{
    match hit {
        Some(h) => splice_bytes(doc, h.value.0, h.value.1, i64_to_decimal(value).as_slice()),
        None => {
            let r = copy_range(doc, 0, doc.len());
            r
        },
    }
}

/// The save after the figure that stands under `info` anywhere, and then
/// the one under `main` in a line of its own, is set to `value`. A figure
/// that the save does not state is passed over.
pub open spec fn set_figure(doc: Seq<u8>, main: Seq<u8>, info: Seq<u8>, value: int) -> Seq<u8> {
    let first = set_number(doc, next_hit(doc, info, false, Shape::Digits, 0), value);
    set_number(first, next_placed_hit(first, main, Shape::Digits, Place::LineStart), value)
}

fn write_figure(doc: &[u8], main: &[u8], info: &[u8], value: i64) -> (r: Vec<u8>)
    ensures
        r@ == set_figure(doc@, main@, info@, value as int),
{
    let h1 = find_hit(doc, info, false, Shape::Digits, 0);
    proof {
        lemma_next_hit(doc@, info@, false, Shape::Digits, 0);
    }
    let first = write_number(doc, h1, value);
    let h2 = find_placed_hit(first.as_slice(), main, Shape::Digits, Place::LineStart);
    write_number(first.as_slice(), h2, value)
}

/// Sets the money of a save, in the summary and in the bank's unit.
pub fn edit_money(doc: &[u8], amount: i64) -> (r: Vec<u8>)
    ensures
        r@ == set_figure(doc@, k("money_account"@), k("info_money_account"@), amount as int),
{
    write_figure(
        doc,
        key("money_account").as_slice(),
        key("info_money_account").as_slice(),
        amount,
    )
}

/// Sets the experience points of a save, in the summary and in the
/// player's unit.
pub fn edit_xp(doc: &[u8], xp: i64) -> (r: Vec<u8>)
    ensures
        r@ == set_figure(doc@, k("experience_points"@), k("info_players_experience"@), xp as int),
{
    write_figure(
        doc,
        key("experience_points").as_slice(),
        key("info_players_experience").as_slice(),
        xp,
    )
}

/// Sets the level of the player, which a save states as experience
/// points.
pub fn edit_level(doc: &[u8], xp: i64) -> (r: Vec<u8>)
    ensures
        r@ == set_figure(doc@, k("experience_points"@), k("info_players_experience"@), xp as int),
{
    edit_xp(doc, xp)
}

/// An edited save, read as a sequence of bytes.
pub open spec fn save_edit_view(r: Result<Vec<u8>, SaveEditError>) -> Result<
    Seq<u8>,
    SaveEditError,
> {
    match r {
        Ok(d) => Ok(d@),
        Err(e) => Err(e),
    }
}

/// The save after the first field `key: digits` is set to `value`.
pub open spec fn set_required(doc: Seq<u8>, hit: Option<Hit>, value: int) -> Result<
    Seq<u8>,
    SaveEditError,
> {
    match hit {
        Some(h) => Ok(splice(doc, h.value.0, h.value.1, decimal_text(value))),
        None => Err(SaveEditError::FieldNotFound),
    }
}

fn write_required(doc: &[u8], hit: Option<HitPos>, value: i64) -> (r: Result<
    Vec<u8>,
    SaveEditError,
>)
    requires
        hit is Some ==> hit.unwrap().value.0 <= hit.unwrap().value.1 <= doc@.len(),
    ensures
        save_edit_view(r) == set_required(doc@, crate::field::hit_view(hit), value as int),
{
    match hit {
        Some(h) => Ok(splice_bytes(doc, h.value.0, h.value.1, i64_to_decimal(value).as_slice())),
        None => Err(SaveEditError::FieldNotFound),
    }
}

/// Sets the money of the player: the first `money_account` of the save.
pub fn edit_player_money(doc: &[u8], value: i64) -> (r: Result<Vec<u8>, SaveEditError>)
    ensures
        save_edit_view(r) == set_required(
            doc@,
            next_hit(doc@, k("money_account"@), false, Shape::Digits, 0),
            value as int,
        ),
{
    let kk = key("money_account");
    let h = find_hit(doc, kk.as_slice(), false, Shape::Digits, 0);
    proof {
        lemma_next_hit(doc@, kk@, false, Shape::Digits, 0);
    }
    write_required(doc, h, value)
}

/// Sets the experience of the player: the first `experience_points` of
/// the save.
pub fn edit_player_experience(doc: &[u8], value: i64) -> (r: Result<Vec<u8>, SaveEditError>)
    ensures
        save_edit_view(r) == set_required(
            doc@,
            next_hit(doc@, k("experience_points"@), false, Shape::Digits, 0),
            value as int,
        ),
{
    let kk = key("experience_points");
    let h = find_hit(doc, kk.as_slice(), false, Shape::Digits, 0);
    proof {
        lemma_next_hit(doc@, kk@, false, Shape::Digits, 0);
    }
    write_required(doc, h, value)
}

/// Sets the skill `skill` of the player, such as `adr` or `long_dist`:
/// the first field of that name that starts a word.
pub fn edit_skill_value(doc: &[u8], skill: &[u8], value: i64) -> (r: Result<
    Vec<u8>,
    SaveEditError,
>)
    ensures
        save_edit_view(r) == set_required(
            doc@,
            next_placed_hit(doc@, skill@, Shape::Digits, Place::WordStart),
            value as int,
        ),
{
    let h = find_placed_hit(doc, skill, Shape::Digits, Place::WordStart);
    write_required(doc, h, value)
}

} // verus!
