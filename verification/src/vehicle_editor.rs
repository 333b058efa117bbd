//! Edits of the vehicles that the player drives: each one resolves the
//! vehicle, then changes fields of its unit and nothing else.
//!
//! The vehicle is the one that the first player unit of the document
//! names. An edit asks for no economy unit: a document that holds the
//! player's unit and the vehicle's is edited.

use vstd::prelude::*;
use crate::edit::{edit, edit_field, edit_view, field_span, EditError};
use crate::field::{find_hit, lemma_next_hit, next_hit, Shape};
use crate::hex_float::{bits_to_hex, float_to_hex};
use crate::locate::{lemma_locate, locate, locate_block};
use crate::resolve::{get_player_vehicle_id, player_vehicle, ResolverError};
use crate::text::{ascii_bytes, key, list_view, splice, splice_bytes, MINUS};
use vstd::slice::slice_subrange;

verus! {

/// Why an edit of the player's vehicle was not made.
#[derive(Clone, Copy, PartialEq, Eq, Structural, Debug)]
pub enum CommandError {
    /// The vehicle could not be resolved.
    Resolve(ResolverError),
    /// The vehicle was resolved, but its unit or the field was not found.
    Edit(EditError),
}

/// An edited document, read as a sequence of bytes.
pub open spec fn command_view(r: Result<Vec<u8>, CommandError>) -> Result<Seq<u8>, CommandError> {
    match r {
        Ok(d) => Ok(d@),
        Err(e) => Err(e),
    }
}

/// The document after field `field` of the player's vehicle is set to
/// `value`. The vehicle is the unit of class `class` that the player
/// names under `slot`.
pub open spec fn player_edit(
    doc: Seq<u8>,
    class: Seq<u8>,
    slot: Seq<u8>,
    field: Seq<u8>,
    value: Seq<u8>,
) -> Result<Seq<u8>, CommandError> {
    match player_vehicle(doc, slot) {
        Err(e) => Err(CommandError::Resolve(e)),
        Ok(id) => match edit(doc, class, id, field, value) {
            Ok(d) => Ok(d),
            Err(e) => Err(CommandError::Edit(e)),
        },
    }
}

/// Sets one field of the vehicle that the player names under
/// `player_vehicle_key` (`my_truck` or `my_trailer`), a unit of class
/// `unit_type` (`vehicle` or `trailer`).
///
/// The document differs from `doc` in the value of that field alone. It
/// is an error when the document holds no player unit, when the player
/// names no such vehicle, when the vehicle has no unit, and when the unit
/// has no such field.
pub fn generic_vehicle_attribute_edit(
    doc: &[u8],
    unit_type: &[u8],
    player_vehicle_key: &[u8],
    attribute_key: &[u8],
    value: &[u8],
) -> (r: Result<Vec<u8>, CommandError>)
    ensures
        command_view(r) == player_edit(
            doc@,
            unit_type@,
            player_vehicle_key@,
            attribute_key@,
            value@,
        ),
{
    match get_player_vehicle_id(doc, player_vehicle_key) {
        Err(e) => Err(CommandError::Resolve(e)),
        Ok(id) => match edit_field(doc, unit_type, id.as_slice(), attribute_key, value) {
            Ok(d) => Ok(d),
            Err(e) => Err(CommandError::Edit(e)),
        },
    }
}

/// The document after field `field` of the player's truck is set to
/// `value`.
pub open spec fn truck_edit(doc: Seq<u8>, field: Seq<char>, value: Seq<u8>) -> Result<
    Seq<u8>,
    CommandError,
> {
    player_edit(doc, ascii_bytes("vehicle"@), ascii_bytes("my_truck"@), ascii_bytes(field), value)
}

/// The document after field `field` of the player's trailer is set to
/// `value`.
pub open spec fn trailer_edit(doc: Seq<u8>, field: Seq<char>, value: Seq<u8>) -> Result<
    Seq<u8>,
    CommandError,
> {
    player_edit(doc, ascii_bytes("trailer"@), ascii_bytes("my_trailer"@), ascii_bytes(field), value)
}

fn edit_truck(doc: &[u8], field: &str, value: &[u8]) -> (r: Result<Vec<u8>, CommandError>)
    ensures
        command_view(r) == truck_edit(doc@, field@, value@),
{
    generic_vehicle_attribute_edit(
        doc,
        key("vehicle").as_slice(),
        key("my_truck").as_slice(),
        key(field).as_slice(),
        value,
    )
}

fn edit_trailer(doc: &[u8], field: &str, value: &[u8]) -> (r: Result<Vec<u8>, CommandError>)
    ensures
        command_view(r) == trailer_edit(doc@, field@, value@),
{
    generic_vehicle_attribute_edit(
        doc,
        key("trailer").as_slice(),
        key("my_trailer").as_slice(),
        key(field).as_slice(),
        value,
    )
}

/// Sets the license plate of the player's truck. The plate stays in its
/// quotes and keeps its country suffix.
pub fn set_player_truck_license_plate(doc: &[u8], plate: &[u8]) -> (r: Result<
    Vec<u8>,
    CommandError,
>)
    ensures
        command_view(r) == truck_edit(doc@, "license_plate"@, plate@),
{
    edit_truck(doc, "license_plate", plate)
}

/// Sets the license plate of the player's trailer.
pub fn set_player_trailer_license_plate(doc: &[u8], plate: &[u8]) -> (r: Result<
    Vec<u8>,
    CommandError,
>)
    ensures
        command_view(r) == trailer_edit(doc@, "license_plate"@, plate@),
{
    edit_trailer(doc, "license_plate", plate)
}

/// The bit pattern of the float 1.
pub const ONE: u32 = 0x3f80_0000;

/// Fills the tank of the player's truck.
pub fn refuel_player_truck(doc: &[u8]) -> (r: Result<Vec<u8>, CommandError>)
    ensures
        command_view(r) == truck_edit(doc@, "fuel_relative"@, bits_to_hex(ONE)),
{
    edit_truck(doc, "fuel_relative", float_to_hex(ONE).as_slice())
}

/// Sets the fuel of the player's truck to the float of bit pattern
/// `level`, a share of the tank.
pub fn set_player_truck_fuel(doc: &[u8], level: u32) -> (r: Result<Vec<u8>, CommandError>)
    ensures
        command_view(r) == truck_edit(doc@, "fuel_relative"@, bits_to_hex(level)),
{
    edit_truck(doc, "fuel_relative", float_to_hex(level).as_slice())
}

/// Sets the wear `wear_type` of the player's truck, the name of a field
/// such as `engine_wear`, to the float of bit pattern `level`.
pub fn set_player_truck_wear(doc: &[u8], wear_type: &[u8], level: u32) -> (r: Result<
    Vec<u8>,
    CommandError,
>)
    ensures
        command_view(r) == player_edit(
            doc@,
            ascii_bytes("vehicle"@),
            ascii_bytes("my_truck"@),
            wear_type@,
            bits_to_hex(level),
        ),
{
    generic_vehicle_attribute_edit(
        doc,
        key("vehicle").as_slice(),
        key("my_truck").as_slice(),
        wear_type,
        float_to_hex(level).as_slice(),
    )
}

/// Sets the cargo mass of the player's trailer to the float of bit
/// pattern `mass`.
pub fn set_player_trailer_cargo_mass(doc: &[u8], mass: u32) -> (r: Result<Vec<u8>, CommandError>)
    ensures
        command_view(r) == trailer_edit(doc@, "cargo_mass"@, bits_to_hex(mass)),
{
    edit_trailer(doc, "cargo_mass", float_to_hex(mass).as_slice())
}

/// The decimal digits of `n`.
pub open spec fn digits_of(n: nat) -> Seq<u8>
    decreases n,
{
    if n < 10 {
        seq![(48 + n) as u8]
    } else {
        digits_of(n / 10).push((48 + n % 10) as u8)
    }
}

/// The decimal text of `v`.
pub open spec fn decimal_text(v: int) -> Seq<u8> {
    if v < 0 {
        seq![MINUS] + digits_of((-v) as nat)
    } else {
        digits_of(v as nat)
    }
}

fn push_digits(r: &mut Vec<u8>, n: u64)
    ensures
        final(r)@ == old(r)@ + digits_of(n as nat),
    decreases n,
{
    if n < 10 {
        r.push(48 + n as u8);
    } else {
        push_digits(r, n / 10);
        r.push(48 + (n % 10) as u8);
    }
}

/// Writes a number in decimal.
pub fn i64_to_decimal(v: i64) -> (r: Vec<u8>)
    ensures
        r@ == decimal_text(v as int),
{
    let mut r: Vec<u8> = Vec::new();
    if v < 0 {
        r.push(MINUS);
        let mag: u64 = (-(v + 1)) as u64 + 1;
        push_digits(&mut r, mag);
    } else {
        push_digits(&mut r, v as u64);
    }
    r
}

/// The digits of a number spell the number.
pub proof fn lemma_digits_round_trip(n: nat)
    ensures
        crate::extract::all_digits(digits_of(n)),
        crate::extract::dec_value(digits_of(n)) == n,
        digits_of(n).len() > 0,
    decreases n,
{
    if n < 10 {
        let s = digits_of(n);
        assert(crate::extract::dec_value(s.drop_last()) == 0);
    } else {
        lemma_digits_round_trip(n / 10);
        let s = digits_of(n);
        assert(s.drop_last() =~= digits_of(n / 10));
        assert forall|i: int| 0 <= i < s.len() implies crate::text::is_digit(#[trigger] s[i]) by {}
    }
}

/// Sets the odometer of the player's truck to `value` kilometres.
pub fn edit_truck_odometer(doc: &[u8], value: i64) -> (r: Result<Vec<u8>, CommandError>)
    ensures
        command_view(r) == truck_edit(doc@, "odometer"@, decimal_text(value as int)),
{
    edit_truck(doc, "odometer", i64_to_decimal(value).as_slice())
}

/// The token of the float zero: a part without wear.
pub open spec fn mended() -> Seq<u8> {
    bits_to_hex(0)
}

/// `block` with the first field `key` set to zero, if there is one. The
/// value of the field ends at the next blank, at the end of its line or
/// at a closing brace.
pub open spec fn mend_field(block: Seq<u8>, key: Seq<u8>) -> Seq<u8> {
    match field_span(block, key, Shape::Token) {
        Some((a, b)) => splice(block, a, b, mended()),
        None => block,
    }
}

/// `block` with the first field of each of `keys` set to zero, one key
/// after the other.
pub open spec fn mend_fields(block: Seq<u8>, keys: Seq<Seq<u8>>) -> Seq<u8>
    decreases keys.len(),
{
    if keys.len() == 0 {
        block
    } else {
        mend_field(mend_fields(block, keys.drop_last()), keys.last())
    }
}

/// `block` with every field `key[n]` from `from` on set to zero.
pub open spec fn mend_array(block: Seq<u8>, key: Seq<u8>, from: int) -> Seq<u8>
    decreases block.len() - from,
{
    if from < 0 {
        block
    } else {
        match next_hit(block, key, true, Shape::Token, from) {
            None => block,
            Some(h) => {
                proof {
                    lemma_next_hit(block, key, true, Shape::Token, from);
                }
                mend_array(
                    splice(block, h.value.0, h.value.1, mended()),
                    key,
                    h.value.0 + mended().len(),
                )
            },
        }
    }
}

/// The wear fields of a truck.
pub open spec fn truck_wear_keys() -> Seq<Seq<u8>> {
    seq![
        ascii_bytes("engine_wear"@),
        ascii_bytes("transmission_wear"@),
        ascii_bytes("cabin_wear"@),
        ascii_bytes("chassis_wear"@),
    ]
}

/// The wear fields of a trailer.
pub open spec fn trailer_wear_keys() -> Seq<Seq<u8>> {
    seq![ascii_bytes("chassis_wear"@), ascii_bytes("trailer_body_wear"@)]
}

/// The key of the array of the wheels' wear.
pub open spec fn kw_wheels() -> Seq<u8> {
    ascii_bytes("wheels_wear"@)
}

/// The document after the unit `class : id` is mended: inside its span,
/// the first field of each of `keys` and every wheel of the array
/// `wheels_wear` is set to zero. What stands outside the span stays.
pub open spec fn mend_unit(doc: Seq<u8>, class: Seq<u8>, id: Seq<u8>, keys: Seq<Seq<u8>>) -> Result<
    Seq<u8>,
    EditError,
> {
    match locate(doc, class, id) {
        Err(e) => Err(EditError::Block(e)),
        Ok((s, e)) => {
            let block = mend_array(mend_fields(doc.subrange(s, e), keys), kw_wheels(), 0);
            Ok(doc.subrange(0, s) + block + doc.subrange(e, doc.len() as int))
        },
    }
}

/// Sets every wear field of a unit to zero in one pass.
///
/// The unit is located once. Inside its span each key of `keys` is dealt
/// with in turn, by the same replacement of one value that `edit_field`
/// makes; a key that the unit does not hold is passed over. Then every
/// field `wheels_wear[n]` is set to zero, its index kept.
pub fn repair_unit(doc: &[u8], unit_class: &[u8], unit_id: &[u8], keys: &Vec<Vec<u8>>) -> (r: Result<
    Vec<u8>,
    EditError,
>)
    ensures
        edit_view(r) == mend_unit(doc@, unit_class@, unit_id@, list_view(keys@)),
{
    match locate_block(doc, unit_class, unit_id) {
        Err(e) => Err(EditError::Block(e)),
        Ok((s, e)) => {
            proof {
                lemma_locate(doc@, unit_class@, unit_id@);
            }
            let zero = float_to_hex(0);
            proof {
                crate::hex_float::lemma_hex_digits(0, 8);
            }
            let wheels = key("wheels_wear");
            let mut block: Vec<u8> = crate::text::copy_range(doc, s, e);
            let mut i: usize = 0;
            while i < keys.len()
                invariant
                    i <= keys@.len(),
                    s <= e <= doc@.len(),
                    zero@ == mended(),
                    block@ == mend_fields(
                        doc@.subrange(s as int, e as int),
                        list_view(keys@).subrange(0, i as int),
                    ),
                decreases keys@.len() - i,
            {
                proof {
                    let cur = list_view(keys@).subrange(0, i + 1);
                    assert(cur.drop_last() =~= list_view(keys@).subrange(0, i as int));
                }
                match find_hit(block.as_slice(), keys[i].as_slice(), false, Shape::Token, 0) {
                    Some(h) => {
                        proof {
                            lemma_next_hit(block@, keys@[i as int]@, false, Shape::Token, 0);
                        }
                        block = splice_bytes(block.as_slice(), h.value.0, h.value.1, zero.as_slice());
                    },
                    None => {},
                }
                i = i + 1;
            }
            assert(list_view(keys@).subrange(0, i as int) =~= list_view(keys@));
            let ghost mended_fields = block@;
            let mut from: usize = 0;
            loop
                invariant
                    s <= e <= doc@.len(),
                    locate(doc@, unit_class@, unit_id@) == Ok::<(int, int), crate::locate::NotFound>(
                        (s as int, e as int),
                    ),
                    zero@ == mended(),
                    zero@.len() == 9,
                    wheels@ == kw_wheels(),
                    from <= block@.len(),
                    mended_fields == mend_fields(
                        doc@.subrange(s as int, e as int),
                        list_view(keys@),
                    ),
                    mend_array(mended_fields, kw_wheels(), 0) == mend_array(
                        block@,
                        kw_wheels(),
                        from as int,
                    ),
                decreases block@.len() - from,
            {
                match find_hit(block.as_slice(), wheels.as_slice(), true, Shape::Token, from) {
                    None => {
                        let mut out = crate::text::copy_range(doc, 0, s);
                        crate::text::append(&mut out, block.as_slice());
                        crate::text::append(&mut out, slice_subrange(doc, e, doc.len()));
                        return Ok(out);
                    },
                    Some(h) => {
                        proof {
                            lemma_next_hit(block@, kw_wheels(), true, Shape::Token, from as int);
                        }
                        block = splice_bytes(block.as_slice(), h.value.0, h.value.1, zero.as_slice());
                        assert(h.value.0 + 9 <= block.len());
                        from = h.value.0 + 9;
                    },
                }
            }
        },
    }
}

/// The document after the vehicle that the player names under `slot` is
/// mended.
pub open spec fn player_mend(doc: Seq<u8>, class: Seq<u8>, slot: Seq<u8>, keys: Seq<Seq<u8>>) -> Result<
    Seq<u8>,
    CommandError,
> {
    match player_vehicle(doc, slot) {
        Err(e) => Err(CommandError::Resolve(e)),
        Ok(id) => match mend_unit(doc, class, id, keys) {
            Ok(d) => Ok(d),
            Err(e) => Err(CommandError::Edit(e)),
        },
    }
}

/// Repairs the player's truck: engine, transmission, cabin, chassis and
/// every wheel are set to no wear.
pub fn repair_player_truck(doc: &[u8]) -> (r: Result<Vec<u8>, CommandError>)
    ensures
        command_view(r) == player_mend(
            doc@,
            ascii_bytes("vehicle"@),
            ascii_bytes("my_truck"@),
            truck_wear_keys(),
        ),
{
    let mut keys: Vec<Vec<u8>> = Vec::new();
    keys.push(key("engine_wear"));
    keys.push(key("transmission_wear"));
    keys.push(key("cabin_wear"));
    keys.push(key("chassis_wear"));
    assert(list_view(keys@) =~= truck_wear_keys());
    match get_player_vehicle_id(doc, key("my_truck").as_slice()) {
        Err(e) => Err(CommandError::Resolve(e)),
        Ok(id) => match repair_unit(doc, key("vehicle").as_slice(), id.as_slice(), &keys) {
            Ok(d) => Ok(d),
            Err(e) => Err(CommandError::Edit(e)),
        },
    }
}

/// Repairs the player's trailer: chassis, body and every wheel are set to
/// no wear.
pub fn repair_player_trailer(doc: &[u8]) -> (r: Result<Vec<u8>, CommandError>)
    ensures
        command_view(r) == player_mend(
            doc@,
            ascii_bytes("trailer"@),
            ascii_bytes("my_trailer"@),
            trailer_wear_keys(),
        ),
{
    let mut keys: Vec<Vec<u8>> = Vec::new();
    keys.push(key("chassis_wear"));
    keys.push(key("trailer_body_wear"));
    assert(list_view(keys@) =~= trailer_wear_keys());
    match get_player_vehicle_id(doc, key("my_trailer").as_slice()) {
        Err(e) => Err(CommandError::Resolve(e)),
        Ok(id) => match repair_unit(doc, key("trailer").as_slice(), id.as_slice(), &keys) {
            Ok(d) => Ok(d),
            Err(e) => Err(CommandError::Edit(e)),
        },
    }
}

} // verus!
