//! Trucks and trailers: what a save says of each vehicle, and which of
//! them the player drives.
//!
//! Numbers are carried as the document spells them (see `FloatRepr`); a
//! number that a field does not give is `None`, and counts as zero.

use vstd::prelude::*;
use crate::extract::{
    array_items, combined_field, decimal_field, extract_array, extract_combined_float, extract_f32,
    extract_number, extract_string, extract_string_array, field_text, item_texts, number_array,
    number_field, number_view, numbers_view, CombinedFloat,
};
use crate::field::Shape;
use crate::hex_float::{lowered, to_lower, trim, trimmed, FloatRepr};
use crate::resolve::{player_vehicles, resolve_player_vehicles, ResolverError};
use crate::text::{ascii_bytes, bytes_eq, clone_bytes, copy_range, k, key, list_view, opt_view};
use crate::units::{
    parse_units_of_class, records_inside, records_view, unit_records, UnitRecord, UnitRecordView,
};
use vstd::slice::slice_subrange;

verus! {

/// A number that a document splits over a field of whole units and a
/// field of the rest, such as `trip_fuel_l` and `trip_fuel`. The number is
/// the sum of the two.
#[derive(Debug)]
pub struct SplitNumber {
    /// The text of the decimal field.
    pub whole: Option<Vec<u8>>,
    /// The other field, in hex or in decimal.
    pub rest: Option<FloatRepr>,
}

/// What a save says of one truck.
#[derive(Debug)]
pub struct ParsedTruck {
    pub truck_id: Vec<u8>,
    pub brand: Vec<u8>,
    pub model: Vec<u8>,
    pub odometer: CombinedFloat,
    pub integrity_odometer: CombinedFloat,
    pub fuel_relative: Option<FloatRepr>,
    pub trip_fuel_l: SplitNumber,
    pub trip_distance_km: SplitNumber,
    pub trip_time_min: SplitNumber,
    pub engine_wear: Option<FloatRepr>,
    pub transmission_wear: Option<FloatRepr>,
    pub cabin_wear: Option<FloatRepr>,
    pub chassis_wear: Option<FloatRepr>,
    pub wheels_wear: Vec<FloatRepr>,
    pub engine_wear_unfixable: Option<FloatRepr>,
    pub transmission_wear_unfixable: Option<FloatRepr>,
    pub cabin_wear_unfixable: Option<FloatRepr>,
    pub chassis_wear_unfixable: Option<FloatRepr>,
    pub wheels_wear_unfixable: Vec<FloatRepr>,
    pub license_plate: Option<Vec<u8>>,
    pub assigned_garage: Option<Vec<u8>>,
}

/// Whether `s` is the split number of the fields `whole` and `rest`.
pub open spec fn is_split(s: SplitNumber, body: Seq<u8>, whole: Seq<u8>, rest: Seq<u8>) -> bool {
    opt_view(s.whole) == decimal_field(body, whole) && number_view(s.rest) == number_field(
        body,
        rest,
    )
}

/// Whether `t` is what the unit of record `rec` says of a truck.
#[verifier::opaque]
pub open spec fn is_truck(t: ParsedTruck, doc: Seq<u8>, rec: UnitRecordView) -> bool {
    let body = doc.subrange(rec.body.0, rec.body.1);
    &&& t.truck_id@ == rec.unit_id
    &&& t.brand@ == rec.brand
    &&& t.model@ == rec.model
    &&& t.odometer@ == combined_field(body, k("odometer"@))
    &&& t.integrity_odometer@ == combined_field(body, k("integrity_odometer"@))
    &&& number_view(t.fuel_relative) == number_field(body, k("fuel_relative"@))
    &&& is_split(t.trip_fuel_l, body, k("trip_fuel_l"@), k("trip_fuel"@))
    &&& is_split(t.trip_distance_km, body, k("trip_distance_km"@), k("trip_distance"@))
    &&& is_split(t.trip_time_min, body, k("trip_time_min"@), k("trip_time"@))
    &&& number_view(t.engine_wear) == number_field(body, k("engine_wear"@))
    &&& number_view(t.transmission_wear) == number_field(body, k("transmission_wear"@))
    &&& number_view(t.cabin_wear) == number_field(body, k("cabin_wear"@))
    &&& number_view(t.chassis_wear) == number_field(body, k("chassis_wear"@))
    &&& numbers_view(t.wheels_wear@) == number_array(body, k("wheels_wear"@))
    &&& number_view(t.engine_wear_unfixable) == number_field(body, k("engine_wear_unfixable"@))
    &&& number_view(t.transmission_wear_unfixable) == number_field(
        body,
        k("transmission_wear_unfixable"@),
    )
    &&& number_view(t.cabin_wear_unfixable) == number_field(body, k("cabin_wear_unfixable"@))
    &&& number_view(t.chassis_wear_unfixable) == number_field(body, k("chassis_wear_unfixable"@))
    &&& numbers_view(t.wheels_wear_unfixable@) == number_array(body, k("wheels_wear_unfixable"@))
    &&& opt_view(t.license_plate) == field_text(body, k("license_plate"@), Shape::Quoted)
    &&& opt_view(t.assigned_garage) == field_text(body, k("assigned_garage"@), Shape::Quoted)
}

/// The class of the units that are trucks.
pub open spec fn kw_vehicle() -> Seq<u8> {
    ascii_bytes("vehicle"@)
}

/// The class of the units that are trailers.
pub open spec fn kw_trailer() -> Seq<u8> {
    ascii_bytes("trailer"@)
}

/// The class of the units that define trailers.
pub open spec fn kw_trailer_def() -> Seq<u8> {
    ascii_bytes("trailer_def"@)
}

/// Whether `ts` are the trucks of `doc`: one for each unit of class
/// `vehicle`, in the order in which the units stand.
pub open spec fn are_trucks(ts: Seq<ParsedTruck>, doc: Seq<u8>) -> bool {
    let recs = unit_records(doc, kw_vehicle());
    ts.len() == recs.len() && forall|i: int| 0 <= i < ts.len() ==> is_truck(#[trigger] ts[i], doc, recs[i])
}

fn read_split(body: &[u8], whole: &[u8], rest: &[u8]) -> (s: SplitNumber)
    ensures
        is_split(s, body@, whole@, rest@),
{
    SplitNumber { whole: extract_f32(body, whole), rest: extract_number(body, rest) }
}

fn read_truck(doc: &[u8], rec: &UnitRecord) -> (t: ParsedTruck)
    requires
        rec.body_start <= rec.body_end <= doc@.len(),
    ensures
        is_truck(t, doc@, rec@),
{
    reveal(is_truck);
    let body = slice_subrange(doc, rec.body_start, rec.body_end);
    ParsedTruck {
        truck_id: clone_bytes(&rec.unit_id),
        brand: clone_bytes(&rec.brand),
        model: clone_bytes(&rec.model),
        odometer: extract_combined_float(body, key("odometer").as_slice()),
        integrity_odometer: extract_combined_float(body, key("integrity_odometer").as_slice()),
        fuel_relative: extract_number(body, key("fuel_relative").as_slice()),
        trip_fuel_l: read_split(body, key("trip_fuel_l").as_slice(), key("trip_fuel").as_slice()),
        trip_distance_km: read_split(body, key("trip_distance_km").as_slice(), key("trip_distance").as_slice()),
        trip_time_min: read_split(body, key("trip_time_min").as_slice(), key("trip_time").as_slice()),
        engine_wear: extract_number(body, key("engine_wear").as_slice()),
        transmission_wear: extract_number(body, key("transmission_wear").as_slice()),
        cabin_wear: extract_number(body, key("cabin_wear").as_slice()),
        chassis_wear: extract_number(body, key("chassis_wear").as_slice()),
        wheels_wear: extract_array(body, key("wheels_wear").as_slice()),
        engine_wear_unfixable: extract_number(body, key("engine_wear_unfixable").as_slice()),
        transmission_wear_unfixable: extract_number(body, key("transmission_wear_unfixable").as_slice()),
        cabin_wear_unfixable: extract_number(body, key("cabin_wear_unfixable").as_slice()),
        chassis_wear_unfixable: extract_number(body, key("chassis_wear_unfixable").as_slice()),
        wheels_wear_unfixable: extract_array(body, key("wheels_wear_unfixable").as_slice()),
        license_plate: extract_string(body, key("license_plate").as_slice()),
        assigned_garage: extract_string(body, key("assigned_garage").as_slice()),
    }
}

/// Reads the trucks of a document: one for each unit of class `vehicle`.
pub fn parse_trucks_from_sii(doc: &[u8]) -> (r: Vec<ParsedTruck>)
    ensures
        are_trucks(r@, doc@),
{
    let recs = parse_units_of_class(doc, key("vehicle").as_slice());
    let mut out: Vec<ParsedTruck> = Vec::new();
    let mut i: usize = 0;
    while i < recs.len()
        invariant
            i <= recs@.len(),
            records_view(recs@) == unit_records(doc@, kw_vehicle()),
            records_inside(recs@, doc@.len() as int),
            out@.len() == i,
            forall|j: int| 0 <= j < i ==> is_truck(#[trigger] out@[j], doc@, records_view(recs@)[j]),
        decreases recs@.len() - i,
    {
        let t = read_truck(doc, &recs[i]);
        out.push(t);
        i = i + 1;
    }
    out
}

/// What a save says of one trailer.
#[derive(Debug)]
pub struct TrailerData {
    pub trailer_id: Vec<u8>,
    /// The id of the trailer's definition unit; empty if none is named.
    pub trailer_definition: Vec<u8>,
    pub brand: Option<Vec<u8>>,
    pub model: Option<Vec<u8>>,
    pub license_plate: Option<Vec<u8>>,
    pub odometer: CombinedFloat,
    pub integrity_odometer: CombinedFloat,
    pub body_wear: Option<FloatRepr>,
    pub body_wear_unfixable: Option<FloatRepr>,
    pub chassis_wear: Option<FloatRepr>,
    pub chassis_wear_unfixable: Option<FloatRepr>,
    pub wheels_wear: Vec<FloatRepr>,
    pub wheels_wear_unfixable: Vec<FloatRepr>,
    pub cargo_mass: Option<FloatRepr>,
    pub cargo_damage: Option<FloatRepr>,
    pub assigned_garage: Option<Vec<u8>>,
    pub accessories: Vec<Vec<u8>>,
}

/// The text of an optional field, or the empty text.
pub open spec fn or_empty(t: Option<Seq<u8>>) -> Seq<u8> {
    match t {
        Some(v) => v,
        None => Seq::<u8>::empty(),
    }
}

/// Whether `t` is what the unit of record `rec` says of a trailer.
#[verifier::opaque]
pub open spec fn is_trailer(t: TrailerData, doc: Seq<u8>, rec: UnitRecordView) -> bool {
    let body = doc.subrange(rec.body.0, rec.body.1);
    &&& t.trailer_id@ == rec.unit_id
    &&& t.trailer_definition@ == or_empty(field_text(body, k("trailer_definition"@), Shape::Ident))
    &&& opt_view(t.brand) == field_text(body, k("brand"@), Shape::Name)
    &&& opt_view(t.model) == field_text(body, k("model"@), Shape::Name)
    &&& opt_view(t.license_plate) == field_text(body, k("license_plate"@), Shape::Quoted)
    &&& t.odometer@ == combined_field(body, k("odometer"@))
    &&& t.integrity_odometer@ == combined_field(body, k("integrity_odometer"@))
    &&& number_view(t.body_wear) == number_field(body, k("trailer_body_wear"@))
    &&& number_view(t.body_wear_unfixable) == number_field(body, k("trailer_body_wear_unfixable"@))
    &&& number_view(t.chassis_wear) == number_field(body, k("chassis_wear"@))
    &&& number_view(t.chassis_wear_unfixable) == number_field(body, k("chassis_wear_unfixable"@))
    &&& numbers_view(t.wheels_wear@) == number_array(body, k("wheels_wear"@))
    &&& numbers_view(t.wheels_wear_unfixable@) == number_array(body, k("wheels_wear_unfixable"@))
    &&& number_view(t.cargo_mass) == number_field(body, k("cargo_mass"@))
    &&& number_view(t.cargo_damage) == number_field(body, k("cargo_damage"@))
    &&& opt_view(t.assigned_garage) == field_text(body, k("assigned_garage"@), Shape::Name)
    &&& list_view(t.accessories@) == item_texts(
        body,
        array_items(body, k("accessories"@), Shape::Quoted),
    )
}

/// Whether `ts` are the trailers of `doc`: one for each unit of class
/// `trailer`, in the order in which the units stand.
pub open spec fn are_trailers(ts: Seq<TrailerData>, doc: Seq<u8>) -> bool {
    let recs = unit_records(doc, kw_trailer());
    ts.len() == recs.len() && forall|i: int|
        0 <= i < ts.len() ==> is_trailer(#[trigger] ts[i], doc, recs[i])
}

fn read_text(body: &[u8], key: &[u8], shape: Shape) -> (r: Option<Vec<u8>>)
    ensures
        opt_view(r) == field_text(body@, key@, shape),
{
    match crate::field::find_hit(body, key, false, shape, 0) {
        Some(h) => {
            proof {
                crate::field::lemma_next_hit(body@, key@, false, shape, 0);
            }
            Some(copy_range(body, h.value.0, h.value.1))
        },
        None => None,
    }
}

fn read_trailer(doc: &[u8], rec: &UnitRecord) -> (t: TrailerData)
    requires
        rec.body_start <= rec.body_end <= doc@.len(),
    ensures
        is_trailer(t, doc@, rec@),
{
    reveal(is_trailer);
    let body = slice_subrange(doc, rec.body_start, rec.body_end);
    let definition = match read_text(body, key("trailer_definition").as_slice(), Shape::Ident) {
        Some(d) => d,
        None => {
            let e: Vec<u8> = Vec::new();
            e
        },
    };
    TrailerData {
        trailer_id: clone_bytes(&rec.unit_id),
        trailer_definition: definition,
        brand: read_text(body, key("brand").as_slice(), Shape::Name),
        model: read_text(body, key("model").as_slice(), Shape::Name),
        license_plate: extract_string(body, key("license_plate").as_slice()),
        odometer: extract_combined_float(body, key("odometer").as_slice()),
        integrity_odometer: extract_combined_float(body, key("integrity_odometer").as_slice()),
        body_wear: extract_number(body, key("trailer_body_wear").as_slice()),
        body_wear_unfixable: extract_number(body, key("trailer_body_wear_unfixable").as_slice()),
        chassis_wear: extract_number(body, key("chassis_wear").as_slice()),
        chassis_wear_unfixable: extract_number(body, key("chassis_wear_unfixable").as_slice()),
        wheels_wear: extract_array(body, key("wheels_wear").as_slice()),
        wheels_wear_unfixable: extract_array(body, key("wheels_wear_unfixable").as_slice()),
        cargo_mass: extract_number(body, key("cargo_mass").as_slice()),
        cargo_damage: extract_number(body, key("cargo_damage").as_slice()),
        assigned_garage: read_text(body, key("assigned_garage").as_slice(), Shape::Name),
        accessories: extract_string_array(body, key("accessories").as_slice()),
    }
}

/// Reads the trailers of a document: one for each unit of class
/// `trailer`.
pub fn parse_trailers_from_sii(doc: &[u8]) -> (r: Vec<TrailerData>)
    ensures
        are_trailers(r@, doc@),
{
    let recs = parse_units_of_class(doc, key("trailer").as_slice());
    let mut out: Vec<TrailerData> = Vec::new();
    let mut i: usize = 0;
    while i < recs.len()
        invariant
            i <= recs@.len(),
            records_view(recs@) == unit_records(doc@, kw_trailer()),
            records_inside(recs@, doc@.len() as int),
            out@.len() == i,
            forall|j: int|
                0 <= j < i ==> is_trailer(#[trigger] out@[j], doc@, records_view(recs@)[j]),
        decreases recs@.len() - i,
    {
        let t = read_trailer(doc, &recs[i]);
        out.push(t);
        i = i + 1;
    }
    out
}

/// What a save says of one trailer definition: the masses and the build
/// that trailers of that definition share.
#[derive(Debug)]
pub struct TrailerDefData {
    pub id: Vec<u8>,
    pub gross_trailer_weight_limit: Option<FloatRepr>,
    pub chassis_mass: Option<FloatRepr>,
    pub body_mass: Option<FloatRepr>,
    pub length: Option<FloatRepr>,
    pub body_type: Option<Vec<u8>>,
    pub chain_type: Option<Vec<u8>>,
    pub source_name: Option<Vec<u8>>,
}

/// Whether `d` is what the unit of record `rec` says of a definition.
#[verifier::opaque]
pub open spec fn is_trailer_def(d: TrailerDefData, doc: Seq<u8>, rec: UnitRecordView) -> bool {
    let body = doc.subrange(rec.body.0, rec.body.1);
    &&& d.id@ == rec.unit_id
    &&& number_view(d.gross_trailer_weight_limit) == number_field(
        body,
        k("gross_trailer_weight_limit"@),
    )
    &&& number_view(d.chassis_mass) == number_field(body, k("chassis_mass"@))
    &&& number_view(d.body_mass) == number_field(body, k("body_mass"@))
    &&& number_view(d.length) == number_field(body, k("length"@))
    &&& opt_view(d.body_type) == field_text(body, k("body_type"@), Shape::Quoted)
    &&& opt_view(d.chain_type) == field_text(body, k("chain_type"@), Shape::Quoted)
    &&& opt_view(d.source_name) == field_text(body, k("source_name"@), Shape::Quoted)
}

/// Whether `ds` are the trailer definitions of `doc`.
pub open spec fn are_trailer_defs(ds: Seq<TrailerDefData>, doc: Seq<u8>) -> bool {
    let recs = unit_records(doc, kw_trailer_def());
    ds.len() == recs.len() && forall|i: int|
        0 <= i < ds.len() ==> is_trailer_def(#[trigger] ds[i], doc, recs[i])
}

fn read_trailer_def(doc: &[u8], rec: &UnitRecord) -> (d: TrailerDefData)
    requires
        rec.body_start <= rec.body_end <= doc@.len(),
    ensures
        is_trailer_def(d, doc@, rec@),
{
    reveal(is_trailer_def);
    let body = slice_subrange(doc, rec.body_start, rec.body_end);
    TrailerDefData {
        id: clone_bytes(&rec.unit_id),
        gross_trailer_weight_limit: extract_number(body, key("gross_trailer_weight_limit").as_slice()),
        chassis_mass: extract_number(body, key("chassis_mass").as_slice()),
        body_mass: extract_number(body, key("body_mass").as_slice()),
        length: extract_number(body, key("length").as_slice()),
        body_type: extract_string(body, key("body_type").as_slice()),
        chain_type: extract_string(body, key("chain_type").as_slice()),
        source_name: extract_string(body, key("source_name").as_slice()),
    }
}

/// Reads the trailer definitions of a document: one for each unit of
/// class `trailer_def`.
pub fn parse_trailer_defs_from_sii(doc: &[u8]) -> (r: Vec<TrailerDefData>)
    ensures
        are_trailer_defs(r@, doc@),
{
    let recs = parse_units_of_class(doc, key("trailer_def").as_slice());
    let mut out: Vec<TrailerDefData> = Vec::new();
    let mut i: usize = 0;
    while i < recs.len()
        invariant
            i <= recs@.len(),
            records_view(recs@) == unit_records(doc@, kw_trailer_def()),
            records_inside(recs@, doc@.len() as int),
            out@.len() == i,
            forall|j: int|
                0 <= j < i ==> is_trailer_def(#[trigger] out@[j], doc@, records_view(recs@)[j]),
        decreases recs@.len() - i,
    {
        let d = read_trailer_def(doc, &recs[i]);
        out.push(d);
        i = i + 1;
    }
    out
}

/// An id as ids are compared: trimmed, and in small letters.
pub open spec fn id_key(id: Seq<u8>) -> Seq<u8> {
    lowered(trimmed(id))
}

/// The first position from `i` on at which `ids` holds an id that, in
/// small letters, is `key`; the length of `ids` if there is none.
pub open spec fn position_of(ids: Seq<Seq<u8>>, key: Seq<u8>, i: int) -> int
    decreases ids.len() - i,
{
    if i < 0 || i >= ids.len() {
        ids.len() as int
    } else if lowered(ids[i]) == key {
        i
    } else {
        position_of(ids, key, i + 1)
    }
}

/// The last position before `j` at which `ids` holds `id`, or -1.
pub open spec fn last_position_of(ids: Seq<Seq<u8>>, id: Seq<u8>, j: int) -> int
    decreases j,
{
    if j <= 0 || j > ids.len() {
        -1
    } else if ids[j - 1] == id {
        j - 1
    } else {
        last_position_of(ids, id, j - 1)
    }
}

/// The ids of `ts`, in their order.
pub open spec fn truck_ids(ts: Seq<ParsedTruck>) -> Seq<Seq<u8>> {
    Seq::new(ts.len(), |i: int| ts[i].truck_id@)
}

/// The ids of `ts`, in their order.
pub open spec fn trailer_ids(ts: Seq<TrailerData>) -> Seq<Seq<u8>> {
    Seq::new(ts.len(), |i: int| ts[i].trailer_id@)
}

/// The ids of `ds`, in their order.
pub open spec fn def_ids(ds: Seq<TrailerDefData>) -> Seq<Seq<u8>> {
    Seq::new(ds.len(), |i: int| ds[i].id@)
}

/// Finds the truck of id `id` among `trucks`, letters compared without
/// regard to case: the first such truck's position.
pub fn find_truck(trucks: &Vec<ParsedTruck>, id: &[u8]) -> (r: Option<usize>)
    ensures
        match r {
            Some(i) => i < trucks@.len() && position_of(truck_ids(trucks@), id_key(id@), 0) == i,
            None => position_of(truck_ids(trucks@), id_key(id@), 0) == trucks@.len(),
        },
{
    let key = to_lower(trim(id));
    let mut i: usize = 0;
    while i < trucks.len()
        invariant
            i <= trucks@.len(),
            key@ == id_key(id@),
            position_of(truck_ids(trucks@), key@, 0) == position_of(
                truck_ids(trucks@),
                key@,
                i as int,
            ),
        decreases trucks@.len() - i,
    {
        let low = to_lower(trucks[i].truck_id.as_slice());
        if bytes_eq(low.as_slice(), key.as_slice()) {
            return Some(i);
        }
        i = i + 1;
    }
    None
}

/// Finds the trailer of id `id` among `trailers`, as `find_truck` does.
pub fn find_trailer(trailers: &Vec<TrailerData>, id: &[u8]) -> (r: Option<usize>)
    ensures
        match r {
            Some(i) => i < trailers@.len() && position_of(trailer_ids(trailers@), id_key(id@), 0)
                == i,
            None => position_of(trailer_ids(trailers@), id_key(id@), 0) == trailers@.len(),
        },
{
    let key = to_lower(trim(id));
    let mut i: usize = 0;
    while i < trailers.len()
        invariant
            i <= trailers@.len(),
            key@ == id_key(id@),
            position_of(trailer_ids(trailers@), key@, 0) == position_of(
                trailer_ids(trailers@),
                key@,
                i as int,
            ),
        decreases trailers@.len() - i,
    {
        let low = to_lower(trailers[i].trailer_id.as_slice());
        if bytes_eq(low.as_slice(), key.as_slice()) {
            return Some(i);
        }
        i = i + 1;
    }
    None
}

/// Finds the definition that a trailer names: the last of that id.
pub fn find_trailer_def(defs: &Vec<TrailerDefData>, id: &[u8]) -> (r: Option<usize>)
    ensures
        match r {
            Some(i) => i < defs@.len() && last_position_of(def_ids(defs@), id@, defs@.len() as int)
                == i,
            None => last_position_of(def_ids(defs@), id@, defs@.len() as int) == -1,
        },
{
    let mut j: usize = defs.len();
    while j > 0
        invariant
            j <= defs@.len(),
            last_position_of(def_ids(defs@), id@, defs@.len() as int) == last_position_of(
                def_ids(defs@),
                id@,
                j as int,
            ),
        decreases j,
    {
        if bytes_eq(defs[j - 1].id.as_slice(), id) {
            return Some(j - 1);
        }
        j = j - 1;
    }
    None
}

/// Which vehicle of a save the player drives.
#[derive(Clone, Copy, PartialEq, Eq, Structural, Debug)]
pub enum Driven {
    /// The player names no vehicle of the kind.
    Nothing,
    /// The player names the vehicle at this position of the list.
    At(usize),
    /// The player names a vehicle that the save does not hold.
    Unknown,
}

/// Which of `ids` the reference `named` points at.
pub open spec fn driven(ids: Seq<Seq<u8>>, named: Option<Seq<u8>>) -> Driven {
    match named {
        None => Driven::Nothing,
        Some(id) => {
            let p = position_of(ids, id_key(id), 0);
            if p < ids.len() {
                Driven::At(p as usize)
            } else {
                Driven::Unknown
            }
        },
    }
}

/// The player of a save and the vehicles it drives, as positions in the
/// lists of the save's trucks and trailers.
pub open spec fn player_vehicles_at(
    doc: Seq<u8>,
    trucks: Seq<Seq<u8>>,
    trailers: Seq<Seq<u8>>,
) -> Result<(Driven, Driven), ResolverError> {
    match player_vehicles(doc) {
        Err(e) => Err(e),
        Ok((truck, trailer)) => Ok((driven(trucks, truck), driven(trailers, trailer))),
    }
}

/// Finds the truck and the trailer that the player drives among the
/// trucks and trailers read from the same document.
///
/// It is an error when the economy unit names no player, and when the
/// player that it names has no unit. A player that names no trailer
/// drives `Nothing`: that is the normal state of a save without a trailer
/// attached. A named vehicle that is not among those read is `Unknown`.
pub fn resolve_driven(doc: &[u8], trucks: &Vec<ParsedTruck>, trailers: &Vec<TrailerData>) -> (r:
    Result<(Driven, Driven), ResolverError>)
    ensures
        r == player_vehicles_at(doc@, truck_ids(trucks@), trailer_ids(trailers@)),
{
    match resolve_player_vehicles(doc) {
        Err(e) => Err(e),
        Ok((truck, trailer)) => {
            let t = match truck {
                None => Driven::Nothing,
                Some(tid) => match find_truck(trucks, tid.as_slice()) {
                    Some(i) => Driven::At(i),
                    None => Driven::Unknown,
                },
            };
            let tr = match trailer {
                None => Driven::Nothing,
                Some(tid) => match find_trailer(trailers, tid.as_slice()) {
                    Some(i) => Driven::At(i),
                    None => Driven::Unknown,
                },
            };
            Ok((t, tr))
        },
    }
}

/// Why the player's vehicle was not found.
#[derive(Clone, Copy, PartialEq, Eq, Structural, Debug)]
pub enum VehicleError {
    /// The economy unit names no player.
    PlayerIdMissing,
    /// The player that the economy unit names has no unit of its own.
    PlayerBlockMissing,
    /// The player names no vehicle of the kind.
    NotAttached,
    /// The player names a vehicle that the save does not hold.
    Unknown,
}

/// Why the player was not resolved, as an error of a vehicle reader.
pub open spec fn unresolved(e: ResolverError) -> VehicleError {
    match e {
        ResolverError::PlayerBlockMissing => VehicleError::PlayerBlockMissing,
        _ => VehicleError::PlayerIdMissing,
    }
}

fn unresolved_as(e: ResolverError) -> (r: VehicleError)
    ensures
        r == unresolved(e),
{
    match e {
        ResolverError::PlayerBlockMissing => VehicleError::PlayerBlockMissing,
        _ => VehicleError::PlayerIdMissing,
    }
}

/// Which truck of `trucks` the player of `doc` drives.
pub open spec fn player_truck_at(doc: Seq<u8>, trucks: Seq<Seq<u8>>) -> Result<int, VehicleError> {
    match player_vehicles_at(doc, trucks, Seq::<Seq<u8>>::empty()) {
        Err(e) => Err(unresolved(e)),
        Ok((Driven::Nothing, _)) => Err(VehicleError::NotAttached),
        Ok((Driven::Unknown, _)) => Err(VehicleError::Unknown),
        Ok((Driven::At(i), _)) => Ok(i as int),
    }
}

/// Which trailer of `trailers` the player of `doc` pulls, if any.
pub open spec fn player_trailer_at(doc: Seq<u8>, trailers: Seq<Seq<u8>>) -> Result<
    Option<int>,
    VehicleError,
> {
    match player_vehicles_at(doc, Seq::<Seq<u8>>::empty(), trailers) {
        Err(e) => Err(unresolved(e)),
        Ok((_, Driven::Nothing)) => Ok(None),
        Ok((_, Driven::Unknown)) => Err(VehicleError::Unknown),
        Ok((_, Driven::At(i))) => Ok(Some(i as int)),
    }
}

/// The ids of `recs`, in their order.
pub open spec fn record_ids(recs: Seq<UnitRecordView>) -> Seq<Seq<u8>> {
    Seq::new(recs.len(), |i: int| recs[i].unit_id)
}

/// A position that is found lies in the list.
pub proof fn lemma_position_of(ids: Seq<Seq<u8>>, key: Seq<u8>, i: int)
    requires
        0 <= i <= ids.len(),
    ensures
        i <= position_of(ids, key, i) <= ids.len(),
    decreases ids.len() - i,
{
    if i < ids.len() && lowered(ids[i]) != key {
        lemma_position_of(ids, key, i + 1);
    }
}

/// A vehicle that is driven is one of the list.
pub proof fn lemma_driven_at(ids: Seq<Seq<u8>>, named: Option<Seq<u8>>, i: usize)
    requires
        driven(ids, named) == Driven::At(i),
        ids.len() <= usize::MAX,
    ensures
        i < ids.len(),
        named is Some,
        position_of(ids, id_key(named.unwrap()), 0) == i,
{
    lemma_position_of(ids, id_key(named.unwrap()), 0);
}

/// The trucks read from a document have the ids of its vehicle units.
pub proof fn lemma_truck_ids(ts: Seq<ParsedTruck>, doc: Seq<u8>)
    requires
        are_trucks(ts, doc),
    ensures
        truck_ids(ts) == record_ids(unit_records(doc, kw_vehicle())),
{
    reveal(is_truck);
    let recs = unit_records(doc, kw_vehicle());
    assert forall|i: int| 0 <= i < ts.len() implies truck_ids(ts)[i] == record_ids(recs)[i] by {}
}

/// The trailers read from a document have the ids of its trailer units.
pub proof fn lemma_trailer_ids(ts: Seq<TrailerData>, doc: Seq<u8>)
    requires
        are_trailers(ts, doc),
    ensures
        trailer_ids(ts) == record_ids(unit_records(doc, kw_trailer())),
{
    reveal(is_trailer);
    let recs = unit_records(doc, kw_trailer());
    assert forall|i: int| 0 <= i < ts.len() implies trailer_ids(ts)[i] == record_ids(recs)[i] by {}
}

/// Reads the truck that the player drives.
///
/// It is an error when the economy unit names no player, when the player
/// that it names has no unit, when the player names no truck, and when
/// the save holds no truck of the id that the player names.
pub fn get_player_truck(doc: &[u8]) -> (r: Result<ParsedTruck, VehicleError>)
    ensures
        ({
            let recs = unit_records(doc@, kw_vehicle());
            match player_truck_at(doc@, record_ids(recs)) {
                Ok(i) => r is Ok && 0 <= i < recs.len() && is_truck(r.unwrap(), doc@, recs[i]),
                Err(e) => r is Err && r.unwrap_err() == e,
            }
        }),
{
    let mut trucks = parse_trucks_from_sii(doc);
    let none: Vec<TrailerData> = Vec::new();
    proof {
        assert(trucks@.len() == trucks.len());
        lemma_truck_ids(trucks@, doc@);
    }
    match resolve_driven(doc, &trucks, &none) {
        Err(e) => Err(unresolved_as(e)),
        Ok((Driven::Nothing, _)) => Err(VehicleError::NotAttached),
        Ok((Driven::Unknown, _)) => Err(VehicleError::Unknown),
        Ok((Driven::At(i), _)) => {
            proof {
                lemma_driven_at(truck_ids(trucks@), player_vehicles(doc@).unwrap().0, i);
            }
            Ok(trucks.remove(i))
        },
    }
}

/// Reads the trailer that the player pulls.
///
/// A player without a trailer gives `None`; that is the normal state of a
/// save in which no trailer is attached. It is an error when the economy
/// unit names no player, when the player that it names has no unit, and
/// when the save holds no trailer of the id that the player names.
pub fn get_player_trailer(doc: &[u8]) -> (r: Result<Option<TrailerData>, VehicleError>)
    ensures
        ({
            let recs = unit_records(doc@, kw_trailer());
            match player_trailer_at(doc@, record_ids(recs)) {
                Ok(Some(i)) => r is Ok && r.unwrap() is Some && 0 <= i < recs.len() && is_trailer(
                    r.unwrap().unwrap(),
                    doc@,
                    recs[i],
                ),
                Ok(None) => r is Ok && r.unwrap() is None,
                Err(e) => r is Err && r.unwrap_err() == e,
            }
        }),
{
    let mut trailers = parse_trailers_from_sii(doc);
    let none: Vec<ParsedTruck> = Vec::new();
    proof {
        assert(trailers@.len() == trailers.len());
        lemma_trailer_ids(trailers@, doc@);
    }
    match resolve_driven(doc, &none, &trailers) {
        Err(e) => Err(unresolved_as(e)),
        Ok((_, Driven::Nothing)) => Ok(None),
        Ok((_, Driven::Unknown)) => Err(VehicleError::Unknown),
        Ok((_, Driven::At(i))) => {
            proof {
                lemma_driven_at(trailer_ids(trailers@), player_vehicles(doc@).unwrap().1, i);
                assert(is_trailer(
                    trailers@[i as int],
                    doc@,
                    unit_records(doc@, kw_trailer())[i as int],
                ));
            }
            Ok(Some(trailers.remove(i)))
        },
    }
}

} // verus!
