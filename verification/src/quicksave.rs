//! The overview of a save: who the player is, what the player can do, and
//! what the player drives.

use vstd::prelude::*;
use crate::extract::{extract_i64, extract_string, field_text, int_field};
use crate::field::Shape;
use crate::hex_float::to_lower;
use crate::resolve::attached;
use crate::text::{bytes_eq, clone_bytes, copy_range, k, key, opt_view};
use crate::units::{
    find_units, next_unit, parse_units_of_class, records_view, unit_records, units, Unit,
    UnitRecord, UnitRecordView,
};
use crate::vehicles::{
    find_trailer, id_key, kw_trailer, kw_vehicle, parse_trailers_from_sii, position_of, record_ids,
    TrailerData,
};
use vstd::slice::slice_subrange;

verus! {

/// Why a save gives no overview.
#[derive(Clone, Copy, PartialEq, Eq, Structural, Debug)]
pub enum QuicksaveError {
    /// The save holds no player unit.
    PlayerBlockMissing,
    /// The save holds no bank unit.
    BankBlockMissing,
}

/// The skills of a player.
#[derive(Clone, Copy, PartialEq, Eq, Debug)]
pub struct Skills {
    pub adr: Option<i64>,
    pub long_dist: Option<i64>,
    pub heavy: Option<i64>,
    pub fragile: Option<i64>,
    pub urgent: Option<i64>,
    pub mechanical: Option<i64>,
}

/// What the overview says of the player's truck.
#[derive(Debug)]
pub struct TruckSummary {
    pub brand: Vec<u8>,
    pub model: Vec<u8>,
    pub license_plate: Option<Vec<u8>>,
    pub odometer: Option<i64>,
    pub trip_fuel_l: Option<i64>,
}

/// The overview of a save.
#[derive(Debug)]
pub struct GameDataQuicksave {
    pub player_id: Vec<u8>,
    pub bank_id: Vec<u8>,
    pub player_xp: Option<i64>,
    pub player_my_truck: Option<Vec<u8>>,
    pub player_my_trailer: Option<Vec<u8>>,
    pub skills: Skills,
    /// The player's truck, where the save holds the unit that the player
    /// names.
    pub truck: Option<TruckSummary>,
    /// The player's trailer, likewise.
    pub trailer: Option<TrailerData>,
}

/// The first unit of class `class`.
pub open spec fn first_unit(doc: Seq<u8>, class: Seq<u8>) -> Option<Unit> {
    next_unit(doc, class, 0)
}

/// The vehicle that the unit with body `body` names under `slot`, `null`
/// standing for none.
pub open spec fn named_vehicle(body: Seq<u8>, slot: Seq<u8>) -> Option<Seq<u8>> {
    attached(field_text(body, slot, Shape::Ident))
}

/// The skills that a save states.
pub open spec fn skills_of(doc: Seq<u8>) -> Skills {
    Skills {
        adr: int_field(doc, k("adr"@)),
        long_dist: int_field(doc, k("long_dist"@)),
        heavy: int_field(doc, k("heavy"@)),
        fragile: int_field(doc, k("fragile"@)),
        urgent: int_field(doc, k("urgent"@)),
        mechanical: int_field(doc, k("mechanical"@)),
    }
}

/// Whether `t` sums up the truck of record `rec`.
pub open spec fn is_truck_summary(t: TruckSummary, doc: Seq<u8>, rec: UnitRecordView) -> bool {
    let body = doc.subrange(rec.body.0, rec.body.1);
    &&& t.brand@ == rec.brand
    &&& t.model@ == rec.model
    &&& opt_view(t.license_plate) == field_text(body, k("license_plate"@), Shape::Quoted)
    &&& t.odometer == int_field(body, k("odometer"@))
    &&& t.trip_fuel_l == int_field(body, k("trip_fuel_l"@))
}

/// Whether `g` is the overview of `doc`, whose player unit is `player`
/// and whose bank unit is `bank`.
pub open spec fn is_overview(g: GameDataQuicksave, doc: Seq<u8>, player: Unit, bank: Unit) -> bool {
    let body = doc.subrange(player.body.0, player.body.1);
    let trucks = unit_records(doc, kw_vehicle());
    &&& g.player_id@ == doc.subrange(player.id.0, player.id.1)
    &&& g.bank_id@ == doc.subrange(bank.id.0, bank.id.1)
    &&& g.player_xp == int_field(doc, k("experience_points"@))
    &&& opt_view(g.player_my_truck) == named_vehicle(body, k("my_truck"@))
    &&& opt_view(g.player_my_trailer) == named_vehicle(body, k("my_trailer"@))
    &&& g.skills == skills_of(doc)
    &&& match named_vehicle(body, k("my_truck"@)) {
        None => g.truck is None,
        Some(id) => {
            let p = position_of(record_ids(trucks), id_key(id), 0);
            if p < trucks.len() {
                g.truck is Some && is_truck_summary(g.truck.unwrap(), doc, trucks[p])
            } else {
                g.truck is None
            }
        },
    }
    &&& match named_vehicle(body, k("my_trailer"@)) {
        None => g.trailer is None,
        Some(id) => {
            let recs = unit_records(doc, kw_trailer());
            let p = position_of(record_ids(recs), id_key(id), 0);
            if p < recs.len() {
                g.trailer is Some && crate::vehicles::is_trailer(g.trailer.unwrap(), doc, recs[p])
            } else {
                g.trailer is None
            }
        },
    }
}

fn read_named(body: &[u8], slot: &[u8]) -> (r: Option<Vec<u8>>)
    ensures
        opt_view(r) == named_vehicle(body@, slot@),
{
    match crate::field::find_hit(body, slot, false, Shape::Ident, 0) {
        Some(h) => {
            proof {
                crate::field::lemma_next_hit(body@, slot@, false, Shape::Ident, 0);
            }
            let w = copy_range(body, h.value.0, h.value.1);
            let null = key("null");
            if bytes_eq(w.as_slice(), null.as_slice()) {
                None
            } else {
                Some(w)
            }
        },
        None => None,
    }
}

fn first_of(doc: &[u8], class: &[u8]) -> (r: Option<crate::units::UnitPos>)
    ensures
        match r {
            Some(u) => first_unit(doc@, class@) == Some(u@) && u.id.0 <= u.id.1 <= doc@.len()
                && u.body.0 <= u.body.1 <= doc@.len(),
            None => first_unit(doc@, class@) is None,
        },
{
    let us = find_units(doc, class);
    proof {
        // The first unit of the sweep is the first unit.
        let e = Seq::<Unit>::empty();
        match next_unit(doc@, class@, 0) {
            None => {},
            Some(u) => {
                let pred = crate::units::unit_pred(doc@, class@);
                crate::text::lemma_first_hit(pred, 0, doc@.len() as int);
                crate::units::lemma_unit_at(doc@, class@, u.span.0);
                lemma_collect_keeps(doc@, class@, u.span.1, e.push(u), 0);
            },
        }
    }
    if us.len() > 0 {
        Some(us[0])
    } else {
        None
    }
}

/// Collecting units adds to what was collected: the first `k` stay.
proof fn lemma_collect_keeps(doc: Seq<u8>, class: Seq<u8>, from: int, acc: Seq<Unit>, k: int)
    requires
        0 <= k < acc.len(),
    ensures
        crate::units::collect_units(doc, class, from, acc).len() >= acc.len(),
        crate::units::collect_units(doc, class, from, acc)[k] == acc[k],
    decreases doc.len() - from,
{
    match next_unit(doc, class, from) {
        None => {},
        Some(u) => {
            if from < u.span.1 <= doc.len() {
                lemma_collect_keeps(doc, class, u.span.1, acc.push(u), k);
            }
        },
    }
}

fn find_record(recs: &Vec<UnitRecord>, id: &[u8]) -> (r: Option<usize>)
    ensures
        match r {
            Some(i) => i < recs@.len() && position_of(
                record_ids(records_view(recs@)),
                id_key(id@),
                0,
            ) == i,
            None => position_of(record_ids(records_view(recs@)), id_key(id@), 0) == recs@.len(),
        },
{
    let want = to_lower(crate::hex_float::trim(id));
    let ghost ids = record_ids(records_view(recs@));
    let mut i: usize = 0;
    while i < recs.len()
        invariant
            i <= recs@.len(),
            want@ == id_key(id@),
            ids == record_ids(records_view(recs@)),
            position_of(ids, want@, 0) == position_of(ids, want@, i as int),
        decreases recs@.len() - i,
    {
        let low = to_lower(recs[i].unit_id.as_slice());
        if bytes_eq(low.as_slice(), want.as_slice()) {
            return Some(i);
        }
        i = i + 1;
    }
    None
}

/// Draws up the overview of a save.
///
/// The player is the first unit of class `player`, the bank the first of
/// class `bank`; a save without either gives no overview. The truck and
/// the trailer are those that the player's unit names, `null` naming
/// none; each is looked up by its id, letters compared without regard to
/// case, among the units of class `vehicle` and `trailer`.
pub fn quicksave_game_info(doc: &[u8]) -> (r: Result<GameDataQuicksave, QuicksaveError>)
    ensures
        match r {
            Ok(g) => {
                &&& first_unit(doc@, k("player"@)) is Some
                &&& first_unit(doc@, k("bank"@)) is Some
                &&& is_overview(
                    g,
                    doc@,
                    first_unit(doc@, k("player"@)).unwrap(),
                    first_unit(doc@, k("bank"@)).unwrap(),
                )
            },
            Err(QuicksaveError::PlayerBlockMissing) => first_unit(doc@, k("player"@)) is None,
            Err(QuicksaveError::BankBlockMissing) => first_unit(doc@, k("player"@)) is Some
                && first_unit(doc@, k("bank"@)) is None,
        },
{
    let player = match first_of(doc, key("player").as_slice()) {
        Some(u) => u,
        None => {
            return Err(QuicksaveError::PlayerBlockMissing);
        },
    };
    let bank = match first_of(doc, key("bank").as_slice()) {
        Some(u) => u,
        None => {
            return Err(QuicksaveError::BankBlockMissing);
        },
    };
    let body = slice_subrange(doc, player.body.0, player.body.1);
    let my_truck = read_named(body, key("my_truck").as_slice());
    let my_trailer = read_named(body, key("my_trailer").as_slice());
    let skills = Skills {
        adr: extract_i64(doc, key("adr").as_slice()),
        long_dist: extract_i64(doc, key("long_dist").as_slice()),
        heavy: extract_i64(doc, key("heavy").as_slice()),
        fragile: extract_i64(doc, key("fragile").as_slice()),
        urgent: extract_i64(doc, key("urgent").as_slice()),
        mechanical: extract_i64(doc, key("mechanical").as_slice()),
    };
    let truck = match &my_truck {
        None => None,
        Some(id) => {
            let recs = parse_units_of_class(doc, key("vehicle").as_slice());
            match find_record(&recs, id.as_slice()) {
                None => None,
                Some(i) => {
                    let rec = &recs[i];
                    let tb = slice_subrange(doc, rec.body_start, rec.body_end);
                    Some(
                        TruckSummary {
                            brand: clone_bytes(&rec.brand),
                            model: clone_bytes(&rec.model),
                            license_plate: extract_string(tb, key("license_plate").as_slice()),
                            odometer: extract_i64(tb, key("odometer").as_slice()),
                            trip_fuel_l: extract_i64(tb, key("trip_fuel_l").as_slice()),
                        },
                    )
                },
            }
        },
    };
    let trailer = match &my_trailer {
        None => None,
        Some(id) => {
            let mut trailers = parse_trailers_from_sii(doc);
            proof {
                crate::vehicles::lemma_trailer_ids(trailers@, doc@);
            }
            match find_trailer(&trailers, id.as_slice()) {
                None => None,
                Some(i) => {
                    Some(trailers.remove(i))
                },
            }
        },
    };
    Ok(
        GameDataQuicksave {
            player_id: copy_range(doc, player.id.0, player.id.1),
            bank_id: copy_range(doc, bank.id.0, bank.id.1),
            player_xp: extract_i64(doc, key("experience_points").as_slice()),
            player_my_truck: my_truck,
            player_my_trailer: my_trailer,
            skills,
            truck,
            trailer,
        },
    )
}

} // verus!
