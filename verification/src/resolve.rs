//! The domain resolver: follows the references that tie units together.
//!
//! The economy unit names the player unit, and the player unit names the
//! truck and the trailer that the player drives. A trailer need not be
//! attached: that is a normal state of a save, not a fault of the file.
//!
//! Units are found as everywhere else: by their opening `class : id {`,
//! with free whitespace, and to the brace that closes them, braces
//! counted. References are read as fields of the unit's span.
//!
//! A reader goes from the economy unit to the player it names, and it is
//! an error when that chain is broken. An edit asks less: it takes the
//! first player unit of the document and reads the vehicle from it,
//! whether or not an economy unit stands in the document.

use vstd::prelude::*;
use crate::extract::{field_text, read_field};
use crate::field::Shape;
use crate::locate::{lemma_locate, locate, locate_block};
use crate::text::{ascii_bytes, bytes_eq, key, opt_view};
use crate::units::{find_unit, next_unit};
use vstd::slice::slice_subrange;

verus! {

/// Why the player's vehicles could not be resolved.
#[derive(Clone, Copy, PartialEq, Eq, Structural, Debug)]
pub enum ResolverError {
    /// The economy unit names no player.
    PlayerIdMissing,
    /// The player that the economy unit names has no unit of its own.
    PlayerBlockMissing,
    /// The player unit names no vehicle of the kind asked for.
    NotAttached,
}

/// The class of the economy unit.
pub open spec fn kw_economy() -> Seq<u8> {
    ascii_bytes("economy"@)
}

/// The class of the player unit, and the key under which the economy
/// unit names it.
pub open spec fn kw_player() -> Seq<u8> {
    ascii_bytes("player"@)
}

/// The key under which the player unit names the truck.
pub open spec fn kw_truck() -> Seq<u8> {
    ascii_bytes("my_truck"@)
}

/// The key under which the player unit names the trailer.
pub open spec fn kw_trailer() -> Seq<u8> {
    ascii_bytes("my_trailer"@)
}

/// The word that stands for no unit.
pub open spec fn kw_null() -> Seq<u8> {
    ascii_bytes("null"@)
}

/// The id of the player unit that the economy unit of `doc` names: the
/// value of the first field `player` of the first unit of class
/// `economy`. An id is a run of letters, digits, dots and underscores.
pub open spec fn player_id(doc: Seq<u8>) -> Option<Seq<u8>> {
    match next_unit(doc, kw_economy(), 0) {
        None => None,
        Some(u) => field_text(doc.subrange(u.span.0, u.span.1), kw_player(), Shape::Ident),
    }
}

/// A reference that is there: the word `null` stands for none.
pub open spec fn attached(r: Option<Seq<u8>>) -> Option<Seq<u8>> {
    match r {
        Some(w) => if w == kw_null() {
            None
        } else {
            Some(w)
        },
        None => None,
    }
}

/// The unit that player `id` names under `key`, if any: the value of the
/// first field `key` of the unit `player : id`, unless it is `null`.
pub open spec fn player_reference(doc: Seq<u8>, id: Seq<u8>, key: Seq<u8>) -> Option<Seq<u8>> {
    match locate(doc, kw_player(), id) {
        Ok((s, e)) => attached(field_text(doc.subrange(s, e), key, Shape::Ident)),
        Err(_) => None,
    }
}

/// The truck and the trailer of player `id`.
pub open spec fn vehicle_ids(doc: Seq<u8>, id: Seq<u8>) -> (Option<Seq<u8>>, Option<Seq<u8>>) {
    (player_reference(doc, id, kw_truck()), player_reference(doc, id, kw_trailer()))
}

/// The truck and the trailer of the player of `doc`.
pub open spec fn player_vehicles(doc: Seq<u8>) -> Result<
    (Option<Seq<u8>>, Option<Seq<u8>>),
    ResolverError,
> {
    match player_id(doc) {
        None => Err(ResolverError::PlayerIdMissing),
        Some(id) => if locate(doc, kw_player(), id) is Ok {
            Ok(vehicle_ids(doc, id))
        } else {
            Err(ResolverError::PlayerBlockMissing)
        },
    }
}

/// The unit that the player of `doc` names under `key`, as an edit
/// resolves it: the value of the first field `key` of the first unit of
/// class `player`, unless it is `null`. No economy unit is asked for.
pub open spec fn player_vehicle(doc: Seq<u8>, key: Seq<u8>) -> Result<Seq<u8>, ResolverError> {
    match next_unit(doc, kw_player(), 0) {
        None => Err(ResolverError::PlayerBlockMissing),
        Some(u) => match attached(field_text(doc.subrange(u.span.0, u.span.1), key, Shape::Ident)) {
            Some(v) => Ok(v),
            None => Err(ResolverError::NotAttached),
        },
    }
}

/// A truck and a trailer, as mathematical values.
pub open spec fn pair_view(r: (Option<Vec<u8>>, Option<Vec<u8>>)) -> (
    Option<Seq<u8>>,
    Option<Seq<u8>>,
) {
    (opt_view(r.0), opt_view(r.1))
}

/// Resolved vehicles, as mathematical values.
pub open spec fn vehicles_view(r: Result<(Option<Vec<u8>>, Option<Vec<u8>>), ResolverError>) -> Result<
    (Option<Seq<u8>>, Option<Seq<u8>>),
    ResolverError,
> {
    match r {
        Ok(p) => Ok(pair_view(p)),
        Err(e) => Err(e),
    }
}

/// A resolved vehicle, as a mathematical value.
pub open spec fn vehicle_view(r: Result<Vec<u8>, ResolverError>) -> Result<Seq<u8>, ResolverError> {
    match r {
        Ok(v) => Ok(v@),
        Err(e) => Err(e),
    }
}

/// Finds the id of the player unit that the economy unit names.
///
/// The economy unit is the first unit of class `economy` whose braces
/// balance; the id is the value of its first field `player`.
pub fn get_player_id(doc: &[u8]) -> (r: Option<Vec<u8>>)
    ensures
        opt_view(r) == player_id(doc@),
{
    match find_unit(doc, key("economy").as_slice(), 0) {
        None => None,
        Some(u) => read_field(
            slice_subrange(doc, u.span.0, u.span.1),
            key("player").as_slice(),
            Shape::Ident,
        ),
    }
}

fn drop_null(r: Option<Vec<u8>>) -> (out: Option<Vec<u8>>)
    ensures
        opt_view(out) == attached(opt_view(r)),
{
    match r {
        Some(w) => if bytes_eq(w.as_slice(), key("null").as_slice()) {
            None
        } else {
            Some(w)
        },
        None => None,
    }
}

/// Reads the reference `name` of the unit `player : id`, and tells whether
/// that unit was found at all.
fn read_reference(doc: &[u8], player_id: &[u8], name: &[u8]) -> (r: (bool, Option<Vec<u8>>))
    ensures
        r.0 == (locate(doc@, kw_player(), player_id@) is Ok),
        opt_view(r.1) == player_reference(doc@, player_id@, name@),
{
    match locate_block(doc, key("player").as_slice(), player_id) {
        Ok((s, e)) => {
            proof {
                lemma_locate(doc@, kw_player(), player_id@);
            }
            (true, drop_null(read_field(slice_subrange(doc, s, e), name, Shape::Ident)))
        },
        Err(_) => (false, None),
    }
}

/// Reads the truck and the trailer that player `player_id` names.
///
/// The player's unit is the unit `player : player_id`, from its opening to
/// the brace that closes it. Its first field `my_truck` names the truck
/// and its first field `my_trailer` the trailer. A reference that is
/// missing, or is the word `null`, is `None`; so are both where the
/// player has no unit.
pub fn get_vehicle_ids(doc: &[u8], player_id: &[u8]) -> (r: (Option<Vec<u8>>, Option<Vec<u8>>))
    ensures
        pair_view(r) == vehicle_ids(doc@, player_id@),
{
    let (_, truck) = read_reference(doc, player_id, key("my_truck").as_slice());
    let (_, trailer) = read_reference(doc, player_id, key("my_trailer").as_slice());
    (truck, trailer)
}

/// Resolves the truck and the trailer of the document's player.
///
/// It is an error when the economy unit names no player, or when the
/// player it names has no unit. A player without a truck or without a
/// trailer is no error: the missing one is `None`.
pub fn resolve_player_vehicles(doc: &[u8]) -> (r: Result<
    (Option<Vec<u8>>, Option<Vec<u8>>),
    ResolverError,
>)
    ensures
        vehicles_view(r) == player_vehicles(doc@),
{
    match get_player_id(doc) {
        None => Err(ResolverError::PlayerIdMissing),
        Some(id) => {
            let (found, truck) = read_reference(doc, id.as_slice(), key("my_truck").as_slice());
            if !found {
                return Err(ResolverError::PlayerBlockMissing);
            }
            let (_, trailer) = read_reference(doc, id.as_slice(), key("my_trailer").as_slice());
            Ok((truck, trailer))
        },
    }
}

/// Resolves the unit that the document's player names under
/// `vehicle_type`, which is `my_truck` or `my_trailer`, for an edit.
///
/// The player's unit is the first unit of class `player` whose braces
/// balance; the economy unit plays no part, so a document without one is
/// resolved all the same. A document without a player unit gives
/// `PlayerBlockMissing`. Unlike `resolve_player_vehicles`, this asks for
/// the vehicle: a player that names none, or names `null`, is reported as
/// `NotAttached`.
pub fn get_player_vehicle_id(doc: &[u8], vehicle_type: &[u8]) -> (r: Result<
    Vec<u8>,
    ResolverError,
>)
    ensures
        vehicle_view(r) == player_vehicle(doc@, vehicle_type@),
{
    match find_unit(doc, key("player").as_slice(), 0) {
        None => Err(ResolverError::PlayerBlockMissing),
        Some(u) => {
            let block = slice_subrange(doc, u.span.0, u.span.1);
            match drop_null(read_field(block, vehicle_type, Shape::Ident)) {
                Some(v) => Ok(v),
                None => Err(ResolverError::NotAttached),
            }
        },
    }
}

/// The trailer field of the unit of the player that `doc` names, if the
/// player is named and has a unit.
pub open spec fn trailer_field(doc: Seq<u8>) -> Option<Seq<u8>> {
    match player_id(doc) {
        None => None,
        Some(id) => match locate(doc, kw_player(), id) {
            Ok((s, e)) => field_text(doc.subrange(s, e), kw_trailer(), Shape::Ident),
            Err(_) => None,
        },
    }
}

/// An optional trailer: where the player's unit names `null` for its
/// trailer, the vehicles resolve and the trailer is none. That a trailer
/// is not attached is no error.
pub proof fn lemma_null_trailer_is_none(doc: Seq<u8>)
    requires
        player_id(doc) is Some,
        locate(doc, kw_player(), player_id(doc).unwrap()) is Ok,
        trailer_field(doc) == Some(kw_null()),
    ensures
        player_vehicles(doc) is Ok,
        player_vehicles(doc).unwrap().1 is None,
{
}

/// A player's unit without a trailer field is no error either.
pub proof fn lemma_missing_trailer_is_none(doc: Seq<u8>)
    requires
        player_id(doc) is Some,
        locate(doc, kw_player(), player_id(doc).unwrap()) is Ok,
        trailer_field(doc) is None,
    ensures
        player_vehicles(doc) is Ok,
        player_vehicles(doc).unwrap().1 is None,
{
}

/// A missing player is an error: without the player's unit there is
/// nothing to resolve the vehicles from.
pub proof fn lemma_missing_player_is_an_error(doc: Seq<u8>)
    requires
        player_id(doc) is None || locate(doc, kw_player(), player_id(doc).unwrap()) is Err,
    ensures
        player_vehicles(doc) is Err,
        player_id(doc) is None ==> player_vehicles(doc) == Err::<
            (Option<Seq<u8>>, Option<Seq<u8>>),
            ResolverError,
        >(ResolverError::PlayerIdMissing),
        player_id(doc) is Some ==> player_vehicles(doc) == Err::<
            (Option<Seq<u8>>, Option<Seq<u8>>),
            ResolverError,
        >(ResolverError::PlayerBlockMissing),
{
}

} // verus!
