//! What a save folder is, by its name.

use vstd::prelude::*;
use crate::hex_float::lowered;
use crate::text::{ascii, ascii_bytes, bytes_eq, is_digit};

verus! {

/// The kind of a save, told from the name of its folder.
#[derive(Clone, Copy, PartialEq, Eq, Structural, Debug)]
pub enum SaveKind {
    /// A save that the player made: its folder is a number.
    Manual,
    /// A save that the game made: `quicksave` or `autosave`.
    Autosave,
    /// Not a save.
    Invalid,
}

/// Whether `s` holds decimal digits only.
pub open spec fn all_digit_bytes(s: Seq<u8>) -> bool {
    forall|i: int| 0 <= i < s.len() ==> is_digit(#[trigger] s[i])
}

/// The kind of the save in folder `folder`. The names of the game's own
/// saves are told in any case of letters.
pub open spec fn save_kind(folder: Seq<u8>) -> SaveKind {
    if lowered(folder) == ascii_bytes("quicksave"@) || lowered(folder) == ascii_bytes(
        "autosave"@,
    ) {
        SaveKind::Autosave
    } else if all_digit_bytes(folder) {
        SaveKind::Manual
    } else {
        SaveKind::Invalid
    }
}

/// Tells the kind of a save from the name of its folder.
pub fn classify_save_folder(folder: &[u8]) -> (r: SaveKind)
    ensures
        r == save_kind(folder@),
{
    let n = folder.len();
    let mut low: Vec<u8> = Vec::new();
    let mut digits = true;
    let mut k: usize = 0;
    while k < n
        invariant
            n == folder@.len(),
            k <= n,
            low@ == lowered(folder@.subrange(0, k as int)),
            digits == all_digit_bytes(folder@.subrange(0, k as int)),
        decreases n - k,
    {
        let b = folder[k];
        let ghost cur = folder@.subrange(0, k + 1);
        low.push(if 65 <= b && b <= 90 { b + 32 } else { b });
        if !(48 <= b && b <= 57) {
            digits = false;
            assert(!is_digit(cur[k as int]));
        } else if digits {
            assert forall|i: int| 0 <= i < cur.len() implies is_digit(#[trigger] cur[i]) by {}
        }
        k = k + 1;
    }
    assert(folder@.subrange(0, k as int) =~= folder@);
    proof {
        reveal_strlit("quicksave");
        reveal_strlit("autosave");
    }
    if bytes_eq(low.as_slice(), ascii("quicksave")) || bytes_eq(low.as_slice(), ascii("autosave")) {
        SaveKind::Autosave
    } else if digits {
        SaveKind::Manual
    } else {
        SaveKind::Invalid
    }
}

} // verus!
