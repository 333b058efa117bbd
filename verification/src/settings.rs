//! Settings by name: which file a setting lives in, and what setting it
//! does to that file.

use vstd::prelude::*;
use crate::config::{find_uset, uset, UsetShape};
use crate::field::{find_hit, lemma_next_hit, next_hit, Shape};
use crate::text::{bytes_eq, k, key, splice, splice_bytes};

verus! {

/// Why a setting was not applied.
#[derive(Clone, Copy, PartialEq, Eq, Structural, Debug)]
pub enum SettingError {
    /// No setting of that name is known.
    Unsupported,
    /// The file holds no entry for the setting.
    NotFound,
}

/// The file that a setting lives in.
#[derive(Clone, Copy, PartialEq, Eq, Structural, Debug)]
pub enum SettingFile {
    /// The configuration file of the game.
    GlobalConfig,
    /// The summary of the active profile's quicksave.
    Autosave,
}

/// What a setting is in its file.
pub enum Entry {
    /// The `uset` line of this key.
    Uset(Seq<u8>),
    /// The field of this key.
    Field(Seq<u8>),
}

/// The entry that the setting `name` stands for. A setting of the game
/// may be named with or without the `g_` in front.
pub open spec fn entry_of(name: Seq<u8>) -> Option<Entry> {
    if name == k("traffic"@) || name == k("g_traffic"@) {
        Some(Entry::Uset(k("g_traffic"@)))
    } else if name == k("developer"@) || name == k("g_developer"@) {
        Some(Entry::Uset(k("g_developer"@)))
    } else if name == k("console"@) || name == k("g_console"@) {
        Some(Entry::Uset(k("g_console"@)))
    } else if name == k("max_convoy_size"@) || name == k("g_max_convoy_size"@) {
        Some(Entry::Uset(k("g_max_convoy_size"@)))
    } else if name == k("money"@) {
        Some(Entry::Field(k("info_money_account"@)))
    } else if name == k("xp"@) {
        Some(Entry::Field(k("info_players_experience"@)))
    } else {
        None
    }
}

/// The file of the setting `name`.
pub open spec fn file_of(name: Seq<u8>) -> Option<SettingFile> {
    match entry_of(name) {
        Some(Entry::Uset(_)) => Some(SettingFile::GlobalConfig),
        Some(Entry::Field(_)) => Some(SettingFile::Autosave),
        None => None,
    }
}

/// The file after the setting `name` is set to `value`.
pub open spec fn applied(content: Seq<u8>, name: Seq<u8>, value: Seq<u8>) -> Result<
    Seq<u8>,
    SettingError,
> {
    match entry_of(name) {
        None => Err(SettingError::Unsupported),
        Some(Entry::Uset(key)) => match uset(content, key, UsetShape::Quoted) {
            Some(s) => Ok(splice(content, s.value.0, s.value.1, value)),
            None => Err(SettingError::NotFound),
        },
        Some(Entry::Field(key)) => match next_hit(content, key, false, Shape::Digits, 0) {
            Some(h) => Ok(splice(content, h.value.0, h.value.1, value)),
            None => Err(SettingError::NotFound),
        },
    }
}

/// A file with a setting applied, read as a sequence of bytes.
pub open spec fn applied_view(r: Result<Vec<u8>, SettingError>) -> Result<Seq<u8>, SettingError> {
    match r {
        Ok(d) => Ok(d@),
        Err(e) => Err(e),
    }
}

fn is(name: &[u8], word: &str) -> (r: bool)
    ensures
        r == (name@ == k(word@)),
{
    bytes_eq(name, key(word).as_slice())
}

/// The key of the `uset` line of the setting `name`, or of its field,
/// and which of the two it is.
fn entry(name: &[u8]) -> (r: Option<(bool, Vec<u8>)>)
    ensures
        match r {
            Some((true, key)) => entry_of(name@) == Some(Entry::Uset(key@)),
            Some((false, key)) => entry_of(name@) == Some(Entry::Field(key@)),
            None => entry_of(name@) is None,
        },
{
    if is(name, "traffic") || is(name, "g_traffic") {
        Some((true, key("g_traffic")))
    } else if is(name, "developer") || is(name, "g_developer") {
        Some((true, key("g_developer")))
    } else if is(name, "console") || is(name, "g_console") {
        Some((true, key("g_console")))
    } else if is(name, "max_convoy_size") || is(name, "g_max_convoy_size") {
        Some((true, key("g_max_convoy_size")))
    } else if is(name, "money") {
        Some((false, key("info_money_account")))
    } else if is(name, "xp") {
        Some((false, key("info_players_experience")))
    } else {
        None
    }
}

/// Tells which file the setting `name` lives in.
pub fn setting_file(name: &[u8]) -> (r: Option<SettingFile>)
    ensures
        r == file_of(name@),
{
    match entry(name) {
        Some((true, _)) => Some(SettingFile::GlobalConfig),
        Some((false, _)) => Some(SettingFile::Autosave),
        None => None,
    }
}

/// Sets the setting `name` to `value` in the text of its file.
///
/// A setting of the game is set between the quotes of its `uset` line;
/// money and experience are set in the digits of their field of the
/// summary. The entry has to be there: none is added.
pub fn apply_setting(content: &[u8], name: &[u8], value: &[u8]) -> (r: Result<Vec<u8>, SettingError>)
    ensures
        applied_view(r) == applied(content@, name@, value@),
{
    match entry(name) {
        None => Err(SettingError::Unsupported),
        Some((true, key)) => match find_uset(content, key.as_slice(), UsetShape::Quoted) {
            Some(s) => Ok(splice_bytes(content, s.value.0, s.value.1, value)),
            None => Err(SettingError::NotFound),
        },
        Some((false, key)) => match find_hit(content, key.as_slice(), false, Shape::Digits, 0) {
            Some(h) => {
                proof {
                    lemma_next_hit(content@, key@, false, Shape::Digits, 0);
                }
                Ok(splice_bytes(content, h.value.0, h.value.1, value))
            },
            None => Err(SettingError::NotFound),
        },
    }
}

} // verus!
