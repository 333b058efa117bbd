//! What a session holds between calls: which profile and save are active,
//! and the decoded text of the files that were read.
//!
//! Both are plain values that the caller owns and hands to each
//! operation. A caller that shares them between threads puts them behind
//! a lock of its own.

use vstd::hash_map::StringHashMap;
use vstd::prelude::*;
use vstd::string::*;
use crate::text::copy_range;

verus! {

/// Why a session cannot say which file is meant.
#[derive(Clone, Copy, PartialEq, Eq, Structural, Debug)]
pub enum StateError {
    /// No profile is loaded.
    NoProfile,
    /// No save is loaded.
    NoSave,
}

/// The active profile and save.
pub struct AppProfileState {
    pub current_profile: Option<String>,
    pub current_save: Option<String>,
    pub selected_game: String,
}

/// A path that may be missing, as a mathematical value.
pub open spec fn name_view(r: Option<String>) -> Option<Seq<char>> {
    match r {
        Some(p) => Some(p@),
        None => None,
    }
}

/// A path or the reason why there is none, as a mathematical value.
pub open spec fn required_view(r: Result<String, StateError>) -> Result<Seq<char>, StateError> {
    match r {
        Ok(p) => Ok(p@),
        Err(e) => Err(e),
    }
}

impl AppProfileState {
    /// A session in which nothing is loaded and the first game is chosen.
    pub fn new() -> (r: AppProfileState)
        ensures
            r.current_profile is None,
            r.current_save is None,
            r.selected_game@ == "ets2"@,
    {
        AppProfileState {
            current_profile: None,
            current_save: None,
            selected_game: String::from_str("ets2"),
        }
    }
}

fn clone_name(s: &Option<String>) -> (r: Option<String>)
    ensures
        name_view(r) == name_view(*s),
{
    match s {
        Some(p) => Some(p.clone()),
        None => None,
    }
}

/// Makes `path` the active profile.
pub fn set_current_profile(state: &mut AppProfileState, path: String)
    ensures
        final(state).current_profile == Some(path),
        final(state).current_save == old(state).current_save,
        final(state).selected_game == old(state).selected_game,
{
    state.current_profile = Some(path);
}

/// Leaves the active profile.
pub fn clear_current_profile(state: &mut AppProfileState)
    ensures
        final(state).current_profile is None,
        final(state).current_save == old(state).current_save,
        final(state).selected_game == old(state).selected_game,
{
    state.current_profile = None;
}

/// The active profile, if there is one.
pub fn get_current_profile(state: &AppProfileState) -> (r: Option<String>)
    ensures
        name_view(r) == name_view(state.current_profile),
{
    clone_name(&state.current_profile)
}

/// The active profile, or the error that none is loaded.
pub fn require_current_profile(state: &AppProfileState) -> (r: Result<String, StateError>)
    ensures
        required_view(r) == match state.current_profile {
            Some(p) => Ok::<Seq<char>, StateError>(p@),
            None => Err(StateError::NoProfile),
        },
{
    match &state.current_profile {
        Some(p) => Ok(p.clone()),
        None => Err(StateError::NoProfile),
    }
}

/// The active save, or the error that none is loaded.
pub fn require_current_save(state: &AppProfileState) -> (r: Result<String, StateError>)
    ensures
        required_view(r) == match state.current_save {
            Some(p) => Ok::<Seq<char>, StateError>(p@),
            None => Err(StateError::NoSave),
        },
{
    match &state.current_save {
        Some(p) => Ok(p.clone()),
        None => Err(StateError::NoSave),
    }
}

/// Chooses the game whose profiles are looked for.
pub fn set_selected_game(state: &mut AppProfileState, game: String)
    ensures
        final(state).selected_game == game,
        final(state).current_profile == old(state).current_profile,
        final(state).current_save == old(state).current_save,
{
    state.selected_game = game;
}

/// The game whose profiles are looked for.
pub fn get_selected_game(state: &AppProfileState) -> (r: String)
    ensures
        r@ == state.selected_game@,
{
    state.selected_game.clone()
}

/// The decoded text of the files that were read, by path.
///
/// A reader asks the cache first and stores what it had to decode. Every
/// write to a file is followed by `invalidate_path`, and every change of
/// the active profile or save by `clear`: the cache is never updated in
/// part.
pub struct DecryptCache {
    files: StringHashMap<Vec<u8>>,
}

impl DecryptCache {
    /// What the cache holds: a text for each path that was stored and not
    /// invalidated since.
    pub closed spec fn content(&self) -> Map<Seq<char>, Seq<u8>> {
        self.files@.map_values(|t: Vec<u8>| t@)
    }

    /// An empty cache.
    pub fn new() -> (r: DecryptCache)
        ensures
            r.content() == Map::<Seq<char>, Seq<u8>>::empty(),
    {
        let r = DecryptCache { files: StringHashMap::new() };
        assert(r.content() =~= Map::<Seq<char>, Seq<u8>>::empty());
        r
    }

    /// The text stored for `path`, if any.
    pub fn get(&self, path: &str) -> (r: Option<Vec<u8>>)
        ensures
            match r {
                Some(t) => self.content().contains_key(path@) && self.content()[path@] == t@,
                None => !self.content().contains_key(path@),
            },
    {
        match self.files.get(path) {
            Some(t) => Some(copy_range(t.as_slice(), 0, t.len())),
            None => None,
        }
    }

    /// Forgets the text stored for `path`. What is stored for other paths
    /// stays.
    pub fn invalidate_path(&mut self, path: &str)
        ensures
            final(self).content() == old(self).content().remove(path@),
    {
        self.files.remove(path);
        assert(self.content() =~= old(self).content().remove(path@));
    }

    /// Stores `text` for `path`, in place of what was stored for it.
    pub fn insert(&mut self, path: &str, text: Vec<u8>)
        ensures
            final(self).content() == old(self).content().insert(path@, text@),
    {
        self.files.insert(String::from_str(path), text);
        assert(self.content() =~= old(self).content().insert(path@, text@));
    }

    /// Forgets everything.
    pub fn clear(&mut self)
        ensures
            final(self).content() == Map::<Seq<char>, Seq<u8>>::empty(),
    {
        self.files.clear();
        assert(self.content() =~= Map::<Seq<char>, Seq<u8>>::empty());
    }
}

/// Makes `profile_path` the active profile. The cache is emptied: what it
/// held belongs to the profile that was active.
pub fn set_active_profile(state: &mut AppProfileState, cache: &mut DecryptCache, profile_path: String)
    ensures
        final(state).current_profile == Some(profile_path),
        final(state).current_save == old(state).current_save,
        final(state).selected_game == old(state).selected_game,
        final(cache).content() == Map::<Seq<char>, Seq<u8>>::empty(),
{
    state.current_profile = Some(profile_path);
    cache.clear();
}

/// Makes `save_path` the active save, and empties the cache.
pub fn set_current_save(state: &mut AppProfileState, cache: &mut DecryptCache, save_path: String)
    ensures
        final(state).current_save == Some(save_path),
        final(state).current_profile == old(state).current_profile,
        final(state).selected_game == old(state).selected_game,
        final(cache).content() == Map::<Seq<char>, Seq<u8>>::empty(),
{
    state.current_save = Some(save_path);
    cache.clear();
}

/// Empties the cache for a change of profile.
pub fn switch_profile(cache: &mut DecryptCache)
    ensures
        final(cache).content() == Map::<Seq<char>, Seq<u8>>::empty(),
{
    cache.clear();
}

} // verus!
