//! Where the files of a profile lie.
//!
//! A profile directory holds `config.cfg` and a folder `save`, in which
//! each save has a folder of its own with `info.sii` and `game.sii`. Paths
//! are plain strings here: the library builds them and its caller opens
//! them. Components are joined with `/`; in a path that is taken apart,
//! `\` separates as well.

use vstd::prelude::*;
use vstd::string::*;

verus! {

/// Why a path could not be built.
#[derive(Clone, Copy, PartialEq, Eq, Structural, Debug)]
pub enum PathError {
    /// The user's documents directory is not known.
    NoDocumentDir,
    /// No profile is active.
    NoProfile,
}

/// Whether `c` separates the components of a path.
pub open spec fn is_separator(c: char) -> bool {
    c == '/' || c == '\\'
}

/// `comp` below `base`.
pub open spec fn joined(base: Seq<char>, comp: Seq<char>) -> Seq<char> {
    if base.len() == 0 {
        comp
    } else if is_separator(base.last()) {
        base + comp
    } else {
        base + seq!['/'] + comp
    }
}

/// The last separator of `path` before `j`, or -1.
pub open spec fn last_separator(path: Seq<char>, j: int) -> int
    decreases j,
{
    if j <= 0 || j > path.len() {
        -1
    } else if is_separator(path[j - 1]) {
        j - 1
    } else {
        last_separator(path, j - 1)
    }
}

/// The directory that holds `path`: what stands before its last
/// separator. A path without a separator lies in the empty path, and what
/// lies directly below the root lies in the root.
pub open spec fn parent_of(path: Seq<char>) -> Seq<char> {
    let k = last_separator(path, path.len() as int);
    if k < 0 {
        Seq::<char>::empty()
    } else if k == 0 {
        path.subrange(0, 1)
    } else {
        path.subrange(0, k)
    }
}

/// Joins a component to a path.
pub fn join(base: &str, comp: &str) -> (r: String)
    ensures
        r@ == joined(base@, comp@),
{
    let n = base.unicode_len();
    if n == 0 {
        return String::from_str(comp);
    }
    let last = base.get_char(n - 1);
    let mut r = String::from_str(base);
    if !(last == '/' || last == '\\') {
        proof {
            reveal_strlit("/");
        }
        r.append("/");
    }
    r.append(comp);
    r
}

/// The directory that holds `path`.
pub fn parent(path: &str) -> (r: String)
    ensures
        r@ == parent_of(path@),
{
    let n = path.unicode_len();
    let mut j: usize = n;
    while j > 0
        invariant
            n == path@.len(),
            j <= n,
            last_separator(path@, n as int) == last_separator(path@, j as int),
        decreases j,
    {
        let c = path.get_char(j - 1);
        if c == '/' || c == '\\' {
            let k = j - 1;
            if k == 0 {
                return String::from_str(path.substring_char(0, 1));
            }
            return String::from_str(path.substring_char(0, k));
        }
        j = j - 1;
    }
    let r = String::new();
    r
}

/// The folder of the first game.
pub open spec fn ets2_folder() -> Seq<char> {
    "Euro Truck Simulator 2"@
}

/// The folder of the second game.
pub open spec fn ats_folder() -> Seq<char> {
    "American Truck Simulator"@
}

/// The folder of a game below the documents directory.
pub open spec fn base_of(game: Seq<char>, document_dir: Seq<char>) -> Seq<char> {
    if game == "ats"@ {
        joined(document_dir, ats_folder())
    } else {
        joined(document_dir, ets2_folder())
    }
}

/// A path that may be missing, as a mathematical value.
pub open spec fn path_view(r: Option<String>) -> Option<Seq<char>> {
    match r {
        Some(p) => Some(p@),
        None => None,
    }
}

/// A path or the reason why there is none, as a mathematical value.
pub open spec fn path_result_view(r: Result<String, PathError>) -> Result<Seq<char>, PathError> {
    match r {
        Ok(p) => Ok(p@),
        Err(e) => Err(e),
    }
}

fn same(a: &str, b: &str) -> (r: bool)
    ensures
        r == (a@ == b@),
{
    let x = String::from_str(a);
    let y = String::from_str(b);
    x == y
}

/// The folder of the first game below the documents directory.
pub fn ets2_base_path(document_dir: Option<&str>) -> (r: Option<String>)
    ensures
        path_view(r) == match document_dir {
            Some(d) => Some(joined(d@, ets2_folder())),
            None => None,
        },
{
    match document_dir {
        Some(d) => Some(join(d, "Euro Truck Simulator 2")),
        None => None,
    }
}

/// The folder of the second game below the documents directory.
pub fn ats_base_path(document_dir: Option<&str>) -> (r: Option<String>)
    ensures
        path_view(r) == match document_dir {
            Some(d) => Some(joined(d@, ats_folder())),
            None => None,
        },
{
    match document_dir {
        Some(d) => Some(join(d, "American Truck Simulator")),
        None => None,
    }
}

/// The folder of game `game` below the documents directory: that of the
/// second game for `ats`, that of the first for any other word.
pub fn get_base_path(game: &str, document_dir: Option<&str>) -> (r: Option<String>)
    ensures
        path_view(r) == match document_dir {
            Some(d) => Some(base_of(game@, d@)),
            None => None,
        },
{
    if same(game, "ats") {
        ats_base_path(document_dir)
    } else {
        ets2_base_path(document_dir)
    }
}

/// The summary file of the quicksave of the profile at `profile`.
pub open spec fn autosave_of(profile: Seq<char>) -> Seq<char> {
    joined(joined(joined(profile, "save"@), "quicksave"@), "info.sii"@)
}

/// The state file of the quicksave of the profile at `profile`.
pub open spec fn quicksave_game_of(profile: Seq<char>) -> Seq<char> {
    joined(joined(joined(profile, "save"@), "quicksave"@), "game.sii"@)
}

/// The summary file of a profile's quicksave.
pub fn autosave_path(profile_path: &str) -> (r: String)
    ensures
        r@ == autosave_of(profile_path@),
{
    let a = join(profile_path, "save");
    let b = join(a.as_str(), "quicksave");
    join(b.as_str(), "info.sii")
}

/// The state file of a profile's quicksave.
pub fn quicksave_game_path(profile_path: &str) -> (r: String)
    ensures
        r@ == quicksave_game_of(profile_path@),
{
    let a = join(profile_path, "save");
    let b = join(a.as_str(), "quicksave");
    join(b.as_str(), "game.sii")
}

/// The configuration file of a profile.
pub fn quicksave_config_path(profile_dir: &str) -> (r: String)
    ensures
        r@ == joined(profile_dir@, "config.cfg"@),
{
    join(profile_dir, "config.cfg")
}

/// The configuration file of the first game.
pub fn ets2_base_config_path(document_dir: Option<&str>) -> (r: Option<String>)
    ensures
        path_view(r) == match document_dir {
            Some(d) => Some(joined(joined(d@, ets2_folder()), "config.cfg"@)),
            None => None,
        },
{
    match ets2_base_path(document_dir) {
        Some(base) => Some(join(base.as_str(), "config.cfg")),
        None => None,
    }
}

/// The configuration file of the first game, or the reason why it is not
/// known.
pub fn base_config_path(document_dir: Option<&str>) -> (r: Result<String, PathError>)
    ensures
        path_result_view(r) == match document_dir {
            Some(d) => Ok::<Seq<char>, PathError>(
                joined(joined(d@, ets2_folder()), "config.cfg"@),
            ),
            None => Err(PathError::NoDocumentDir),
        },
{
    match ets2_base_config_path(document_dir) {
        Some(p) => Ok(p),
        None => Err(PathError::NoDocumentDir),
    }
}

/// The file `name` of the save at `save`, which is the save's folder or a
/// file in it.
pub open spec fn file_of_save(save: Seq<char>, is_file: bool, name: Seq<char>) -> Seq<char> {
    if is_file {
        joined(parent_of(save), name)
    } else {
        joined(save, name)
    }
}

/// The state file of the save at `save_path`. `is_file` tells whether
/// `save_path` names a file of the save, such as its `info.sii`, rather
/// than its folder.
pub fn game_sii_from_save(save_path: &str, is_file: bool) -> (r: String)
    ensures
        r@ == file_of_save(save_path@, is_file, "game.sii"@),
{
    if is_file {
        let dir = parent(save_path);
        join(dir.as_str(), "game.sii")
    } else {
        join(save_path, "game.sii")
    }
}

/// The summary file of the save at `save_path`.
pub fn info_sii_from_save(save_path: &str, is_file: bool) -> (r: String)
    ensures
        r@ == file_of_save(save_path@, is_file, "info.sii"@),
{
    if is_file {
        let dir = parent(save_path);
        join(dir.as_str(), "info.sii")
    } else {
        join(save_path, "info.sii")
    }
}

/// The autosave file of the active profile.
pub fn autosave_path_current(current_profile: Option<&str>) -> (r: Result<String, PathError>)
    ensures
        path_result_view(r) == match current_profile {
            Some(p) => Ok::<Seq<char>, PathError>(joined(joined(p@, "save"@), "autosave.sii"@)),
            None => Err(PathError::NoProfile),
        },
{
    match current_profile {
        Some(p) => {
            let a = join(p, "save");
            Ok(join(a.as_str(), "autosave.sii"))
        },
        None => Err(PathError::NoProfile),
    }
}

} // verus!
