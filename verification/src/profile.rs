//! The names of profiles and saves, as their files state them.

use vstd::prelude::*;
use crate::field::{find_hit, hit_at, lemma_hit_at, lemma_next_hit, match_hit, next_hit, Shape};
use crate::models::{classify_save_folder, save_kind, SaveKind};
use crate::text::{
    append, ascii_bytes, copy_range, key, lemma_run_end, line_end, line_starts, opt_view, run_end,
    scan_run, starts_with_at, ByteClass, CARRIAGE_RETURN, LINE_FEED, QUOTE,
};
use vstd::slice::slice_subrange;

verus! {

/// Why a profile was not renamed.
#[derive(Clone, Copy, PartialEq, Eq, Structural, Debug)]
pub enum ProfileError {
    /// The profile's file has no line that states its name.
    NameNotFound,
}

/// What a line starts with that states the name of a profile.
pub open spec fn kw_profile_name() -> Seq<u8> {
    ascii_bytes("profile_name:"@)
}

/// Where the text of the line that starts at `i` ends: before its line
/// feed and the carriage return in front of it, if there is one.
pub open spec fn text_end(doc: Seq<u8>, i: int) -> int {
    let e = line_end(doc, i);
    if e < doc.len() && i < e && doc[e - 1] == CARRIAGE_RETURN {
        e - 1
    } else {
        e
    }
}

/// What stands between the first double quote of `line` and the second,
/// or the end of the line.
pub open spec fn first_quoted(line: Seq<u8>) -> Option<Seq<u8>> {
    let a = run_end(line, 0, ByteClass::Not(QUOTE));
    if a >= line.len() {
        None
    } else {
        Some(line.subrange(a + 1, run_end(line, a + 1, ByteClass::Not(QUOTE))))
    }
}

/// The name that the lines from `i` on state: what the first line that
/// starts with `profile_name:` holds in quotes.
pub open spec fn profile_name_from(doc: Seq<u8>, i: int) -> Option<Seq<u8>>
    decreases doc.len() + 1 - i,
{
    if i < 0 || i >= doc.len() {
        None
    } else {
        let line = doc.subrange(i, text_end(doc, i));
        if line_starts(line, kw_profile_name()) {
            first_quoted(line)
        } else {
            proof {
                lemma_run_end(doc, i, ByteClass::Not(LINE_FEED));
            }
            profile_name_from(doc, line_end(doc, i) + 1)
        }
    }
}

fn starts_line(line: &[u8], pat: &[u8]) -> (r: bool)
    ensures
        r == line_starts(line@, pat@),
{
    let t = scan_run(line, 0, ByteClass::Space);
    starts_with_at(line, t, pat)
}

fn end_of_text(doc: &[u8], i: usize) -> (r: (usize, usize))
    requires
        i <= doc@.len(),
    ensures
        r.0 == text_end(doc@, i as int),
        r.1 == line_end(doc@, i as int),
        i <= r.0 <= r.1 <= doc@.len(),
{
    let e = scan_run(doc, i, ByteClass::Not(LINE_FEED));
    if e < doc.len() && i < e && doc[e - 1] == CARRIAGE_RETURN {
        (e - 1, e)
    } else {
        (e, e)
    }
}

/// Reads the name of a profile out of its file: what the first line that
/// starts with `profile_name:` holds in double quotes. A name without a
/// closing quote runs to the end of its line.
pub fn extract_profile_name(content: &[u8]) -> (r: Option<Vec<u8>>)
    ensures
        opt_view(r) == profile_name_from(content@, 0),
{
    let kw = key("profile_name:");
    let n = content.len();
    let mut i: usize = 0;
    while i < n
        invariant
            n == content@.len(),
            kw@ == kw_profile_name(),
            profile_name_from(content@, 0) == profile_name_from(content@, i as int),
        decreases n - i,
    {
        let (t, e) = end_of_text(content, i);
        let line = slice_subrange(content, i, t);
        if starts_line(line, kw.as_slice()) {
            let a = scan_run(line, 0, ByteClass::Not(QUOTE));
            if a >= line.len() {
                return None;
            }
            let b = scan_run(line, a + 1, ByteClass::Not(QUOTE));
            return Some(copy_range(line, a + 1, b));
        }
        if e >= n {
            assert(profile_name_from(content@, e + 1) is None);
            return None;
        }
        i = e + 1;
    }
    None
}

/// The line that states the name `name`.
pub open spec fn name_line(name: Seq<u8>) -> Seq<u8> {
    ascii_bytes(" profile_name: \""@) + name + seq![QUOTE]
}

/// A carriage return and a line feed.
pub open spec fn line_break() -> Seq<u8> {
    seq![CARRIAGE_RETURN, LINE_FEED]
}

/// The lines from `i` on, each ended by a carriage return and a line
/// feed, with every line that starts with `profile_name:` stating the
/// name `name` instead, after the text `acc`.
pub open spec fn renamed_from(doc: Seq<u8>, name: Seq<u8>, i: int, acc: Seq<u8>) -> Seq<u8>
    decreases doc.len() + 1 - i,
{
    if i < 0 || i >= doc.len() {
        acc
    } else {
        let line = doc.subrange(i, text_end(doc, i));
        let out = if line_starts(line, kw_profile_name()) {
            name_line(name)
        } else {
            line
        };
        proof {
            lemma_run_end(doc, i, ByteClass::Not(LINE_FEED));
        }
        renamed_from(doc, name, line_end(doc, i) + 1, acc + out + line_break())
    }
}

/// Whether a line from `i` on starts with `profile_name:`.
pub open spec fn names_profile_from(doc: Seq<u8>, i: int) -> bool
    decreases doc.len() + 1 - i,
{
    if i < 0 || i >= doc.len() {
        false
    } else {
        line_starts(doc.subrange(i, text_end(doc, i)), kw_profile_name()) || {
            proof {
                lemma_run_end(doc, i, ByteClass::Not(LINE_FEED));
            }
            names_profile_from(doc, line_end(doc, i) + 1)
        }
    }
}

/// The file of a profile after the profile is renamed.
pub open spec fn renamed(doc: Seq<u8>, name: Seq<u8>) -> Result<Seq<u8>, ProfileError> {
    if names_profile_from(doc, 0) {
        Ok(renamed_from(doc, name, 0, Seq::<u8>::empty()))
    } else {
        Err(ProfileError::NameNotFound)
    }
}

/// A renamed file, read as a sequence of bytes.
pub open spec fn renamed_view(r: Result<Vec<u8>, ProfileError>) -> Result<Seq<u8>, ProfileError> {
    match r {
        Ok(d) => Ok(d@),
        Err(e) => Err(e),
    }
}

/// Writes the file of a profile anew with the name `new_name`.
///
/// Every line that starts with `profile_name:` is replaced by one that
/// states the new name; every other line is kept. All lines end with a
/// carriage return and a line feed afterwards. A file without such a
/// line is not changed: that is an error.
pub fn change_profile_name_in_sii(content: &[u8], new_name: &[u8]) -> (r: Result<
    Vec<u8>,
    ProfileError,
>)
    ensures
        renamed_view(r) == renamed(content@, new_name@),
{
    let kw = key("profile_name:");
    let mut stated = key(" profile_name: \"");
    append(&mut stated, new_name);
    stated.push(QUOTE);
    let n = content.len();
    let mut out: Vec<u8> = Vec::new();
    let mut found = false;
    let mut i: usize = 0;
    while i < n
        invariant
            n == content@.len(),
            i <= n + 1,
            kw@ == kw_profile_name(),
            stated@ == name_line(new_name@),
            names_profile_from(content@, 0) == (found || names_profile_from(content@, i as int)),
            renamed_from(content@, new_name@, 0, Seq::<u8>::empty()) == renamed_from(
                content@,
                new_name@,
                i as int,
                out@,
            ),
        decreases n + 1 - i,
    {
        let (t, e) = end_of_text(content, i);
        let line = slice_subrange(content, i, t);
        let ghost before = out@;
        if starts_line(line, kw.as_slice()) {
            append(&mut out, stated.as_slice());
            found = true;
        } else {
            append(&mut out, line);
        }
        out.push(CARRIAGE_RETURN);
        out.push(LINE_FEED);
        proof {
            let piece = if line_starts(line@, kw_profile_name()) {
                name_line(new_name@)
            } else {
                line@
            };
            assert(out@ =~= before + piece + line_break());
        }
        if e >= n {
            assert(!names_profile_from(content@, e + 1));
            assert(renamed_from(content@, new_name@, e + 1, out@) == out@);
            i = n;
        } else {
            i = e + 1;
        }
    }
    if found {
        Ok(out)
    } else {
        Err(ProfileError::NameNotFound)
    }
}

/// The key of the field that states the name of a save.
pub open spec fn kw_name() -> Seq<u8> {
    ascii_bytes("name"@)
}

/// The name that a save's summary states: the value of the first field
/// `name`, without its quotes if it stands in quotes and is not empty,
/// else up to the next whitespace.
pub open spec fn save_name(content: Seq<u8>) -> Option<Seq<u8>> {
    match next_hit(content, kw_name(), false, Shape::Word, 0) {
        None => None,
        Some(h) => match hit_at(content, kw_name(), false, Shape::Quoted, h.at) {
            Some(q) => if q.value.0 < q.value.1 {
                Some(content.subrange(q.value.0, q.value.1))
            } else {
                Some(content.subrange(h.value.0, h.value.1))
            },
            None => Some(content.subrange(h.value.0, h.value.1)),
        },
    }
}

/// Reads the name of a save out of its summary.
pub fn extract_save_name(content: &[u8]) -> (r: Option<Vec<u8>>)
    ensures
        opt_view(r) == save_name(content@),
{
    let kw = key("name");
    match find_hit(content, kw.as_slice(), false, Shape::Word, 0) {
        None => None,
        Some(h) => {
            proof {
                lemma_next_hit(content@, kw@, false, Shape::Word, 0);
            }
            match match_hit(content, kw.as_slice(), false, Shape::Quoted, h.at) {
                Some(q) => {
                    proof {
                        lemma_hit_at(content@, kw@, false, Shape::Quoted, h.at as int);
                    }
                    if q.value.0 < q.value.1 {
                        Some(copy_range(content, q.value.0, q.value.1))
                    } else {
                        Some(copy_range(content, h.value.0, h.value.1))
                    }
                },
                None => Some(copy_range(content, h.value.0, h.value.1)),
            }
        },
    }
}

/// What was found where the summary of a save should be.
#[derive(Debug)]
pub enum Summary {
    /// There is no summary.
    Missing,
    /// The summary could not be read; the text says why.
    Unreadable(Vec<u8>),
    /// The text of the summary.
    Text(Vec<u8>),
}

/// A save of a profile.
#[derive(Debug)]
pub struct SaveInfo {
    pub path: Vec<u8>,
    pub folder: Vec<u8>,
    pub name: Option<Vec<u8>>,
    pub success: bool,
    pub message: Option<Vec<u8>>,
    pub kind: SaveKind,
}

/// The message for a summary that states no name.
pub open spec fn msg_no_name() -> Seq<u8> {
    ascii_bytes("Kein Save-Name gefunden"@)
}

/// The message for a save without a summary.
pub open spec fn msg_no_summary() -> Seq<u8> {
    ascii_bytes("info.sii fehlt"@)
}

/// Whether `s` describes the save in folder `folder` at `path`, given
/// what was found for its summary. A save is good where its summary
/// states a name; any other is kept in the list, marked invalid, with the
/// reason.
pub open spec fn is_save_info(s: SaveInfo, path: Seq<u8>, folder: Seq<u8>, summary: Summary) -> bool {
    &&& s.path@ == path
    &&& s.folder@ == folder
    &&& match summary {
        Summary::Text(t) => match save_name(t@) {
            Some(name) => {
                &&& opt_view(s.name) == Some(name)
                &&& s.success
                &&& s.message is None
                &&& s.kind == save_kind(folder)
            },
            None => {
                &&& s.name is None
                &&& !s.success
                &&& opt_view(s.message) == Some(msg_no_name())
                &&& s.kind == SaveKind::Invalid
            },
        },
        Summary::Unreadable(why) => {
            &&& s.name is None
            &&& !s.success
            &&& opt_view(s.message) == Some(why@)
            &&& s.kind == SaveKind::Invalid
        },
        Summary::Missing => {
            &&& s.name is None
            &&& !s.success
            &&& opt_view(s.message) == Some(msg_no_summary())
            &&& s.kind == SaveKind::Invalid
        },
    }
}

/// Describes one folder below a profile's `save` folder. A folder whose
/// name is that of no save is not a save at all: `None`.
pub fn describe_save(path: &[u8], folder: &[u8], summary: Summary) -> (r: Option<SaveInfo>)
    ensures
        save_kind(folder@) == SaveKind::Invalid ==> r is None,
        save_kind(folder@) != SaveKind::Invalid ==> r is Some && is_save_info(
            r.unwrap(),
            path@,
            folder@,
            summary,
        ),
{
    let kind = classify_save_folder(folder);
    if kind == SaveKind::Invalid {
        return None;
    }
    let p = copy_range(path, 0, path.len());
    let f = copy_range(folder, 0, folder.len());
    assert(p@ =~= path@);
    assert(f@ =~= folder@);
    let s = match summary {
        Summary::Text(t) => match extract_save_name(t.as_slice()) {
            Some(name) => SaveInfo {
                path: p,
                folder: f,
                name: Some(name),
                success: true,
                message: None,
                kind,
            },
            None => SaveInfo {
                path: p,
                folder: f,
                name: None,
                success: false,
                message: Some(key("Kein Save-Name gefunden")),
                kind: SaveKind::Invalid,
            },
        },
        Summary::Unreadable(why) => SaveInfo {
            path: p,
            folder: f,
            name: None,
            success: false,
            message: Some(why),
            kind: SaveKind::Invalid,
        },
        Summary::Missing => SaveInfo {
            path: p,
            folder: f,
            name: None,
            success: false,
            message: Some(key("info.sii fehlt")),
            kind: SaveKind::Invalid,
        },
    };
    Some(s)
}

/// A profile of a game.
#[derive(Debug)]
pub struct ProfileInfo {
    pub path: Vec<u8>,
    pub name: Option<Vec<u8>>,
    /// The picture of the profile, ready to be shown.
    pub avatar: Option<Vec<u8>>,
    pub success: bool,
    pub message: Option<Vec<u8>>,
}

/// The name that a file states, if the file is there.
pub open spec fn stated_name(file: Option<&[u8]>) -> Option<Seq<u8>> {
    match file {
        Some(text) => profile_name_from(text@, 0),
        None => None,
    }
}

/// The name of a profile: the one that its file states or, failing that,
/// the one that the backup of its file states or, failing that, the one
/// that the name of its folder spells in hex.
pub open spec fn profile_name(sii: Option<&[u8]>, bak: Option<&[u8]>, folder: Seq<u8>) -> Option<
    Seq<u8>,
> {
    match stated_name(sii) {
        Some(name) => Some(name),
        None => match stated_name(bak) {
            Some(name) => Some(name),
            None => crate::hex_float::folder_name(folder),
        },
    }
}

/// The message for a profile with a name.
pub open spec fn msg_ok() -> Seq<u8> {
    ascii_bytes("OK"@)
}

/// The message for a profile without a name.
pub open spec fn msg_no_profile_name() -> Seq<u8> {
    ascii_bytes("profile_name nicht gefunden"@)
}

/// What the base64 encoder makes of `bytes`: their text in the standard
/// alphabet, padded.
pub uninterp spec fn base64_text(bytes: Seq<u8>) -> Seq<u8>;

/// `base64::Engine::encode` of the engine `STANDARD`, with the text
/// handed back as its bytes. The text is a function of the bytes alone;
/// it is named here, not stated. The encoder panics where the text, four
/// bytes for each three, is longer than a vector can be; bytes of at most
/// a quarter of the machine's range do not reach that.
#[verifier::external_body]
fn base64_standard(bytes: &[u8]) -> (r: Vec<u8>)
    requires
        bytes@.len() <= usize::MAX / 4,
    ensures
        r@ == base64_text(bytes@),
{
    base64::Engine::encode(&base64::engine::general_purpose::STANDARD, bytes).into_bytes()
}

/// What a data URL of a picture starts with.
pub open spec fn avatar_head() -> Seq<u8> {
    ascii_bytes("data:image/png;base64,"@)
}

/// The picture `picture` as a data URL, where it is short enough to be
/// encoded.
pub open spec fn avatar_url(picture: Seq<u8>) -> Option<Seq<u8>> {
    if picture.len() <= usize::MAX / 4 {
        Some(avatar_head() + base64_text(picture))
    } else {
        None
    }
}

/// Writes the picture of a profile as a data URL: the head
/// `data:image/png;base64,` and the picture in base64. A picture of more
/// bytes than a quarter of the machine's range gives `None`; no file is
/// that long.
pub fn avatar_data_url(picture: &[u8]) -> (r: Option<Vec<u8>>)
    ensures
        opt_view(r) == avatar_url(picture@),
{
    if picture.len() > usize::MAX / 4 {
        return None;
    }
    let mut url = key("data:image/png;base64,");
    append(&mut url, base64_standard(picture).as_slice());
    Some(url)
}

fn read_stated_name(file: Option<&[u8]>) -> (r: Option<Vec<u8>>)
    ensures
        opt_view(r) == stated_name(file),
{
    match file {
        Some(text) => extract_profile_name(text),
        None => None,
    }
}

/// Describes a profile, given the text of its file and of the backup of
/// that file, as far as they are there. A profile is good where a name
/// was found for it.
pub fn describe_profile(
    path: &[u8],
    folder: &[u8],
    avatar: Option<Vec<u8>>,
    sii: Option<&[u8]>,
    bak: Option<&[u8]>,
) -> (r: ProfileInfo)
    ensures
        r.path@ == path@,
        r.avatar == avatar,
        opt_view(r.name) == profile_name(sii, bak, folder@),
        r.success == r.name is Some,
        opt_view(r.message) == Some(
            if r.name is Some {
                msg_ok()
            } else {
                msg_no_profile_name()
            },
        ),
{
    let name = match read_stated_name(sii) {
        Some(name) => Some(name),
        None => match read_stated_name(bak) {
            Some(name) => Some(name),
            None => crate::hex_float::decode_hex_folder_name(folder),
        },
    };
    let success = name.is_some();
    let message = if success {
        key("OK")
    } else {
        key("profile_name nicht gefunden")
    };
    let p = copy_range(path, 0, path.len());
    ProfileInfo { path: p, name, avatar, success, message: Some(message) }
}

} // verus!
